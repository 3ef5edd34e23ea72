//! Turning what a source returns (a feed document, or a GitHub search
//! answer) into observations.
use vstd::prelude::*;
use crate::json::{
    copy_json, json_get, json_text, json_well_formed, keys_distinct, lemma_member_well_formed,
    text_member, array_member, JsonValue, JsonView,
};
use crate::model::{ObservationDraft, SourceConfig, opt_text};
use crate::feed_scan::{feed_document_is_safe, feed_document_safe};
use crate::text::{concat2, eq_text, owned};

verus! {

/// Which adapter collects a source.
#[derive(Debug, Clone, Copy, PartialEq, Eq)]
pub enum SourceAdapter {
    /// An RSS, Atom or JSON Feed document.
    Feed,
    /// A GitHub repository search answer.
    GitHubSearch,
}

/// Why collecting a source failed before any network traffic or after it.
#[derive(Debug)]
pub enum CollectError {
    /// The source's kind has no adapter.
    UnsupportedKind { kind: String },
    /// The feed document could not be parsed.
    FeedParse,
    /// The feed document holds a play time that the parser cannot read
    /// safely (see [`feed_document_safe`]).
    UnsafeFeed,
}

impl CollectError {
    /// The message that describes this failure.
    pub fn message(&self) -> (r: String)
        ensures
            r@ == match self {
                CollectError::UnsupportedKind { kind } => "unsupported source kind: "@ + kind@,
                CollectError::FeedParse => "parse feed"@,
                CollectError::UnsafeFeed => "feed holds a play time that cannot be read safely"@,
            },
    {
        match self {
            CollectError::UnsupportedKind { kind } => concat2(
                "unsupported source kind: ",
                kind.as_str(),
            ),
            CollectError::FeedParse => owned("parse feed"),
            CollectError::UnsafeFeed => owned("feed holds a play time that cannot be read safely"),
        }
    }
}

/// The adapter for a source kind: `rss` and `json_feed` are feeds,
/// `github_search` is a GitHub search; any other kind is refused.
pub fn source_adapter(kind: &str) -> (r: Result<SourceAdapter, CollectError>)
    ensures
        match r {
            Ok(SourceAdapter::Feed) => kind@ == "rss"@ || kind@ == "json_feed"@,
            Ok(SourceAdapter::GitHubSearch) => kind@ == "github_search"@,
            Err(e) => !(kind@ == "rss"@ || kind@ == "json_feed"@ || kind@ == "github_search"@) && (
            e matches CollectError::UnsupportedKind { kind: k } && k@ == kind@),
        },
{
    if eq_text(kind, "rss") || eq_text(kind, "json_feed") {
        Ok(SourceAdapter::Feed)
    } else if eq_text(kind, "github_search") {
        Ok(SourceAdapter::GitHubSearch)
    } else {
        Err(CollectError::UnsupportedKind { kind: owned(kind) })
    }
}

// ---------------------------------------------------------------------------
// Feeds.
/// One entry of a parsed feed, as plain values.
#[derive(Debug)]
pub struct FeedEntry {
    pub title: Option<String>,
    /// The `href` of each link, in order.
    pub links: Vec<String>,
    pub summary: Option<String>,
    /// RFC 3339 time of first publication.
    pub published: Option<String>,
    /// RFC 3339 time of last update.
    pub updated: Option<String>,
}

/// The mathematical form of a [`FeedEntry`].
pub struct FeedEntryView {
    pub title: Option<Seq<char>>,
    pub links: Seq<Seq<char>>,
    pub summary: Option<Seq<char>>,
    pub published: Option<Seq<char>>,
    pub updated: Option<Seq<char>>,
}

impl View for FeedEntry {
    type V = FeedEntryView;

    open spec fn view(&self) -> FeedEntryView {
        FeedEntryView {
            title: opt_text(self.title),
            links: self.links@.map_values(|s: String| s@),
            summary: opt_text(self.summary),
            published: opt_text(self.published),
            updated: opt_text(self.updated),
        }
    }
}

/// The entries that `feed_rs::parser::parse` reads from `bytes` (title
/// text, link targets, summary text, and publication and update times in
/// RFC 3339), or `None` where it refuses the document.
pub uninterp spec fn parsed_feed(bytes: Seq<u8>) -> Option<Seq<FeedEntryView>>;

/// The views of the entries.
pub open spec fn entry_views(es: Seq<FeedEntry>) -> Seq<FeedEntryView> {
    es.map_values(|e: FeedEntry| e@)
}

/// Parses a feed document (`feed_rs::parser::parse`) and keeps, of each
/// entry, the fields the pipeline reads; `None` where the parser refuses
/// the document. Claims that the entries are those named by `parsed_feed`.
/// The parser reads play times (`parser::util::parse_npt`) by unwrapping
/// `u64` parses of their digit runs and multiplying without overflow
/// checks, so it can panic on long or non-ASCII digit runs there; the
/// `requires` admits only documents whose play times are short ASCII digit
/// runs.
#[verifier::external_body]
fn parse_feed(bytes: &[u8]) -> (r: Option<Vec<FeedEntry>>)
    requires
        feed_document_safe(bytes@),
    ensures
        match r {
            Some(es) => parsed_feed(bytes@) == Some(entry_views(es@)),
            None => parsed_feed(bytes@) is None,
        },
{
    match feed_rs::parser::parse(bytes) {
        Ok(feed) => Some(feed.entries.into_iter().map(|e| FeedEntry {
            title: e.title.map(|t| t.content),
            links: e.links.into_iter().map(|l| l.href).collect(),
            summary: e.summary.map(|t| t.content),
            published: e.published.map(|d| d.to_rfc3339()),
            updated: e.updated.map(|d| d.to_rfc3339()),
        }).collect()),
        Err(_) => None,
    }
}

/// The raw record kept with a feed observation.
pub open spec fn feed_raw(kind: Seq<char>) -> JsonView {
    JsonView::Object(seq![("source_kind"@, JsonView::Text(kind))])
}

/// The raw record of a feed observation is well-formed.
pub proof fn lemma_feed_raw_well_formed(kind: Seq<char>)
    ensures
        json_well_formed(feed_raw(kind)),
{
    if let JsonView::Object(es) = feed_raw(kind) {
        assert(keys_distinct(es));
        assert forall|i: int| 0 <= i < es.len() implies json_well_formed(#[trigger] es[i].1) by {}
    }
}

/// Whether `o` is the observation that feed entry `e` of `source` becomes:
/// titled as the entry (else `Untitled`), linked to its first link (else
/// the source URL), described by its summary, published when the entry was
/// published (else updated), in category `News`.
pub open spec fn is_feed_observation(o: ObservationDraft, source: SourceConfig, e: FeedEntryView) -> bool {
    &&& o.source_id@ == source.id@
    &&& o.title@ == match e.title {
        Some(t) => t,
        None => "Untitled"@,
    }
    &&& o.url@ == if e.links.len() > 0 {
        e.links[0]
    } else {
        source.url@
    }
    &&& opt_text(o.description) == e.summary
    &&& opt_text(o.published_at) == match e.published {
        Some(p) => Some(p),
        None => e.updated,
    }
    &&& opt_text(o.category) == Some("News"@)
    &&& o.raw@ == feed_raw(source.kind@)
}

fn opt_copy(o: &Option<String>) -> (r: Option<String>)
    ensures
        opt_text(r) == opt_text(*o),
{
    match o {
        Some(s) => Some(s.clone()),
        None => None,
    }
}

fn feed_observation(source: &SourceConfig, e: &FeedEntry) -> (o: ObservationDraft)
    ensures
        is_feed_observation(o, *source, e@),
{
    let url = if e.links.len() > 0 {
        e.links[0].clone()
    } else {
        source.url.clone()
    };
    let title = match &e.title {
        Some(t) => t.clone(),
        None => owned("Untitled"),
    };
    let published_at = match &e.published {
        Some(p) => Some(p.clone()),
        None => opt_copy(&e.updated),
    };
    let mut raw_entries: Vec<(String, JsonValue)> = Vec::new();
    raw_entries.push((owned("source_kind"), JsonValue::Text(source.kind.clone())));
    let raw = JsonValue::Object(raw_entries);
    proof {
        let ev = crate::json::entries_view(raw_entries@);
        assert(ev =~= seq![("source_kind"@, JsonView::Text(source.kind@))]);
        assert(raw@ =~= feed_raw(source.kind@));
    }
    ObservationDraft {
        source_id: source.id.clone(),
        title,
        url,
        description: opt_copy(&e.summary),
        published_at,
        category: Some(owned("News")),
        raw,
    }
}

/// How many items a source keeps out of `n`: at most its `max_items`.
pub open spec fn kept_count(n: nat, max_items: usize) -> nat {
    if n < max_items {
        n
    } else {
        max_items as nat
    }
}

/// The observations that the first `max_items` entries of a feed become,
/// in feed order.
pub fn observations_from_feed(source: &SourceConfig, entries: &[FeedEntry]) -> (r: Vec<ObservationDraft>)
    ensures
        r@.len() == kept_count(entries@.len(), source.max_items),
        forall|i: int|
            0 <= i < r@.len() ==> is_feed_observation(#[trigger] r@[i], *source, entries@[i]@),
{
    let mut out: Vec<ObservationDraft> = Vec::new();
    let mut i: usize = 0;
    while i < entries.len() && i < source.max_items
        invariant
            i <= entries@.len(),
            i <= source.max_items,
            out@.len() == i,
            forall|k: int| 0 <= k < i ==> is_feed_observation(#[trigger] out@[k], *source, entries@[k]@),
        decreases entries@.len() - i,
    {
        let o = feed_observation(source, &entries[i]);
        out.push(o);
        i = i + 1;
    }
    out
}

/// The observations of a feed source whose document is `bytes`: refused
/// when a play time in it cannot be read safely or the document does not
/// parse, else those of its first `max_items` entries.
pub fn collect_feed(source: &SourceConfig, bytes: &[u8]) -> (r: Result<Vec<ObservationDraft>, CollectError>)
    ensures
        match r {
            Ok(obs) => feed_document_safe(bytes@) && (parsed_feed(bytes@) matches Some(es)
                && obs@.len() == kept_count(es.len(), source.max_items) && forall|i: int|
                0 <= i < obs@.len() ==> is_feed_observation(#[trigger] obs@[i], *source, es[i])),
            Err(CollectError::UnsafeFeed) => !feed_document_safe(bytes@),
            Err(CollectError::FeedParse) => feed_document_safe(bytes@) && parsed_feed(bytes@) is None,
            Err(CollectError::UnsupportedKind { .. }) => false,
        },
{
    if !feed_document_is_safe(bytes) {
        return Err(CollectError::UnsafeFeed);
    }
    match parse_feed(bytes) {
        Some(entries) => {
            let obs = observations_from_feed(source, entries.as_slice());
            proof {
                assert forall|i: int| 0 <= i < obs@.len() implies is_feed_observation(
                    #[trigger] obs@[i],
                    *source,
                    entry_views(entries@)[i],
                ) by {
                    assert(entry_views(entries@)[i] == entries@[i]@);
                }
            }
            Ok(obs)
        },
        None => Err(CollectError::FeedParse),
    }
}

// ---------------------------------------------------------------------------
// GitHub search.
/// Member `key` of `v`, or `null` when it has none.
pub open spec fn member_or_null(v: JsonView, key: Seq<char>) -> JsonView {
    match json_get(v, key) {
        Some(m) => m,
        None => JsonView::Null,
    }
}

/// The title of a repository: its `full_name` when present (which must be
/// a string), else its `name`.
pub open spec fn repo_title(item: JsonView) -> Option<Seq<char>> {
    match json_get(item, "full_name"@) {
        Some(m) => json_text(m),
        None => text_member(item, "name"@),
    }
}

/// Whether a repository entry yields an observation: it has a title and a
/// string `html_url`.
pub open spec fn repo_usable(item: JsonView) -> bool {
    repo_title(item) is Some && text_member(item, "html_url"@) is Some
}

/// The raw record kept with a repository observation.
pub open spec fn repo_raw(item: JsonView, kind: Seq<char>) -> JsonView {
    JsonView::Object(
        seq![
            ("stars"@, member_or_null(item, "stargazers_count"@)),
            ("language"@, member_or_null(item, "language"@)),
            ("source_kind"@, JsonView::Text(kind)),
        ],
    )
}

/// The raw record of a repository observation made from a well-formed
/// entry is well-formed.
pub proof fn lemma_repo_raw_well_formed(item: JsonView, kind: Seq<char>)
    requires
        json_well_formed(item),
    ensures
        json_well_formed(repo_raw(item, kind)),
{
    reveal_strlit("stars");
    reveal_strlit("language");
    reveal_strlit("source_kind");
    lemma_member_well_formed(item, "stargazers_count"@);
    lemma_member_well_formed(item, "language"@);
    if let JsonView::Object(es) = repo_raw(item, kind) {
        assert forall|i: int, j: int| 0 <= i < j < es.len() implies es[i].0 != es[j].0 by {
            assert(es[i].0.len() != es[j].0.len());
        }
        assert(keys_distinct(es));
        assert forall|i: int| 0 <= i < es.len() implies json_well_formed(#[trigger] es[i].1) by {}
    }
}

/// Whether `o` is the observation that repository entry `item` of `source`
/// becomes, in category `Open Source`.
pub open spec fn is_repo_observation(o: ObservationDraft, source: SourceConfig, item: JsonView) -> bool {
    &&& o.source_id@ == source.id@
    &&& Some(o.title@) == repo_title(item)
    &&& Some(o.url@) == text_member(item, "html_url"@)
    &&& opt_text(o.description) == text_member(item, "description"@)
    &&& opt_text(o.published_at) == text_member(item, "updated_at"@)
    &&& opt_text(o.category) == Some("Open Source"@)
    &&& o.raw@ == repo_raw(item, source.kind@)
}

/// The usable repository entries among `items`, in order.
pub open spec fn usable_repos(items: Seq<JsonView>) -> Seq<JsonView>
    decreases items.len(),
{
    if items.len() == 0 {
        seq![]
    } else {
        let init = usable_repos(items.drop_last());
        if repo_usable(items.last()) {
            init.push(items.last())
        } else {
            init
        }
    }
}

fn text_copy(o: Option<&String>) -> (r: Option<String>)
    ensures
        match o {
            Some(s) => r matches Some(t) && t@ == s@,
            None => r is None,
        },
{
    match o {
        Some(s) => Some(s.clone()),
        None => None,
    }
}

fn member_copy(item: &JsonValue, key: &str) -> (r: JsonValue)
    ensures
        r@ == member_or_null(item@, key@),
{
    match item.get(key) {
        Some(m) => copy_json(m),
        None => JsonValue::Null,
    }
}

fn repo_observation(source: &SourceConfig, item: &JsonValue) -> (r: Option<ObservationDraft>)
    ensures
        match r {
            Some(o) => repo_usable(item@) && is_repo_observation(o, *source, item@),
            None => !repo_usable(item@),
        },
{
    let title = match item.get("full_name") {
        Some(m) => m.as_text(),
        None => item.text_member("name"),
    };
    let title = match title {
        Some(t) => t.clone(),
        None => {
            return None;
        },
    };
    let url = match item.text_member("html_url") {
        Some(u) => u.clone(),
        None => {
            return None;
        },
    };
    let description = text_copy(item.text_member("description"));
    let updated = text_copy(item.text_member("updated_at"));
    let mut raw_entries: Vec<(String, JsonValue)> = Vec::new();
    raw_entries.push((owned("stars"), member_copy(item, "stargazers_count")));
    raw_entries.push((owned("language"), member_copy(item, "language")));
    raw_entries.push((owned("source_kind"), JsonValue::Text(source.kind.clone())));
    let raw = JsonValue::Object(raw_entries);
    proof {
        let ev = crate::json::entries_view(raw_entries@);
        assert(ev =~= seq![
            ("stars"@, member_or_null(item@, "stargazers_count"@)),
            ("language"@, member_or_null(item@, "language"@)),
            ("source_kind"@, JsonView::Text(source.kind@)),
        ]);
        assert(raw@ =~= repo_raw(item@, source.kind@));
    }
    Some(
        ObservationDraft {
            source_id: source.id.clone(),
            title,
            url,
            description,
            published_at: updated,
            category: Some(owned("Open Source")),
            raw,
        },
    )
}

/// The observations of a GitHub search answer: of the first `max_items`
/// entries of its `items` array (no entries when it has none), those with a
/// title and a link, in order.
pub fn observations_from_github(source: &SourceConfig, answer: &JsonValue) -> (r: Vec<ObservationDraft>)
    ensures
        ({
            let items = array_member(answer@, "items"@);
            let usable = usable_repos(items.take(kept_count(items.len(), source.max_items) as int));
            &&& r@.len() == usable.len()
            &&& forall|i: int|
                0 <= i < r@.len() ==> is_repo_observation(#[trigger] r@[i], *source, usable[i])
        }),
{
    let mut out: Vec<ObservationDraft> = Vec::new();
    let items_value = answer.get("items");
    let items: &[JsonValue] = match items_value {
        Some(v) => match v.as_array() {
            Some(a) => a.as_slice(),
            None => &[],
        },
        None => &[],
    };
    let ghost all = crate::json::items_view(items@);
    proof {
        assert(all == array_member(answer@, "items"@));
    }
    let mut i: usize = 0;
    while i < items.len() && i < source.max_items
        invariant
            all == crate::json::items_view(items@),
            i <= items@.len(),
            i <= source.max_items,
            out@.len() == usable_repos(all.take(i as int)).len(),
            forall|k: int|
                0 <= k < out@.len() ==> is_repo_observation(
                    #[trigger] out@[k],
                    *source,
                    usable_repos(all.take(i as int))[k],
                ),
        decreases items@.len() - i,
    {
        let ghost before = out@;
        proof {
            assert(all.take(i + 1).drop_last() == all.take(i as int));
            assert(all.take(i + 1).last() == items@[i as int]@);
        }
        match repo_observation(source, &items[i]) {
            Some(o) => {
                out.push(o);
            },
            None => {},
        }
        i = i + 1;
    }
    proof {
        let n = kept_count(all.len(), source.max_items);
        assert(i == n);
    }
    out
}

/// What a feed entry becomes: the observation is published at the entry's
/// publication time when it has one and otherwise at its update time; it
/// is titled as the entry, else `Untitled`; it links to the entry's first
/// link, else to the source; it is described by the entry's summary, filed
/// under `News`, and credited to the source.
pub proof fn lemma_feed_observation_fields(o: ObservationDraft, source: SourceConfig, e: FeedEntryView)
    requires
        is_feed_observation(o, source, e),
    ensures
        e.published matches Some(p) ==> opt_text(o.published_at) == Some(p),
        e.published is None ==> opt_text(o.published_at) == e.updated,
        e.published is None && e.updated is None ==> o.published_at is None,
        e.title matches Some(t) ==> o.title@ == t,
        e.title is None ==> o.title@ == "Untitled"@,
        e.links.len() > 0 ==> o.url@ == e.links[0],
        e.links.len() == 0 ==> o.url@ == source.url@,
        opt_text(o.description) == e.summary,
        opt_text(o.category) == Some("News"@),
        o.source_id@ == source.id@,
{
}

/// What a repository entry becomes: titled by its `full_name` (else its
/// `name`), linked to its `html_url`, described by its `description`,
/// published at its `updated_at`, filed under `Open Source`, and credited
/// to the source.
pub proof fn lemma_repo_observation_fields(o: ObservationDraft, source: SourceConfig, item: JsonView)
    requires
        is_repo_observation(o, source, item),
    ensures
        json_get(item, "full_name"@) matches Some(m) ==> json_text(m) == Some(o.title@),
        json_get(item, "full_name"@) is None ==> text_member(item, "name"@) == Some(o.title@),
        text_member(item, "html_url"@) == Some(o.url@),
        opt_text(o.description) == text_member(item, "description"@),
        opt_text(o.published_at) == text_member(item, "updated_at"@),
        opt_text(o.category) == Some("Open Source"@),
        o.source_id@ == source.id@,
{
}

} // verus!
