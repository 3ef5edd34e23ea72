//! The decisions and records behind the local store: importing archived
//! items, ingesting observations, reading items back for an issue, and
//! summing an issue up.
use vstd::prelude::*;
use crate::ids::{stable_id, stable_id_of, str_texts};
use crate::json::{
    array_member, copy_json, json_get, json_well_formed, keys_distinct, lemma_member_well_formed,
    text_member, JsonValue, JsonView,
};
use crate::links::{canonical_url, is_public_http, require_public_http_url, PublicUrlError};
use crate::model::{
    BoardConfig, ItemDraft, ObservationDraft, PublicItem, PublicIssue, PublicSourceHealth,
    PublicTotals, opt_text, texts,
};
use crate::normalize::{is_normalized, normalize_observation};
use crate::scoring::{to_lowercase, unicode_lower};
use crate::text::{
    chars_of, concat2, eq_text, lemma_strip_tags_plain, no_angle_brackets, owned, strip_html, strip_tags,
    public_text, public_text_of, push_chars,
    push_str, starts_with_chars, starts_with_seq, string_of, trim_chars, trim_ws,
};

verus! {

broadcast use vstd::string::group_string_axioms;

/// The outcome of collecting one source during a run.
#[derive(Debug)]
pub struct SourceRunResultDraft<'a> {
    pub run_id: &'a str,
    pub board_id: &'a str,
    pub run_date: &'a str,
    pub source_id: &'a str,
    pub status: &'a str,
    pub count: usize,
    pub reason: &'a str,
}

// ---------------------------------------------------------------------------
// Importing an archive of daily reports.
/// The days listed by an archive index: its `days` array, else none.
pub fn archive_days(index: &JsonValue) -> (r: &[JsonValue])
    ensures
        crate::json::items_view(r@) == array_member(index@, "days"@),
{
    match index.get("days") {
        Some(v) => match v.as_array() {
            Some(a) => a.as_slice(),
            None => &[],
        },
        None => &[],
    }
}

/// The date of an archived day: its `date` string, else `unknown`.
pub fn archive_day_date(day: &JsonValue) -> (r: String)
    ensures
        r@ == match text_member(day@, "date"@) {
            Some(d) => d,
            None => "unknown"@,
        },
{
    match day.text_member("date") {
        Some(d) => d.clone(),
        None => owned("unknown"),
    }
}

/// The items of an archived day: its `allItems` array, else none.
pub fn archive_day_items(day: &JsonValue) -> (r: &[JsonValue])
    ensures
        crate::json::items_view(r@) == array_member(day@, "allItems"@),
{
    match day.get("allItems") {
        Some(v) => match v.as_array() {
            Some(a) => a.as_slice(),
            None => &[],
        },
        None => &[],
    }
}

/// Member `key` of `v`, or `null` when it has none.
pub open spec fn member_or_null(v: JsonView, key: Seq<char>) -> JsonView {
    match json_get(v, key) {
        Some(m) => m,
        None => JsonView::Null,
    }
}

/// The part of an archived item kept as its raw record: its `metric`,
/// `rankScore`, `relevance` and `evidence` members (`null` where absent).
pub open spec fn raw_subset_of(item: JsonView) -> JsonView {
    JsonView::Object(
        seq![
            ("metric"@, member_or_null(item, "metric"@)),
            ("rankScore"@, member_or_null(item, "rankScore"@)),
            ("relevance"@, member_or_null(item, "relevance"@)),
            ("evidence"@, member_or_null(item, "evidence"@)),
        ],
    )
}

fn member_copy(item: &JsonValue, key: &str) -> (r: JsonValue)
    ensures
        r@ == member_or_null(item@, key@),
{
    match item.get(key) {
        Some(m) => copy_json(m),
        None => JsonValue::Null,
    }
}

/// The raw record kept for an archived item (see [`raw_subset_of`]).
pub fn public_raw_subset(item: &JsonValue) -> (r: JsonValue)
    ensures
        r@ == raw_subset_of(item@),
        json_well_formed(item@) ==> json_well_formed(r@),
{
    proof {
        if json_well_formed(item@) {
            lemma_raw_subset_well_formed(item@);
        }
    }
    let mut es: Vec<(String, JsonValue)> = Vec::new();
    es.push((owned("metric"), member_copy(item, "metric")));
    es.push((owned("rankScore"), member_copy(item, "rankScore")));
    es.push((owned("relevance"), member_copy(item, "relevance")));
    es.push((owned("evidence"), member_copy(item, "evidence")));
    let r = JsonValue::Object(es);
    proof {
        let ev = crate::json::entries_view(es@);
        assert(ev =~= seq![
            ("metric"@, member_or_null(item@, "metric"@)),
            ("rankScore"@, member_or_null(item@, "rankScore"@)),
            ("relevance"@, member_or_null(item@, "relevance"@)),
            ("evidence"@, member_or_null(item@, "evidence"@)),
        ]);
        assert(r@ =~= raw_subset_of(item@));
    }
    r
}

/// The raw record kept for a well-formed archived item is well-formed.
pub proof fn lemma_raw_subset_well_formed(item: JsonView)
    requires
        json_well_formed(item),
    ensures
        json_well_formed(raw_subset_of(item)),
{
    reveal_strlit("metric");
    reveal_strlit("rankScore");
    reveal_strlit("relevance");
    reveal_strlit("evidence");
    lemma_member_well_formed(item, "metric"@);
    lemma_member_well_formed(item, "rankScore"@);
    lemma_member_well_formed(item, "relevance"@);
    lemma_member_well_formed(item, "evidence"@);
    let es = seq![
        ("metric"@, member_or_null(item, "metric"@)),
        ("rankScore"@, member_or_null(item, "rankScore"@)),
        ("relevance"@, member_or_null(item, "relevance"@)),
        ("evidence"@, member_or_null(item, "evidence"@)),
    ];
    assert forall|i: int, j: int| 0 <= i < j < es.len() implies es[i].0 != es[j].0 by {
        if i == 1 && j == 2 {
            assert(es[i].0[1] != es[j].0[1]);
        } else {
            assert(es[i].0.len() != es[j].0.len());
        }
    }
    assert(keys_distinct(es));
    assert forall|i: int| 0 <= i < es.len() implies json_well_formed(#[trigger] es[i].1) by {}
}

/// Whether `c` is an ASCII letter or digit.
pub open spec fn is_ascii_alnum(c: char) -> bool {
    ('0' <= c && c <= '9') || ('a' <= c && c <= 'z') || ('A' <= c && c <= 'Z')
}

/// The source id given to imported items of source `name`: `imported-`
/// and the lower-cased name with every character other than an ASCII
/// letter or digit replaced by `-`.
pub open spec fn imported_source_id(name: Seq<char>) -> Seq<char> {
    "imported-"@ + unicode_lower(name).map_values(
        |c: char|
            if is_ascii_alnum(c) {
                c
            } else {
                '-'
            },
    )
}

fn import_source_id(name: &str) -> (r: String)
    ensures
        r@ == imported_source_id(name@),
{
    let lower = to_lowercase(name);
    let lc = chars_of(lower.as_str());
    let mut slug: Vec<char> = Vec::new();
    let mut i: usize = 0;
    while i < lc.len()
        invariant
            i <= lc@.len(),
            slug@ == lc@.take(i as int).map_values(
                |c: char|
                    if is_ascii_alnum(c) {
                        c
                    } else {
                        '-'
                    },
            ),
        decreases lc@.len() - i,
    {
        let c = lc[i];
        let ok = ('0' <= c && c <= '9') || ('a' <= c && c <= 'z') || ('A' <= c && c <= 'Z');
        if ok {
            slug.push(c);
        } else {
            slug.push('-');
        }
        proof {
            assert(lc@.take(i + 1) == lc@.take(i as int).push(c));
        }
        i = i + 1;
    }
    proof {
        assert(lc@.take(lc@.len() as int) == lc@);
    }
    let mut r = owned("imported-");
    push_chars(&mut r, slug.as_slice());
    r
}

/// An archived item ready to ingest, with the display name of its source.
#[derive(Debug)]
pub struct ImportedObservation {
    pub observation: ObservationDraft,
    pub source_name: String,
}

/// The text of member `key`, or empty when it is absent or not a string.
pub open spec fn text_or_blank(v: JsonView, key: Seq<char>) -> Seq<char> {
    match text_member(v, key) {
        Some(s) => s,
        None => Seq::empty(),
    }
}

/// Whether an archived item is imported: it has a non-empty `url` and a
/// non-empty `title`.
pub open spec fn is_importable(item: JsonView) -> bool {
    text_or_blank(item, "url"@).len() > 0 && text_or_blank(item, "title"@).len() > 0
}

/// The source name of an archived item: its `source`, else `Imported`.
pub open spec fn archived_source(item: JsonView) -> Seq<char> {
    match text_member(item, "source"@) {
        Some(s) => s,
        None => "Imported"@,
    }
}

/// The publication time of an archived item of day `date`: its
/// `updatedAt` when non-empty, else midnight UTC of that day.
pub open spec fn archived_published_at(item: JsonView, date: Seq<char>) -> Seq<char> {
    match text_member(item, "updatedAt"@) {
        Some(u) => if u.len() > 0 {
            u
        } else {
            date + "T00:00:00Z"@
        },
        None => date + "T00:00:00Z"@,
    }
}

/// Whether `o` is the observation that importable archived `item` of day
/// `date` becomes.
pub open spec fn is_imported_observation(o: ObservationDraft, item: JsonView, date: Seq<char>) -> bool {
    &&& o.source_id@ == imported_source_id(archived_source(item))
    &&& o.title@ == text_or_blank(item, "title"@)
    &&& o.url@ == text_or_blank(item, "url"@)
    &&& opt_text(o.description) == match text_member(item, "description"@) {
        Some(d) => Some(public_text_of(d)),
        None => None,
    }
    &&& opt_text(o.published_at) == Some(archived_published_at(item, date))
    &&& opt_text(o.category) == text_member(item, "category"@)
    &&& o.raw@ == raw_subset_of(item)
}

/// What an archived item of day `date` becomes: nothing when it lacks a
/// URL or title, else an observation of an imported source.
pub fn import_observation(item: &JsonValue, date: &str) -> (r: Option<ImportedObservation>)
    ensures
        match r {
            Some(imp) => is_importable(item@) && is_imported_observation(imp.observation, item@, date@)
                && imp.source_name@ == archived_source(item@),
            None => !is_importable(item@),
        },
{
    let url = match item.text_member("url") {
        Some(u) => u.clone(),
        None => String::new(),
    };
    let title = match item.text_member("title") {
        Some(t) => t.clone(),
        None => String::new(),
    };
    if url.as_str().is_empty() || title.as_str().is_empty() {
        return None;
    }
    let source = match item.text_member("source") {
        Some(s) => s.clone(),
        None => owned("Imported"),
    };
    let source_id = import_source_id(source.as_str());
    let description = match item.text_member("description") {
        Some(d) => Some(public_text(d.as_str())),
        None => None,
    };
    let published_at = match item.text_member("updatedAt") {
        Some(u) if !u.as_str().is_empty() => u.clone(),
        _ => concat2(date, "T00:00:00Z"),
    };
    let category = match item.text_member("category") {
        Some(c) => Some(c.clone()),
        None => None,
    };
    Some(
        ImportedObservation {
            observation: ObservationDraft {
                source_id,
                title,
                url,
                description,
                published_at: Some(published_at),
                category,
                raw: public_raw_subset(item),
            },
            source_name: source,
        },
    )
}

// ---------------------------------------------------------------------------
// Ingesting an observation.
/// The records one observation produces when it is ingested.
#[derive(Debug)]
pub struct IngestPlan {
    /// The observation's canonical link.
    pub canonical_url: String,
    /// The observation's identifier within its run date.
    pub observation_id: String,
    /// The item the observation becomes.
    pub item: ItemDraft,
    /// The item's identifier: one per board and canonical link.
    pub item_id: String,
}

/// The identifier of an observation: board, run date, source, canonical
/// link and title.
pub open spec fn observation_id_of(
    board_id: Seq<char>,
    run_date: Seq<char>,
    source_id: Seq<char>,
    canonical: Seq<char>,
    title: Seq<char>,
) -> Seq<char> {
    stable_id_of(seq![board_id, run_date, source_id, canonical, title])
}

/// The identifier of an item: board and canonical link.
pub open spec fn item_id_of(board_id: Seq<char>, canonical: Seq<char>) -> Seq<char> {
    stable_id_of(seq![board_id, canonical])
}

/// Whether `p` is the plan for ingesting `observation` on `board` in a run
/// dated `run_date` at time `now`: its link is the observation's canonical
/// link, which is an `http`/`https` URL; its identifiers are those of that
/// link; and its item is the normalized observation.
pub open spec fn is_ingest_plan(
    p: IngestPlan,
    board: BoardConfig,
    run_date: Seq<char>,
    now: Seq<char>,
    observation: ObservationDraft,
) -> bool {
    &&& is_public_http(canonical_url(observation.url@))
    &&& p.canonical_url@ == canonical_url(observation.url@)
    &&& p.observation_id@ == observation_id_of(
        board.id@,
        run_date,
        observation.source_id@,
        p.canonical_url@,
        observation.title@,
    )
    &&& is_normalized(p.item, board, observation, now)
    &&& p.item_id@ == item_id_of(board.id@, p.canonical_url@)
}

/// Plans the ingestion of `observation` on `board` for a run dated
/// `run_date`, at time `now`; refused when its canonical link is not an
/// `http`/`https` URL.
pub fn plan_ingest(board: &BoardConfig, run_date: &str, now: &str, observation: &ObservationDraft) -> (r: Result<IngestPlan, PublicUrlError>)
    ensures
        match r {
            Ok(p) => is_ingest_plan(p, *board, run_date@, now@, *observation),
            Err(e) => e.input@ == observation.url@ && !is_public_http(canonical_url(observation.url@)),
        },
{
    let canonical = match require_public_http_url(observation.url.as_str()) {
        Ok(c) => c,
        Err(e) => {
            return Err(e);
        },
    };
    let observation_id = {
        let parts: [&str; 5] = [
            board.id.as_str(),
            run_date,
            observation.source_id.as_str(),
            canonical.as_str(),
            observation.title.as_str(),
        ];
        let id = stable_id(&parts);
        proof {
            assert(str_texts(parts@) =~= seq![
                board.id@,
                run_date@,
                observation.source_id@,
                canonical@,
                observation.title@,
            ]);
        }
        id
    };
    let item = normalize_observation(board, observation, now);
    let item_id = {
        let parts: [&str; 2] = [item.board_id.as_str(), item.canonical_url.as_str()];
        let id = stable_id(&parts);
        proof {
            assert(str_texts(parts@) =~= seq![item.board_id@, item.canonical_url@]);
        }
        id
    };
    Ok(IngestPlan { canonical_url: canonical, observation_id, item, item_id })
}

/// Observations on one board whose links have the same canonical form
/// become one item: their plans name the same item, whatever their source,
/// title, run date or time.
pub proof fn lemma_same_link_same_item(
    board: BoardConfig,
    first: ObservationDraft,
    first_date: Seq<char>,
    first_now: Seq<char>,
    first_plan: IngestPlan,
    second: ObservationDraft,
    second_date: Seq<char>,
    second_now: Seq<char>,
    second_plan: IngestPlan,
)
    requires
        is_ingest_plan(first_plan, board, first_date, first_now, first),
        is_ingest_plan(second_plan, board, second_date, second_now, second),
        canonical_url(first.url@) == canonical_url(second.url@),
    ensures
        first_plan.item_id@ == second_plan.item_id@,
        first_plan.item.canonical_url@ == second_plan.item.canonical_url@,
        first_plan.item.board_id@ == second_plan.item.board_id@,
{
}

/// Ingesting the same observation again in a run of the same date records
/// the same observation of the same item, whatever the time: re-importing
/// finds the observation already recorded.
pub proof fn lemma_reingest_same_records(
    board: BoardConfig,
    observation: ObservationDraft,
    run_date: Seq<char>,
    first_now: Seq<char>,
    first_plan: IngestPlan,
    second_now: Seq<char>,
    second_plan: IngestPlan,
)
    requires
        is_ingest_plan(first_plan, board, run_date, first_now, observation),
        is_ingest_plan(second_plan, board, run_date, second_now, observation),
    ensures
        first_plan.observation_id@ == second_plan.observation_id@,
        first_plan.item_id@ == second_plan.item_id@,
        first_plan.canonical_url@ == second_plan.canonical_url@,
{
}

/// What ingesting does to the item row of an observation's link.
#[derive(Debug, Clone, Copy, PartialEq, Eq)]
pub enum ItemWrite {
    /// The item is new: insert it, seen once.
    Insert,
    /// The item exists and the observation is new: record it as seen
    /// again, one more duplicate.
    MarkSeenAgain,
    /// The item exists and the observation was already recorded: leave
    /// the item as it is.
    Keep,
}

/// The write to the item row, given whether the item exists and how many
/// observation rows the ingestion inserted: a new item is inserted; an
/// existing one is marked seen again when the observation is new, and kept
/// as it is otherwise.
pub open spec fn item_write_of(item_exists: bool, inserted_observations: nat) -> ItemWrite {
    if !item_exists {
        ItemWrite::Insert
    } else if inserted_observations > 0 {
        ItemWrite::MarkSeenAgain
    } else {
        ItemWrite::Keep
    }
}

/// The write to the item row (see [`item_write_of`]).
pub fn item_write_for(item_exists: bool, inserted_observations: usize) -> (r: ItemWrite)
    ensures
        r == item_write_of(item_exists, inserted_observations as nat),
{
    if item_exists && inserted_observations > 0 {
        ItemWrite::MarkSeenAgain
    } else if !item_exists {
        ItemWrite::Insert
    } else {
        ItemWrite::Keep
    }
}

/// The duplicate count of an item after a write: 1 when inserted, one more
/// when seen again, unchanged when kept.
pub open spec fn duplicates_after(write: ItemWrite, before: int) -> int {
    match write {
        ItemWrite::Insert => 1,
        ItemWrite::MarkSeenAgain => before + 1,
        ItemWrite::Keep => before,
    }
}

/// Ingesting an observation that was already recorded (no observation row
/// inserted) leaves an existing item's duplicate count unchanged, a new
/// observation of an existing item adds exactly one, and a new item starts
/// at one: the count is the number of distinct observations of the item.
pub proof fn lemma_duplicate_count_follows_observations(before: int, inserted_observations: nat)
    ensures
        duplicates_after(item_write_of(true, 0), before) == before,
        inserted_observations > 0 ==> duplicates_after(
            item_write_of(true, inserted_observations),
            before,
        ) == before + 1,
        duplicates_after(item_write_of(false, inserted_observations), before) == 1,
{
}

/// The name a source is shown under: its registered name, else its id.
pub fn source_display_name(registered: Option<String>, source_id: &str) -> (r: String)
    ensures
        r@ == match registered {
            Some(n) => n@,
            None => source_id@,
        },
{
    match registered {
        Some(n) => n,
        None => owned(source_id),
    }
}

// ---------------------------------------------------------------------------
// Reading items back.
/// The comma-separated fields of `s` (at least one, possibly empty).
pub open spec fn comma_fields(s: Seq<char>) -> Seq<Seq<char>>
    decreases s.len(),
{
    if s.len() == 0 {
        seq![seq![]]
    } else {
        let f = comma_fields(s.drop_last());
        if s.last() == ',' {
            f.push(seq![])
        } else {
            f.update(f.len() - 1, f.last().push(s.last()))
        }
    }
}

/// The fields, trimmed, without the empty ones.
pub open spec fn nonblank_trimmed(fields: Seq<Seq<char>>) -> Seq<Seq<char>>
    decreases fields.len(),
{
    if fields.len() == 0 {
        seq![]
    } else {
        let init = nonblank_trimmed(fields.drop_last());
        let t = trim_ws(fields.last());
        if t.len() > 0 {
            init.push(t)
        } else {
            init
        }
    }
}

/// The source names listed in `names`: comma-separated, trimmed, without
/// empty ones.
pub open spec fn source_list(names: Seq<char>) -> Seq<Seq<char>> {
    nonblank_trimmed(comma_fields(names))
}

proof fn lemma_comma_fields_nonempty(s: Seq<char>)
    ensures
        comma_fields(s).len() > 0,
    decreases s.len(),
{
    if s.len() > 0 {
        lemma_comma_fields_nonempty(s.drop_last());
    }
}

/// The source names in a comma-separated list (see [`source_list`]).
pub fn split_source_names(names: &str) -> (r: Vec<String>)
    ensures
        texts(r@) == source_list(names@),
{
    let cs = chars_of(names);
    let mut out: Vec<String> = Vec::new();
    let mut cur: Vec<char> = Vec::new();
    let mut i: usize = 0;
    while i < cs.len()
        invariant
            cs@ == names@,
            i <= cs@.len(),
            comma_fields(cs@.take(i as int)).len() > 0,
            cur@ == comma_fields(cs@.take(i as int)).last(),
            texts(out@) == nonblank_trimmed(comma_fields(cs@.take(i as int)).drop_last()),
        decreases cs@.len() - i,
    {
        let c = cs[i];
        let ghost p = cs@.take(i as int);
        proof {
            assert(cs@.take(i + 1).drop_last() == p);
            assert(cs@.take(i + 1).last() == c);
            lemma_comma_fields_nonempty(p);
        }
        if c == ',' {
            let t = trim_chars(cur.as_slice());
            let ghost f = comma_fields(p);
            proof {
                assert(f.push(seq![]).drop_last() == f);
                assert(f.drop_last().push(f.last()) == f);
            }
            if t.len() > 0 {
                let s = string_of(t.as_slice());
                out.push(s);
            }
            cur = Vec::new();
        } else {
            cur.push(c);
            proof {
                let f = comma_fields(p);
                let g = f.update(f.len() - 1, f.last().push(c));
                assert(g.drop_last() == f.drop_last());
            }
        }
        i = i + 1;
    }
    let ghost all = comma_fields(cs@);
    proof {
        assert(cs@.take(cs@.len() as int) == cs@);
        assert(all.drop_last().push(all.last()) == all);
    }
    let t = trim_chars(cur.as_slice());
    if t.len() > 0 {
        let s = string_of(t.as_slice());
        out.push(s);
    }
    out
}

/// An item row as read back for an issue.
#[derive(Debug)]
pub struct ItemRow {
    pub id: String,
    pub board_id: String,
    pub title: String,
    pub url: String,
    /// The names of the item's sources, comma-separated.
    pub source_names: String,
    pub category: String,
    pub description: String,
    pub first_seen_at: String,
    pub last_seen_at: String,
    pub rank_score: i64,
    pub relevance: i64,
    pub score_reason: String,
    pub evidence: Vec<String>,
    pub duplicate_count: i64,
}

/// The public item for a row: its link canonical and required to be
/// `http`/`https`, its sources listed, its first source shown (else
/// `Unknown`), its title stripped of any markup tag, its description made
/// public text, published when last seen,
/// and unread.
pub fn public_item_from_row(row: ItemRow) -> (r: Result<PublicItem, PublicUrlError>)
    ensures
        match r {
            Ok(item) => {
                &&& is_public_http(canonical_url(row.url@))
                &&& item.id@ == row.id@
                &&& item.board_id@ == row.board_id@
                &&& item.title@ == strip_tags(row.title@)
                &&& no_angle_brackets(item.title@)
                &&& item.url@ == canonical_url(row.url@)
                &&& texts(item.sources@) == source_list(row.source_names@)
                &&& item.source@ == if source_list(row.source_names@).len() > 0 {
                    source_list(row.source_names@)[0]
                } else {
                    "Unknown"@
                }
                &&& item.category@ == row.category@
                &&& item.description@ == public_text_of(row.description@)
                &&& item.published_at@ == row.last_seen_at@
                &&& item.first_seen_at@ == row.first_seen_at@
                &&& item.last_seen_at@ == row.last_seen_at@
                &&& item.rank_score == row.rank_score
                &&& item.relevance == row.relevance
                &&& item.score_reason@ == row.score_reason@
                &&& texts(item.evidence@) == texts(row.evidence@)
                &&& item.duplicate_count == row.duplicate_count
                &&& item.status@ == "unread"@
            },
            Err(e) => e.input@ == row.url@ && !is_public_http(canonical_url(row.url@)),
        },
{
    let sources = split_source_names(row.source_names.as_str());
    let url = match require_public_http_url(row.url.as_str()) {
        Ok(u) => u,
        Err(e) => {
            return Err(e);
        },
    };
    let source = if sources.len() > 0 {
        sources[0].clone()
    } else {
        owned("Unknown")
    };
    let description = public_text(row.description.as_str());
    let title_chars = chars_of(row.title.as_str());
    let stripped_title = strip_html(title_chars.as_slice());
    let title = string_of(stripped_title.as_slice());
    proof {
        lemma_strip_tags_plain(row.title@);
    }
    let published_at = row.last_seen_at.clone();
    Ok(
        PublicItem {
            id: row.id,
            board_id: row.board_id,
            title,
            url,
            source,
            sources,
            category: row.category,
            description,
            published_at,
            first_seen_at: row.first_seen_at,
            last_seen_at: row.last_seen_at,
            rank_score: row.rank_score,
            relevance: row.relevance,
            score_reason: row.score_reason,
            evidence: row.evidence,
            duplicate_count: row.duplicate_count,
            status: owned("unread"),
        },
    )
}

/// Whether source health is read from the results of the latest run: a
/// latest run exists and recorded at least one source result.
pub fn health_from_run_results(latest_run_exists: bool, result_count: i64) -> (r: bool)
    ensures
        r == (latest_run_exists && result_count > 0),
{
    latest_run_exists && result_count > 0
}

// ---------------------------------------------------------------------------
// Issues.
/// The rank score from which an item counts as high value.
pub open spec fn high_value_threshold() -> int {
    70
}

/// How many items have a rank score of at least 70.
pub open spec fn count_high_value(items: Seq<PublicItem>) -> nat
    decreases items.len(),
{
    if items.len() == 0 {
        0
    } else {
        count_high_value(items.drop_last()) + if items.last().rank_score >= 70 {
            1nat
        } else {
            0nat
        }
    }
}

/// How many items were first seen on `date` (their first-seen time begins
/// with it).
pub open spec fn count_new(items: Seq<PublicItem>, date: Seq<char>) -> nat
    decreases items.len(),
{
    if items.len() == 0 {
        0
    } else {
        count_new(items.drop_last(), date) + if starts_with_seq(items.last().first_seen_at@, date) {
            1nat
        } else {
            0nat
        }
    }
}

/// How many sources failed.
pub open spec fn count_failed(health: Seq<PublicSourceHealth>) -> nat
    decreases health.len(),
{
    if health.len() == 0 {
        0
    } else {
        count_failed(health.drop_last()) + if health.last().status@ == "failed"@ {
            1nat
        } else {
            0nat
        }
    }
}

proof fn lemma_count_high_value_bound(items: Seq<PublicItem>)
    ensures
        count_high_value(items) <= items.len(),
    decreases items.len(),
{
    if items.len() > 0 {
        lemma_count_high_value_bound(items.drop_last());
    }
}

proof fn lemma_count_new_bound(items: Seq<PublicItem>, date: Seq<char>)
    ensures
        count_new(items, date) <= items.len(),
    decreases items.len(),
{
    if items.len() > 0 {
        lemma_count_new_bound(items.drop_last(), date);
    }
}

proof fn lemma_count_failed_bound(health: Seq<PublicSourceHealth>)
    ensures
        count_failed(health) <= health.len(),
    decreases health.len(),
{
    if health.len() > 0 {
        lemma_count_failed_bound(health.drop_last());
    }
}

/// The totals of an issue of `date` with these items and source health.
pub fn issue_totals(items: &[PublicItem], health: &[PublicSourceHealth], date: &str) -> (r: PublicTotals)
    ensures
        r.total_items == items@.len(),
        r.high_value_items == count_high_value(items@),
        r.new_items == count_new(items@, date@),
        r.sources == health@.len(),
        r.failed_sources == count_failed(health@),
{
    let dc = chars_of(date);
    let mut high: usize = 0;
    let mut fresh: usize = 0;
    let mut i: usize = 0;
    while i < items.len()
        invariant
            dc@ == date@,
            i <= items@.len(),
            high == count_high_value(items@.take(i as int)),
            fresh == count_new(items@.take(i as int), date@),
            high <= i,
            fresh <= i,
        decreases items@.len() - i,
    {
        proof {
            assert(items@.take(i + 1).drop_last() == items@.take(i as int));
            assert(items@.take(i + 1).last() == items@[i as int]);
        }
        if items[i].rank_score >= 70 {
            high = high + 1;
        }
        let seen = chars_of(items[i].first_seen_at.as_str());
        if starts_with_chars(seen.as_slice(), dc.as_slice()) {
            fresh = fresh + 1;
        }
        i = i + 1;
    }
    let mut failed: usize = 0;
    let mut k: usize = 0;
    while k < health.len()
        invariant
            k <= health@.len(),
            failed == count_failed(health@.take(k as int)),
            failed <= k,
        decreases health@.len() - k,
    {
        proof {
            assert(health@.take(k + 1).drop_last() == health@.take(k as int));
            assert(health@.take(k + 1).last() == health@[k as int]);
        }
        if eq_text(health[k].status.as_str(), "failed") {
            failed = failed + 1;
        }
        k = k + 1;
    }
    proof {
        assert(items@.take(items@.len() as int) == items@);
        assert(health@.take(health@.len() as int) == health@);
    }
    PublicTotals {
        total_items: items.len(),
        high_value_items: high,
        new_items: fresh,
        sources: health.len(),
        failed_sources: failed,
    }
}

/// The counts of an issue are consistent: no more high-value or new items
/// than items, and no more failed sources than sources.
pub proof fn lemma_totals_consistent(items: Seq<PublicItem>, health: Seq<PublicSourceHealth>, date: Seq<char>)
    ensures
        count_high_value(items) <= items.len(),
        count_new(items, date) <= items.len(),
        count_failed(health) <= health.len(),
{
    lemma_count_high_value_bound(items);
    lemma_count_new_bound(items, date);
    lemma_count_failed_bound(health);
}

/// The daily issue of board `board_id` for `date`, generated at
/// `generated_at`, with these items and source health.
pub fn assemble_issue(
    board_id: &str,
    date: &str,
    generated_at: String,
    items: Vec<PublicItem>,
    health: Vec<PublicSourceHealth>,
) -> (r: PublicIssue)
    ensures
        r.schema_version == 1,
        r.generated_at@ == generated_at@,
        r.board_id@ == board_id@,
        r.issue_date@ == date@,
        r.items@ == items@,
        r.source_health@ == health@,
        r.totals.total_items == items@.len(),
        r.totals.high_value_items == count_high_value(items@),
        r.totals.new_items == count_new(items@, date@),
        r.totals.sources == health@.len(),
        r.totals.failed_sources == count_failed(health@),
{
    let totals = issue_totals(items.as_slice(), health.as_slice(), date);
    PublicIssue {
        schema_version: 1,
        generated_at,
        board_id: owned(board_id),
        issue_date: owned(date),
        totals,
        source_health: health,
        items,
    }
}

/// The identifier of the issue of a board for a date.
pub fn issue_id(board_id: &str, date: &str) -> (r: String)
    ensures
        r@ == stable_id_of(seq![board_id@, date@]),
{
    let parts: [&str; 2] = [board_id, date];
    let id = stable_id(&parts);
    proof {
        assert(str_texts(parts@) =~= seq![board_id@, date@]);
    }
    id
}

/// The identifier of a run of a board for a date, begun at `started_at`.
pub fn run_id(board_id: &str, run_date: &str, started_at: &str) -> (r: String)
    ensures
        r@ == stable_id_of(seq![board_id@, run_date@, started_at@]),
{
    let parts: [&str; 3] = [board_id, run_date, started_at];
    let id = stable_id(&parts);
    proof {
        assert(str_texts(parts@) =~= seq![board_id@, run_date@, started_at@]);
    }
    id
}

// ---------------------------------------------------------------------------
// Runs and publishing.
/// The status recorded for a source that returned `count` observations:
/// `empty` for none, else `success`.
pub fn source_status(count: usize) -> (r: &'static str)
    ensures
        r@ == if count == 0 {
            "empty"@
        } else {
            "success"@
        },
{
    if count == 0 {
        "empty"
    } else {
        "success"
    }
}

/// What collecting one source of a run gave.
#[derive(Debug)]
pub enum SourceOutcome {
    /// The source returned `count` observations, all of them ingested.
    Collected { count: usize },
    /// The source failed, for `reason`.
    Failed { reason: String },
}

/// The health recorded for one source of a run.
#[derive(Debug)]
pub struct SourceResult {
    pub status: String,
    pub count: usize,
    pub reason: String,
}

/// The note a failed source leaves in the run's error text.
pub open spec fn failure_note(source_id: Seq<char>, reason: Seq<char>) -> Seq<char> {
    source_id + ": "@ + reason
}

/// Whether `r` is the health recorded for a source with this outcome: a
/// collected source is `empty` or `success` with its count and no reason; a
/// failed one is `failed`, with count 0 and its reason.
pub open spec fn is_source_result(r: SourceResult, outcome: SourceOutcome) -> bool {
    match outcome {
        SourceOutcome::Collected { count } => {
            &&& r.status@ == if count == 0 {
                "empty"@
            } else {
                "success"@
            }
            &&& r.count == count
            &&& r.reason@ == Seq::<char>::empty()
        },
        SourceOutcome::Failed { reason } => {
            &&& r.status@ == "failed"@
            &&& r.count == 0
            &&& r.reason@ == reason@
        },
    }
}

/// The failure notes of a run after a source with this outcome: one more
/// when it failed, unchanged otherwise.
pub open spec fn notes_after(notes: Seq<Seq<char>>, source_id: Seq<char>, outcome: SourceOutcome) -> Seq<Seq<char>> {
    match outcome {
        SourceOutcome::Failed { reason } => notes.push(failure_note(source_id, reason@)),
        SourceOutcome::Collected { .. } => notes,
    }
}

/// Records the outcome of collecting source `source_id`: returns the
/// source's health and adds a note to `failures` when it failed. A failed
/// source is recorded and the run goes on.
pub fn record_source_outcome(failures: &mut Vec<String>, source_id: &str, outcome: &SourceOutcome) -> (r: SourceResult)
    ensures
        is_source_result(r, *outcome),
        texts(final(failures)@) == notes_after(texts(old(failures)@), source_id@, *outcome),
{
    match outcome {
        SourceOutcome::Collected { count } => {
            let status = source_status(*count);
            SourceResult { status: owned(status), count: *count, reason: String::new() }
        },
        SourceOutcome::Failed { reason } => {
            let mut note = concat2(source_id, ": ");
            push_str(&mut note, reason.as_str());
            let ghost before = failures@;
            failures.push(note);
            proof {
                assert(texts(failures@) == texts(before).push(note@));
            }
            SourceResult { status: owned("failed"), count: 0, reason: reason.clone() }
        },
    }
}

/// The failure notes of a run whose sources had these outcomes, in order.
pub open spec fn run_notes(events: Seq<(Seq<char>, SourceOutcome)>) -> Seq<Seq<char>>
    decreases events.len(),
{
    if events.len() == 0 {
        seq![]
    } else {
        notes_after(run_notes(events.drop_last()), events.last().0, events.last().1)
    }
}

/// How many of the outcomes are failures.
pub open spec fn failed_count(events: Seq<(Seq<char>, SourceOutcome)>) -> nat
    decreases events.len(),
{
    if events.len() == 0 {
        0
    } else {
        failed_count(events.drop_last()) + if events.last().1 is Failed {
            1nat
        } else {
            0nat
        }
    }
}

/// A run leaves exactly one failure note per failed source, so it has no
/// failure note (and its outcome is `success`) exactly when no source
/// failed.
pub proof fn lemma_run_notes_count_failures(events: Seq<(Seq<char>, SourceOutcome)>)
    ensures
        run_notes(events).len() == failed_count(events),
        (run_notes(events).len() == 0) <==> (forall|i: int|
            0 <= i < events.len() ==> !(#[trigger] events[i].1 is Failed)),
    decreases events.len(),
{
    if events.len() > 0 {
        let init = events.drop_last();
        lemma_run_notes_count_failures(init);
        if run_notes(events).len() == 0 {
            assert forall|i: int| 0 <= i < events.len() implies !(#[trigger] events[i].1 is Failed) by {
                if i < init.len() {
                    assert(events[i] == init[i]);
                }
            }
        }
        if forall|i: int| 0 <= i < events.len() ==> !(#[trigger] events[i].1 is Failed) {
            assert(!(events[events.len() - 1].1 is Failed));
            assert forall|i: int| 0 <= i < init.len() implies !(#[trigger] init[i].1 is Failed) by {
                assert(init[i] == events[i]);
            }
        }
    }
}

/// The status of a run and its error text.
#[derive(Debug)]
pub struct RunOutcome {
    pub status: String,
    pub error: Option<String>,
}

/// The failures joined by `; `.
pub open spec fn joined_failures(fs: Seq<Seq<char>>) -> Seq<char>
    decreases fs.len(),
{
    if fs.len() == 0 {
        seq![]
    } else if fs.len() == 1 {
        fs[0]
    } else {
        joined_failures(fs.drop_last()) + "; "@ + fs.last()
    }
}

/// The outcome of a run with these source failures: `success` with no
/// error when none failed, else `partial` with the failures joined by `; `.
pub fn run_outcome(failures: &[String]) -> (r: RunOutcome)
    ensures
        failures@.len() == 0 ==> r.status@ == "success"@ && r.error is None,
        failures@.len() > 0 ==> r.status@ == "partial"@ && opt_text(r.error) == Some(
            joined_failures(texts(failures@)),
        ),
{
    if failures.len() == 0 {
        return RunOutcome { status: owned("success"), error: None };
    }
    let ghost all = texts(failures@);
    let mut joined = String::new();
    let mut i: usize = 0;
    while i < failures.len()
        invariant
            all == texts(failures@),
            i <= failures@.len(),
            joined@ == joined_failures(all.take(i as int)),
        decreases failures@.len() - i,
    {
        proof {
            assert(all.take(i + 1).drop_last() == all.take(i as int));
        }
        if i > 0 {
            push_str(&mut joined, "; ");
        }
        push_str(&mut joined, failures[i].as_str());
        proof {
            if i == 0 {
                assert(Seq::<char>::empty() + failures@[0]@ == failures@[0]@);
            }
        }
        i = i + 1;
    }
    proof {
        assert(all.take(failures@.len() as int) == all);
    }
    RunOutcome { status: owned("partial"), error: Some(joined) }
}

/// The manifest recorded with a publish snapshot.
pub open spec fn publish_manifest_of(output_dir: Seq<char>, generated_at: Seq<char>) -> JsonView {
    JsonView::Object(
        seq![
            ("schemaVersion"@, JsonView::Number("1"@)),
            ("outputDir"@, JsonView::Text(output_dir)),
            ("generatedAt"@, JsonView::Text(generated_at)),
            ("publicOnly"@, JsonView::Bool(true)),
        ],
    )
}

/// The manifest of a publish snapshot into `output_dir` at `generated_at`.
pub fn publish_manifest(output_dir: &str, generated_at: &str) -> (r: JsonValue)
    ensures
        r@ == publish_manifest_of(output_dir@, generated_at@),
        json_well_formed(r@),
{
    let mut es: Vec<(String, JsonValue)> = Vec::new();
    es.push((owned("schemaVersion"), JsonValue::Number(owned("1"))));
    es.push((owned("outputDir"), JsonValue::Text(owned(output_dir))));
    es.push((owned("generatedAt"), JsonValue::Text(owned(generated_at))));
    es.push((owned("publicOnly"), JsonValue::Bool(true)));
    let r = JsonValue::Object(es);
    proof {
        let ev = crate::json::entries_view(es@);
        assert(ev =~= seq![
            ("schemaVersion"@, JsonView::Number("1"@)),
            ("outputDir"@, JsonView::Text(output_dir@)),
            ("generatedAt"@, JsonView::Text(generated_at@)),
            ("publicOnly"@, JsonView::Bool(true)),
        ]);
        assert(r@ =~= publish_manifest_of(output_dir@, generated_at@));
        reveal_strlit("schemaVersion");
        reveal_strlit("outputDir");
        reveal_strlit("generatedAt");
        reveal_strlit("publicOnly");
        assert forall|i: int, j: int| 0 <= i < j < ev.len() implies ev[i].0 != ev[j].0 by {
            assert(ev[i].0.len() != ev[j].0.len());
        }
        assert(keys_distinct(ev));
        assert forall|i: int| 0 <= i < ev.len() implies json_well_formed(#[trigger] ev[i].1) by {}
    }
    r
}

/// The identifier of a publish snapshot into `output_dir` at
/// `generated_at`.
pub fn publish_snapshot_id(output_dir: &str, generated_at: &str) -> (r: String)
    ensures
        r@ == stable_id_of(seq!["publish"@, output_dir@, generated_at@]),
{
    let parts: [&str; 3] = ["publish", output_dir, generated_at];
    let id = stable_id(&parts);
    proof {
        assert(str_texts(parts@) =~= seq!["publish"@, output_dir@, generated_at@]);
    }
    id
}

/// What an archived item of day `date` becomes: its source id is
/// `imported-` followed by its lower-cased source name (else `Imported`)
/// with every character but ASCII letters and digits replaced by `-`; it
/// keeps its title, URL and category; its description is made public text;
/// it was published at its non-empty `updatedAt`, else at midnight UTC of
/// that day.
pub proof fn lemma_imported_fields(o: ObservationDraft, item: JsonView, date: Seq<char>)
    requires
        is_imported_observation(o, item, date),
    ensures
        o.source_id@.len() == 9 + unicode_lower(archived_source(item)).len(),
        o.source_id@.take(9) == "imported-"@,
        forall|i: int|
            0 <= i < unicode_lower(archived_source(item)).len() ==> {
                let c = #[trigger] unicode_lower(archived_source(item))[i];
                o.source_id@[9 + i] == if ('0' <= c <= '9') || ('a' <= c <= 'z') || ('A' <= c
                    <= 'Z') {
                    c
                } else {
                    '-'
                }
            },
        text_member(item, "source"@) is None ==> archived_source(item) == "Imported"@,
        text_member(item, "title"@) == Some(o.title@) || (text_member(item, "title"@) is None
            && o.title@.len() == 0),
        text_member(item, "url"@) == Some(o.url@) || (text_member(item, "url"@) is None
            && o.url@.len() == 0),
        opt_text(o.category) == text_member(item, "category"@),
        text_member(item, "description"@) matches Some(d) ==> opt_text(o.description) == Some(
            public_text_of(d),
        ),
        text_member(item, "description"@) is None ==> o.description is None,
        opt_text(o.published_at) == match text_member(item, "updatedAt"@) {
            Some(u) => if u.len() > 0 {
                Some(u)
            } else {
                Some(date + "T00:00:00Z"@)
            },
            None => Some(date + "T00:00:00Z"@),
        },
{
    reveal_strlit("imported-");
    let lower = unicode_lower(archived_source(item));
    assert(o.source_id@ == "imported-"@ + lower.map_values(
        |c: char|
            if is_ascii_alnum(c) {
                c
            } else {
                '-'
            },
    ));
    assert(o.source_id@.take(9) =~= "imported-"@);
}

/// An issue counts as high-value exactly its items with a rank score of at
/// least 70, as new exactly those first seen on its date, and as failed
/// exactly the sources whose status is `failed`.
pub proof fn lemma_counts_are_filters(items: Seq<PublicItem>, health: Seq<PublicSourceHealth>, date: Seq<char>)
    ensures
        count_high_value(items) == items.filter(|i: PublicItem| i.rank_score >= 70).len(),
        count_new(items, date) == items.filter(
            |i: PublicItem| starts_with_seq(i.first_seen_at@, date),
        ).len(),
        count_failed(health) == health.filter(|h: PublicSourceHealth| h.status@ == "failed"@).len(),
    decreases items.len() + health.len(),
{
    reveal(Seq::filter);
    if items.len() > 0 {
        lemma_counts_are_filters(items.drop_last(), health, date);
    }
    if health.len() > 0 {
        lemma_counts_are_filters(items, health.drop_last(), date);
    }
}

} // verus!
