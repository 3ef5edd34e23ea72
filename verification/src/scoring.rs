//! Categorisation and rule-based scoring of items.
use vstd::prelude::*;
use vstd::utf8::encode_utf8;
use crate::model::{BoardConfig, ItemDraft, ScoreDraft, texts, text_or_empty};
use crate::text::{chars_of, concat2, contains_chars, contains_seq, dec_int, eq_text, i64_to_text, owned, push_char, push_str};

verus! {

broadcast use vstd::string::group_string_axioms;

/// The full Unicode lower-case form of `s`, as std's `str::to_lowercase`
/// computes it.
pub uninterp spec fn unicode_lower(s: Seq<char>) -> Seq<char>;

/// Unicode lower-casing (std `str::to_lowercase`), as named by
/// `unicode_lower`.
#[verifier::external_body]
pub(crate) fn to_lowercase(s: &str) -> (r: String)
    ensures
        r@ == unicode_lower(s@),
{
    s.to_lowercase()
}

/// The lower-cased text searched for clues: title, a space, description.
pub open spec fn search_text(title: Seq<char>, description: Seq<char>) -> Seq<char> {
    unicode_lower(title) + seq![' '] + unicode_lower(description)
}

fn search_text_of(title: &str, description: &str) -> (r: Vec<char>)
    ensures
        r@ == search_text(title@, description@),
{
    let mut s = to_lowercase(title);
    push_char(&mut s, ' ');
    let d = to_lowercase(description);
    push_str(&mut s, d.as_str());
    chars_of(s.as_str())
}

/// The category inferred from an item's text: the first rule whose clue
/// occurs wins; with no clue, the board's first category, else `News`.
pub open spec fn category_for(
    categories: Seq<Seq<char>>,
    title: Seq<char>,
    description: Seq<char>,
) -> Seq<char> {
    let t = search_text(title, description);
    if contains_seq(t, "github"@) || contains_seq(t, "plugin"@) || contains_seq(t, "open source"@) {
        "Open Source"@
    } else if contains_seq(t, "marketplace"@) || contains_seq(t, "fab"@) || contains_seq(t, "asset"@) {
        "Marketplace"@
    } else if contains_seq(t, "youtube"@) || contains_seq(t, "video"@) || contains_seq(t, "tutorial"@) {
        "Video"@
    } else if contains_seq(t, "gdc"@) || contains_seq(t, "siggraph"@) || contains_seq(t, "talk"@) {
        "Talks"@
    } else if contains_seq(t, "epic"@) || contains_seq(t, "release"@) {
        "Official"@
    } else if categories.len() > 0 {
        categories[0]
    } else {
        "News"@
    }
}

fn has(t: &[char], clue: &str) -> (r: bool)
    ensures
        r == contains_seq(t@, clue@),
{
    let c = chars_of(clue);
    contains_chars(t, c.as_slice())
}

/// The category of an item with this title and description on `board`
/// (see [`category_for`]).
pub fn infer_category(board: &BoardConfig, title: &str, description: &str) -> (r: String)
    ensures
        r@ == category_for(texts(board.categories@), title@, description@),
{
    let t = search_text_of(title, description);
    let ts = t.as_slice();
    if has(ts, "github") || has(ts, "plugin") || has(ts, "open source") {
        owned("Open Source")
    } else if has(ts, "marketplace") || has(ts, "fab") || has(ts, "asset") {
        owned("Marketplace")
    } else if has(ts, "youtube") || has(ts, "video") || has(ts, "tutorial") {
        owned("Video")
    } else if has(ts, "gdc") || has(ts, "siggraph") || has(ts, "talk") {
        owned("Talks")
    } else if has(ts, "epic") || has(ts, "release") {
        owned("Official")
    } else if board.categories.len() > 0 {
        board.categories[0].clone()
    } else {
        owned("News")
    }
}

/// The weight a category adds to the rank score.
pub open spec fn category_weight_of(category: Seq<char>) -> int {
    if category == "Official"@ {
        20
    } else if category == "Open Source"@ {
        15
    } else if category == "News"@ {
        12
    } else if category == "Talks"@ {
        10
    } else if category == "Marketplace"@ {
        8
    } else {
        5
    }
}

/// The weight a source adds to the rank score.
pub open spec fn source_weight_of(source: Seq<char>) -> int {
    if source == "GitHub"@ || source == "GitHub Unreal"@ {
        10
    } else if source == "Google News Unreal"@ {
        8
    } else {
        5
    }
}

/// The weight of `category` (see [`category_weight_of`]).
pub fn category_weight(category: &str) -> (r: i64)
    ensures
        r == category_weight_of(category@),
{
    if eq_text(category, "Official") {
        20
    } else if eq_text(category, "Open Source") {
        15
    } else if eq_text(category, "News") {
        12
    } else if eq_text(category, "Talks") {
        10
    } else if eq_text(category, "Marketplace") {
        8
    } else {
        5
    }
}

/// The weight of `source` (see [`source_weight_of`]).
pub fn source_weight(source: &str) -> (r: i64)
    ensures
        r == source_weight_of(source@),
{
    if eq_text(source, "GitHub") || eq_text(source, "GitHub Unreal") {
        10
    } else if eq_text(source, "Google News Unreal") {
        8
    } else {
        5
    }
}

/// The score version written with every score.
pub const SCORE_VERSION: &'static str = "rules-v1";

/// The board keywords whose lower-case form occurs in `hay`, in board
/// order.
pub open spec fn matched_keywords(hay: Seq<char>, keywords: Seq<Seq<char>>) -> Seq<Seq<char>>
    decreases keywords.len(),
{
    if keywords.len() == 0 {
        seq![]
    } else {
        let init = matched_keywords(hay, keywords.drop_last());
        if contains_seq(hay, unicode_lower(keywords.last())) {
            init.push(keywords.last())
        } else {
            init
        }
    }
}

/// The relevance for `matches` matched keywords: 20, plus 12 per match,
/// at most 100.
pub open spec fn relevance_for(matches: nat) -> int {
    let raw: int = 20 + 12 * (matches as int);
    if raw > 100 {
        100
    } else {
        raw
    }
}

/// The rank score: relevance plus the category and source weights, plus 5
/// for a description longer than 80 bytes, at most 100.
pub open spec fn rank_for(relevance: int, category: Seq<char>, source: Seq<char>, description: Seq<char>) -> int {
    let total = relevance + category_weight_of(category) + source_weight_of(source) + if encode_utf8(
        description,
    ).len() > 80 {
        5int
    } else {
        0int
    };
    if total > 100 {
        100
    } else {
        total
    }
}

/// The evidence line for a matched keyword.
pub open spec fn evidence_line(keyword: Seq<char>) -> Seq<char> {
    "keyword: "@ + keyword
}

/// The reason line of a score.
pub open spec fn reason_line(relevance: int, category: Seq<char>, source: Seq<char>) -> Seq<char> {
    dec_int(relevance) + " relevance, category "@ + category + ", source "@ + source
}

/// The keywords matched by an item on a board.
pub open spec fn item_matches(board: BoardConfig, item: ItemDraft) -> Seq<Seq<char>> {
    matched_keywords(
        search_text(item.title@, text_or_empty(item.description)),
        texts(board.keywords@),
    )
}

/// Scores `item` on `board` for a source shown as `source_name`.
pub fn score_item(board: &BoardConfig, item_id: &str, item: &ItemDraft, source_name: &str) -> (r: ScoreDraft)
    ensures
        r.item_id@ == item_id@,
        r.score_version@ == SCORE_VERSION@,
        r.relevance == relevance_for(item_matches(*board, *item).len()),
        r.rank_score == rank_for(
            r.relevance as int,
            item.category@,
            source_name@,
            text_or_empty(item.description),
        ),
        r.reason@ == reason_line(r.relevance as int, item.category@, source_name@),
        texts(r.evidence@) == item_matches(*board, *item).map_values(|k: Seq<char>| evidence_line(k)),
{
    let description: &str = match &item.description {
        Some(d) => d.as_str(),
        None => "",
    };
    proof {
        assert(description@ == text_or_empty(item.description)) by {
            reveal_strlit("");
        }
    }
    let haystack = search_text_of(item.title.as_str(), description);
    let ghost kws = texts(board.keywords@);
    let mut evidence: Vec<String> = Vec::new();
    let mut matches: usize = 0;
    let mut i: usize = 0;
    while i < board.keywords.len()
        invariant
            kws == texts(board.keywords@),
            i <= kws.len(),
            matches == matched_keywords(haystack@, kws.take(i as int)).len(),
            matches <= i,
            texts(evidence@) == matched_keywords(haystack@, kws.take(i as int)).map_values(
                |k: Seq<char>| evidence_line(k),
            ),
        decreases kws.len() - i,
    {
        let keyword = &board.keywords[i];
        let lower = to_lowercase(keyword.as_str());
        let lc = chars_of(lower.as_str());
        proof {
            assert(kws.take(i + 1).drop_last() == kws.take(i as int));
            assert(kws.take(i + 1).last() == keyword@);
        }
        let ghost before = evidence@;
        if contains_chars(haystack.as_slice(), lc.as_slice()) {
            matches = matches + 1;
            let line = concat2("keyword: ", keyword.as_str());
            evidence.push(line);
            proof {
                assert(texts(evidence@) == texts(before).push(line@));
            }
        }
        i = i + 1;
    }
    proof {
        assert(kws.take(kws.len() as int) == kws);
    }
    let relevance: i64 = if matches >= 7 {
        100
    } else {
        20 + 12 * (matches as i64)
    };
    let mut rank_score = relevance + category_weight(item.category.as_str()) + source_weight(source_name);
    let byte_len = description.as_bytes().len();
    proof {
        assert(byte_len == encode_utf8(description@).len());
    }
    if byte_len > 80 {
        rank_score = rank_score + 5;
    }
    if rank_score > 100 {
        rank_score = 100;
    }
    let rel_text = i64_to_text(relevance);
    let mut reason = rel_text;
    push_str(&mut reason, " relevance, category ");
    push_str(&mut reason, item.category.as_str());
    push_str(&mut reason, ", source ");
    push_str(&mut reason, source_name);
    ScoreDraft {
        item_id: owned(item_id),
        score_version: owned(SCORE_VERSION),
        rank_score,
        relevance,
        reason,
        evidence,
    }
}

// ---------------------------------------------------------------------------
// Laws.
/// Scores stay in range: relevance lies between 20 and 100, and the rank
/// score between the relevance and 100.
pub proof fn lemma_score_bounds(matches: nat, category: Seq<char>, source: Seq<char>, description: Seq<char>)
    ensures
        20 <= relevance_for(matches) <= 100,
        relevance_for(matches) <= rank_for(relevance_for(matches), category, source, description) <= 100,
{
}

/// Each matched keyword adds 12 to the relevance until it reaches 100.
pub proof fn lemma_relevance_grows(matches: nat)
    ensures
        relevance_for(matches + 1) == if relevance_for(matches) + 12 > 100 {
            100
        } else {
            relevance_for(matches) + 12
        },
{
}

/// Only board keywords are matched, each at most once, in board order: the
/// matches are a subsequence of the keywords.
pub proof fn lemma_matches_within_keywords(hay: Seq<char>, keywords: Seq<Seq<char>>)
    ensures
        matched_keywords(hay, keywords).len() <= keywords.len(),
        forall|i: int|
            0 <= i < matched_keywords(hay, keywords).len() ==> keywords.contains(
                #[trigger] matched_keywords(hay, keywords)[i],
            ),
    decreases keywords.len(),
{
    if keywords.len() > 0 {
        let init = keywords.drop_last();
        lemma_matches_within_keywords(hay, init);
        let m = matched_keywords(hay, keywords);
        assert forall|i: int| 0 <= i < m.len() implies keywords.contains(#[trigger] m[i]) by {
            if i < matched_keywords(hay, init).len() {
                assert(m[i] == matched_keywords(hay, init)[i]);
                assert(init.contains(m[i]));
                let k = choose|k: int| 0 <= k < init.len() && init[k] == m[i];
                assert(keywords[k] == m[i]);
            } else {
                assert(m[i] == keywords.last());
                assert(keywords[keywords.len() - 1] == m[i]);
            }
        }
    }
}

/// The category of an item follows its clues in a fixed order: `github`,
/// `plugin` or `open source` in the lower-cased title and description make
/// it `Open Source`; failing those, `marketplace`, `fab` or `asset` make it
/// `Marketplace`; then `youtube`, `video` or `tutorial` give `Video`; then
/// `gdc`, `siggraph` or `talk` give `Talks`; then `epic` or `release` give
/// `Official`; with no clue it is the board's first category, else `News`.
pub proof fn lemma_category_rules(categories: Seq<Seq<char>>, title: Seq<char>, description: Seq<char>)
    ensures
        ({
            let t = search_text(title, description);
            let open_source = contains_seq(t, "github"@) || contains_seq(t, "plugin"@)
                || contains_seq(t, "open source"@);
            let market = contains_seq(t, "marketplace"@) || contains_seq(t, "fab"@)
                || contains_seq(t, "asset"@);
            let video = contains_seq(t, "youtube"@) || contains_seq(t, "video"@)
                || contains_seq(t, "tutorial"@);
            let talks = contains_seq(t, "gdc"@) || contains_seq(t, "siggraph"@) || contains_seq(
                t,
                "talk"@,
            );
            let official = contains_seq(t, "epic"@) || contains_seq(t, "release"@);
            let c = category_for(categories, title, description);
            &&& open_source ==> c == "Open Source"@
            &&& !open_source && market ==> c == "Marketplace"@
            &&& !open_source && !market && video ==> c == "Video"@
            &&& !open_source && !market && !video && talks ==> c == "Talks"@
            &&& !open_source && !market && !video && !talks && official ==> c == "Official"@
            &&& !open_source && !market && !video && !talks && !official ==> c == if categories.len()
                > 0 {
                categories[0]
            } else {
                "News"@
            }
        }),
{
}

/// The weight of a category is 20 for `Official`, 15 for `Open Source`, 12
/// for `News`, 10 for `Talks`, 8 for `Marketplace` and 5 for any other; the
/// weight of a source is 10 for `GitHub` and `GitHub Unreal`, 8 for
/// `Google News Unreal` and 5 for any other.
pub proof fn lemma_weight_tables(category: Seq<char>, source: Seq<char>)
    ensures
        category_weight_of(category) == if category == "Official"@ {
            20int
        } else if category == "Open Source"@ {
            15int
        } else if category == "News"@ {
            12int
        } else if category == "Talks"@ {
            10int
        } else if category == "Marketplace"@ {
            8int
        } else {
            5int
        },
        source_weight_of(source) == if source == "GitHub"@ || source == "GitHub Unreal"@ {
            10int
        } else if source == "Google News Unreal"@ {
            8int
        } else {
            5int
        },
{
}

/// The rank score is the relevance plus the category and source weights,
/// plus 5 for a description longer than 80 UTF-8 bytes, capped at 100; so a
/// long description scores exactly 5 more than a short one, up to the cap,
/// and two descriptions on the same side of 80 bytes score the same.
pub proof fn lemma_description_bonus(
    relevance: int,
    category: Seq<char>,
    source: Seq<char>,
    long: Seq<char>,
    short: Seq<char>,
)
    requires
        encode_utf8(long).len() > 80,
        encode_utf8(short).len() <= 80,
    ensures
        rank_for(relevance, category, source, short) == {
            let total = relevance + category_weight_of(category) + source_weight_of(source);
            if total > 100 {
                100
            } else {
                total
            }
        },
        rank_for(relevance, category, source, long) == {
            let total = relevance + category_weight_of(category) + source_weight_of(source) + 5;
            if total > 100 {
                100
            } else {
                total
            }
        },
        rank_for(relevance, category, source, long) == {
            let raised = rank_for(relevance, category, source, short) + 5;
            if raised > 100 {
                100
            } else {
                raised
            }
        },
{
}

/// The relevance is 20 with no matched keyword, and each further match adds
/// 12, up to 100.
pub proof fn lemma_relevance_formula(matches: nat)
    ensures
        relevance_for(matches) == if 20 + 12 * matches > 100 {
            100
        } else {
            20 + 12 * matches
        },
        relevance_for(0) == 20,
{
}

/// The matched keywords are exactly the board's keywords, in board order
/// and with repeats, whose lower-case form occurs in the searched text.
pub proof fn lemma_matches_are_occurring_keywords(hay: Seq<char>, keywords: Seq<Seq<char>>)
    ensures
        matched_keywords(hay, keywords) == keywords.filter(
            |k: Seq<char>| contains_seq(hay, unicode_lower(k)),
        ),
    decreases keywords.len(),
{
    reveal(Seq::filter);
    if keywords.len() > 0 {
        lemma_matches_are_occurring_keywords(hay, keywords.drop_last());
    }
}

} // verus!
