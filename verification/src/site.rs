//! The static site's data: the manifest of boards and issues.
use vstd::prelude::*;
use crate::json::{JsonValue, JsonView, entries_view, items_view, json_well_formed, keys_distinct};
use crate::model::{PublicIssue, texts};
use crate::text::{chars_of, concat2, eq_text, owned, push_str, string_of};

verus! {

/// The upper-case form of `c`, as std's `char::to_uppercase` yields it
/// (one to three characters).
pub uninterp spec fn unicode_upper_char(c: char) -> Seq<char>;

/// Unicode upper-casing of one character (std `char::to_uppercase`), as
/// named by `unicode_upper_char`.
#[verifier::external_body]
fn char_to_uppercase(c: char) -> (r: String)
    ensures
        r@ == unicode_upper_char(c),
{
    c.to_uppercase().collect()
}

/// `s` with its first character upper-cased.
pub open spec fn title_case_of(s: Seq<char>) -> Seq<char> {
    if s.len() == 0 {
        seq![]
    } else {
        unicode_upper_char(s[0]) + s.drop_first()
    }
}

/// `value` with its first character upper-cased (see [`title_case_of`]).
pub fn title_case(value: &str) -> (r: String)
    ensures
        r@ == title_case_of(value@),
{
    let cs = chars_of(value);
    if cs.len() == 0 {
        return String::new();
    }
    let mut out = char_to_uppercase(cs[0]);
    let mut rest: Vec<char> = Vec::new();
    let mut i: usize = 1;
    while i < cs.len()
        invariant
            1 <= i <= cs@.len(),
            rest@ == cs@.subrange(1, i as int),
        decreases cs@.len() - i,
    {
        rest.push(cs[i]);
        i = i + 1;
    }
    let tail = string_of(rest.as_slice());
    push_str(&mut out, tail.as_str());
    proof {
        assert(cs@.subrange(1, cs@.len() as int) == cs@.drop_first());
    }
    out
}

/// The distinct values of `ids`, in order of first appearance.
pub open spec fn distinct_in_order(ids: Seq<Seq<char>>) -> Seq<Seq<char>>
    decreases ids.len(),
{
    if ids.len() == 0 {
        seq![]
    } else {
        let init = distinct_in_order(ids.drop_last());
        if init.contains(ids.last()) {
            init
        } else {
            init.push(ids.last())
        }
    }
}

/// The board ids of the issues.
pub open spec fn issue_board_ids(issues: Seq<PublicIssue>) -> Seq<Seq<char>> {
    issues.map_values(|i: PublicIssue| i.board_id@)
}

fn contains_text(list: &Vec<String>, s: &str) -> (r: bool)
    ensures
        r == texts(list@).contains(s@),
{
    let mut i: usize = 0;
    while i < list.len()
        invariant
            i <= list@.len(),
            forall|k: int| 0 <= k < i ==> texts(list@)[k] != s@,
        decreases list@.len() - i,
    {
        if eq_text(list[i].as_str(), s) {
            proof {
                assert(texts(list@)[i as int] == s@);
            }
            return true;
        }
        i = i + 1;
    }
    false
}

/// The ids of the boards that have issues, each once, in order of first
/// appearance.
pub fn distinct_board_ids(issues: &[PublicIssue]) -> (r: Vec<String>)
    ensures
        texts(r@) == distinct_in_order(issue_board_ids(issues@)),
{
    let ghost all = issue_board_ids(issues@);
    let mut boards: Vec<String> = Vec::new();
    let mut i: usize = 0;
    while i < issues.len()
        invariant
            all == issue_board_ids(issues@),
            i <= issues@.len(),
            texts(boards@) == distinct_in_order(all.take(i as int)),
        decreases issues@.len() - i,
    {
        proof {
            assert(all.take(i + 1).drop_last() == all.take(i as int));
            assert(all.take(i + 1).last() == issues@[i as int].board_id@);
        }
        if !contains_text(&boards, issues[i].board_id.as_str()) {
            let ghost before = boards@;
            boards.push(issues[i].board_id.clone());
            proof {
                assert(texts(boards@) == texts(before).push(issues@[i as int].board_id@));
            }
        }
        i = i + 1;
    }
    proof {
        assert(all.take(issues@.len() as int) == all);
    }
    boards
}

/// The site path of the data file of an issue.
pub open spec fn issue_path_of(board_id: Seq<char>, date: Seq<char>) -> Seq<char> {
    "data/"@ + board_id + "/"@ + date + ".json"@
}

/// The site path of the data file of the issue of `board_id` for `date`.
pub fn issue_data_path(board_id: &str, date: &str) -> (r: String)
    ensures
        r@ == issue_path_of(board_id@, date@),
{
    let mut p = concat2("data/", board_id);
    push_str(&mut p, "/");
    push_str(&mut p, date);
    push_str(&mut p, ".json");
    p
}

/// The manifest entry of a board.
pub open spec fn board_entry(id: Seq<char>) -> JsonView {
    JsonView::Object(
        seq![("id"@, JsonView::Text(id)), ("name"@, JsonView::Text(title_case_of(id)))],
    )
}

/// The manifest entry of an issue.
pub open spec fn issue_entry(issue: PublicIssue) -> JsonView {
    JsonView::Object(
        seq![
            ("boardId"@, JsonView::Text(issue.board_id@)),
            ("date"@, JsonView::Text(issue.issue_date@)),
            ("path"@, JsonView::Text(issue_path_of(issue.board_id@, issue.issue_date@))),
        ],
    )
}

/// The site manifest: schema version 1, one entry per board (in order of
/// first appearance) and one entry per issue (in order).
pub open spec fn site_manifest_of(issues: Seq<PublicIssue>) -> JsonView {
    JsonView::Object(
        seq![
            ("schemaVersion"@, JsonView::Number("1"@)),
            (
                "boards"@,
                JsonView::Array(
                    distinct_in_order(issue_board_ids(issues)).map_values(
                        |id: Seq<char>| board_entry(id),
                    ),
                ),
            ),
            ("issues"@, JsonView::Array(issues.map_values(|i: PublicIssue| issue_entry(i)))),
        ],
    )
}

fn board_entry_value(id: &str) -> (r: JsonValue)
    ensures
        r@ == board_entry(id@),
{
    let mut es: Vec<(String, JsonValue)> = Vec::new();
    es.push((owned("id"), JsonValue::Text(owned(id))));
    es.push((owned("name"), JsonValue::Text(title_case(id))));
    let r = JsonValue::Object(es);
    proof {
        assert(entries_view(es@) =~= seq![
            ("id"@, JsonView::Text(id@)),
            ("name"@, JsonView::Text(title_case_of(id@))),
        ]);
        assert(r@ =~= board_entry(id@));
    }
    r
}

fn issue_entry_value(issue: &PublicIssue) -> (r: JsonValue)
    ensures
        r@ == issue_entry(*issue),
{
    let mut es: Vec<(String, JsonValue)> = Vec::new();
    es.push((owned("boardId"), JsonValue::Text(issue.board_id.clone())));
    es.push((owned("date"), JsonValue::Text(issue.issue_date.clone())));
    es.push(
        (
            owned("path"),
            JsonValue::Text(issue_data_path(issue.board_id.as_str(), issue.issue_date.as_str())),
        ),
    );
    let r = JsonValue::Object(es);
    proof {
        assert(entries_view(es@) =~= seq![
            ("boardId"@, JsonView::Text(issue.board_id@)),
            ("date"@, JsonView::Text(issue.issue_date@)),
            ("path"@, JsonView::Text(issue_path_of(issue.board_id@, issue.issue_date@))),
        ]);
        assert(r@ =~= issue_entry(*issue));
    }
    r
}

/// The site manifest for `issues` (see [`site_manifest_of`]).
pub fn site_manifest(issues: &[PublicIssue]) -> (r: JsonValue)
    ensures
        r@ == site_manifest_of(issues@),
        json_well_formed(r@),
{
    proof {
        lemma_site_manifest_well_formed(issues@);
    }
    let ids = distinct_board_ids(issues);
    let ghost idv = texts(ids@);
    let mut boards: Vec<JsonValue> = Vec::new();
    let mut i: usize = 0;
    while i < ids.len()
        invariant
            idv == texts(ids@),
            i <= ids@.len(),
            boards@.len() == i,
            forall|k: int| 0 <= k < i ==> (#[trigger] boards@[k])@ == board_entry(idv[k]),
        decreases ids@.len() - i,
    {
        boards.push(board_entry_value(ids[i].as_str()));
        i = i + 1;
    }
    let mut entries: Vec<JsonValue> = Vec::new();
    let mut j: usize = 0;
    while j < issues.len()
        invariant
            j <= issues@.len(),
            entries@.len() == j,
            forall|k: int| 0 <= k < j ==> (#[trigger] entries@[k])@ == issue_entry(issues@[k]),
        decreases issues@.len() - j,
    {
        entries.push(issue_entry_value(&issues[j]));
        j = j + 1;
    }
    let boards_value = JsonValue::Array(boards);
    let issues_value = JsonValue::Array(entries);
    proof {
        assert(items_view(boards@) =~= idv.map_values(|id: Seq<char>| board_entry(id)));
        assert(items_view(entries@) =~= issues@.map_values(|i: PublicIssue| issue_entry(i)));
    }
    let mut es: Vec<(String, JsonValue)> = Vec::new();
    es.push((owned("schemaVersion"), JsonValue::Number(owned("1"))));
    es.push((owned("boards"), boards_value));
    es.push((owned("issues"), issues_value));
    let r = JsonValue::Object(es);
    proof {
        assert(entries_view(es@) =~= seq![
            ("schemaVersion"@, JsonView::Number("1"@)),
            (
                "boards"@,
                JsonView::Array(
                    distinct_in_order(issue_board_ids(issues@)).map_values(
                        |id: Seq<char>| board_entry(id),
                    ),
                ),
            ),
            ("issues"@, JsonView::Array(issues@.map_values(|i: PublicIssue| issue_entry(i)))),
        ]);
        assert(r@ =~= site_manifest_of(issues@));
    }
    r
}

proof fn lemma_board_entry_well_formed(id: Seq<char>)
    ensures
        json_well_formed(board_entry(id)),
{
    reveal_strlit("id");
    reveal_strlit("name");
    if let JsonView::Object(es) = board_entry(id) {
        assert forall|i: int, j: int| 0 <= i < j < es.len() implies es[i].0 != es[j].0 by {
            assert(es[i].0.len() != es[j].0.len());
        }
        assert(keys_distinct(es));
        assert forall|i: int| 0 <= i < es.len() implies json_well_formed(#[trigger] es[i].1) by {}
    }
}

proof fn lemma_issue_entry_well_formed(issue: PublicIssue)
    ensures
        json_well_formed(issue_entry(issue)),
{
    reveal_strlit("boardId");
    reveal_strlit("date");
    reveal_strlit("path");
    if let JsonView::Object(es) = issue_entry(issue) {
        assert forall|i: int, j: int| 0 <= i < j < es.len() implies es[i].0 != es[j].0 by {
            if i == 1 && j == 2 {
                assert(es[i].0[0] != es[j].0[0]);
            } else {
                assert(es[i].0.len() != es[j].0.len());
            }
        }
        assert(keys_distinct(es));
        assert forall|i: int| 0 <= i < es.len() implies json_well_formed(#[trigger] es[i].1) by {}
    }
}

/// The site manifest is a well-formed document: each of its objects names
/// each member once.
pub proof fn lemma_site_manifest_well_formed(issues: Seq<PublicIssue>)
    ensures
        json_well_formed(site_manifest_of(issues)),
{
    reveal_strlit("schemaVersion");
    reveal_strlit("boards");
    reveal_strlit("issues");
    let ids = distinct_in_order(issue_board_ids(issues));
    let boards = ids.map_values(|id: Seq<char>| board_entry(id));
    let entries = issues.map_values(|i: PublicIssue| issue_entry(i));
    assert forall|k: int| 0 <= k < boards.len() implies json_well_formed(#[trigger] boards[k]) by {
        lemma_board_entry_well_formed(ids[k]);
    }
    assert forall|k: int| 0 <= k < entries.len() implies json_well_formed(#[trigger] entries[k]) by {
        lemma_issue_entry_well_formed(issues[k]);
    }
    if let JsonView::Object(es) = site_manifest_of(issues) {
        assert forall|i: int, j: int| 0 <= i < j < es.len() implies es[i].0 != es[j].0 by {
            if i == 1 && j == 2 {
                assert(es[i].0[0] != es[j].0[0]);
            } else {
                assert(es[i].0.len() != es[j].0.len());
            }
        }
        assert(keys_distinct(es));
        assert(json_well_formed(JsonView::Array(boards)));
        assert(json_well_formed(JsonView::Array(entries)));
        assert forall|i: int| 0 <= i < es.len() implies json_well_formed(#[trigger] es[i].1) by {}
    }
}

// ---------------------------------------------------------------------------
// Laws.
/// The manifest lists each board once, lists every board that has an
/// issue, and lists no other board.
pub proof fn lemma_distinct_boards(ids: Seq<Seq<char>>)
    ensures
        distinct_in_order(ids).no_duplicates(),
        forall|i: int| 0 <= i < ids.len() ==> distinct_in_order(ids).contains(#[trigger] ids[i]),
        forall|i: int|
            0 <= i < distinct_in_order(ids).len() ==> ids.contains(
                #[trigger] distinct_in_order(ids)[i],
            ),
    decreases ids.len(),
{
    if ids.len() > 0 {
        let init = ids.drop_last();
        lemma_distinct_boards(init);
        let d = distinct_in_order(init);
        let r = distinct_in_order(ids);
        assert forall|i: int| 0 <= i < ids.len() implies r.contains(#[trigger] ids[i]) by {
            if i < init.len() {
                assert(init[i] == ids[i]);
                assert(d.contains(ids[i]));
                if !d.contains(ids.last()) {
                    let k = choose|k: int| 0 <= k < d.len() && d[k] == ids[i];
                    assert(r[k] == ids[i]);
                }
            } else {
                if !d.contains(ids.last()) {
                    assert(r[d.len() as int] == ids.last());
                }
            }
        }
        assert forall|i: int| 0 <= i < r.len() implies ids.contains(#[trigger] r[i]) by {
            if i < d.len() {
                assert(r[i] == d[i]);
                assert(init.contains(d[i]));
                let k = choose|k: int| 0 <= k < init.len() && init[k] == d[i];
                assert(ids[k] == d[i]);
            } else {
                assert(r[i] == ids.last());
                assert(ids[ids.len() - 1] == ids.last());
            }
        }
    }
}

} // verus!
