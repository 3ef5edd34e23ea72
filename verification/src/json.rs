//! A JSON document model, lookups on it, and the public-export sanitizer.
use vstd::prelude::*;
use crate::text::{
    ascii_lower, chars_of, concat2, contains_chars, contains_seq, dec_nat, owned, push_char, push_chars,
    push_str, starts_with_seq, to_ascii_lower, u64_to_dec, eq_chars,
};

verus! {

/// A JSON value. Numbers keep their textual form. An object lists its
/// members in order; a well-formed value (see [`json_well_formed`]) names
/// each member of an object once, as a JSON object map does.
#[derive(Debug)]
pub enum JsonValue {
    Null,
    Bool(bool),
    Number(String),
    Text(String),
    Array(Vec<JsonValue>),
    Object(Vec<(String, JsonValue)>),
}

/// The mathematical form of a [`JsonValue`].
#[verifier::ext_equal]
pub enum JsonView {
    Null,
    Bool(bool),
    Number(Seq<char>),
    Text(Seq<char>),
    Array(Seq<JsonView>),
    Object(Seq<(Seq<char>, JsonView)>),
}

/// The view of the items of an array.
pub open spec fn items_view(vs: Seq<JsonValue>) -> Seq<JsonView>
    decreases vs,
{
    Seq::new(
        vs.len(),
        |i: int|
            if 0 <= i < vs.len() {
                json_view(vs[i])
            } else {
                JsonView::Null
            },
    )
}

/// The view of the entries of an object.
pub open spec fn entries_view(es: Seq<(String, JsonValue)>) -> Seq<(Seq<char>, JsonView)>
    decreases es,
{
    Seq::new(
        es.len(),
        |i: int|
            if 0 <= i < es.len() {
                (es[i].0@, json_view(es[i].1))
            } else {
                (Seq::empty(), JsonView::Null)
            },
    )
}

/// The mathematical form of `v`.
pub open spec fn json_view(v: JsonValue) -> JsonView
    decreases v,
{
    match v {
        JsonValue::Null => JsonView::Null,
        JsonValue::Bool(b) => JsonView::Bool(b),
        JsonValue::Number(n) => JsonView::Number(n@),
        JsonValue::Text(s) => JsonView::Text(s@),
        JsonValue::Array(vs) => JsonView::Array(items_view(vs@)),
        JsonValue::Object(es) => JsonView::Object(entries_view(es@)),
    }
}

impl View for JsonValue {
    type V = JsonView;

    open spec fn view(&self) -> JsonView {
        json_view(*self)
    }
}

/// Whether the entries of an object name each member once.
pub open spec fn keys_distinct(es: Seq<(Seq<char>, JsonView)>) -> bool {
    forall|i: int, j: int| #![trigger es[i], es[j]] 0 <= i < j < es.len() ==> es[i].0 != es[j].0
}

/// Whether every object within `v` names each of its members once.
pub open spec fn json_well_formed(v: JsonView) -> bool
    decreases v,
{
    match v {
        JsonView::Object(es) => keys_distinct(es) && forall|i: int|
            0 <= i < es.len() ==> json_well_formed(#[trigger] es[i].1),
        JsonView::Array(items) => forall|i: int|
            0 <= i < items.len() ==> json_well_formed(#[trigger] items[i]),
        _ => true,
    }
}

/// A member found in a well-formed object is well-formed.
pub proof fn lemma_member_well_formed(v: JsonView, key: Seq<char>)
    requires
        json_well_formed(v),
    ensures
        json_get(v, key) matches Some(m) ==> json_well_formed(m),
{
    if let JsonView::Object(es) = v {
        lemma_lookup_well_formed(es, key);
    }
}

proof fn lemma_lookup_well_formed(es: Seq<(Seq<char>, JsonView)>, key: Seq<char>)
    requires
        forall|i: int| 0 <= i < es.len() ==> json_well_formed(#[trigger] es[i].1),
    ensures
        entry_lookup(es, key) matches Some(m) ==> json_well_formed(m),
    decreases es.len(),
{
    if es.len() > 0 {
        assert(json_well_formed(es[0].1));
        let rest = es.drop_first();
        assert forall|i: int| 0 <= i < rest.len() implies json_well_formed(#[trigger] rest[i].1) by {
            assert(rest[i] == es[i + 1]);
        }
        lemma_lookup_well_formed(rest, key);
    }
}

// ---------------------------------------------------------------------------
// Lookups.
/// The value of the first entry named `key` among `es`.
pub open spec fn entry_lookup(es: Seq<(Seq<char>, JsonView)>, key: Seq<char>) -> Option<JsonView>
    decreases es.len(),
{
    if es.len() == 0 {
        None
    } else if es[0].0 == key {
        Some(es[0].1)
    } else {
        entry_lookup(es.drop_first(), key)
    }
}

/// The member `key` of `v`, when `v` is an object that has one.
pub open spec fn json_get(v: JsonView, key: Seq<char>) -> Option<JsonView> {
    match v {
        JsonView::Object(es) => entry_lookup(es, key),
        _ => None,
    }
}

/// The text held by `v`, when `v` is a string.
pub open spec fn json_text(v: JsonView) -> Option<Seq<char>> {
    match v {
        JsonView::Text(s) => Some(s),
        _ => None,
    }
}

/// The text of member `key` of `v`, when it exists and is a string.
pub open spec fn text_member(v: JsonView, key: Seq<char>) -> Option<Seq<char>> {
    match json_get(v, key) {
        Some(m) => json_text(m),
        None => None,
    }
}

/// The items of member `key` of `v` when it is an array, else no items.
pub open spec fn array_member(v: JsonView, key: Seq<char>) -> Seq<JsonView> {
    match json_get(v, key) {
        Some(JsonView::Array(items)) => items,
        _ => Seq::empty(),
    }
}

proof fn lemma_lookup_step(es: Seq<(Seq<char>, JsonView)>, key: Seq<char>, i: int)
    requires
        0 <= i < es.len(),
    ensures
        entry_lookup(es.skip(i), key) == if es[i].0 == key {
            Some(es[i].1)
        } else {
            entry_lookup(es.skip(i + 1), key)
        },
{
    assert(es.skip(i).drop_first() == es.skip(i + 1));
}

impl JsonValue {
    /// The member `key` of this value, when it is an object that has one.
    pub fn get(&self, key: &str) -> (r: Option<&JsonValue>)
        ensures
            match r {
                Some(m) => json_get(self@, key@) == Some(m@),
                None => json_get(self@, key@) is None,
            },
    {
        match self {
            JsonValue::Object(es) => {
                let k = chars_of(key);
                let ghost ev = entries_view(es@);
                let mut i: usize = 0;
                proof {
                    assert(ev.skip(0) == ev);
                }
                while i < es.len()
                    invariant
                        *self == JsonValue::Object(*es),
                        ev == entries_view(es@),
                        k@ == key@,
                        i <= es@.len(),
                        entry_lookup(ev.skip(i as int), key@) == entry_lookup(ev, key@),
                    decreases es@.len() - i,
                {
                    let name = chars_of(es[i].0.as_str());
                    proof {
                        lemma_lookup_step(ev, key@, i as int);
                    }
                    if eq_chars(name.as_slice(), k.as_slice()) {
                        return Some(&es[i].1);
                    }
                    i = i + 1;
                }
                proof {
                    assert(ev.skip(i as int).len() == 0);
                }
                None
            },
            _ => None,
        }
    }

    /// The text of this value, when it is a string.
    pub fn as_text(&self) -> (r: Option<&String>)
        ensures
            match r {
                Some(s) => json_text(self@) == Some(s@),
                None => json_text(self@) is None,
            },
    {
        match self {
            JsonValue::Text(s) => Some(s),
            _ => None,
        }
    }

    /// The items of this value, when it is an array.
    pub fn as_array(&self) -> (r: Option<&Vec<JsonValue>>)
        ensures
            match r {
                Some(items) => self@ == JsonView::Array(items_view(items@)),
                None => !(self@ is Array),
            },
    {
        match self {
            JsonValue::Array(items) => Some(items),
            _ => None,
        }
    }

    /// The text of member `key`, when it exists and is a string.
    pub fn text_member(&self, key: &str) -> (r: Option<&String>)
        ensures
            match r {
                Some(s) => text_member(self@, key@) == Some(s@),
                None => text_member(self@, key@) is None,
            },
    {
        match self.get(key) {
            Some(m) => m.as_text(),
            None => None,
        }
    }
}

/// A copy of `v`.
pub fn copy_json(v: &JsonValue) -> (r: JsonValue)
    ensures
        r@ == v@,
    decreases v,
{
    match v {
        JsonValue::Null => JsonValue::Null,
        JsonValue::Bool(b) => JsonValue::Bool(*b),
        JsonValue::Number(n) => JsonValue::Number(n.clone()),
        JsonValue::Text(s) => JsonValue::Text(s.clone()),
        JsonValue::Array(xs) => {
            let mut out: Vec<JsonValue> = Vec::new();
            let mut i: usize = 0;
            while i < xs.len()
                invariant
                    *v == JsonValue::Array(*xs),
                    i <= xs@.len(),
                    out@.len() == i,
                    forall|k: int| 0 <= k < i ==> (#[trigger] out@[k])@ == xs@[k]@,
                decreases xs@.len() - i,
            {
                proof {
                    assert(decreases_to!(*v => (*v)->Array_0));
                }
                let c = copy_json(&xs[i]);
                out.push(c);
                i = i + 1;
            }
            let r = JsonValue::Array(out);
            proof {
                let a = items_view(out@);
                let b = items_view(xs@);
                assert(a =~= b);
                assert(r@ =~= v@);
            }
            r
        },
        JsonValue::Object(es) => {
            let mut out: Vec<(String, JsonValue)> = Vec::new();
            let mut i: usize = 0;
            while i < es.len()
                invariant
                    *v == JsonValue::Object(*es),
                    i <= es@.len(),
                    out@.len() == i,
                    forall|k: int|
                        0 <= k < i ==> (#[trigger] out@[k]).0@ == es@[k].0@ && out@[k].1@
                            == es@[k].1@,
                decreases es@.len() - i,
            {
                proof {
                    assert(decreases_to!(*v => (*v)->Object_0));
                }
                let c = copy_json(&es[i].1);
                let name = es[i].0.clone();
                out.push((name, c));
                i = i + 1;
            }
            let r = JsonValue::Object(out);
            proof {
                let a = entries_view(out@);
                let b = entries_view(es@);
                assert(a =~= b);
                assert(r@ =~= v@);
            }
            r
        },
    }
}

// ---------------------------------------------------------------------------
// Public-export sanitizer.
/// What a public export must not hold.
#[derive(Debug, Clone, Copy, PartialEq, Eq)]
pub enum SanitizeKind {
    /// An object key naming raw or secret material.
    ForbiddenKey,
    /// A string longer than twice the public text limit.
    TextTooLong,
    /// A string carrying a credential marker.
    ForbiddenMarker,
}

/// Where and why a value was refused for public export.
#[derive(Debug)]
pub struct SanitizeError {
    pub kind: SanitizeKind,
    /// The JSON path of the offending key or string, such as `$.items[3].title`.
    pub path: String,
}

/// The longest string, in characters, that a public export may hold.
pub open spec fn max_public_string() -> nat {
    2400
}

/// Whether the (lower-cased) key names raw or secret material.
pub open spec fn key_is_forbidden(lower: Seq<char>) -> bool {
    ||| contains_seq(lower, "rawfields"@)
    ||| contains_seq(lower, "raw_html"@)
    ||| contains_seq(lower, "raw html"@)
    ||| contains_seq(lower, "full_body"@)
    ||| contains_seq(lower, "body_html"@)
    ||| contains_seq(lower, "api_key"@)
    ||| contains_seq(lower, "secret"@)
    ||| contains_seq(lower, "access_token"@)
    ||| contains_seq(lower, "refresh_token"@)
    ||| contains_seq(lower, "authorization"@)
    ||| contains_seq(lower, "stacktrace"@)
}

/// Whether the (lower-cased) string carries a credential marker.
pub open spec fn text_has_marker(lower: Seq<char>) -> bool {
    ||| contains_seq(lower, "bearer "@)
    ||| contains_seq(lower, "-----begin"@)
    ||| contains_seq(lower, "password="@)
}

/// The path of member `key` under `path`.
pub open spec fn member_path(path: Seq<char>, key: Seq<char>) -> Seq<char> {
    path + seq!['.'] + key
}

/// The path of item `index` under `path`.
pub open spec fn item_path(path: Seq<char>, index: nat) -> Seq<char> {
    path + seq!['['] + dec_nat(index) + seq![']']
}

/// The first fault of a string at `path`, if any.
pub open spec fn text_fault(s: Seq<char>, path: Seq<char>) -> Option<(SanitizeKind, Seq<char>)> {
    if s.len() > max_public_string() {
        Some((SanitizeKind::TextTooLong, path))
    } else if text_has_marker(ascii_lower(s)) {
        Some((SanitizeKind::ForbiddenMarker, path))
    } else {
        None
    }
}

/// The first fault met when walking `v` (found at `path`) depth first, in
/// document order.
pub open spec fn first_fault(v: JsonView, path: Seq<char>) -> Option<(SanitizeKind, Seq<char>)>
    decreases v,
{
    match v {
        JsonView::Object(es) => entries_fault(es, path),
        JsonView::Array(items) => items_fault(items, path, 0),
        JsonView::Text(s) => text_fault(s, path),
        _ => None,
    }
}

/// The first fault among the object entries `es` of the object at `path`.
pub open spec fn entries_fault(es: Seq<(Seq<char>, JsonView)>, path: Seq<char>) -> Option<
    (SanitizeKind, Seq<char>),
>
    decreases es,
{
    if es.len() == 0 {
        None
    } else {
        let child = member_path(path, es[0].0);
        if key_is_forbidden(ascii_lower(es[0].0)) {
            Some((SanitizeKind::ForbiddenKey, child))
        } else {
            match first_fault(es[0].1, child) {
                Some(f) => Some(f),
                None => entries_fault(es.drop_first(), path),
            }
        }
    }
}

/// The first fault among `items`, the items from position `start` on of the
/// array at `path`.
pub open spec fn items_fault(items: Seq<JsonView>, path: Seq<char>, start: nat) -> Option<
    (SanitizeKind, Seq<char>),
>
    decreases items,
{
    if items.len() == 0 {
        None
    } else {
        match first_fault(items[0], item_path(path, start)) {
            Some(f) => Some(f),
            None => items_fault(items.drop_first(), path, start + 1),
        }
    }
}

/// Whether `v` may be published: no key anywhere names raw or secret
/// material, and every string is short enough and free of credential
/// markers.
pub open spec fn json_is_public(v: JsonView) -> bool
    decreases v,
{
    match v {
        JsonView::Object(es) => forall|i: int|
            0 <= i < es.len() ==> !key_is_forbidden(ascii_lower(#[trigger] es[i].0))
                && json_is_public(es[i].1),
        JsonView::Array(items) => forall|i: int|
            0 <= i < items.len() ==> json_is_public(#[trigger] items[i]),
        JsonView::Text(s) => text_fault(s, seq![]) is None,
        _ => true,
    }
}

fn forbidden_key(lower: &[char]) -> (r: bool)
    ensures
        r == key_is_forbidden(lower@),
{
    contains_chars(lower, chars_of("rawfields").as_slice()) || contains_chars(
        lower,
        chars_of("raw_html").as_slice(),
    ) || contains_chars(lower, chars_of("raw html").as_slice()) || contains_chars(
        lower,
        chars_of("full_body").as_slice(),
    ) || contains_chars(lower, chars_of("body_html").as_slice()) || contains_chars(
        lower,
        chars_of("api_key").as_slice(),
    ) || contains_chars(lower, chars_of("secret").as_slice()) || contains_chars(
        lower,
        chars_of("access_token").as_slice(),
    ) || contains_chars(lower, chars_of("refresh_token").as_slice()) || contains_chars(
        lower,
        chars_of("authorization").as_slice(),
    ) || contains_chars(lower, chars_of("stacktrace").as_slice())
}

fn marker_in_text(lower: &[char]) -> (r: bool)
    ensures
        r == text_has_marker(lower@),
{
    contains_chars(lower, chars_of("bearer ").as_slice()) || contains_chars(
        lower,
        chars_of("-----begin").as_slice(),
    ) || contains_chars(lower, chars_of("password=").as_slice())
}

fn path_with_member(path: &str, key: &str) -> (r: String)
    ensures
        r@ == member_path(path@, key@),
{
    let mut out = owned(path);
    push_char(&mut out, '.');
    push_str(&mut out, key);
    out
}

fn path_with_item(path: &str, index: usize) -> (r: String)
    ensures
        r@ == item_path(path@, index as nat),
{
    let mut out = owned(path);
    push_char(&mut out, '[');
    let d = u64_to_dec(index as u64);
    push_chars(&mut out, d.as_slice());
    push_char(&mut out, ']');
    out
}

fn check_text(s: &str, path: &str) -> (r: Result<(), SanitizeError>)
    ensures
        match r {
            Ok(()) => text_fault(s@, path@) is None,
            Err(e) => text_fault(s@, path@) == Some((e.kind, e.path@)),
        },
{
    let cs = chars_of(s);
    if cs.len() > 2400 {
        return Err(SanitizeError { kind: SanitizeKind::TextTooLong, path: owned(path) });
    }
    let lower = to_ascii_lower(cs.as_slice());
    if marker_in_text(lower.as_slice()) {
        return Err(SanitizeError { kind: SanitizeKind::ForbiddenMarker, path: owned(path) });
    }
    Ok(())
}

proof fn lemma_entries_step(es: Seq<(Seq<char>, JsonView)>, path: Seq<char>, i: int)
    requires
        0 <= i < es.len(),
    ensures
        entries_fault(es.skip(i), path) == ({
            let child = member_path(path, es[i].0);
            if key_is_forbidden(ascii_lower(es[i].0)) {
                Some((SanitizeKind::ForbiddenKey, child))
            } else {
                match first_fault(es[i].1, child) {
                    Some(f) => Some(f),
                    None => entries_fault(es.skip(i + 1), path),
                }
            }
        }),
{
    assert(es.skip(i).drop_first() == es.skip(i + 1));
}

proof fn lemma_items_step(items: Seq<JsonView>, path: Seq<char>, i: int)
    requires
        0 <= i < items.len(),
    ensures
        items_fault(items.skip(i), path, i as nat) == ({
            match first_fault(items[i], item_path(path, i as nat)) {
                Some(f) => Some(f),
                None => items_fault(items.skip(i + 1), path, (i + 1) as nat),
            }
        }),
{
    assert(items.skip(i).drop_first() == items.skip(i + 1));
}

/// Walks `value`, found at `path`, and reports the first fault met.
fn sanitize_value(value: &JsonValue, path: &str) -> (r: Result<(), SanitizeError>)
    ensures
        match r {
            Ok(()) => first_fault(value@, path@) is None,
            Err(e) => first_fault(value@, path@) == Some((e.kind, e.path@)),
        },
    decreases value,
{
    match value {
        JsonValue::Object(map) => {
            let ghost ev = entries_view(map@);
            let mut i: usize = 0;
            proof {
                assert(ev.skip(0) == ev);
            }
            while i < map.len()
                invariant
                    *value == JsonValue::Object(*map),
                    ev == entries_view(map@),
                    i <= map@.len(),
                    entries_fault(ev.skip(i as int), path@) == entries_fault(ev, path@),
                decreases map@.len() - i,
            {
                let key = &map[i].0;
                let child = path_with_member(path, key.as_str());
                proof {
                    lemma_entries_step(ev, path@, i as int);
                    assert(ev[i as int] == (map@[i as int].0@, map@[i as int].1@));
                }
                let key_chars = chars_of(key.as_str());
                let key_lower = to_ascii_lower(key_chars.as_slice());
                if forbidden_key(key_lower.as_slice()) {
                    return Err(SanitizeError { kind: SanitizeKind::ForbiddenKey, path: child });
                }
                proof {
                    assert(decreases_to!(*value => (*value)->Object_0));
                }
                match sanitize_value(&map[i].1, child.as_str()) {
                    Ok(()) => {},
                    Err(e) => {
                        return Err(e);
                    },
                }
                i = i + 1;
            }
            proof {
                assert(ev.skip(i as int).len() == 0);
            }
            Ok(())
        },
        JsonValue::Array(values) => {
            let ghost iv = items_view(values@);
            let mut index: usize = 0;
            proof {
                assert(iv.skip(0) == iv);
            }
            while index < values.len()
                invariant
                    *value == JsonValue::Array(*values),
                    iv == items_view(values@),
                    index <= values@.len(),
                    items_fault(iv.skip(index as int), path@, index as nat) == items_fault(
                        iv,
                        path@,
                        0,
                    ),
                decreases values@.len() - index,
            {
                let child = path_with_item(path, index);
                proof {
                    lemma_items_step(iv, path@, index as int);
                    assert(iv[index as int] == values@[index as int]@);
                    assert(decreases_to!(*value => (*value)->Array_0));
                }
                match sanitize_value(&values[index], child.as_str()) {
                    Ok(()) => {},
                    Err(e) => {
                        return Err(e);
                    },
                }
                index = index + 1;
            }
            proof {
                assert(iv.skip(index as int).len() == 0);
            }
            Ok(())
        },
        JsonValue::Text(text) => check_text(text.as_str(), path),
        _ => Ok(()),
    }
}

/// Checks that `value` may be published: no object key names raw or
/// secret material, and no string is too long or carries a credential
/// marker. Reports the first fault, by its path from the root `$`.
pub fn sanitize_public_json(value: &JsonValue) -> (r: Result<(), SanitizeError>)
    ensures
        match r {
            Ok(()) => first_fault(value@, "$"@) is None,
            Err(e) => first_fault(value@, "$"@) == Some((e.kind, e.path@)),
        },
{
    let root = owned("$");
    sanitize_value(value, root.as_str())
}

impl SanitizeError {
    /// The message that describes this fault.
    pub fn message(&self) -> (r: String)
        ensures
            r@ == match self.kind {
                SanitizeKind::ForbiddenKey => "public export contains forbidden key: "@ + self.path@,
                SanitizeKind::TextTooLong => "public export string too long at "@ + self.path@,
                SanitizeKind::ForbiddenMarker => "public export contains forbidden value marker at "@
                    + self.path@,
            },
    {
        match self.kind {
            SanitizeKind::ForbiddenKey => concat2(
                "public export contains forbidden key: ",
                self.path.as_str(),
            ),
            SanitizeKind::TextTooLong => concat2(
                "public export string too long at ",
                self.path.as_str(),
            ),
            SanitizeKind::ForbiddenMarker => concat2(
                "public export contains forbidden value marker at ",
                self.path.as_str(),
            ),
        }
    }
}

// ---------------------------------------------------------------------------
// Laws.
/// A value passes the sanitizer exactly when it is publishable: no key
/// anywhere in it names raw or secret material, and no string anywhere in it
/// is too long or carries a credential marker. Where the walk starts does not
/// matter.
pub proof fn lemma_fault_free_iff_public(v: JsonView, path: Seq<char>)
    ensures
        (first_fault(v, path) is None) <==> json_is_public(v),
    decreases v,
{
    match v {
        JsonView::Object(es) => {
            lemma_entries_fault_free(es, path);
        },
        JsonView::Array(items) => {
            lemma_items_fault_free(items, path, 0);
        },
        _ => {},
    }
}

proof fn lemma_entries_fault_free(es: Seq<(Seq<char>, JsonView)>, path: Seq<char>)
    ensures
        (entries_fault(es, path) is None) <==> (forall|i: int|
            0 <= i < es.len() ==> !key_is_forbidden(ascii_lower(#[trigger] es[i].0))
                && json_is_public(es[i].1)),
    decreases es,
{
    if es.len() > 0 {
        let rest = es.drop_first();
        lemma_fault_free_iff_public(es[0].1, member_path(path, es[0].0));
        lemma_entries_fault_free(rest, path);
        if entries_fault(es, path) is None {
            assert(!key_is_forbidden(ascii_lower(es[0].0)));
            assert(first_fault(es[0].1, member_path(path, es[0].0)) is None);
            assert(entries_fault(rest, path) is None);
            assert forall|i: int| 0 <= i < es.len() implies !key_is_forbidden(
                ascii_lower(#[trigger] es[i].0),
            ) && json_is_public(es[i].1) by {
                if i > 0 {
                    assert(rest[i - 1] == es[i]);
                    assert(!key_is_forbidden(ascii_lower(rest[i - 1].0)));
                }
            }
        }
        if forall|i: int|
            0 <= i < es.len() ==> !key_is_forbidden(ascii_lower(#[trigger] es[i].0))
                && json_is_public(es[i].1) {
            assert forall|i: int| 0 <= i < rest.len() implies !key_is_forbidden(
                ascii_lower(#[trigger] rest[i].0),
            ) && json_is_public(rest[i].1) by {
                assert(rest[i] == es[i + 1]);
            }
        }
    }
}

proof fn lemma_items_fault_free(items: Seq<JsonView>, path: Seq<char>, start: nat)
    ensures
        (items_fault(items, path, start) is None) <==> (forall|i: int|
            0 <= i < items.len() ==> json_is_public(#[trigger] items[i])),
    decreases items,
{
    if items.len() > 0 {
        let rest = items.drop_first();
        lemma_fault_free_iff_public(items[0], item_path(path, start));
        lemma_items_fault_free(rest, path, start + 1);
        if items_fault(items, path, start) is None {
            assert forall|i: int| 0 <= i < items.len() implies json_is_public(
                #[trigger] items[i],
            ) by {
                if i > 0 {
                    assert(rest[i - 1] == items[i]);
                }
            }
        }
        if forall|i: int| 0 <= i < items.len() ==> json_is_public(#[trigger] items[i]) {
            assert forall|i: int| 0 <= i < rest.len() implies json_is_public(
                #[trigger] rest[i],
            ) by {
                assert(rest[i] == items[i + 1]);
            }
        }
    }
}

/// Every fault the sanitizer reports lies on a path below the root it was
/// given: the reported path begins with the root path.
pub proof fn lemma_fault_path_under_root(v: JsonView, path: Seq<char>)
    ensures
        first_fault(v, path) matches Some(f) ==> starts_with_seq(f.1, path),
    decreases v,
{
    match v {
        JsonView::Object(es) => {
            lemma_entries_fault_under(es, path);
        },
        JsonView::Array(items) => {
            lemma_items_fault_under(items, path, 0);
        },
        _ => {
            assert(path.take(path.len() as int) == path);
        },
    }
}

proof fn lemma_prefix_trans(a: Seq<char>, b: Seq<char>, c: Seq<char>)
    requires
        starts_with_seq(a, b),
        starts_with_seq(b, c),
    ensures
        starts_with_seq(a, c),
{
    assert(a.take(c.len() as int) =~= b.take(c.len() as int));
}

proof fn lemma_entries_fault_under(es: Seq<(Seq<char>, JsonView)>, path: Seq<char>)
    ensures
        entries_fault(es, path) matches Some(f) ==> starts_with_seq(f.1, path),
    decreases es,
{
    if es.len() > 0 {
        let child = member_path(path, es[0].0);
        assert(child.take(path.len() as int) =~= path);
        lemma_fault_path_under_root(es[0].1, child);
        if let Some(f) = first_fault(es[0].1, child) {
            lemma_prefix_trans(f.1, child, path);
        }
        lemma_entries_fault_under(es.drop_first(), path);
    }
}

proof fn lemma_items_fault_under(items: Seq<JsonView>, path: Seq<char>, start: nat)
    ensures
        items_fault(items, path, start) matches Some(f) ==> starts_with_seq(f.1, path),
    decreases items,
{
    if items.len() > 0 {
        let child = item_path(path, start);
        assert(child.take(path.len() as int) =~= path);
        lemma_fault_path_under_root(items[0], child);
        if let Some(f) = first_fault(items[0], child) {
            lemma_prefix_trans(f.1, child, path);
        }
        lemma_items_fault_under(items.drop_first(), path, start + 1);
    }
}

/// A key whose ASCII lower-case form contains one of the listed words is
/// forbidden.
proof fn lemma_listed_key_forbidden(key: Seq<char>)
    requires
        ({
            let k = ascii_lower(key);
            ||| contains_seq(k, "rawfields"@)
            ||| contains_seq(k, "raw_html"@)
            ||| contains_seq(k, "raw html"@)
            ||| contains_seq(k, "full_body"@)
            ||| contains_seq(k, "body_html"@)
            ||| contains_seq(k, "api_key"@)
            ||| contains_seq(k, "secret"@)
            ||| contains_seq(k, "access_token"@)
            ||| contains_seq(k, "refresh_token"@)
            ||| contains_seq(k, "authorization"@)
            ||| contains_seq(k, "stacktrace"@)
        }),
    ensures
        key_is_forbidden(ascii_lower(key)),
{
}

/// An object with a member whose name, in ASCII lower case, contains
/// `rawfields`, `raw_html`, `raw html`, `full_body`, `body_html`,
/// `api_key`, `secret`, `access_token`, `refresh_token`, `authorization`
/// or `stacktrace` is refused for public export; when that member comes
/// first, the refusal is a forbidden key at that member's path.
pub proof fn lemma_forbidden_keys_refused(es: Seq<(Seq<char>, JsonView)>, path: Seq<char>, i: int)
    requires
        0 <= i < es.len(),
        ({
            let k = ascii_lower(es[i].0);
            ||| contains_seq(k, "rawfields"@)
            ||| contains_seq(k, "raw_html"@)
            ||| contains_seq(k, "raw html"@)
            ||| contains_seq(k, "full_body"@)
            ||| contains_seq(k, "body_html"@)
            ||| contains_seq(k, "api_key"@)
            ||| contains_seq(k, "secret"@)
            ||| contains_seq(k, "access_token"@)
            ||| contains_seq(k, "refresh_token"@)
            ||| contains_seq(k, "authorization"@)
            ||| contains_seq(k, "stacktrace"@)
        }),
    ensures
        first_fault(JsonView::Object(es), path) is Some,
        !json_is_public(JsonView::Object(es)),
        i == 0 ==> first_fault(JsonView::Object(es), path) == Some(
            (SanitizeKind::ForbiddenKey, path + seq!['.'] + es[0].0),
        ),
{
    lemma_listed_key_forbidden(es[i].0);
    lemma_fault_free_iff_public(JsonView::Object(es), path);
}

/// A string is refused for public export when it is longer than 2400
/// characters (too long), and otherwise when its ASCII lower-case form
/// contains `bearer `, `-----begin` or `password=` (a credential marker);
/// any other string passes.
pub proof fn lemma_text_refusals(s: Seq<char>, path: Seq<char>)
    ensures
        s.len() > 2400 ==> first_fault(JsonView::Text(s), path) == Some(
            (SanitizeKind::TextTooLong, path),
        ),
        s.len() <= 2400 && ({
            let k = ascii_lower(s);
            ||| contains_seq(k, "bearer "@)
            ||| contains_seq(k, "-----begin"@)
            ||| contains_seq(k, "password="@)
        }) ==> first_fault(JsonView::Text(s), path) == Some((SanitizeKind::ForbiddenMarker, path)),
        s.len() <= 2400 && !({
            let k = ascii_lower(s);
            ||| contains_seq(k, "bearer "@)
            ||| contains_seq(k, "-----begin"@)
            ||| contains_seq(k, "password="@)
        }) ==> first_fault(JsonView::Text(s), path) is None,
{
}

} // verus!
