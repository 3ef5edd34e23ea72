//! URLs: parsing and editing through the `url` crate, and the rules that
//! make a canonical link (no fragment, no tracking parameters, sorted query,
//! no trailing slash).
use vstd::prelude::*;
use vstd::relations::{sorted_by, total_ordering};
use crate::text::{
    ascii_lower, chars_of, concat2, eq_chars, eq_text, owned, push_char, push_str,
    starts_with_chars, starts_with_seq, string_of, to_ascii_lower, trim, trim_ws,
};

verus! {

broadcast use vstd::seq_lib::group_to_multiset_ensures;

#[verifier::external_type_specification]
#[verifier::external_body]
pub struct ExUrl(url::Url);

/// The serialization of the URL that `url::Url::parse` reads from `input`,
/// or `None` where it refuses `input`.
pub uninterp spec fn url_parse(input: Seq<char>) -> Option<Seq<char>>;

/// `url::Url::scheme` of the URL serialized as `url`.
pub uninterp spec fn url_scheme(url: Seq<char>) -> Seq<char>;

/// `url::Url::path` of the URL serialized as `url`.
pub uninterp spec fn url_path(url: Seq<char>) -> Seq<char>;

/// `url::Url::query_pairs` of the URL serialized as `url`: its query,
/// decoded as `application/x-www-form-urlencoded` name/value pairs.
pub uninterp spec fn url_query_pairs(url: Seq<char>) -> Seq<(Seq<char>, Seq<char>)>;

/// The serialization after `url::Url::set_fragment(fragment)` on the URL
/// serialized as `url`.
pub uninterp spec fn url_with_fragment(url: Seq<char>, fragment: Option<Seq<char>>) -> Seq<char>;

/// The serialization after `url::Url::set_query(query)` on the URL
/// serialized as `url`.
pub uninterp spec fn url_with_query(url: Seq<char>, query: Option<Seq<char>>) -> Seq<char>;

/// The serialization after `url::Url::set_path(path)` on the URL serialized
/// as `url`.
pub uninterp spec fn url_with_path(url: Seq<char>, path: Seq<char>) -> Seq<char>;

/// The text of an optional string.
pub open spec fn opt_str_view(o: Option<&str>) -> Option<Seq<char>> {
    match o {
        Some(s) => Some(s@),
        None => None,
    }
}

/// A parsed absolute URL. Its view is its serialization, which the `url`
/// crate treats as the URL's identity (equality and order go by it).
pub struct WebUrl {
    url: url::Url,
    serialization: String,
}

impl View for WebUrl {
    type V = Seq<char>;

    closed spec fn view(&self) -> Seq<char> {
        self.serialization@
    }
}

impl WebUrl {
    /// Parses an absolute URL (`url::Url::parse`); `None` where the crate
    /// refuses the input. Claims that the result's serialization is the one
    /// named by `url_parse`.
    #[verifier::external_body]
    pub(crate) fn parse(input: &str) -> (r: Option<WebUrl>)
        ensures
            match r {
                Some(u) => url_parse(input@) == Some(u@),
                None => url_parse(input@) is None,
            },
    {
        match url::Url::parse(input) {
            Ok(url) => {
                let serialization = url.as_str().to_string();
                Some(WebUrl { url, serialization })
            },
            Err(_) => None,
        }
    }

    /// The scheme (`url::Url::scheme`), as named by `url_scheme`.
    #[verifier::external_body]
    pub(crate) fn scheme(&self) -> (r: String)
        ensures
            r@ == url_scheme(self@),
    {
        self.url.scheme().to_string()
    }

    /// The path (`url::Url::path`), as named by `url_path`.
    #[verifier::external_body]
    pub(crate) fn path(&self) -> (r: String)
        ensures
            r@ == url_path(self@),
    {
        self.url.path().to_string()
    }

    /// The decoded query pairs (`url::Url::query_pairs`), as named by
    /// `url_query_pairs`.
    #[verifier::external_body]
    pub(crate) fn query_pairs(&self) -> (r: Vec<(String, String)>)
        ensures
            pairs_view(r@) == url_query_pairs(self@),
    {
        self.url.query_pairs().map(|(k, v)| (k.into_owned(), v.into_owned())).collect()
    }

    /// Replaces the fragment (`url::Url::set_fragment`); the new
    /// serialization is the one named by `url_with_fragment`.
    #[verifier::external_body]
    pub(crate) fn set_fragment(&mut self, fragment: Option<&str>)
        ensures
            final(self)@ == url_with_fragment(old(self)@, opt_str_view(fragment)),
    {
        self.url.set_fragment(fragment);
        self.serialization = self.url.as_str().to_string();
    }

    /// Replaces the query (`url::Url::set_query`); the new serialization is
    /// the one named by `url_with_query`.
    #[verifier::external_body]
    pub(crate) fn set_query(&mut self, query: Option<&str>)
        ensures
            final(self)@ == url_with_query(old(self)@, opt_str_view(query)),
    {
        self.url.set_query(query);
        self.serialization = self.url.as_str().to_string();
    }

    /// Replaces the path (`url::Url::set_path`); the new serialization is
    /// the one named by `url_with_path`.
    #[verifier::external_body]
    pub(crate) fn set_path(&mut self, path: &str)
        ensures
            final(self)@ == url_with_path(old(self)@, path@),
    {
        self.url.set_path(path);
        self.serialization = self.url.as_str().to_string();
    }

    /// The serialization of this URL.
    pub fn to_text(&self) -> (r: String)
        ensures
            r@ == self@,
    {
        self.serialization.clone()
    }
}

// ---------------------------------------------------------------------------
// Query pairs.
/// The text of each name/value pair.
pub open spec fn pairs_view(ps: Seq<(String, String)>) -> Seq<(Seq<char>, Seq<char>)> {
    ps.map_values(|p: (String, String)| (p.0@, p.1@))
}

/// Whether a query parameter name is a tracking parameter, compared without
/// regard to ASCII case: `utm_*`, `fbclid`, `gclid`, `mc_cid`, `mc_eid`,
/// `ref` or `snr`.
pub open spec fn is_tracking_key(key: Seq<char>) -> bool {
    let k = ascii_lower(key);
    ||| starts_with_seq(k, "utm_"@)
    ||| k == "fbclid"@
    ||| k == "gclid"@
    ||| k == "mc_cid"@
    ||| k == "mc_eid"@
    ||| k == "ref"@
    ||| k == "snr"@
}

/// Whether `key` names a tracking parameter.
pub fn is_tracking_param(key: &str) -> (r: bool)
    ensures
        r == is_tracking_key(key@),
{
    let kc = chars_of(key);
    let k = to_ascii_lower(kc.as_slice());
    let ks = k.as_slice();
    starts_with_chars(ks, chars_of("utm_").as_slice()) || eq_chars(
        ks,
        chars_of("fbclid").as_slice(),
    ) || eq_chars(ks, chars_of("gclid").as_slice()) || eq_chars(
        ks,
        chars_of("mc_cid").as_slice(),
    ) || eq_chars(ks, chars_of("mc_eid").as_slice()) || eq_chars(ks, chars_of("ref").as_slice())
        || eq_chars(ks, chars_of("snr").as_slice())
}

/// The filter that keeps the pairs whose name is not a tracking parameter.
pub open spec fn untracked() -> spec_fn((Seq<char>, Seq<char>)) -> bool {
    |p: (Seq<char>, Seq<char>)| !is_tracking_key(p.0)
}

/// Code-point order on text: the order of Rust's `String` (byte order of
/// UTF-8, which follows code points).
pub open spec fn text_le(a: Seq<char>, b: Seq<char>) -> bool
    decreases a.len(),
{
    if a.len() == 0 {
        true
    } else if b.len() == 0 {
        false
    } else if a[0] < b[0] {
        true
    } else if a[0] > b[0] {
        false
    } else {
        text_le(a.drop_first(), b.drop_first())
    }
}

/// The order of `(String, String)` tuples: by name, then by value.
pub open spec fn pair_le(p: (Seq<char>, Seq<char>), q: (Seq<char>, Seq<char>)) -> bool {
    if p.0 == q.0 {
        text_le(p.1, q.1)
    } else {
        text_le(p.0, q.0)
    }
}

/// [`pair_le`] as a relation.
pub open spec fn pair_order() -> spec_fn((Seq<char>, Seq<char>), (Seq<char>, Seq<char>)) -> bool {
    |p: (Seq<char>, Seq<char>), q: (Seq<char>, Seq<char>)| pair_le(p, q)
}

/// The query pairs that a canonical link keeps: tracking parameters
/// dropped, the rest sorted by name and then value.
pub open spec fn tidy_pairs(ps: Seq<(Seq<char>, Seq<char>)>) -> Seq<(Seq<char>, Seq<char>)> {
    ps.filter(untracked()).sort_by(pair_order())
}

/// The query text for `ps`: `name=value` items joined by `&`.
pub open spec fn query_text(ps: Seq<(Seq<char>, Seq<char>)>) -> Seq<char>
    decreases ps.len(),
{
    if ps.len() == 0 {
        seq![]
    } else if ps.len() == 1 {
        ps[0].0 + seq!['='] + ps[0].1
    } else {
        query_text(ps.drop_last()) + seq!['&'] + (ps.last().0 + seq!['='] + ps.last().1)
    }
}

proof fn lemma_text_le_reflexive(a: Seq<char>)
    ensures
        text_le(a, a),
    decreases a.len(),
{
    if a.len() > 0 {
        lemma_text_le_reflexive(a.drop_first());
    }
}

proof fn lemma_text_le_antisymmetric(a: Seq<char>, b: Seq<char>)
    requires
        text_le(a, b),
        text_le(b, a),
    ensures
        a == b,
    decreases a.len(),
{
    if a.len() > 0 && b.len() > 0 {
        assert(a[0] == b[0]);
        lemma_text_le_antisymmetric(a.drop_first(), b.drop_first());
        assert(a =~= seq![a[0]] + a.drop_first());
        assert(b =~= seq![b[0]] + b.drop_first());
    } else {
        assert(a.len() == 0 && b.len() == 0);
        assert(a =~= b);
    }
}

proof fn lemma_text_le_transitive(a: Seq<char>, b: Seq<char>, c: Seq<char>)
    requires
        text_le(a, b),
        text_le(b, c),
    ensures
        text_le(a, c),
    decreases a.len(),
{
    if a.len() > 0 && b.len() > 0 && c.len() > 0 {
        if a[0] == b[0] && b[0] == c[0] {
            lemma_text_le_transitive(a.drop_first(), b.drop_first(), c.drop_first());
        }
    }
}

proof fn lemma_text_le_total(a: Seq<char>, b: Seq<char>)
    ensures
        text_le(a, b) || text_le(b, a),
    decreases a.len(),
{
    if a.len() > 0 && b.len() > 0 {
        lemma_text_le_total(a.drop_first(), b.drop_first());
    }
}

/// The pair order is a total order.
pub proof fn lemma_pair_order_total()
    ensures
        total_ordering(pair_order()),
{
    let r = pair_order();
    assert forall|p: (Seq<char>, Seq<char>)| #[trigger] r(p, p) by {
        lemma_text_le_reflexive(p.1);
    }
    assert forall|p: (Seq<char>, Seq<char>), q: (Seq<char>, Seq<char>)|
        #[trigger] r(p, q) && #[trigger] r(q, p) implies p == q by {
        if p.0 == q.0 {
            lemma_text_le_antisymmetric(p.1, q.1);
        } else {
            lemma_text_le_antisymmetric(p.0, q.0);
        }
    }
    assert forall|p: (Seq<char>, Seq<char>), q: (Seq<char>, Seq<char>), s: (
        Seq<char>,
        Seq<char>,
    )| #[trigger] r(p, q) && #[trigger] r(q, s) implies r(p, s) by {
        if p.0 == q.0 && q.0 == s.0 {
            lemma_text_le_transitive(p.1, q.1, s.1);
        } else if p.0 == q.0 {
        } else if q.0 == s.0 {
        } else {
            lemma_text_le_transitive(p.0, q.0, s.0);
            if p.0 == s.0 {
                lemma_text_le_antisymmetric(p.0, q.0);
            }
        }
    }
    assert forall|p: (Seq<char>, Seq<char>), q: (Seq<char>, Seq<char>)|
        #[trigger] r(p, q) || #[trigger] r(q, p) by {
        if p.0 == q.0 {
            lemma_text_le_total(p.1, q.1);
        } else {
            lemma_text_le_total(p.0, q.0);
        }
    }
}

/// Under a total order, a sorted sequence is determined by its multiset.
pub proof fn lemma_sorted_unique<A>(a: Seq<A>, b: Seq<A>, leq: spec_fn(A, A) -> bool)
    requires
        total_ordering(leq),
        sorted_by(a, leq),
        sorted_by(b, leq),
        a.to_multiset() == b.to_multiset(),
    ensures
        a == b,
    decreases a.len(),
{
    assert(a.len() == a.to_multiset().len());
    assert(b.len() == b.to_multiset().len());
    if a.len() == 0 {
        assert(b.len() == 0);
        assert(a =~= b);
    } else {
        assert(b.len() == a.len());
        assert(b.to_multiset().count(b[0]) > 0);
        assert(a.to_multiset().count(a[0]) > 0);
        assert(b.contains(a[0]));
        assert(a.contains(b[0]));
        let ia = choose|i: int| 0 <= i < a.len() && a[i] == b[0];
        let ib = choose|i: int| 0 <= i < b.len() && b[i] == a[0];
        if ia > 0 {
            assert(leq(a[0], a[ia]));
        }
        if ib > 0 {
            assert(leq(b[0], b[ib]));
        }
        assert(leq(a[0], b[0]) || a[0] == b[0]);
        assert(leq(b[0], a[0]) || a[0] == b[0]);
        assert(a[0] == b[0]);
        assert(a.remove(0) == a.drop_first());
        assert(b.remove(0) == b.drop_first());
        assert(a.drop_first().to_multiset() == b.drop_first().to_multiset());
        lemma_sorted_unique(a.drop_first(), b.drop_first(), leq);
        assert(a =~= seq![a[0]] + a.drop_first());
        assert(b =~= seq![b[0]] + b.drop_first());
    }
}

/// Whether the text `a` comes no later than `b` in code-point order.
pub fn chars_le(a: &[char], b: &[char]) -> (r: bool)
    ensures
        r == text_le(a@, b@),
{
    let mut i: usize = 0;
    proof {
        assert(a@.skip(0) == a@);
        assert(b@.skip(0) == b@);
    }
    while i < a.len() && i < b.len()
        invariant
            i <= a@.len(),
            i <= b@.len(),
            text_le(a@, b@) == text_le(a@.skip(i as int), b@.skip(i as int)),
        decreases a@.len() - i,
    {
        let x = a[i];
        let y = b[i];
        proof {
            assert(a@.skip(i as int)[0] == a@[i as int]);
            assert(b@.skip(i as int)[0] == b@[i as int]);
            assert(a@.skip(i as int).drop_first() == a@.skip(i + 1));
            assert(b@.skip(i as int).drop_first() == b@.skip(i + 1));
        }
        if x < y {
            return true;
        }
        if x > y {
            return false;
        }
        i = i + 1;
    }
    i == a.len()
}

/// Whether the pair `p` comes no later than `q`.
fn pair_le_exec(p: &(String, String), q: &(String, String)) -> (r: bool)
    ensures
        r == pair_le((p.0@, p.1@), (q.0@, q.1@)),
{
    let p0 = chars_of(p.0.as_str());
    let q0 = chars_of(q.0.as_str());
    if eq_chars(p0.as_slice(), q0.as_slice()) {
        let p1 = chars_of(p.1.as_str());
        let q1 = chars_of(q.1.as_str());
        chars_le(p1.as_slice(), q1.as_slice())
    } else {
        chars_le(p0.as_slice(), q0.as_slice())
    }
}

proof fn lemma_pairs_view_push(ps: Seq<(String, String)>, p: (String, String))
    ensures
        pairs_view(ps.push(p)) == pairs_view(ps).push((p.0@, p.1@)),
{
    assert(pairs_view(ps.push(p)) =~= pairs_view(ps).push((p.0@, p.1@)));
}

proof fn lemma_pairs_view_insert(ps: Seq<(String, String)>, j: int, p: (String, String))
    requires
        0 <= j <= ps.len(),
    ensures
        pairs_view(ps.insert(j, p)) == pairs_view(ps).insert(j, (p.0@, p.1@)),
{
    assert(pairs_view(ps.insert(j, p)) =~= pairs_view(ps).insert(j, (p.0@, p.1@)));
}

/// The query pairs a canonical link keeps from `pairs`: tracking
/// parameters dropped, the rest sorted by name and then value.
pub fn tidy_query_pairs(pairs: &[(String, String)]) -> (r: Vec<(String, String)>)
    ensures
        pairs_view(r@) == tidy_pairs(pairs_view(pairs@)),
{
    let ghost all = pairs_view(pairs@);
    let ghost keep = untracked();
    let ghost leq = pair_order();
    proof {
        lemma_pair_order_total();
    }
    let mut out: Vec<(String, String)> = Vec::new();
    let mut i: usize = 0;
    while i < pairs.len()
        invariant
            all == pairs_view(pairs@),
            keep == untracked(),
            leq == pair_order(),
            total_ordering(leq),
            i <= pairs@.len(),
            sorted_by(pairs_view(out@), leq),
            pairs_view(out@).to_multiset() == all.take(i as int).filter(keep).to_multiset(),
        decreases pairs@.len() - i,
    {
        let ghost before = out@;
        let ghost pv = (pairs@[i as int].0@, pairs@[i as int].1@);
        proof {
            reveal_with_fuel(Seq::<_>::filter, 1);
            assert(all.take(i + 1).drop_last() == all.take(i as int));
            assert(all.take(i + 1).last() == pv);
        }
        if !is_tracking_param(pairs[i].0.as_str()) {
            let mut j: usize = 0;
            while j < out.len() && pair_le_exec(&out[j], &pairs[i])
                invariant
                    out@ == before,
                    i < pairs@.len(),
                    j <= out@.len(),
                    pv == (pairs@[i as int].0@, pairs@[i as int].1@),
                    leq == pair_order(),
                    forall|k: int| 0 <= k < j ==> leq(#[trigger] pairs_view(out@)[k], pv),
                decreases out@.len() - j,
            {
                j = j + 1;
            }
            let item = (pairs[i].0.clone(), pairs[i].1.clone());
            out.insert(j, item);
            proof {
                let sv = pairs_view(before);
                lemma_pairs_view_insert(before, j as int, item);
                let nv = sv.insert(j as int, pv);
                assert(pairs_view(out@) == nv);
                if j < sv.len() {
                    assert(!leq(sv[j as int], pv));
                    assert(leq(pv, sv[j as int]));
                }
                assert forall|a: int, b: int| 0 <= a < b < nv.len() implies #[trigger] leq(
                    nv[a],
                    nv[b],
                ) by {
                    if b < j {
                        assert(nv[a] == sv[a] && nv[b] == sv[b]);
                    } else if b == j {
                        assert(nv[a] == sv[a]);
                    } else if a < j {
                        assert(nv[a] == sv[a] && nv[b] == sv[b - 1]);
                        assert(leq(sv[a], pv));
                        assert(leq(pv, sv[j as int]));
                        if b - 1 > j {
                            assert(leq(sv[j as int], sv[b - 1]));
                        }
                    } else if a == j {
                        assert(nv[b] == sv[b - 1]);
                        if b - 1 > j {
                            assert(leq(sv[j as int], sv[b - 1]));
                        }
                    } else {
                        assert(nv[a] == sv[a - 1] && nv[b] == sv[b - 1]);
                    }
                }
                assert(nv.to_multiset() == sv.to_multiset().insert(pv));
            }
        }
        i = i + 1;
    }
    proof {
        assert(all.take(pairs@.len() as int) == all);
        all.filter(keep).lemma_sort_by_ensures(leq);
        lemma_sorted_unique(pairs_view(out@), all.filter(keep).sort_by(leq), leq);
    }
    out
}

/// The query text for `pairs`: `name=value` items joined by `&`.
pub fn query_from_pairs(pairs: &[(String, String)]) -> (r: String)
    ensures
        r@ == query_text(pairs_view(pairs@)),
{
    let ghost all = pairs_view(pairs@);
    let mut out = String::new();
    let mut i: usize = 0;
    while i < pairs.len()
        invariant
            all == pairs_view(pairs@),
            i <= pairs@.len(),
            out@ == query_text(all.take(i as int)),
        decreases pairs@.len() - i,
    {
        proof {
            assert(all.take(i + 1).drop_last() == all.take(i as int));
        }
        if i > 0 {
            push_char(&mut out, '&');
        }
        push_str(&mut out, pairs[i].0.as_str());
        push_char(&mut out, '=');
        push_str(&mut out, pairs[i].1.as_str());
        i = i + 1;
        proof {
            let t = all.take(i as int);
            if i == 1 {
                assert(t.len() == 1);
                assert(Seq::<char>::empty() + pairs@[0].0@ == pairs@[0].0@);
            }
        }
    }
    proof {
        assert(all.take(pairs@.len() as int) == all);
    }
    out
}

// ---------------------------------------------------------------------------
// Paths.
/// `p` without its trailing `/` characters.
pub open spec fn without_trailing_slashes(p: Seq<char>) -> Seq<char>
    decreases p.len(),
{
    if p.len() > 0 && p.last() == '/' {
        without_trailing_slashes(p.drop_last())
    } else {
        p
    }
}

/// The path a canonical link carries in place of `path`, when it changes:
/// a path other than `/` loses its trailing slashes unless nothing would
/// remain.
pub open spec fn tidy_path(path: Seq<char>) -> Option<Seq<char>> {
    let t = without_trailing_slashes(path);
    if path != "/"@ && t.len() > 0 {
        Some(t)
    } else {
        None
    }
}

/// `path` without its trailing slashes.
pub fn trim_trailing_slashes(path: &str) -> (r: String)
    ensures
        r@ == without_trailing_slashes(path@),
{
    let mut cs = chars_of(path);
    let mut n: usize = cs.len();
    proof {
        assert(cs@.take(cs@.len() as int) == cs@);
    }
    while n > 0 && cs[n - 1] == '/'
        invariant
            n <= cs@.len(),
            without_trailing_slashes(cs@) == without_trailing_slashes(cs@.take(n as int)),
        decreases n,
    {
        proof {
            assert(cs@.take(n as int).drop_last() == cs@.take(n - 1));
        }
        n = n - 1;
    }
    proof {
        assert(cs@.take(cs@.len() as int) == cs@);
    }
    cs.truncate(n);
    string_of(cs.as_slice())
}

// ---------------------------------------------------------------------------
// Canonical links.
/// The canonical form of a link: surrounding whitespace trimmed; then, when
/// the `url` crate parses it, its fragment and tracking parameters dropped,
/// its remaining query pairs sorted, and trailing slashes removed from its
/// path. Text that does not parse is kept as trimmed.
pub open spec fn canonical_url(input: Seq<char>) -> Seq<char> {
    let t = trim_ws(input);
    match url_parse(t) {
        None => t,
        Some(parsed) => {
            let no_fragment = url_with_fragment(parsed, None);
            let kept = tidy_pairs(url_query_pairs(no_fragment));
            let no_query = url_with_query(no_fragment, None);
            let pathed = match tidy_path(url_path(no_query)) {
                Some(p) => url_with_path(no_query, p),
                None => no_query,
            };
            if kept.len() > 0 {
                url_with_query(pathed, Some(query_text(kept)))
            } else {
                pathed
            }
        },
    }
}

/// Whether `input` parses as an absolute URL whose scheme is `http` or
/// `https`.
pub open spec fn is_public_http(input: Seq<char>) -> bool {
    match url_parse(input) {
        Some(u) => url_scheme(u) == "http"@ || url_scheme(u) == "https"@,
        None => false,
    }
}

/// The canonical form of a link (see [`canonical_url`]).
pub fn canonicalize_url(input: &str) -> (r: String)
    ensures
        r@ == canonical_url(input@),
{
    let trimmed = trim(input);
    match WebUrl::parse(trimmed.as_str()) {
        Some(mut url) => {
            url.set_fragment(None);
            let pairs = url.query_pairs();
            let kept = tidy_query_pairs(pairs.as_slice());
            url.set_query(None);
            let path = url.path();
            if !eq_text(path.as_str(), "/") {
                let trimmed_path = trim_trailing_slashes(path.as_str());
                if !trimmed_path.as_str().is_empty() {
                    url.set_path(trimmed_path.as_str());
                }
            }
            if kept.len() > 0 {
                let query = query_from_pairs(kept.as_slice());
                url.set_query(Some(query.as_str()));
            }
            url.to_text()
        },
        None => trimmed,
    }
}

/// Whether `input` is an absolute `http` or `https` URL.
pub fn is_public_http_url(input: &str) -> (r: bool)
    ensures
        r == is_public_http(input@),
{
    match WebUrl::parse(input) {
        Some(url) => {
            let scheme = url.scheme();
            eq_text(scheme.as_str(), "http") || eq_text(scheme.as_str(), "https")
        },
        None => false,
    }
}

/// A link refused for public listing: its canonical form is not an
/// absolute `http`/`https` URL.
#[derive(Debug)]
pub struct PublicUrlError {
    /// The link as given.
    pub input: String,
}

impl PublicUrlError {
    /// The message that describes this refusal.
    pub fn message(&self) -> (r: String)
        ensures
            r@ == "public item URL must be http/https: "@ + self.input@,
    {
        concat2("public item URL must be http/https: ", self.input.as_str())
    }
}

/// The canonical form of `input`, provided it is an absolute `http` or
/// `https` URL.
pub fn require_public_http_url(input: &str) -> (r: Result<String, PublicUrlError>)
    ensures
        match r {
            Ok(c) => c@ == canonical_url(input@) && is_public_http(c@),
            Err(e) => e.input@ == input@ && !is_public_http(canonical_url(input@)),
        },
{
    let canonical = canonicalize_url(input);
    if !is_public_http_url(canonical.as_str()) {
        return Err(PublicUrlError { input: owned(input) });
    }
    Ok(canonical)
}

/// The query a canonical link keeps is in name-then-value order, holds no
/// tracking parameter, and holds every other pair of the given query
/// exactly as often as the given query does.
pub proof fn lemma_tidy_pairs_sorted_untracked(ps: Seq<(Seq<char>, Seq<char>)>)
    ensures
        sorted_by(tidy_pairs(ps), pair_order()),
        forall|i: int|
            0 <= i < tidy_pairs(ps).len() ==> !is_tracking_key(#[trigger] tidy_pairs(ps)[i].0),
        tidy_pairs(ps).to_multiset() == ps.filter(untracked()).to_multiset(),
{
    lemma_pair_order_total();
    let kept = ps.filter(untracked());
    kept.lemma_sort_by_ensures(pair_order());
    assert forall|i: int| 0 <= i < tidy_pairs(ps).len() implies !is_tracking_key(
        #[trigger] tidy_pairs(ps)[i].0,
    ) by {
        let x = tidy_pairs(ps)[i];
        assert(tidy_pairs(ps).contains(x));
        assert(kept.contains(x));
        let k = choose|k: int| 0 <= k < kept.len() && kept[k] == x;
        assert(untracked()(kept[k]));
    }
}

proof fn lemma_ascii_lower_idempotent(s: Seq<char>)
    ensures
        ascii_lower(ascii_lower(s)) == ascii_lower(s),
{
    assert(ascii_lower(ascii_lower(s)) =~= ascii_lower(s));
}

/// Tracking parameters are recognised without regard to ASCII case: a name
/// is a tracking parameter exactly when its lower-case form is.
pub proof fn lemma_tracking_ignores_ascii_case(key: Seq<char>)
    ensures
        is_tracking_key(key) == is_tracking_key(ascii_lower(key)),
{
    lemma_ascii_lower_idempotent(key);
}

proof fn lemma_filter_keeps_count<A>(s: Seq<A>, pred: spec_fn(A) -> bool, x: A)
    requires
        pred(x),
    ensures
        s.filter(pred).to_multiset().count(x) == s.to_multiset().count(x),
    decreases s.len(),
{
    reveal(Seq::filter);
    if s.len() > 0 {
        let p = s.drop_last();
        lemma_filter_keeps_count(p, pred, x);
        assert(p.push(s.last()) == s);
        p.to_multiset_ensures();
        p.filter(pred).to_multiset_ensures();
    }
}

/// The query of a canonical link (the pairs kept by [`tidy_pairs`] from
/// the link's query) holds no tracking parameter: no name in it is, in
/// ASCII lower case, `fbclid`, `gclid`, `mc_cid`, `mc_eid`, `ref` or `snr`,
/// or begins with `utm_`. Every pair of the given query whose name is none
/// of these is kept, exactly as often as it occurs there.
pub proof fn lemma_canonical_query_drops_tracking(ps: Seq<(Seq<char>, Seq<char>)>)
    ensures
        forall|i: int|
            0 <= i < tidy_pairs(ps).len() ==> {
                let k = ascii_lower(#[trigger] tidy_pairs(ps)[i].0);
                &&& !starts_with_seq(k, "utm_"@)
                &&& k != "fbclid"@
                &&& k != "gclid"@
                &&& k != "mc_cid"@
                &&& k != "mc_eid"@
                &&& k != "ref"@
                &&& k != "snr"@
            },
        forall|p: (Seq<char>, Seq<char>)|
            {
                let k = ascii_lower(p.0);
                &&& !starts_with_seq(k, "utm_"@)
                &&& k != "fbclid"@
                &&& k != "gclid"@
                &&& k != "mc_cid"@
                &&& k != "mc_eid"@
                &&& k != "ref"@
                &&& k != "snr"@
            } ==> #[trigger] tidy_pairs(ps).to_multiset().count(p) == ps.to_multiset().count(p),
{
    lemma_tidy_pairs_sorted_untracked(ps);
    assert forall|p: (Seq<char>, Seq<char>)|
        {
            let k = ascii_lower(p.0);
            &&& !starts_with_seq(k, "utm_"@)
            &&& k != "fbclid"@
            &&& k != "gclid"@
            &&& k != "mc_cid"@
            &&& k != "mc_eid"@
            &&& k != "ref"@
            &&& k != "snr"@
        } implies #[trigger] tidy_pairs(ps).to_multiset().count(p) == ps.to_multiset().count(p) by {
        assert(untracked()(p));
        lemma_filter_keeps_count(ps, untracked(), p);
    }
}

/// A query name is recognised as tracking exactly when its ASCII lower-case
/// form is `fbclid`, `gclid`, `mc_cid`, `mc_eid`, `ref` or `snr`, or begins
/// with `utm_`.
pub proof fn lemma_tracking_names(key: Seq<char>)
    ensures
        is_tracking_key(key) <==> {
            let k = ascii_lower(key);
            ||| starts_with_seq(k, "utm_"@)
            ||| k == "fbclid"@
            ||| k == "gclid"@
            ||| k == "mc_cid"@
            ||| k == "mc_eid"@
            ||| k == "ref"@
            ||| k == "snr"@
        },
{
}

} // verus!
