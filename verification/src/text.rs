//! Character-level text handling: whitespace, ASCII case, substring search,
//! tag stripping, whitespace collapsing, truncation and decimal rendering.
use vstd::prelude::*;

verus! {

broadcast use vstd::string::group_string_axioms;

/// Appends one character (std `String::push`).
#[verifier::external_body]
pub(crate) fn push_char(s: &mut String, c: char)
    ensures
        final(s)@ == old(s)@.push(c),
{
    s.push(c);
}

/// The characters of `s`, in order.
pub fn chars_of(s: &str) -> (r: Vec<char>)
    ensures
        r@ == s@,
{
    let mut out: Vec<char> = Vec::new();
    for c in it: s.chars()
        invariant
            it.seq() == s@,
            out@ == s@.take(it.index()),
    {
        out.push(c);
    }
    out
}

/// A `String` holding exactly the characters `cs`.
pub fn string_of(cs: &[char]) -> (r: String)
    ensures
        r@ == cs@,
{
    let mut out = String::new();
    let mut i: usize = 0;
    while i < cs.len()
        invariant
            i <= cs@.len(),
            out@ == cs@.take(i as int),
        decreases cs@.len() - i,
    {
        push_char(&mut out, cs[i]);
        i = i + 1;
        proof {
            assert(cs@.take(i as int) == cs@.take(i - 1).push(cs@[i - 1]));
        }
    }
    proof {
        assert(cs@.take(cs@.len() as int) == cs@);
    }
    out
}

/// Appends the characters of `cs` to `out`.
pub fn push_chars(out: &mut String, cs: &[char])
    ensures
        final(out)@ == old(out)@ + cs@,
{
    let ghost start = out@;
    let mut i: usize = 0;
    while i < cs.len()
        invariant
            i <= cs@.len(),
            out@ == start + cs@.take(i as int),
        decreases cs@.len() - i,
    {
        push_char(out, cs[i]);
        i = i + 1;
        proof {
            assert(cs@.take(i as int) == cs@.take(i - 1).push(cs@[i - 1]));
        }
    }
    proof {
        assert(cs@.take(cs@.len() as int) == cs@);
    }
}

/// Appends the characters of `s` to `out`.
pub fn push_str(out: &mut String, s: &str)
    ensures
        final(out)@ == old(out)@ + s@,
{
    let cs = chars_of(s);
    push_chars(out, cs.as_slice());
}

/// The concatenation `a + b` as a new `String`.
pub fn concat2(a: &str, b: &str) -> (r: String)
    ensures
        r@ == a@ + b@,
{
    let mut out = String::new();
    push_str(&mut out, a);
    push_str(&mut out, b);
    proof {
        assert(Seq::<char>::empty() + a@ + b@ == a@ + b@);
    }
    out
}

/// A copy of `s` as an owned `String`.
pub fn owned(s: &str) -> (r: String)
    ensures
        r@ == s@,
{
    let cs = chars_of(s);
    string_of(cs.as_slice())
}

// ---------------------------------------------------------------------------
// Whitespace (the Unicode `White_Space` property, as used by std's
// `char::is_whitespace`, `str::trim` and `str::split_whitespace`).
/// Whether `c` has the Unicode `White_Space` property.
pub open spec fn is_ws(c: char) -> bool {
    let u = c as u32;
    ||| (0x09 <= u && u <= 0x0D)
    ||| u == 0x20
    ||| u == 0x85
    ||| u == 0xA0
    ||| u == 0x1680
    ||| (0x2000 <= u && u <= 0x200A)
    ||| u == 0x2028
    ||| u == 0x2029
    ||| u == 0x202F
    ||| u == 0x205F
    ||| u == 0x3000
}

/// Whether `c` is whitespace in the Unicode sense.
pub fn is_whitespace(c: char) -> (b: bool)
    ensures
        b == is_ws(c),
{
    let u = c as u32;
    (0x09 <= u && u <= 0x0D) || u == 0x20 || u == 0x85 || u == 0xA0 || u == 0x1680 || (0x2000
        <= u && u <= 0x200A) || u == 0x2028 || u == 0x2029 || u == 0x202F || u == 0x205F || u
        == 0x3000
}

/// `s` without its trailing whitespace.
pub open spec fn trim_end_ws(s: Seq<char>) -> Seq<char>
    decreases s.len(),
{
    if s.len() > 0 && is_ws(s.last()) {
        trim_end_ws(s.drop_last())
    } else {
        s
    }
}

/// `s` without its leading whitespace.
pub open spec fn trim_start_ws(s: Seq<char>) -> Seq<char>
    decreases s.len(),
{
    if s.len() > 0 && is_ws(s.first()) {
        trim_start_ws(s.drop_first())
    } else {
        s
    }
}

/// `s` without leading and trailing whitespace (std `str::trim`).
pub open spec fn trim_ws(s: Seq<char>) -> Seq<char> {
    trim_start_ws(trim_end_ws(s))
}

proof fn lemma_trim_end_prefix(s: Seq<char>, j: int)
    requires
        0 <= j <= s.len(),
        forall|k: int| j <= k < s.len() ==> is_ws(#[trigger] s[k]),
        j == 0 || !is_ws(s[j - 1]),
    ensures
        trim_end_ws(s) == s.take(j),
    decreases s.len(),
{
    if s.len() > j {
        assert(s.drop_last().take(j) == s.take(j));
        lemma_trim_end_prefix(s.drop_last(), j);
    } else {
        assert(s.take(j) == s);
    }
}

proof fn lemma_trim_start_suffix(s: Seq<char>, i: int)
    requires
        0 <= i <= s.len(),
        forall|k: int| 0 <= k < i ==> is_ws(#[trigger] s[k]),
        i == s.len() || !is_ws(s[i]),
    ensures
        trim_start_ws(s) == s.skip(i),
    decreases i,
{
    if i > 0 {
        assert(s.drop_first().skip(i - 1) == s.skip(i));
        lemma_trim_start_suffix(s.drop_first(), i - 1);
    } else {
        assert(s.skip(0) == s);
    }
}

/// The characters of `s` without leading and trailing whitespace.
pub fn trim_chars(s: &[char]) -> (r: Vec<char>)
    ensures
        r@ == trim_ws(s@),
{
    let mut j: usize = s.len();
    while j > 0 && is_whitespace(s[j - 1])
        invariant
            j <= s@.len(),
            forall|k: int| j <= k < s@.len() ==> is_ws(#[trigger] s@[k]),
        decreases j,
    {
        j = j - 1;
    }
    let mut i: usize = 0;
    while i < j && is_whitespace(s[i])
        invariant
            i <= j <= s@.len(),
            forall|k: int| 0 <= k < i ==> is_ws(#[trigger] s@[k]),
        decreases j - i,
    {
        i = i + 1;
    }
    let mut out: Vec<char> = Vec::new();
    let mut k: usize = i;
    while k < j
        invariant
            i <= k <= j <= s@.len(),
            out@ == s@.subrange(i as int, k as int),
        decreases j - k,
    {
        out.push(s[k]);
        k = k + 1;
    }
    proof {
        lemma_trim_end_prefix(s@, j as int);
        let t = s@.take(j as int);
        assert forall|k: int| 0 <= k < i implies is_ws(#[trigger] t[k]) by {
            assert(t[k] == s@[k]);
        }
        lemma_trim_start_suffix(t, i as int);
        assert(t.skip(i as int) == s@.subrange(i as int, j as int));
    }
    out
}

/// `s` without leading and trailing whitespace.
pub fn trim(s: &str) -> (r: String)
    ensures
        r@ == trim_ws(s@),
{
    let cs = chars_of(s);
    let t = trim_chars(cs.as_slice());
    string_of(t.as_slice())
}

// ---------------------------------------------------------------------------
// ASCII case folding (std `to_ascii_lowercase`).
/// `c` with `A`..=`Z` mapped to `a`..=`z`.
pub open spec fn ascii_lower_char(c: char) -> char {
    if 'A' <= c && c <= 'Z' {
        ((c as u32) + 32) as char
    } else {
        c
    }
}

/// `s` with every ASCII upper-case letter mapped to lower case.
pub open spec fn ascii_lower(s: Seq<char>) -> Seq<char> {
    s.map_values(|c: char| ascii_lower_char(c))
}

/// The ASCII lower-case form of one character.
pub fn to_ascii_lower_char(c: char) -> (r: char)
    ensures
        r == ascii_lower_char(c),
{
    if 'A' <= c && c <= 'Z' {
        let b = (c as u8) + 32;
        b as char
    } else {
        c
    }
}

/// The ASCII lower-case form of `s`.
pub fn to_ascii_lower(s: &[char]) -> (r: Vec<char>)
    ensures
        r@ == ascii_lower(s@),
{
    let mut out: Vec<char> = Vec::new();
    let mut i: usize = 0;
    while i < s.len()
        invariant
            i <= s@.len(),
            out@ == ascii_lower(s@.take(i as int)),
        decreases s@.len() - i,
    {
        out.push(to_ascii_lower_char(s[i]));
        i = i + 1;
        proof {
            assert(ascii_lower(s@.take(i as int)) == ascii_lower(s@.take(i - 1)).push(
                ascii_lower_char(s@[i - 1]),
            ));
        }
    }
    proof {
        assert(s@.take(s@.len() as int) == s@);
    }
    out
}

// ---------------------------------------------------------------------------
// Comparison and search.
/// Whether `a` and `b` hold the same characters.
pub fn eq_chars(a: &[char], b: &[char]) -> (r: bool)
    ensures
        r == (a@ == b@),
{
    if a.len() != b.len() {
        return false;
    }
    let mut i: usize = 0;
    while i < a.len()
        invariant
            a@.len() == b@.len(),
            i <= a@.len(),
            forall|k: int| 0 <= k < i ==> a@[k] == b@[k],
        decreases a@.len() - i,
    {
        if a[i] != b[i] {
            return false;
        }
        i = i + 1;
    }
    proof {
        assert(a@ =~= b@);
    }
    true
}

/// Whether the text `a` equals the text `b`.
pub fn eq_text(a: &str, b: &str) -> (r: bool)
    ensures
        r == (a@ == b@),
{
    let x = chars_of(a);
    let y = chars_of(b);
    eq_chars(x.as_slice(), y.as_slice())
}

/// Whether `needle` occurs in `hay` starting at position `i`.
pub open spec fn occurs_at(hay: Seq<char>, needle: Seq<char>, i: int) -> bool {
    0 <= i && i + needle.len() <= hay.len() && hay.subrange(i, i + needle.len()) == needle
}

/// Whether `needle` occurs somewhere in `hay` (std `str::contains`).
pub open spec fn contains_seq(hay: Seq<char>, needle: Seq<char>) -> bool {
    exists|i: int| #[trigger] occurs_at(hay, needle, i)
}

/// Whether `s` begins with `p` (std `str::starts_with`).
pub open spec fn starts_with_seq(s: Seq<char>, p: Seq<char>) -> bool {
    p.len() <= s.len() && s.take(p.len() as int) == p
}

fn matches_at(hay: &[char], needle: &[char], i: usize) -> (r: bool)
    requires
        i + needle@.len() <= hay@.len(),
    ensures
        r == occurs_at(hay@, needle@, i as int),
{
    let hl = hay.len();
    let mut k: usize = 0;
    while k < needle.len()
        invariant
            hl == hay@.len(),
            i + needle@.len() <= hay@.len(),
            k <= needle@.len(),
            forall|m: int| 0 <= m < k ==> hay@[i + m] == needle@[m],
        decreases needle@.len() - k,
    {
        if hay[i + k] != needle[k] {
            proof {
                assert(hay@.subrange(i as int, i + needle@.len())[k as int] != needle@[k as int]);
            }
            return false;
        }
        k = k + 1;
    }
    proof {
        assert(hay@.subrange(i as int, i + needle@.len()) =~= needle@);
    }
    true
}

/// Whether `needle` occurs in `hay`.
pub fn contains_chars(hay: &[char], needle: &[char]) -> (r: bool)
    ensures
        r == contains_seq(hay@, needle@),
{
    if needle.len() > hay.len() {
        proof {
            assert forall|i: int| !#[trigger] occurs_at(hay@, needle@, i) by {}
        }
        return false;
    }
    let last = hay.len() - needle.len();
    let mut i: usize = 0;
    loop
        invariant
            last + needle@.len() == hay@.len(),
            i <= last,
            forall|j: int| 0 <= j < i ==> !#[trigger] occurs_at(hay@, needle@, j),
        decreases last - i,
    {
        if matches_at(hay, needle, i) {
            return true;
        }
        if i == last {
            proof {
                assert forall|j: int| !#[trigger] occurs_at(hay@, needle@, j) by {
                    if 0 <= j < i {
                    }
                }
            }
            return false;
        }
        i = i + 1;
    }
}

/// Whether `s` begins with `p`.
pub fn starts_with_chars(s: &[char], p: &[char]) -> (r: bool)
    ensures
        r == starts_with_seq(s@, p@),
{
    if p.len() > s.len() {
        return false;
    }
    let r = matches_at(s, p, 0);
    proof {
        assert(s@.subrange(0, p@.len() as int) == s@.take(p@.len() as int));
    }
    r
}

// ---------------------------------------------------------------------------
// Tag stripping.
/// Whether, after reading `s`, the scanner is inside a `<...>` tag: the last
/// angle bracket in `s` is `<`.
pub open spec fn in_tag_after(s: Seq<char>) -> bool
    decreases s.len(),
{
    if s.len() == 0 {
        false
    } else if s.last() == '<' {
        true
    } else if s.last() == '>' {
        false
    } else {
        in_tag_after(s.drop_last())
    }
}

/// `s` with every `<...>` tag removed: a character is kept when it is not an
/// angle bracket and the last angle bracket before it, if any, is `>`.
pub open spec fn strip_tags(s: Seq<char>) -> Seq<char>
    decreases s.len(),
{
    if s.len() == 0 {
        seq![]
    } else {
        let p = s.drop_last();
        let c = s.last();
        if c == '<' || c == '>' || in_tag_after(p) {
            strip_tags(p)
        } else {
            strip_tags(p).push(c)
        }
    }
}

/// The text of `input` with its markup tags removed.
pub fn strip_html(input: &[char]) -> (r: Vec<char>)
    ensures
        r@ == strip_tags(input@),
{
    let mut out: Vec<char> = Vec::new();
    let mut in_tag = false;
    let mut i: usize = 0;
    while i < input.len()
        invariant
            i <= input@.len(),
            in_tag == in_tag_after(input@.take(i as int)),
            out@ == strip_tags(input@.take(i as int)),
        decreases input@.len() - i,
    {
        let ch = input[i];
        proof {
            assert(input@.take(i + 1).drop_last() == input@.take(i as int));
        }
        if ch == '<' {
            in_tag = true;
        } else if ch == '>' {
            in_tag = false;
        } else if !in_tag {
            out.push(ch);
        }
        i = i + 1;
    }
    proof {
        assert(input@.take(input@.len() as int) == input@);
    }
    out
}

// ---------------------------------------------------------------------------
// Whitespace collapsing (std `split_whitespace` followed by `join(" ")`).
/// The maximal runs of non-whitespace characters of `s`, in order.
pub open spec fn words(s: Seq<char>) -> Seq<Seq<char>>
    decreases s.len(),
{
    if s.len() == 0 {
        seq![]
    } else {
        let p = s.drop_last();
        let c = s.last();
        let w = words(p);
        if is_ws(c) {
            w
        } else if p.len() > 0 && !is_ws(p.last()) {
            w.update(w.len() - 1, w.last().push(c))
        } else {
            w.push(seq![c])
        }
    }
}

/// The words `ws` joined with single spaces.
pub open spec fn join_words(ws: Seq<Seq<char>>) -> Seq<char>
    decreases ws.len(),
{
    if ws.len() == 0 {
        seq![]
    } else if ws.len() == 1 {
        ws[0]
    } else {
        join_words(ws.drop_last()) + seq![' '] + ws.last()
    }
}

/// `s` with its whitespace runs collapsed to single spaces and its leading
/// and trailing whitespace removed.
pub open spec fn collapse_ws(s: Seq<char>) -> Seq<char> {
    join_words(words(s))
}

proof fn lemma_words_nonempty(s: Seq<char>)
    requires
        s.len() > 0,
        !is_ws(s.last()),
    ensures
        words(s).len() > 0,
    decreases s.len(),
{
    let p = s.drop_last();
    if p.len() > 0 && !is_ws(p.last()) {
        lemma_words_nonempty(p);
    }
}

proof fn lemma_join_extend_last(ws: Seq<Seq<char>>, c: char)
    requires
        ws.len() > 0,
    ensures
        join_words(ws.update(ws.len() - 1, ws.last().push(c))) == join_words(ws).push(c),
{
    let u = ws.update(ws.len() - 1, ws.last().push(c));
    if ws.len() > 1 {
        assert(u.drop_last() == ws.drop_last());
        assert(join_words(u) == join_words(ws.drop_last()) + seq![' '] + ws.last().push(c));
        assert(join_words(ws.drop_last()) + seq![' '] + ws.last().push(c) == (join_words(
            ws.drop_last(),
        ) + seq![' '] + ws.last()).push(c));
    }
}

proof fn lemma_join_push(ws: Seq<Seq<char>>, w: Seq<char>)
    ensures
        join_words(ws.push(w)) == if ws.len() == 0 {
            w
        } else {
            join_words(ws) + seq![' '] + w
        },
{
    assert(ws.push(w).drop_last() == ws);
}

/// The words of `s` joined by single spaces.
pub fn collapse_whitespace(s: &[char]) -> (r: Vec<char>)
    ensures
        r@ == collapse_ws(s@),
{
    let mut out: Vec<char> = Vec::new();
    let mut started = false;
    let mut prev_word = false;
    let mut i: usize = 0;
    while i < s.len()
        invariant
            i <= s@.len(),
            out@ == join_words(words(s@.take(i as int))),
            started == (words(s@.take(i as int)).len() > 0),
            prev_word == (i > 0 && !is_ws(s@[i - 1])),
        decreases s@.len() - i,
    {
        let c = s[i];
        let ghost p = s@.take(i as int);
        proof {
            assert(s@.take(i + 1).drop_last() == p);
            assert(s@.take(i + 1).last() == c);
            if i > 0 {
                assert(p.last() == s@[i - 1]);
            }
        }
        if is_whitespace(c) {
            prev_word = false;
        } else if prev_word {
            proof {
                lemma_words_nonempty(p);
                lemma_join_extend_last(words(p), c);
            }
            out.push(c);
        } else {
            proof {
                lemma_join_push(words(p), seq![c]);
            }
            if started {
                out.push(' ');
            }
            out.push(c);
            proof {
                assert(seq![c] == Seq::<char>::empty().push(c));
                assert(join_words(words(p)) + seq![' '] + seq![c] == join_words(words(p)).push(
                    ' ',
                ).push(c));
            }
            started = true;
            prev_word = true;
        }
        i = i + 1;
    }
    proof {
        assert(s@.take(s@.len() as int) == s@);
    }
    out
}

// ---------------------------------------------------------------------------
// Truncation.
/// The marker appended to truncated text.
pub open spec fn ellipsis() -> Seq<char> {
    seq!['.', '.', '.']
}

/// The first `max_chars` characters of `s`, followed by `...` when
/// characters were dropped.
pub open spec fn truncated(s: Seq<char>, max_chars: nat) -> Seq<char> {
    if s.len() > max_chars {
        s.take(max_chars as int) + ellipsis()
    } else {
        s
    }
}

/// `input` cut to at most `max_chars` characters, marked with `...` when cut.
pub fn truncate_chars(input: &str, max_chars: usize) -> (r: String)
    ensures
        r@ == truncated(input@, max_chars as nat),
{
    let cs = chars_of(input);
    let mut output = String::new();
    let mut idx: usize = 0;
    while idx < cs.len()
        invariant
            cs@ == input@,
            idx <= cs@.len(),
            idx <= max_chars,
            output@ == input@.take(idx as int),
        decreases cs@.len() - idx,
    {
        if idx >= max_chars {
            push_char(&mut output, '.');
            push_char(&mut output, '.');
            push_char(&mut output, '.');
            proof {
                assert(output@ == input@.take(max_chars as int) + ellipsis());
            }
            return output;
        }
        push_char(&mut output, cs[idx]);
        idx = idx + 1;
        proof {
            assert(input@.take(idx as int) == input@.take(idx - 1).push(input@[idx - 1]));
        }
    }
    proof {
        assert(input@.take(input@.len() as int) == input@);
    }
    output
}

// ---------------------------------------------------------------------------
// Decimal rendering (std `Display` for integers).
/// The decimal digit for `d` (0..=9).
pub open spec fn digit_char(d: nat) -> char {
    ((d + 48) as u32) as char
}

/// The decimal rendering of `n`, without leading zeros.
pub open spec fn dec_nat(n: nat) -> Seq<char>
    decreases n,
{
    if n < 10 {
        seq![digit_char(n)]
    } else {
        dec_nat(n / 10).push(digit_char(n % 10))
    }
}

/// The decimal rendering of `i`, with a leading `-` when negative.
pub open spec fn dec_int(i: int) -> Seq<char> {
    if i < 0 {
        seq!['-'] + dec_nat((-i) as nat)
    } else {
        dec_nat(i as nat)
    }
}

fn digit(d: u64) -> (c: char)
    requires
        d < 10,
    ensures
        c == digit_char(d as nat),
{
    let b = (d as u8) + 48;
    b as char
}

/// The decimal digits of `n`.
pub fn u64_to_dec(n: u64) -> (r: Vec<char>)
    ensures
        r@ == dec_nat(n as nat),
    decreases n,
{
    if n < 10 {
        let mut v: Vec<char> = Vec::new();
        v.push(digit(n));
        v
    } else {
        let mut v = u64_to_dec(n / 10);
        v.push(digit(n % 10));
        v
    }
}

/// The decimal rendering of `n`.
pub fn usize_to_text(n: usize) -> (r: String)
    ensures
        r@ == dec_nat(n as nat),
{
    let d = u64_to_dec(n as u64);
    string_of(d.as_slice())
}

/// The decimal rendering of `i`.
pub fn i64_to_text(i: i64) -> (r: String)
    ensures
        r@ == dec_int(i as int),
{
    let mut out = String::new();
    let mag: u64 = if i < 0 {
        push_char(&mut out, '-');
        if i == i64::MIN {
            9223372036854775808u64
        } else {
            (-i) as u64
        }
    } else {
        i as u64
    };
    let d = u64_to_dec(mag);
    push_chars(&mut out, d.as_slice());
    proof {
        if i >= 0 {
            assert(Seq::<char>::empty() + d@ == d@);
        }
    }
    out
}

// ---------------------------------------------------------------------------
// Public text.
/// The most characters of public text kept before it is cut.
pub const PUBLIC_TEXT_LIMIT: usize = 1200;

/// The public form of a text: tags stripped, whitespace collapsed to single
/// spaces, and the result cut to [`PUBLIC_TEXT_LIMIT`] characters.
pub open spec fn public_text_of(s: Seq<char>) -> Seq<char> {
    truncated(collapse_ws(strip_tags(s)), PUBLIC_TEXT_LIMIT as nat)
}

/// The public form of `input` (see [`public_text_of`]).
pub fn public_text(input: &str) -> (r: String)
    ensures
        r@ == public_text_of(input@),
        public_text_of(r@) == r@,
{
    proof {
        lemma_public_text_idempotent(input@);
    }
    let cs = chars_of(input);
    let stripped = strip_html(cs.as_slice());
    let collapsed = collapse_whitespace(stripped.as_slice());
    let text = string_of(collapsed.as_slice());
    truncate_chars(text.as_str(), PUBLIC_TEXT_LIMIT)
}

// ---------------------------------------------------------------------------
// Laws.
/// Whether `s` holds no angle bracket.
pub open spec fn no_angle_brackets(s: Seq<char>) -> bool {
    forall|i: int| 0 <= i < s.len() ==> #[trigger] s[i] != '<' && s[i] != '>'
}

/// Text with its tags stripped holds no angle bracket.
pub proof fn lemma_strip_tags_plain(s: Seq<char>)
    ensures
        no_angle_brackets(strip_tags(s)),
    decreases s.len(),
{
    if s.len() > 0 {
        lemma_strip_tags_plain(s.drop_last());
    }
}

proof fn lemma_words_plain(s: Seq<char>)
    requires
        no_angle_brackets(s),
    ensures
        forall|k: int| 0 <= k < words(s).len() ==> no_angle_brackets(#[trigger] words(s)[k]),
    decreases s.len(),
{
    if s.len() > 0 {
        let p = s.drop_last();
        assert forall|i: int| 0 <= i < p.len() implies #[trigger] p[i] != '<' && p[i] != '>' by {
            assert(p[i] == s[i]);
        }
        lemma_words_plain(p);
        let w = words(p);
        let c = s.last();
        assert(c == s[s.len() - 1]);
        if !is_ws(c) && p.len() > 0 && !is_ws(p.last()) {
            lemma_words_nonempty(p);
            let nw = w.update(w.len() - 1, w.last().push(c));
            assert forall|k: int| 0 <= k < nw.len() implies no_angle_brackets(#[trigger] nw[k]) by {
                if k == w.len() - 1 {
                    assert(no_angle_brackets(w[k]));
                    assert forall|i: int| 0 <= i < nw[k].len() implies #[trigger] nw[k][i] != '<'
                        && nw[k][i] != '>' by {
                        if i < w[k].len() {
                            assert(nw[k][i] == w[k][i]);
                        }
                    }
                }
            }
        } else if !is_ws(c) {
            let nw = w.push(seq![c]);
            assert forall|k: int| 0 <= k < nw.len() implies no_angle_brackets(#[trigger] nw[k]) by {
                if k < w.len() {
                    assert(nw[k] == w[k]);
                }
            }
        }
    }
}

proof fn lemma_join_plain(ws: Seq<Seq<char>>)
    requires
        forall|k: int| 0 <= k < ws.len() ==> no_angle_brackets(#[trigger] ws[k]),
    ensures
        no_angle_brackets(join_words(ws)),
    decreases ws.len(),
{
    if ws.len() > 1 {
        let init = ws.drop_last();
        assert forall|k: int| 0 <= k < init.len() implies no_angle_brackets(#[trigger] init[k]) by {
            assert(init[k] == ws[k]);
        }
        lemma_join_plain(init);
        let j = join_words(init);
        let last = ws.last();
        assert(no_angle_brackets(ws[ws.len() - 1]));
        let all = j + seq![' '] + last;
        assert forall|i: int| 0 <= i < all.len() implies #[trigger] all[i] != '<' && all[i]
            != '>' by {
            if i < j.len() {
                assert(all[i] == j[i]);
            } else if i == j.len() {
                assert(all[i] == ' ');
            } else {
                assert(all[i] == last[i - j.len() - 1]);
            }
        }
    } else if ws.len() == 1 {
        assert(no_angle_brackets(ws[0]));
    }
}

/// Public text is plain and short: it holds no angle bracket (so no markup
/// tag survives) and at most [`PUBLIC_TEXT_LIMIT`] characters plus the
/// three-dot marker.
pub proof fn lemma_public_text_plain_and_short(s: Seq<char>)
    ensures
        no_angle_brackets(public_text_of(s)),
        public_text_of(s).len() <= PUBLIC_TEXT_LIMIT + 3,
{
    let stripped = strip_tags(s);
    lemma_strip_tags_plain(s);
    lemma_words_plain(stripped);
    lemma_join_plain(words(stripped));
    let c = collapse_ws(stripped);
    let t = public_text_of(s);
    if c.len() > PUBLIC_TEXT_LIMIT {
        let head = c.take(PUBLIC_TEXT_LIMIT as int);
        assert forall|i: int| 0 <= i < t.len() implies #[trigger] t[i] != '<' && t[i] != '>' by {
            if i < head.len() {
                assert(t[i] == c[i]);
            } else {
                assert(t[i] == '.');
            }
        }
    }
}

proof fn lemma_drop_keeps_plain(s: Seq<char>, i: int, j: int)
    requires
        no_angle_brackets(s),
        0 <= i <= j <= s.len(),
    ensures
        no_angle_brackets(s.subrange(i, j)),
{
    let r = s.subrange(i, j);
    assert forall|k: int| 0 <= k < r.len() implies #[trigger] r[k] != '<' && r[k] != '>' by {
        assert(r[k] == s[i + k]);
    }
}

proof fn lemma_trim_end_plain(s: Seq<char>)
    requires
        no_angle_brackets(s),
    ensures
        no_angle_brackets(trim_end_ws(s)),
    decreases s.len(),
{
    if s.len() > 0 && is_ws(s.last()) {
        lemma_drop_keeps_plain(s, 0, s.len() - 1);
        assert(s.subrange(0, s.len() - 1) == s.drop_last());
        lemma_trim_end_plain(s.drop_last());
    }
}

proof fn lemma_trim_start_plain(s: Seq<char>)
    requires
        no_angle_brackets(s),
    ensures
        no_angle_brackets(trim_start_ws(s)),
    decreases s.len(),
{
    if s.len() > 0 && is_ws(s.first()) {
        lemma_drop_keeps_plain(s, 1, s.len() as int);
        assert(s.subrange(1, s.len() as int) == s.drop_first());
        lemma_trim_start_plain(s.drop_first());
    }
}

/// The text of a title as published: its markup tags removed and its
/// surrounding whitespace trimmed.
pub open spec fn title_text_of(s: Seq<char>) -> Seq<char> {
    trim_ws(strip_tags(s))
}

/// A published title holds no angle bracket, so no markup tag.
pub proof fn lemma_title_text_plain(s: Seq<char>)
    ensures
        no_angle_brackets(title_text_of(s)),
{
    lemma_strip_tags_plain(s);
    lemma_trim_end_plain(strip_tags(s));
    lemma_trim_start_plain(trim_end_ws(strip_tags(s)));
}

/// The published form of a title (see [`title_text_of`]).
pub fn title_text(input: &str) -> (r: String)
    ensures
        r@ == title_text_of(input@),
        no_angle_brackets(r@),
{
    let cs = chars_of(input);
    let stripped = strip_html(cs.as_slice());
    let trimmed = trim_chars(stripped.as_slice());
    proof {
        lemma_title_text_plain(input@);
    }
    string_of(trimmed.as_slice())
}

/// Whether `x` is in collapsed form: its only whitespace is single spaces,
/// and it does not start with whitespace.
pub open spec fn is_spaced(x: Seq<char>) -> bool {
    &&& forall|i: int| 0 <= i < x.len() && is_ws(#[trigger] x[i]) ==> x[i] == ' '
    &&& forall|i: int| 0 <= i < x.len() - 1 ==> #[trigger] single_space_at(x, i)
    &&& x.len() > 0 ==> !is_ws(x[0])
}

/// No two whitespace characters stand together at `i` in `x`.
pub open spec fn single_space_at(x: Seq<char>, i: int) -> bool {
    !(is_ws(x[i]) && is_ws(x[i + 1]))
}

/// Whether `x` is in collapsed form and does not end with whitespace.
pub open spec fn is_collapsed(x: Seq<char>) -> bool {
    is_spaced(x) && (x.len() > 0 ==> !is_ws(x.last()))
}

/// Whether `w` is a word: non-empty, without whitespace.
pub open spec fn is_word(w: Seq<char>) -> bool {
    w.len() > 0 && forall|j: int| 0 <= j < w.len() ==> !is_ws(#[trigger] w[j])
}

proof fn lemma_in_tag_plain(s: Seq<char>)
    requires
        no_angle_brackets(s),
    ensures
        !in_tag_after(s),
        strip_tags(s) == s,
    decreases s.len(),
{
    if s.len() > 0 {
        let p = s.drop_last();
        assert forall|i: int| 0 <= i < p.len() implies #[trigger] p[i] != '<' && p[i] != '>' by {
            assert(p[i] == s[i]);
        }
        assert(s[s.len() - 1] != '<' && s[s.len() - 1] != '>');
        lemma_in_tag_plain(p);
        assert(p.push(s.last()) == s);
    }
}

proof fn lemma_spaced_prefix(x: Seq<char>)
    requires
        is_spaced(x),
        x.len() > 0,
    ensures
        is_spaced(x.drop_last()),
{
    let p = x.drop_last();
    assert forall|i: int| 0 <= i < p.len() && is_ws(#[trigger] p[i]) implies p[i] == ' ' by {
        assert(p[i] == x[i]);
    }
    assert forall|i: int| 0 <= i < p.len() - 1 implies #[trigger] single_space_at(p, i) by {
        assert(single_space_at(x, i));
    }
    if p.len() > 0 {
        assert(p[0] == x[0]);
    }
}

proof fn lemma_collapse_spaced(x: Seq<char>)
    requires
        is_spaced(x),
    ensures
        join_words(words(x)) == if x.len() > 0 && is_ws(x.last()) {
            x.drop_last()
        } else {
            x
        },
    decreases x.len(),
{
    if x.len() > 0 {
        let p = x.drop_last();
        let c = x.last();
        lemma_spaced_prefix(x);
        lemma_collapse_spaced(p);
        assert(p.push(c) == x);
        if is_ws(c) {
            assert(p.len() > 0);
            assert(single_space_at(x, x.len() - 2));
            assert(p.last() == x[x.len() - 2]);
        } else if p.len() > 0 && !is_ws(p.last()) {
            lemma_words_nonempty(p);
            lemma_join_extend_last(words(p), c);
        } else if p.len() == 0 {
            lemma_join_push(words(p), seq![c]);
            assert(seq![c] == x);
        } else {
            let q = p.drop_last();
            assert(p.last() == x[x.len() - 2]);
            assert(x[x.len() - 2] == ' ');
            assert(q.len() > 0);
            assert(single_space_at(x, x.len() - 3));
            assert(q.last() == x[x.len() - 3]);
            assert(words(p) == words(q));
            lemma_words_nonempty(q);
            lemma_join_push(words(p), seq![c]);
            assert(p.drop_last() + seq![' '] + seq![c] =~= x);
        }
    }
}

proof fn lemma_words_are_words(s: Seq<char>)
    ensures
        forall|k: int| 0 <= k < words(s).len() ==> is_word(#[trigger] words(s)[k]),
    decreases s.len(),
{
    if s.len() > 0 {
        let p = s.drop_last();
        let c = s.last();
        lemma_words_are_words(p);
        let w = words(p);
        if !is_ws(c) && p.len() > 0 && !is_ws(p.last()) {
            lemma_words_nonempty(p);
            let nw = w.update(w.len() - 1, w.last().push(c));
            assert forall|k: int| 0 <= k < nw.len() implies is_word(#[trigger] nw[k]) by {
                if k == w.len() - 1 {
                    assert(is_word(w[k]));
                    assert forall|j: int| 0 <= j < nw[k].len() implies !is_ws(#[trigger] nw[k][j]) by {
                        if j < w[k].len() {
                            assert(nw[k][j] == w[k][j]);
                        }
                    }
                }
            }
        } else if !is_ws(c) {
            let nw = w.push(seq![c]);
            assert forall|k: int| 0 <= k < nw.len() implies is_word(#[trigger] nw[k]) by {
                if k < w.len() {
                    assert(nw[k] == w[k]);
                } else {
                    assert(nw[k] == seq![c]);
                }
            }
        }
    }
}

proof fn lemma_join_collapsed(ws: Seq<Seq<char>>)
    requires
        forall|k: int| 0 <= k < ws.len() ==> is_word(#[trigger] ws[k]),
    ensures
        is_collapsed(join_words(ws)),
        (join_words(ws).len() == 0) == (ws.len() == 0),
    decreases ws.len(),
{
    if ws.len() == 1 {
        let w = ws[0];
        assert(is_word(w));
        assert forall|i: int| 0 <= i < w.len() - 1 implies #[trigger] single_space_at(w, i) by {
            assert(!is_ws(w[i]));
        }
        assert(!is_ws(w[w.len() - 1]));
    } else if ws.len() > 1 {
        let init = ws.drop_last();
        assert forall|k: int| 0 <= k < init.len() implies is_word(#[trigger] init[k]) by {
            assert(init[k] == ws[k]);
        }
        lemma_join_collapsed(init);
        let a = join_words(init);
        let b = ws.last();
        assert(is_word(ws[ws.len() - 1]));
        let all = a + seq![' '] + b;
        assert(join_words(ws) == all);
        assert(!is_ws(a[a.len() - 1]));
        assert forall|i: int| 0 <= i < all.len() && is_ws(#[trigger] all[i]) implies all[i] == ' ' by {
            if i < a.len() {
                assert(all[i] == a[i]);
            } else if i > a.len() {
                assert(all[i] == b[i - a.len() - 1]);
            }
        }
        assert forall|i: int| 0 <= i < all.len() - 1 implies #[trigger] single_space_at(all, i) by {
            if i < a.len() - 1 {
                assert(single_space_at(a, i));
                assert(all[i] == a[i] && all[i + 1] == a[i + 1]);
            } else if i == a.len() - 1 {
                assert(all[i] == a[i]);
            } else if i == a.len() {
                assert(all[i + 1] == b[0]);
            } else {
                assert(all[i] == b[i - a.len() - 1]);
            }
        }
        assert(all[0] == a[0]);
        assert(all.last() == b[b.len() - 1]);
    }
}

proof fn lemma_collapse_is_collapsed(s: Seq<char>)
    ensures
        is_collapsed(collapse_ws(s)),
{
    lemma_words_are_words(s);
    lemma_join_collapsed(words(s));
}

/// Making text public twice changes nothing: public text is already
/// stripped of tags, collapsed and short enough.
pub proof fn lemma_public_text_idempotent(s: Seq<char>)
    ensures
        public_text_of(public_text_of(s)) == public_text_of(s),
{
    let limit = PUBLIC_TEXT_LIMIT as nat;
    let c = collapse_ws(strip_tags(s));
    let t = public_text_of(s);
    lemma_collapse_is_collapsed(strip_tags(s));
    lemma_public_text_plain_and_short(s);
    lemma_in_tag_plain(t);
    if c.len() > limit {
        let head = c.take(limit as int);
        assert(t == head + ellipsis());
        assert forall|i: int| 0 <= i < t.len() && is_ws(#[trigger] t[i]) implies t[i] == ' ' by {
            if i < limit {
                assert(t[i] == c[i]);
            } else {
                assert(t[i] == '.');
            }
        }
        assert forall|i: int| 0 <= i < t.len() - 1 implies #[trigger] single_space_at(t, i) by {
            if i < limit - 1 {
                assert(single_space_at(c, i));
                assert(t[i] == c[i] && t[i + 1] == c[i + 1]);
            } else {
                assert(t[i + 1] == '.');
            }
        }
        assert(t[0] == c[0]);
        assert(t.last() == '.');
        assert(is_collapsed(t));
    }
    lemma_collapse_spaced(t);
    assert(collapse_ws(strip_tags(t)) == t);
    if c.len() > limit {
        assert(t.take(limit as int) =~= c.take(limit as int));
    }
}

/// Truncation keeps at most `max_chars` characters of the text plus the
/// three-dot marker, and leaves text that fits untouched.
pub proof fn lemma_truncated_bounds(s: Seq<char>, max_chars: nat)
    ensures
        truncated(s, max_chars).len() <= max_chars + 3,
        s.len() <= max_chars ==> truncated(s, max_chars) == s,
        s.len() > max_chars ==> starts_with_seq(truncated(s, max_chars), s.take(max_chars as int)),
{
    if s.len() > max_chars {
        let t = truncated(s, max_chars);
        assert(t.take(max_chars as int) =~= s.take(max_chars as int));
    }
}

} // verus!
