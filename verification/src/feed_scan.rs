//! A scan of a feed document for the values that the feed parser reads as
//! play times: the text of a `duration` element (iTunes) and the `start`,
//! `end` and `time` attributes of `text` and `thumbnail` elements (Media
//! RSS). The parser reads a play time by parsing its digit runs as `u64`
//! seconds, minutes and hours, so only documents whose play times are short
//! runs of ASCII digits are handed to it.
//!
//! The scan works on bytes and errs on the side of refusal: it looks at
//! every `<` (also inside comments), and a document must hold no NUL or ESC
//! byte, so that no encoding other than an ASCII-compatible one can turn
//! other bytes into markup or digits.
use vstd::prelude::*;

verus! {

/// The longest run of digits a play time may hold.
pub const MAX_DIGIT_RUN: usize = 15;

/// XML whitespace.
pub open spec fn is_xml_space(c: u8) -> bool {
    c == 0x20 || c == 0x09 || c == 0x0A || c == 0x0D
}

/// An ASCII digit.
pub open spec fn is_digit_byte(c: u8) -> bool {
    0x30 <= c <= 0x39
}

/// A byte a play time may hold: printable ASCII or XML whitespace.
pub open spec fn is_plain_byte(c: u8) -> bool {
    is_xml_space(c) || (0x20 <= c <= 0x7E)
}

/// Whether a character reference (`&#`) starts at `k` in `r`: the only
/// reference that can turn into a digit (named references give `&`, `<`,
/// `>`, quotes, or stay as written).
pub open spec fn char_ref_at(r: Seq<u8>, k: int) -> bool {
    r[k] == 0x26 && r[k + 1] == 0x23
}

/// The quote state after reading `c` in state `q` (0 outside quotes, else
/// the quote byte that opened the quoted value).
pub open spec fn next_quote(q: u8, c: u8) -> u8 {
    if q == 0 {
        if c == 0x22 || c == 0x27 {
            c
        } else {
            0
        }
    } else if c == q {
        0
    } else {
        q
    }
}

/// The position of the `>` that closes a tag read from `j` on in quote
/// state `q`: the first `>` outside quoted values.
pub open spec fn tag_close(b: Seq<u8>, j: int, q: u8) -> Option<int>
    decreases b.len() - j,
{
    if j < 0 || j >= b.len() {
        None
    } else if q == 0 && b[j] == 0x3E {
        Some(j)
    } else {
        tag_close(b, j + 1, next_quote(q, b[j]))
    }
}

/// The first whitespace position in `b` from `j` on, before `e`; else `e`.
pub open spec fn first_space(b: Seq<u8>, j: int, e: int) -> int
    decreases e - j,
{
    if j >= e {
        e
    } else if is_xml_space(b[j]) {
        j
    } else {
        first_space(b, j + 1, e)
    }
}

/// The first `<` in `b` from `j` on.
pub open spec fn next_open(b: Seq<u8>, j: int) -> Option<int>
    decreases b.len() - j,
{
    if j < 0 || j >= b.len() {
        None
    } else if b[j] == 0x3C {
        Some(j)
    } else {
        next_open(b, j + 1)
    }
}

/// How many digits end the first `n` bytes of `r`.
pub open spec fn trailing_digits(r: Seq<u8>, n: nat) -> nat
    decreases n,
{
    if n == 0 || n > r.len() {
        0
    } else if is_digit_byte(r[n - 1]) {
        trailing_digits(r, (n - 1) as nat) + 1
    } else {
        0
    }
}

/// Whether a play time read from `r` is safe: `r` holds only plain bytes,
/// no character reference, and no run of more than [`MAX_DIGIT_RUN`]
/// digits.
pub open spec fn plain_short_digits(r: Seq<u8>) -> bool {
    &&& forall|k: int| 0 <= k < r.len() ==> is_plain_byte(#[trigger] r[k])
    &&& forall|k: int| 0 <= k < r.len() - 1 ==> !#[trigger] char_ref_at(r, k)
    &&& forall|n: nat| n <= r.len() ==> #[trigger] trailing_digits(r, n) <= MAX_DIGIT_RUN
}

/// Whether `w` occurs in `h` at `k`.
pub open spec fn bytes_at(h: Seq<u8>, k: int, w: Seq<u8>) -> bool {
    0 <= k && k + w.len() <= h.len() && h.subrange(k, k + w.len()) == w
}

/// Whether `w` occurs in `h`.
pub open spec fn occurs(h: Seq<u8>, w: Seq<u8>) -> bool {
    exists|k: int| #[trigger] bytes_at(h, k, w)
}

/// Whether the local part of the qualified name `name` (after its last
/// `:`) is `w`, a name without `:`.
pub open spec fn has_local(name: Seq<u8>, w: Seq<u8>) -> bool {
    ||| name == w
    ||| (name.len() > w.len() && bytes_at(name, name.len() - w.len(), w) && name[name.len()
        - w.len() - 1] == 0x3A)
}

/// `duration`.
pub open spec fn duration_word() -> Seq<u8> {
    seq![0x64u8, 0x75, 0x72, 0x61, 0x74, 0x69, 0x6F, 0x6E]
}

/// `text`.
pub open spec fn text_word() -> Seq<u8> {
    seq![0x74u8, 0x65, 0x78, 0x74]
}

/// `thumbnail`.
pub open spec fn thumbnail_word() -> Seq<u8> {
    seq![0x74u8, 0x68, 0x75, 0x6D, 0x62, 0x6E, 0x61, 0x69, 0x6C]
}

/// `start`.
pub open spec fn start_word() -> Seq<u8> {
    seq![0x73u8, 0x74, 0x61, 0x72, 0x74]
}

/// `end`.
pub open spec fn end_word() -> Seq<u8> {
    seq![0x65u8, 0x6E, 0x64]
}

/// `time`.
pub open spec fn time_word() -> Seq<u8> {
    seq![0x74u8, 0x69, 0x6D, 0x65]
}

/// Whether the text that follows a `duration` start tag closed at `e` is
/// safe: it runs to an end tag (so no comment, section or reference adds to
/// it) and is a safe play time.
pub open spec fn duration_text_safe(b: Seq<u8>, e: int) -> bool {
    match next_open(b, e + 1) {
        None => plain_short_digits(b.subrange(e + 1, b.len() as int)),
        Some(k) => k + 1 < b.len() && b[k + 1] == 0x2F && plain_short_digits(
            b.subrange(e + 1, k),
        ),
    }
}

/// Whether the start tag that may begin at the `<` at `i` is safe: a
/// `duration` element has a safe tag and text; a `text` or `thumbnail`
/// element whose tag mentions `start`, `end` or `time` has a safe tag; any
/// other tag is safe.
pub open spec fn start_tag_safe(b: Seq<u8>, i: int) -> bool {
    if i + 1 >= b.len() {
        true
    } else if b[i + 1] == 0x2F || b[i + 1] == 0x21 || b[i + 1] == 0x3F {
        true
    } else {
        match tag_close(b, i + 1, 0) {
            None => true,
            Some(e) => {
                let empty = e > i + 1 && b[e - 1] == 0x2F;
                let content_end = if empty {
                    e - 1
                } else {
                    e
                };
                let name = b.subrange(i + 1, first_space(b, i + 1, content_end));
                let tag = b.subrange(i + 1, e);
                if has_local(name, duration_word()) {
                    plain_short_digits(tag) && (empty || duration_text_safe(b, e))
                } else if has_local(name, text_word()) || has_local(name, thumbnail_word()) {
                    (occurs(tag, start_word()) || occurs(tag, end_word()) || occurs(
                        tag,
                        time_word(),
                    )) ==> plain_short_digits(tag)
                } else {
                    true
                }
            },
        }
    }
}

/// Whether the feed parser reads every play time of document `b` safely:
/// `b` holds no NUL or ESC byte and every start tag in it is safe.
pub open spec fn feed_document_safe(b: Seq<u8>) -> bool {
    &&& forall|k: int| 0 <= k < b.len() ==> #[trigger] b[k] != 0 && b[k] != 0x1B
    &&& forall|i: int| 0 <= i < b.len() && b[i] == 0x3C ==> #[trigger] start_tag_safe(b, i)
}

fn tag_close_from(b: &[u8], start: usize) -> (r: Option<usize>)
    ensures
        match r {
            Some(e) => tag_close(b@, start as int, 0) == Some(e as int),
            None => tag_close(b@, start as int, 0) is None,
        },
{
    let mut j: usize = start;
    let mut q: u8 = 0;
    while j < b.len()
        invariant
            tag_close(b@, start as int, 0) == tag_close(b@, j as int, q),
        decreases b@.len() - j,
    {
        if q == 0 && b[j] == 0x3E {
            return Some(j);
        }
        let c = b[j];
        q = if q == 0 {
            if c == 0x22 || c == 0x27 {
                c
            } else {
                0
            }
        } else if c == q {
            0
        } else {
            q
        };
        j = j + 1;
    }
    None
}

fn first_space_from(b: &[u8], start: usize, e: usize) -> (r: usize)
    requires
        start <= e <= b@.len(),
    ensures
        r as int == first_space(b@, start as int, e as int),
        start <= r <= e,
{
    let mut j: usize = start;
    while j < e
        invariant
            start <= j <= e <= b@.len(),
            first_space(b@, start as int, e as int) == first_space(b@, j as int, e as int),
        decreases e - j,
    {
        let c = b[j];
        if c == 0x20 || c == 0x09 || c == 0x0A || c == 0x0D {
            return j;
        }
        j = j + 1;
    }
    j
}

fn next_open_from(b: &[u8], start: usize) -> (r: Option<usize>)
    ensures
        match r {
            Some(k) => next_open(b@, start as int) == Some(k as int) && start <= k < b@.len(),
            None => next_open(b@, start as int) is None,
        },
{
    let mut j: usize = start;
    while j < b.len()
        invariant
            start <= j,
            next_open(b@, start as int) == next_open(b@, j as int),
        decreases b@.len() - j,
    {
        if b[j] == 0x3C {
            return Some(j);
        }
        j = j + 1;
    }
    None
}

fn plain_short_digits_in(b: &[u8], from: usize, to: usize) -> (r: bool)
    requires
        from <= to <= b@.len(),
    ensures
        r == plain_short_digits(b@.subrange(from as int, to as int)),
{
    let ghost s = b@.subrange(from as int, to as int);
    let mut i: usize = from;
    let mut run: usize = 0;
    while i < to
        invariant
            from <= i <= to <= b@.len(),
            s == b@.subrange(from as int, to as int),
            run as nat == trailing_digits(s, (i - from) as nat),
            run <= MAX_DIGIT_RUN,
            forall|k: int| 0 <= k < i - from ==> is_plain_byte(#[trigger] s[k]),
            forall|k: int| 0 <= k < i - from - 1 ==> !#[trigger] char_ref_at(s, k),
            forall|n: nat| n <= i - from ==> #[trigger] trailing_digits(s, n) <= MAX_DIGIT_RUN,
        decreases to - i,
    {
        let c = b[i];
        let ghost n: nat = (i - from + 1) as nat;
        proof {
            assert(s[n - 1] == c);
        }
        let plain = c == 0x20 || c == 0x09 || c == 0x0A || c == 0x0D || (0x20 <= c && c <= 0x7E);
        if !plain {
            proof {
                assert(!is_plain_byte(s[n - 1]));
            }
            return false;
        }
        if c == 0x23 && i > from && b[i - 1] == 0x26 {
            proof {
                assert(s[n - 2] == b@[i - 1]);
                assert(char_ref_at(s, n - 2));
            }
            return false;
        }
        if 0x30 <= c && c <= 0x39 {
            if run == MAX_DIGIT_RUN {
                proof {
                    assert(trailing_digits(s, n) > MAX_DIGIT_RUN);
                }
                return false;
            }
            run = run + 1;
        } else {
            run = 0;
        }
        i = i + 1;
        proof {
            assert forall|k: int| 0 <= k < i - from - 1 implies !#[trigger] char_ref_at(s, k) by {
                if k == n - 2 {
                    assert(s[k] == b@[i - 2]);
                    assert(s[k + 1] == c);
                }
            }
            assert forall|m: nat| m <= i - from implies #[trigger] trailing_digits(s, m)
                <= MAX_DIGIT_RUN by {
                if m < n {
                } else {
                    assert(m == n);
                }
            }
        }
    }
    true
}

fn bytes_at_pos(b: &[u8], from: usize, to: usize, k: usize, w: &[u8]) -> (r: bool)
    requires
        from <= to <= b@.len(),
    ensures
        r == bytes_at(b@.subrange(from as int, to as int), k - from, w@),
{
    let ghost h = b@.subrange(from as int, to as int);
    if k < from || k > to || w.len() > to - k {
        return false;
    }
    let mut m: usize = 0;
    while m < w.len()
        invariant
            from <= k <= to <= b@.len(),
            w@.len() <= to - k,
            m <= w@.len(),
            h == b@.subrange(from as int, to as int),
            forall|t: int| 0 <= t < m ==> h[k - from + t] == w@[t],
        decreases w@.len() - m,
    {
        if b[k + m] != w[m] {
            proof {
                assert(h.subrange(k - from, k - from + w@.len())[m as int] != w@[m as int]);
            }
            return false;
        }
        m = m + 1;
    }
    proof {
        assert(h.subrange(k - from, k - from + w@.len()) =~= w@);
    }
    true
}

fn occurs_in(b: &[u8], from: usize, to: usize, w: &[u8]) -> (r: bool)
    requires
        from <= to <= b@.len(),
    ensures
        r == occurs(b@.subrange(from as int, to as int), w@),
{
    let ghost h = b@.subrange(from as int, to as int);
    let mut k: usize = from;
    while k <= to
        invariant
            from <= k <= to + 1,
            to <= b@.len(),
            h == b@.subrange(from as int, to as int),
            forall|t: int| 0 <= t < k - from ==> !#[trigger] bytes_at(h, t, w@),
        decreases to + 1 - k,
    {
        if bytes_at_pos(b, from, to, k, w) {
            return true;
        }
        if k == to {
            proof {
                assert forall|t: int| #[trigger] bytes_at(h, t, w@) implies false by {
                    assert(t <= h.len());
                    assert(t < k - from + 1);
                }
            }
            return false;
        }
        k = k + 1;
    }
    false
}

fn has_local_in(b: &[u8], from: usize, to: usize, w: &[u8]) -> (r: bool)
    requires
        from <= to <= b@.len(),
    ensures
        r == has_local(b@.subrange(from as int, to as int), w@),
{
    let ghost name = b@.subrange(from as int, to as int);
    let n = to - from;
    if n == w.len() {
        let whole = bytes_at_pos(b, from, to, from, w);
        proof {
            assert(name.subrange(0, n as int) =~= name);
        }
        return whole;
    }
    if n > w.len() {
        let k = to - w.len();
        let tail = bytes_at_pos(b, from, to, k, w);
        return tail && b[k - 1] == 0x3A;
    }
    false
}

fn start_tag_is_safe(b: &[u8], i: usize) -> (r: bool)
    requires
        i < b@.len(),
    ensures
        r == start_tag_safe(b@, i as int),
{
    if i >= b.len() - 1 {
        return true;
    }
    let c = b[i + 1];
    if c == 0x2F || c == 0x21 || c == 0x3F {
        return true;
    }
    let e = match tag_close_from(b, i + 1) {
        Some(e) => e,
        None => {
            return true;
        },
    };
    proof {
        assert(i + 1 <= e < b@.len()) by {
            lemma_tag_close_bounds(b@, i + 1, 0);
        }
    }
    let empty = e > i + 1 && b[e - 1] == 0x2F;
    let content_end = if empty {
        e - 1
    } else {
        e
    };
    let name_end = first_space_from(b, i + 1, content_end);
    let duration: [u8; 8] = [0x64, 0x75, 0x72, 0x61, 0x74, 0x69, 0x6F, 0x6E];
    let text: [u8; 4] = [0x74, 0x65, 0x78, 0x74];
    let thumbnail: [u8; 9] = [0x74, 0x68, 0x75, 0x6D, 0x62, 0x6E, 0x61, 0x69, 0x6C];
    let start_w: [u8; 5] = [0x73, 0x74, 0x61, 0x72, 0x74];
    let end_w: [u8; 3] = [0x65, 0x6E, 0x64];
    let time_w: [u8; 4] = [0x74, 0x69, 0x6D, 0x65];
    proof {
        assert(duration@ =~= duration_word());
        assert(text@ =~= text_word());
        assert(thumbnail@ =~= thumbnail_word());
        assert(start_w@ =~= start_word());
        assert(end_w@ =~= end_word());
        assert(time_w@ =~= time_word());
    }
    if has_local_in(b, i + 1, name_end, &duration) {
        if !plain_short_digits_in(b, i + 1, e) {
            return false;
        }
        if empty {
            return true;
        }
        match next_open_from(b, e + 1) {
            None => plain_short_digits_in(b, e + 1, b.len()),
            Some(k) => k + 1 < b.len() && b[k + 1] == 0x2F && plain_short_digits_in(b, e + 1, k),
        }
    } else if has_local_in(b, i + 1, name_end, &text) || has_local_in(
        b,
        i + 1,
        name_end,
        &thumbnail,
    ) {
        let mentions = occurs_in(b, i + 1, e, &start_w) || occurs_in(b, i + 1, e, &end_w)
            || occurs_in(b, i + 1, e, &time_w);
        !mentions || plain_short_digits_in(b, i + 1, e)
    } else {
        true
    }
}

proof fn lemma_tag_close_bounds(b: Seq<u8>, j: int, q: u8)
    ensures
        tag_close(b, j, q) matches Some(e) ==> j <= e < b.len(),
    decreases b.len() - j,
{
    if 0 <= j < b.len() && !(q == 0 && b[j] == 0x3E) {
        lemma_tag_close_bounds(b, j + 1, next_quote(q, b[j]));
    }
}

/// Whether the feed parser reads every play time of `b` safely (see
/// [`feed_document_safe`]).
pub fn feed_document_is_safe(b: &[u8]) -> (r: bool)
    ensures
        r == feed_document_safe(b@),
{
    let mut k: usize = 0;
    while k < b.len()
        invariant
            k <= b@.len(),
            forall|t: int| 0 <= t < k ==> #[trigger] b@[t] != 0 && b@[t] != 0x1B,
        decreases b@.len() - k,
    {
        if b[k] == 0 || b[k] == 0x1B {
            return false;
        }
        k = k + 1;
    }
    let mut i: usize = 0;
    while i < b.len()
        invariant
            i <= b@.len(),
            forall|t: int| 0 <= t < b@.len() ==> #[trigger] b@[t] != 0 && b@[t] != 0x1B,
            forall|t: int| 0 <= t < i && b@[t] == 0x3C ==> #[trigger] start_tag_safe(b@, t),
        decreases b@.len() - i,
    {
        if b[i] == 0x3C {
            if !start_tag_is_safe(b, i) {
                return false;
            }
        }
        i = i + 1;
    }
    true
}

} // verus!
