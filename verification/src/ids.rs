//! Stable identifiers: a SHA-256 digest of the parts, shown as hex.
use vstd::prelude::*;
use vstd::utf8::encode_utf8;
use crate::text::string_of;

verus! {

broadcast use vstd::string::group_string_axioms;

/// The SHA-256 digest of `data`, as `sha2` computes it.
pub uninterp spec fn sha256(data: Seq<u8>) -> Seq<u8>;

/// SHA-256 of `data` (`sha2::Digest::digest` for `sha2::Sha256`). Claims
/// that the digest is the one named by `sha256` and is 32 bytes long.
#[verifier::external_body]
fn sha256_digest(data: &[u8]) -> (r: Vec<u8>)
    ensures
        r@ == sha256(data@),
        r@.len() == 32,
{
    <sha2::Sha256 as sha2::Digest>::digest(data).to_vec()
}

/// The lower-case hex digit for `n` (0..=15).
pub open spec fn hex_digit(n: u8) -> char {
    if n < 10 {
        ((n + 48) as u32) as char
    } else {
        ((n + 87) as u32) as char
    }
}

/// The lower-case hex form of `data`: two digits per byte, high nibble
/// first.
pub open spec fn hex_lower(data: Seq<u8>) -> Seq<char>
    decreases data.len(),
{
    if data.len() == 0 {
        seq![]
    } else {
        hex_lower(data.drop_last()) + seq![
            hex_digit(data.last() / 16),
            hex_digit(data.last() % 16),
        ]
    }
}

fn hex_digit_of(n: u8) -> (c: char)
    requires
        n < 16,
    ensures
        c == hex_digit(n),
{
    if n < 10 {
        let b: u8 = n + 48;
        b as char
    } else {
        let b: u8 = n + 87;
        b as char
    }
}

/// The lower-case hex form of `data` (what `hex::encode` gives): two digits
/// from `0123456789abcdef` per byte, high nibble first.
fn hex_encode(data: &[u8]) -> (r: String)
    ensures
        r@ == hex_lower(data@),
{
    let mut out: Vec<char> = Vec::new();
    let mut i: usize = 0;
    while i < data.len()
        invariant
            i <= data@.len(),
            out@ == hex_lower(data@.take(i as int)),
        decreases data@.len() - i,
    {
        let b = data[i];
        proof {
            assert(data@.take(i + 1).drop_last() == data@.take(i as int));
            assert(data@.take(i + 1).last() == b);
        }
        out.push(hex_digit_of(b / 16));
        out.push(hex_digit_of(b % 16));
        i = i + 1;
    }
    proof {
        assert(data@.take(data@.len() as int) == data@);
    }
    string_of(out.as_slice())
}

/// The bytes hashed for an identifier: each part's UTF-8 bytes followed by
/// a zero byte.
pub open spec fn id_material(parts: Seq<Seq<char>>) -> Seq<u8>
    decreases parts.len(),
{
    if parts.len() == 0 {
        seq![]
    } else {
        id_material(parts.drop_last()) + encode_utf8(parts.last()) + seq![0u8]
    }
}

/// The identifier of `parts`: the first 16 bytes of the SHA-256 digest of
/// their [`id_material`], in lower-case hex.
pub open spec fn stable_id_of(parts: Seq<Seq<char>>) -> Seq<char> {
    hex_lower(sha256(id_material(parts)).take(16))
}

/// The texts of a list of string slices.
pub open spec fn str_texts(parts: Seq<&str>) -> Seq<Seq<char>> {
    parts.map_values(|p: &str| p@)
}

/// A stable identifier for `parts` (see [`stable_id_of`]).
pub fn stable_id(parts: &[&str]) -> (r: String)
    ensures
        r@ == stable_id_of(str_texts(parts@)),
        r@.len() == 32,
        forall|i: int| 0 <= i < 32 ==> is_hex_digit(#[trigger] r@[i]),
{
    let ghost all = str_texts(parts@);
    let mut data: Vec<u8> = Vec::new();
    let mut i: usize = 0;
    while i < parts.len()
        invariant
            all == str_texts(parts@),
            i <= parts@.len(),
            data@ == id_material(all.take(i as int)),
        decreases parts@.len() - i,
    {
        let bytes = parts[i].as_bytes();
        let ghost before = data@;
        let mut k: usize = 0;
        while k < bytes.len()
            invariant
                k <= bytes@.len(),
                data@ == before + bytes@.take(k as int),
            decreases bytes@.len() - k,
        {
            data.push(bytes[k]);
            k = k + 1;
            proof {
                assert(bytes@.take(k as int) == bytes@.take(k - 1).push(bytes@[k - 1]));
            }
        }
        data.push(0u8);
        proof {
            assert(bytes@.take(bytes@.len() as int) == bytes@);
            assert(all.take(i + 1).drop_last() == all.take(i as int));
            assert(all.take(i + 1).last() == parts@[i as int]@);
        }
        i = i + 1;
    }
    proof {
        assert(all.take(parts@.len() as int) == all);
    }
    let mut digest = sha256_digest(data.as_slice());
    digest.truncate(16);
    proof {
        lemma_hex_lower_shape(digest@);
    }
    hex_encode(digest.as_slice())
}

/// Whether `c` is a lower-case hex digit.
pub open spec fn is_hex_digit(c: char) -> bool {
    ('0' <= c && c <= '9') || ('a' <= c && c <= 'f')
}

proof fn lemma_hex_lower_shape(data: Seq<u8>)
    ensures
        hex_lower(data).len() == 2 * data.len(),
        forall|i: int| 0 <= i < hex_lower(data).len() ==> is_hex_digit(#[trigger] hex_lower(data)[i]),
    decreases data.len(),
{
    if data.len() > 0 {
        lemma_hex_lower_shape(data.drop_last());
        let h = hex_lower(data.drop_last());
        let hi = data.last() / 16;
        let lo = data.last() % 16;
        let all = h + seq![hex_digit(hi), hex_digit(lo)];
        assert forall|i: int| 0 <= i < all.len() implies is_hex_digit(#[trigger] all[i]) by {
            if i < h.len() {
                assert(all[i] == h[i]);
            }
        }
    }
}

} // verus!
