//! Hexadecimal text of bytes and SHA-1 object ids.
use vstd::prelude::*;
use sha1::Digest;

verus! {

/// Value of a hexadecimal digit of either case, `-1` for any other character.
pub open spec fn hex_value(c: char) -> int {
    if '0' <= c && c <= '9' {
        c as int - '0' as int
    } else if 'a' <= c && c <= 'f' {
        c as int - 'a' as int + 10
    } else if 'A' <= c && c <= 'F' {
        c as int - 'A' as int + 10
    } else {
        -1
    }
}

/// `c` is a hexadecimal digit of either case.
pub open spec fn is_hex_char(c: char) -> bool {
    hex_value(c) >= 0
}

/// `c` is a digit or a lowercase letter `a`-`f`.
pub open spec fn is_lower_hex_char(c: char) -> bool {
    ('0' <= c && c <= '9') || ('a' <= c && c <= 'f')
}

/// The lowercase hexadecimal digit of `d` (`0 <= d < 16`).
pub open spec fn lower_hex_digit(d: int) -> char {
    if d < 10 {
        ('0' as int + d) as char
    } else {
        ('a' as int + d - 10) as char
    }
}

/// Lowercase hexadecimal text of bytes: two digits per byte, high nibble first.
pub open spec fn hex_of(bytes: Seq<u8>) -> Seq<char> {
    Seq::new(
        2 * bytes.len(),
        |i: int|
            if i % 2 == 0 {
                lower_hex_digit(bytes[i / 2] as int / 16)
            } else {
                lower_hex_digit(bytes[i / 2] as int % 16)
            },
    )
}

/// The bytes that hexadecimal text stands for: `None` unless the text has an
/// even length and only hexadecimal digits (of either case).
pub open spec fn hex_decoded(s: Seq<char>) -> Option<Seq<u8>> {
    if s.len() % 2 == 0 && forall|i: int| 0 <= i < s.len() ==> is_hex_char(#[trigger] s[i]) {
        Some(Seq::new(s.len() / 2, |i: int| (hex_value(s[2 * i]) * 16 + hex_value(s[2 * i + 1])) as u8))
    } else {
        None
    }
}

/// An object id: forty lowercase hexadecimal digits.
pub open spec fn is_object_id(s: Seq<char>) -> bool {
    s.len() == 40 && forall|i: int| 0 <= i < s.len() ==> is_lower_hex_char(#[trigger] s[i])
}

/// The SHA-1 digest of some bytes, as the `sha1` crate computes it.
pub uninterp spec fn sha1_digest(data: Seq<u8>) -> Seq<u8>;

/// Calls `hex::encode`: two lowercase digits per byte.
#[verifier::external_body]
pub fn hex_encode(bytes: &[u8]) -> (s: String)
    ensures
        s@ == hex_of(bytes@),
{
    hex::encode(bytes)
}

/// Calls `hex::decode` on the text's bytes: `None` on odd length or on a
/// character that is no hexadecimal digit, else the decoded bytes.
#[verifier::external_body]
pub fn hex_decode(s: &str) -> (r: Option<Vec<u8>>)
    ensures
        r is Some <==> hex_decoded(s@) is Some,
        r matches Some(v) ==> v@ == hex_decoded(s@)->0,
{
    match hex::decode(s) {
        Ok(v) => Some(v),
        Err(_) => None,
    }
}

/// Hashes bytes with `sha1::Sha1` and formats the digest with `{:x}`; the
/// digest is twenty bytes and the text is its lowercase hexadecimal form.
#[verifier::external_body]
pub fn sha1_hex(data: &[u8]) -> (s: String)
    ensures
        s@.len() == 40,
        s@ == hex_of(sha1_digest(data@)),
{
    let mut hasher = sha1::Sha1::new();
    hasher.update(data);
    let result = hasher.finalize();
    format!("{:x}", result)
}

proof fn lemma_lower_hex_digit(d: int)
    requires
        0 <= d < 16,
    ensures
        is_lower_hex_char(lower_hex_digit(d)),
        is_hex_char(lower_hex_digit(d)),
        hex_value(lower_hex_digit(d)) == d,
{
}

/// Hexadecimal text of bytes is lowercase hexadecimal.
pub proof fn lemma_hex_of_lower(bytes: Seq<u8>)
    ensures
        hex_of(bytes).len() == 2 * bytes.len(),
        forall|i: int| 0 <= i < hex_of(bytes).len() ==> is_lower_hex_char(#[trigger] hex_of(bytes)[i]),
{
    assert forall|i: int| 0 <= i < hex_of(bytes).len() implies is_lower_hex_char(#[trigger] hex_of(bytes)[i]) by {
        lemma_lower_hex_digit(bytes[i / 2] as int / 16);
        lemma_lower_hex_digit(bytes[i / 2] as int % 16);
    }
}

/// The hexadecimal text of twenty bytes is an object id.
pub proof fn lemma_hex_of_twenty(bytes: Seq<u8>)
    requires
        bytes.len() == 20,
    ensures
        is_object_id(hex_of(bytes)),
{
    lemma_hex_of_lower(bytes);
}

/// Decoding the hexadecimal text of bytes gives the bytes back.
pub proof fn lemma_hex_roundtrip(bytes: Seq<u8>)
    ensures
        hex_decoded(hex_of(bytes)) == Some(bytes),
{
    let s = hex_of(bytes);
    assert forall|i: int| 0 <= i < s.len() implies is_hex_char(#[trigger] s[i]) by {
        lemma_lower_hex_digit(bytes[i / 2] as int / 16);
        lemma_lower_hex_digit(bytes[i / 2] as int % 16);
    }
    let d = hex_decoded(s)->0;
    assert forall|k: int| 0 <= k < bytes.len() implies d[k] == bytes[k] by {
        let b = bytes[k] as int;
        assert((2 * k) / 2 == k && (2 * k) % 2 == 0);
        assert((2 * k + 1) / 2 == k && (2 * k + 1) % 2 == 1);
        lemma_lower_hex_digit(b / 16);
        lemma_lower_hex_digit(b % 16);
        assert(b / 16 * 16 + b % 16 == b);
    }
    assert(d =~= bytes);
}

/// An object id decodes to twenty bytes whose text is the id again.
pub proof fn lemma_object_id_decodes(s: Seq<char>)
    requires
        is_object_id(s),
    ensures
        hex_decoded(s) is Some,
        hex_decoded(s)->0.len() == 20,
        hex_of(hex_decoded(s)->0) == s,
{
    assert forall|i: int| 0 <= i < s.len() implies is_hex_char(#[trigger] s[i]) by {
        assert(is_lower_hex_char(s[i]));
    }
    let d = hex_decoded(s)->0;
    let h = hex_of(d);
    assert forall|i: int| 0 <= i < s.len() implies h[i] == s[i] by {
        let k = i / 2;
        assert(0 <= 2 * k && 2 * k + 1 < s.len());
        assert(is_lower_hex_char(s[2 * k]) && is_lower_hex_char(s[2 * k + 1]));
        let hi = hex_value(s[2 * k]);
        let lo = hex_value(s[2 * k + 1]);
        assert(0 <= hi < 16 && 0 <= lo < 16);
        assert(d[k] as int == hi * 16 + lo);
        assert((hi * 16 + lo) / 16 == hi && (hi * 16 + lo) % 16 == lo);
        lemma_lower_hex_digit(hi);
        lemma_lower_hex_digit(lo);
        if i % 2 == 0 {
            assert(i == 2 * k);
        } else {
            assert(i == 2 * k + 1);
        }
    }
    assert(h =~= s);
}

} // verus!

verus! {

/// Hashes bytes with `sha1::Sha1`, giving the twenty digest bytes.
#[verifier::external_body]
pub fn sha1_bytes(data: &[u8]) -> (d: Vec<u8>)
    ensures
        d@ == sha1_digest(data@),
        d@.len() == 20,
{
    let mut hasher = sha1::Sha1::new();
    hasher.update(data);
    hasher.finalize().to_vec()
}

} // verus!
