//! Byte searches and facts on the UTF-8 encoding of text.
use vstd::prelude::*;
use vstd::utf8::{encode_utf8, encode_scalar, has_width_1_encoding, leading_byte_width_1};

verus! {

/// Position of the first byte `b` in `s`.
pub open spec fn first_index_of(s: Seq<u8>, b: u8) -> Option<int>
    decreases s.len(),
{
    if s.len() == 0 {
        None
    } else if s[0] == b {
        Some(0)
    } else {
        match first_index_of(s.drop_first(), b) {
            Some(k) => Some(k + 1),
            None => None,
        }
    }
}

/// No byte of `s` is `b`.
pub open spec fn lacks_byte(s: Seq<u8>, b: u8) -> bool {
    forall|i: int| 0 <= i < s.len() ==> s[i] != b
}

/// `first_index_of` finds the first occurrence, and nothing when there is none.
pub proof fn lemma_first_index_of(s: Seq<u8>, b: u8)
    ensures
        first_index_of(s, b) is None <==> lacks_byte(s, b),
        first_index_of(s, b) matches Some(k) ==> 0 <= k < s.len() && s[k] == b && lacks_byte(s.take(k), b),
    decreases s.len(),
{
    if s.len() > 0 && s[0] != b {
        lemma_first_index_of(s.drop_first(), b);
        if let Some(k) = first_index_of(s.drop_first(), b) {
            assert forall|i: int| 0 <= i < k + 1 implies #[trigger] s.take(k + 1)[i] != b by {
                if i > 0 {
                    assert(s.drop_first().take(k)[i - 1] == s[i]);
                }
            }
        } else {
            assert forall|i: int| 0 <= i < s.len() implies s[i] != b by {
                if i > 0 {
                    assert(s.drop_first()[i - 1] == s[i]);
                }
            }
        }
    }
}

/// The first occurrence of `b` in `a + c` when `a` lacks it and `c` starts with it.
pub proof fn lemma_first_index_of_concat(a: Seq<u8>, c: Seq<u8>, b: u8)
    requires
        lacks_byte(a, b),
        c.len() > 0,
        c[0] == b,
    ensures
        first_index_of(a + c, b) == Some(a.len() as int),
{
    lemma_first_index_of(a + c, b);
    let s = a + c;
    assert(s[a.len() as int] == b);
    match first_index_of(s, b) {
        Some(k) => {
            if k < a.len() {
                assert(s[k] == a[k]);
            } else if k > a.len() {
                assert(s.take(k)[a.len() as int] == b);
            }
        },
        None => {},
    }
}

/// Finds the first byte `b` at or after `from`.
pub fn find_byte(data: &[u8], from: usize, b: u8) -> (r: Option<usize>)
    requires
        from <= data@.len(),
    ensures
        r matches Some(k) ==> from <= k < data@.len()
            && first_index_of(data@.subrange(from as int, data@.len() as int), b) == Some(k - from),
        r is None ==> first_index_of(data@.subrange(from as int, data@.len() as int), b) is None,
{
    let ghost s = data@.subrange(from as int, data@.len() as int);
    proof {
        lemma_first_index_of(s, b);
    }
    let mut i = from;
    while i < data.len()
        invariant
            from <= i <= data@.len(),
            s == data@.subrange(from as int, data@.len() as int),
            forall|j: int| from <= j < i ==> data@[j] != b,
        decreases data@.len() - i,
    {
        if data[i] == b {
            proof {
                assert(s[i - from] == b);
                assert forall|j: int| 0 <= j < i - from implies #[trigger] s.take(i - from)[j] != b by {
                    assert(s[j] == data@[from + j]);
                }
                lemma_first_index_of_concat(s.take(i - from), s.skip(i - from), b);
                assert(s.take(i - from) + s.skip(i - from) =~= s);
            }
            return Some(i);
        }
        i += 1;
    }
    proof {
        assert forall|j: int| 0 <= j < s.len() implies s[j] != b by {
            assert(s[j] == data@[from + j]);
        }
    }
    None
}

/// Appends bytes to a vector.
pub fn extend(v: &mut Vec<u8>, extra: &[u8])
    ensures
        final(v)@ == old(v)@ + extra@,
{
    let mut i: usize = 0;
    while i < extra.len()
        invariant
            i <= extra@.len(),
            v@ == old(v)@ + extra@.take(i as int),
        decreases extra@.len() - i,
    {
        v.push(extra[i]);
        i += 1;
        assert(v@ =~= old(v)@ + extra@.take(i as int));
    }
    assert(extra@.take(extra@.len() as int) =~= extra@);
}

/// The bytes from `from` up to `to`.
pub fn slice_bytes(data: &[u8], from: usize, to: usize) -> (r: Vec<u8>)
    requires
        from <= to <= data@.len(),
    ensures
        r@ == data@.subrange(from as int, to as int),
{
    let mut r: Vec<u8> = Vec::new();
    let mut i = from;
    while i < to
        invariant
            from <= i <= to,
            to <= data@.len(),
            r@ == data@.subrange(from as int, i as int),
        decreases to - i,
    {
        r.push(data[i]);
        i += 1;
        assert(r@ =~= data@.subrange(from as int, i as int));
    }
    r
}

/// Every character is ASCII.
pub open spec fn is_ascii(s: Seq<char>) -> bool {
    forall|i: int| 0 <= i < s.len() ==> (#[trigger] s[i] as u32) < 128
}

/// The bytes of ASCII text, one per character.
pub open spec fn ascii_bytes(s: Seq<char>) -> Seq<u8> {
    s.map_values(|c: char| (c as u32) as u8)
}

proof fn lemma_width_1(v: u32)
    requires
        v < 128,
    ensures
        has_width_1_encoding(v),
        leading_byte_width_1(v) == v as u8,
{
    assert(v < 128 ==> (v & 0x7F) == v) by (bit_vector);
}

/// UTF-8 encodes ASCII text one byte per character.
pub proof fn lemma_ascii_utf8(s: Seq<char>)
    requires
        is_ascii(s),
    ensures
        encode_utf8(s) == ascii_bytes(s),
    decreases s.len(),
{
    if s.len() > 0 {
        let r = s.drop_first();
        assert forall|i: int| 0 <= i < r.len() implies (#[trigger] r[i] as u32) < 128 by {
            assert(r[i] == s[i + 1]);
        }
        lemma_ascii_utf8(r);
        lemma_width_1(s[0] as u32);
        assert(encode_scalar(s[0] as u32) =~= seq![(s[0] as u32) as u8]);
        assert(ascii_bytes(s) =~= seq![(s[0] as u32) as u8] + ascii_bytes(r));
    }
}

proof fn lemma_scalar_no_nul(v: u32)
    requires
        v != 0,
        vstd::utf8::is_scalar(v),
    ensures
        lacks_byte(encode_scalar(v), 0),
{
    assert(v != 0 && v < 0x80 ==> (v & 0x7F) as u8 != 0) by (bit_vector);
    assert(forall|x: u32| (#[trigger] (0xC0u8 | ((x >> 6u32) & 0x1Fu32) as u8)) != 0) by (bit_vector);
    assert(forall|x: u32| (#[trigger] (0xE0u8 | ((x >> 12u32) & 0x0Fu32) as u8)) != 0) by (bit_vector);
    assert(forall|x: u32| (#[trigger] (0xF0u8 | ((x >> 18u32) & 0x7u32) as u8)) != 0) by (bit_vector);
    assert(forall|x: u32| (#[trigger] (0x80u8 | (x & 0x3Fu32) as u8)) != 0) by (bit_vector);
    assert(forall|x: u32| (#[trigger] (0x80u8 | ((x >> 6u32) & 0x3Fu32) as u8)) != 0) by (bit_vector);
    assert(forall|x: u32| (#[trigger] (0x80u8 | ((x >> 12u32) & 0x3Fu32) as u8)) != 0) by (bit_vector);
}

proof fn lemma_char_not_nul(c: char)
    requires
        c != '\0',
    ensures
        (c as u32) != 0,
{
    vstd::utf8::char_u32_cast(c, c as u32);
    vstd::utf8::char_u32_cast('\0', '\0' as u32);
    assert(('\0' as u32) == 0);
}

/// Text without the NUL character encodes to bytes without a zero byte.
pub proof fn lemma_utf8_no_nul(s: Seq<char>)
    requires
        forall|i: int| 0 <= i < s.len() ==> s[i] != '\0',
    ensures
        lacks_byte(encode_utf8(s), 0),
    decreases s.len(),
{
    if s.len() > 0 {
        let r = s.drop_first();
        assert forall|i: int| 0 <= i < r.len() implies r[i] != '\0' by {
            assert(r[i] == s[i + 1]);
        }
        lemma_utf8_no_nul(r);
        vstd::utf8::char_is_scalar(s[0]);
        lemma_char_not_nul(s[0]);
        lemma_scalar_no_nul(s[0] as u32);
        let e = encode_scalar(s[0] as u32);
        let t = encode_utf8(r);
        assert forall|i: int| 0 <= i < (e + t).len() implies (e + t)[i] != 0 by {
            if i < e.len() {
                assert((e + t)[i] == e[i]);
            } else {
                assert((e + t)[i] == t[i - e.len()]);
            }
        }
    }
}

/// UTF-8 encodes a concatenation piece by piece.
pub proof fn lemma_utf8_concat(a: Seq<char>, b: Seq<char>)
    ensures
        encode_utf8(a + b) == encode_utf8(a) + encode_utf8(b),
    decreases a.len(),
{
    if a.len() == 0 {
        assert(a + b =~= b);
        assert(encode_utf8(a) =~= Seq::<u8>::empty());
        assert(Seq::<u8>::empty() + encode_utf8(b) =~= encode_utf8(b));
    } else {
        lemma_utf8_concat(a.drop_first(), b);
        assert((a + b).drop_first() =~= a.drop_first() + b);
        assert((a + b)[0] == a[0]);
        let e = encode_scalar(a[0] as u32);
        assert(e + (encode_utf8(a.drop_first()) + encode_utf8(b)) =~= (e + encode_utf8(a.drop_first())) + encode_utf8(b));
    }
}

proof fn lemma_chars_differ(c: char, d: char)
    requires
        c != d,
    ensures
        (c as u32) != (d as u32),
{
    vstd::utf8::char_u32_cast(c, c as u32);
    vstd::utf8::char_u32_cast(d, d as u32);
}

proof fn lemma_scalar_lacks(v: u32, x: u32)
    requires
        v != x,
        x < 128,
        vstd::utf8::is_scalar(v),
    ensures
        lacks_byte(encode_scalar(v), x as u8),
{
    assert(v != x && v < 0x80 && x < 128 ==> (v & 0x7F) as u8 != x as u8) by (bit_vector);
    assert(forall|y: u32| x < 128 ==> (#[trigger] (0xC0u8 | ((y >> 6u32) & 0x1Fu32) as u8)) != x as u8) by (bit_vector);
    assert(forall|y: u32| x < 128 ==> (#[trigger] (0xE0u8 | ((y >> 12u32) & 0x0Fu32) as u8)) != x as u8) by (bit_vector);
    assert(forall|y: u32| x < 128 ==> (#[trigger] (0xF0u8 | ((y >> 18u32) & 0x7u32) as u8)) != x as u8) by (bit_vector);
    assert(forall|y: u32| x < 128 ==> (#[trigger] (0x80u8 | (y & 0x3Fu32) as u8)) != x as u8) by (bit_vector);
    assert(forall|y: u32| x < 128 ==> (#[trigger] (0x80u8 | ((y >> 6u32) & 0x3Fu32) as u8)) != x as u8) by (bit_vector);
    assert(forall|y: u32| x < 128 ==> (#[trigger] (0x80u8 | ((y >> 12u32) & 0x3Fu32) as u8)) != x as u8) by (bit_vector);
}

/// Text without a given ASCII character encodes to bytes without its byte.
pub proof fn lemma_utf8_lacks(s: Seq<char>, c: char)
    requires
        (c as u32) < 128,
        !s.contains(c),
    ensures
        lacks_byte(encode_utf8(s), (c as u32) as u8),
    decreases s.len(),
{
    if s.len() > 0 {
        let r = s.drop_first();
        assert(!r.contains(c)) by {
            if r.contains(c) {
                let k = choose|k: int| 0 <= k < r.len() && r[k] == c;
                assert(s[k + 1] == c);
            }
        }
        lemma_utf8_lacks(r, c);
        vstd::utf8::char_is_scalar(s[0]);
        assert(s[0] != c);
        lemma_chars_differ(s[0], c);
        lemma_scalar_lacks(s[0] as u32, c as u32);
        let e = encode_scalar(s[0] as u32);
        let t = encode_utf8(r);
        assert forall|i: int| 0 <= i < (e + t).len() implies (e + t)[i] != (c as u32) as u8 by {
            if i < e.len() {
                assert((e + t)[i] == e[i]);
            } else {
                assert((e + t)[i] == t[i - e.len()]);
            }
        }
    }
}

} // verus!
