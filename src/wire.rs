//! Big-endian integer fields and NUL-terminated strings as they appear on the wire.
use vstd::prelude::*;
use vstd::utf8::*;

verus! {

/// The four bytes of `x`, most significant first.
pub open spec fn be32(x: u32) -> Seq<u8> {
    seq![(x >> 24u32) as u8, (x >> 16u32) as u8, (x >> 8u32) as u8, x as u8]
}

/// The eight bytes of `x`, most significant first.
pub open spec fn be64(x: u64) -> Seq<u8> {
    be32((x >> 32u64) as u32) + be32(x as u32)
}

/// The 16-bit value whose big-endian bytes start at `i`.
pub open spec fn be16_at(b: Seq<u8>, i: int) -> u16 {
    ((b[i] as u16) << 8u16) | (b[i + 1] as u16)
}

/// The 32-bit value whose big-endian bytes start at `i`.
pub open spec fn be32_at(b: Seq<u8>, i: int) -> u32 {
    ((b[i] as u32) << 24u32) | ((b[i + 1] as u32) << 16u32) | ((b[i + 2] as u32) << 8u32) | (
    b[i + 3] as u32)
}

/// The 64-bit value whose big-endian bytes start at `i`.
pub open spec fn be64_at(b: Seq<u8>, i: int) -> u64 {
    ((be32_at(b, i) as u64) << 32u64) | (be32_at(b, i + 4) as u64)
}

/// Reading back the bytes of `be32(x)` gives `x`.
pub proof fn lemma_be32_round_trip(x: u32)
    ensures
        be32_at(be32(x), 0) == x,
{
    let b0 = (x >> 24u32) as u8;
    let b1 = (x >> 16u32) as u8;
    let b2 = (x >> 8u32) as u8;
    let b3 = x as u8;
    assert(((b0 as u32) << 24u32) | ((b1 as u32) << 16u32) | ((b2 as u32) << 8u32) | (b3 as u32)
        == x) by (bit_vector)
        requires
            b0 == (x >> 24u32) as u8,
            b1 == (x >> 16u32) as u8,
            b2 == (x >> 8u32) as u8,
            b3 == x as u8,
    ;
}

/// Reading back the bytes of `be64(x)` gives `x`.
pub proof fn lemma_be64_round_trip(x: u64)
    ensures
        be64_at(be64(x), 0) == x,
{
    let hi = (x >> 32u64) as u32;
    let lo = x as u32;
    lemma_be32_round_trip(hi);
    lemma_be32_round_trip(lo);
    let b = be64(x);
    assert(b.subrange(0, 4) == be32(hi));
    assert(b.subrange(4, 8) == be32(lo));
    assert(be32_at(b, 0) == be32_at(be32(hi), 0));
    assert(be32_at(b, 4) == be32_at(be32(lo), 0));
    assert(((hi as u64) << 32u64) | (lo as u64) == x) by (bit_vector)
        requires
            hi == (x >> 32u64) as u32,
            lo == x as u32,
    ;
}

/// A 32-bit field written at `i` reads back as the same value.
pub proof fn lemma_be32_field(b: Seq<u8>, i: int, x: u32)
    requires
        0 <= i,
        i + 4 <= b.len(),
        b.subrange(i, i + 4) == be32(x),
    ensures
        be32_at(b, i) == x,
{
    lemma_be32_round_trip(x);
    let s = b.subrange(i, i + 4);
    assert(s[0] == b[i] && s[1] == b[i + 1] && s[2] == b[i + 2] && s[3] == b[i + 3]);
}

/// A 64-bit field written at `i` reads back as the same value.
pub proof fn lemma_be64_field(b: Seq<u8>, i: int, x: u64)
    requires
        0 <= i,
        i + 8 <= b.len(),
        b.subrange(i, i + 8) == be64(x),
    ensures
        be64_at(b, i) == x,
{
    lemma_be64_round_trip(x);
    let s = b.subrange(i, i + 8);
    assert(s.subrange(0, 4) =~= b.subrange(i, i + 4));
    assert(s.subrange(4, 8) =~= b.subrange(i + 4, i + 8));
    assert(be64(x).subrange(0, 4) =~= be32((x >> 32u64) as u32));
    assert(be64(x).subrange(4, 8) =~= be32(x as u32));
    lemma_be32_field(b, i, (x >> 32u64) as u32);
    lemma_be32_field(b, i + 4, x as u32);
    lemma_be32_field(be64(x), 0, (x >> 32u64) as u32);
    lemma_be32_field(be64(x), 4, x as u32);
}

/// Index of the first zero byte of `s` at or after `i`, or the length of `s` if there is none.
pub open spec fn nul_index(s: Seq<u8>, i: int) -> int
    decreases s.len() - i,
{
    if i >= s.len() {
        s.len() as int
    } else if s[i] == 0 {
        i
    } else {
        nul_index(s, i + 1)
    }
}

/// The text of the string that starts at `i`: the bytes up to the first zero byte (or the
/// end), converted as `String::from_utf8_lossy` converts them: the characters they encode
/// when they are valid UTF-8.
pub open spec fn cstr_at(s: Seq<u8>, i: int) -> Seq<char> {
    let sub = s.subrange(i, nul_index(s, i));
    if valid_utf8(sub) {
        decode_utf8(sub)
    } else {
        utf8_lossy(sub)
    }
}

/// The text that `String::from_utf8_lossy` makes of `b`: for valid UTF-8 its decoding, with
/// each invalid sequence replaced by U+FFFD otherwise.
pub uninterp spec fn utf8_lossy(b: Seq<u8>) -> Seq<char>;

/// Relies on `String::from_utf8_lossy`: the text depends on the bytes alone, and bytes that
/// are valid UTF-8 come out as the characters they encode.
#[verifier::external_body]
fn text_from_bytes(b: &[u8]) -> (r: String)
    ensures
        r@ == utf8_lossy(b@),
        valid_utf8(b@) ==> r@ == decode_utf8(b@),
{
    String::from_utf8_lossy(b).into_owned()
}

/// Where `nul_index` stops: within bounds, after nonzero bytes only, and on a zero byte
/// unless it reached the end.
pub proof fn lemma_nul_index(s: Seq<u8>, i: int)
    requires
        0 <= i <= s.len(),
    ensures
        i <= nul_index(s, i) <= s.len(),
        nul_index(s, i) < s.len() ==> s[nul_index(s, i)] == 0,
        forall|j: int| i <= j < nul_index(s, i) ==> s[j] != 0,
    decreases s.len() - i,
{
    if i < s.len() && s[i] != 0 {
        lemma_nul_index(s, i + 1);
    }
}

/// The text of `b` when every byte is ASCII: one character per byte.
pub open spec fn ascii_text(b: Seq<u8>) -> Seq<char> {
    b.map_values(|x: u8| x as char)
}

/// Bytes below 0x80 are valid UTF-8 and decode to one character each.
pub proof fn lemma_ascii_decode(b: Seq<u8>)
    requires
        forall|i: int| 0 <= i < b.len() ==> b[i] < 0x80,
    ensures
        valid_utf8(b),
        decode_utf8(b) == ascii_text(b),
    decreases b.len(),
{
    if b.len() > 0 {
        let x = b[0];
        assert((x & 0x7Fu8) == x) by (bit_vector)
            requires
                x < 0x80u8,
        ;
        assert(decode_first_scalar(b) == x as u32);
        assert(pop_first_scalar(b) =~= b.drop_first());
        lemma_ascii_decode(b.drop_first());
        assert(decode_utf8(b) =~= ascii_text(b));
    } else {
        assert(decode_utf8(b) =~= ascii_text(b));
    }
}

/// The UTF-8 encoding of text without a NUL character holds no zero byte.
pub proof fn lemma_encode_utf8_no_zero(chars: Seq<char>)
    requires
        !chars.contains('\0'),
    ensures
        !encode_utf8(chars).contains(0u8),
    decreases chars.len(),
{
    if chars.len() > 0 {
        let c = chars[0];
        let v = c as u32;
        char_is_scalar(c);
        assert(chars.drop_first().contains('\0') ==> chars.contains('\0')) by {
            if chars.drop_first().contains('\0') {
                let k = choose|k: int| 0 <= k < chars.drop_first().len() && chars.drop_first()[k] == '\0';
                assert(chars[k + 1] == '\0');
            }
        }
        lemma_encode_utf8_no_zero(chars.drop_first());
        assert(c != '\0') by {
            assert(chars[0] == c);
        }
        assert(v != 0) by {
            char_u32_cast(c, v);
            if v == 0 {
                char_u32_cast('\0', 0u32);
            }
        }
        let e = encode_scalar(v);
        assert forall|y: u32| (0x80u8 | ((y & 0x3F) as u8)) != 0u8 && (0xC0u8 | ((y >> 6u32) & 0x1F) as u8)
            != 0u8 && (0xE0u8 | ((y >> 12u32) & 0x0F) as u8) != 0u8 && (0xF0u8 | ((y >> 18u32)
            & 0x7) as u8) != 0u8 && (0x80u8 | ((y >> 6u32) & 0x3F) as u8) != 0u8 && (0x80u8 | ((y
            >> 12u32) & 0x3F) as u8) != 0u8 by {
            assert((0x80u8 | ((y & 0x3F) as u8)) != 0u8 && (0xC0u8 | ((y >> 6u32) & 0x1F) as u8)
                != 0u8 && (0xE0u8 | ((y >> 12u32) & 0x0F) as u8) != 0u8 && (0xF0u8 | ((y >> 18u32)
                & 0x7) as u8) != 0u8 && (0x80u8 | ((y >> 6u32) & 0x3F) as u8) != 0u8 && (0x80u8 | ((
            y >> 12u32) & 0x3F) as u8) != 0u8) by (bit_vector);
        }
        assert(0 < v <= 0x7F ==> (v & 0x7Fu32) as u8 != 0u8) by (bit_vector);
        assert(!e.contains(0u8));
        let rest = encode_utf8(chars.drop_first());
        assert(encode_utf8(chars) == e + rest);
        if (e + rest).contains(0u8) {
            let k = choose|k: int| 0 <= k < (e + rest).len() && (e + rest)[k] == 0u8;
            if k < e.len() {
                assert(e[k] == 0u8);
            } else {
                assert(rest[k - e.len()] == 0u8);
            }
        }
    }
}

/// Where a string encoded without a NUL character and then terminated stands in a buffer:
/// `nul_index` from its start finds its terminator, and the bytes before it decode to it.
pub proof fn lemma_cstr_encoded(prefix: Seq<u8>, chars: Seq<char>, rest: Seq<u8>)
    requires
        !chars.contains('\0'),
    ensures
        ({
            let b = prefix + encode_utf8(chars) + seq![0u8] + rest;
            let end = prefix.len() + encode_utf8(chars).len() as int;
            &&& nul_index(b, prefix.len() as int) == end
            &&& b.subrange(prefix.len() as int, end) == encode_utf8(chars)
            &&& decode_utf8(b.subrange(prefix.len() as int, end)) == chars
        }),
{
    let e = encode_utf8(chars);
    let b = prefix + e + seq![0u8] + rest;
    let start = prefix.len() as int;
    let end = start + e.len();
    lemma_encode_utf8_no_zero(chars);
    encode_utf8_decode_utf8(chars);
    assert(b.subrange(start, end) =~= e);
    assert(b[end] == 0u8);
    lemma_nul_index(b, start);
    let r = nul_index(b, start);
    if r < end {
        assert(b[r] == e[r - start]);
        assert(e.contains(0u8));
    }
    if r > end {
        assert(b[end] != 0);
    }
}

/// The number that `s` spells in base 256, most significant byte first.
pub open spec fn be_value(s: Seq<u8>) -> nat
    decreases s.len(),
{
    if s.len() == 0 {
        0
    } else {
        be_value(s.drop_last()) * 256 + s.last() as nat
    }
}

/// Base-256 value of a concatenation.
pub proof fn lemma_be_value_append(a: Seq<u8>, b: Seq<u8>)
    ensures
        be_value(a + b) == be_value(a) * pow256(b.len()) + be_value(b),
    decreases b.len(),
{
    if b.len() == 0 {
        assert(a + b =~= a);
        assert(be_value(b) == 0);
        assert(pow256(0) == 1);
        assert(be_value(a) * 1 == be_value(a));
    } else {
        assert((a + b).drop_last() =~= a + b.drop_last());
        assert((a + b).last() == b.last());
        lemma_be_value_append(a, b.drop_last());
        let p = pow256((b.len() - 1) as nat);
        let va = be_value(a);
        let vb = be_value(b.drop_last());
        assert(pow256(b.len()) == p * 256);
        assert(be_value(a + b) == be_value(a + b.drop_last()) * 256 + b.last() as nat);
        assert(be_value(b) == vb * 256 + b.last() as nat);
        assert((va * p + vb) * 256 == va * (p * 256) + vb * 256) by (nonlinear_arith);
    }
}

/// 256 to the power `n`.
pub open spec fn pow256(n: nat) -> nat
    decreases n,
{
    if n == 0 {
        1
    } else {
        pow256((n - 1) as nat) * 256
    }
}

/// A 16-bit field read at `i` is the big-endian value of its two bytes.
pub proof fn lemma_be16_at_value(b: Seq<u8>, i: int)
    requires
        0 <= i,
        i + 2 <= b.len(),
    ensures
        be16_at(b, i) == be_value(b.subrange(i, i + 2)),
{
    let s = b.subrange(i, i + 2);
    let (b0, b1) = (b[i], b[i + 1]);
    assert(s.drop_last() =~= seq![b0]);
    assert(seq![b0].drop_last() =~= Seq::<u8>::empty());
    assert(be_value(Seq::<u8>::empty()) == 0);
    assert(be_value(seq![b0]) == b0);
    assert((((b0 as u16) << 8u16) | (b1 as u16)) as u32 == (b0 as u32) * 256u32 + (b1 as u32))
        by (bit_vector);
}

/// A 32-bit field read at `i` is the big-endian value of its four bytes.
pub proof fn lemma_be32_at_value(b: Seq<u8>, i: int)
    requires
        0 <= i,
        i + 4 <= b.len(),
    ensures
        be32_at(b, i) == be_value(b.subrange(i, i + 4)),
{
    let s = b.subrange(i, i + 4);
    let (b0, b1, b2, b3) = (b[i], b[i + 1], b[i + 2], b[i + 3]);
    assert(s.drop_last() =~= seq![b0, b1, b2]);
    assert(seq![b0, b1, b2].drop_last() =~= seq![b0, b1]);
    assert(seq![b0, b1].drop_last() =~= seq![b0]);
    assert(seq![b0].drop_last() =~= Seq::<u8>::empty());
    assert(be_value(Seq::<u8>::empty()) == 0);
    assert(be_value(seq![b0]) == b0);
    assert(be_value(seq![b0, b1]) == b0 * 256 + b1);
    assert(be_value(seq![b0, b1, b2]) == (b0 * 256 + b1) * 256 + b2);
    assert((((b0 as u32) << 24u32) | ((b1 as u32) << 16u32) | ((b2 as u32) << 8u32) | (b3 as u32))
        as u64 == (b0 as u64) * 16777216u64 + (b1 as u64) * 65536u64 + (b2 as u64) * 256u64 + (
    b3 as u64)) by (bit_vector);
}

/// `be32(x)` spells `x` in base 256.
pub proof fn lemma_be32_value(x: u32)
    ensures
        be_value(be32(x)) == x,
{
    let b0 = (x >> 24u32) as u8;
    let b1 = (x >> 16u32) as u8;
    let b2 = (x >> 8u32) as u8;
    let b3 = x as u8;
    assert(be32(x).drop_last() =~= seq![b0, b1, b2]);
    assert(seq![b0, b1, b2].drop_last() =~= seq![b0, b1]);
    assert(seq![b0, b1].drop_last() =~= seq![b0]);
    assert(seq![b0].drop_last() =~= Seq::<u8>::empty());
    assert(be_value(Seq::<u8>::empty()) == 0);
    assert(be_value(seq![b0]) == b0);
    assert(be_value(seq![b0, b1]) == b0 * 256 + b1);
    assert(be_value(seq![b0, b1, b2]) == (b0 * 256 + b1) * 256 + b2);
    assert((b0 as u64) * 16777216u64 + (b1 as u64) * 65536u64 + (b2 as u64) * 256u64 + (b3 as u64)
        == x as u64) by (bit_vector)
        requires
            b0 == (x >> 24u32) as u8,
            b1 == (x >> 16u32) as u8,
            b2 == (x >> 8u32) as u8,
            b3 == x as u8,
    ;
}

/// `be64(x)` spells `x` in base 256.
pub proof fn lemma_be64_value(x: u64)
    ensures
        be_value(be64(x)) == x,
{
    let hi = (x >> 32u64) as u32;
    let lo = x as u32;
    lemma_be32_value(hi);
    lemma_be32_value(lo);
    lemma_be_value_append(be32(hi), be32(lo));
    reveal_with_fuel(pow256, 5);
    assert((hi as u128) * 0x1_0000_0000u128 + (lo as u128) == x as u128) by (bit_vector)
        requires
            hi == (x >> 32u64) as u32,
            lo == x as u32,
    ;
}

/// Appends the big-endian bytes of `x`.
pub fn push_be32(buf: &mut Vec<u8>, x: u32)
    ensures
        final(buf)@ == old(buf)@ + be32(x),
{
    buf.push((x >> 24u32) as u8);
    buf.push((x >> 16u32) as u8);
    buf.push((x >> 8u32) as u8);
    buf.push(x as u8);
}

/// Appends the big-endian bytes of `x`.
pub fn push_be64(buf: &mut Vec<u8>, x: u64)
    ensures
        final(buf)@ == old(buf)@ + be64(x),
{
    push_be32(buf, (x >> 32u64) as u32);
    push_be32(buf, x as u32);
}

/// Reads the big-endian 16-bit value at `i`.
pub fn read_be16(buf: &[u8], i: usize) -> (r: u16)
    requires
        i + 2 <= buf@.len(),
    ensures
        r == be16_at(buf@, i as int),
{
    ((buf[i] as u16) << 8u16) | (buf[i + 1] as u16)
}

/// Reads the big-endian 32-bit value at `i`.
pub fn read_be32(buf: &[u8], i: usize) -> (r: u32)
    requires
        i + 4 <= buf@.len(),
    ensures
        r == be32_at(buf@, i as int),
{
    ((buf[i] as u32) << 24u32) | ((buf[i + 1] as u32) << 16u32) | ((buf[i + 2] as u32) << 8u32) | (
    buf[i + 3] as u32)
}

/// Reads the big-endian 64-bit value at `i`.
pub fn read_be64(buf: &[u8], i: usize) -> (r: u64)
    requires
        i + 8 <= buf.len(),
    ensures
        r == be64_at(buf@, i as int),
{
    ((read_be32(buf, i) as u64) << 32u64) | (read_be32(buf, i + 4) as u64)
}

/// Index of the first zero byte of `buf` at or after `start`, or `buf.len()` if none.
pub fn find_nul(buf: &[u8], start: usize) -> (r: usize)
    requires
        start <= buf@.len(),
    ensures
        r == nul_index(buf@, start as int),
{
    let mut j = start;
    while j < buf.len() && buf[j] != 0
        invariant
            start <= j <= buf@.len(),
            nul_index(buf@, start as int) == nul_index(buf@, j as int),
        decreases buf@.len() - j,
    {
        j = j + 1;
    }
    j
}

/// A copy of `buf[start..end]`.
pub fn copy_range(buf: &[u8], start: usize, end: usize) -> (r: Vec<u8>)
    requires
        start <= end <= buf@.len(),
    ensures
        r@ == buf@.subrange(start as int, end as int),
{
    let mut out: Vec<u8> = Vec::with_capacity(end - start);
    let mut i = start;
    while i < end
        invariant
            start <= i <= end <= buf@.len(),
            out@ == buf@.subrange(start as int, i as int),
        decreases end - i,
    {
        out.push(buf[i]);
        i = i + 1;
        assert(out@ =~= buf@.subrange(start as int, i as int));
    }
    out
}

/// Reads the string that starts at `start`: the text up to the first zero byte (or the end),
/// and the index of that zero byte.
pub fn cstr_from_buf(buf: &[u8], start: usize) -> (r: (String, usize))
    requires
        start <= buf@.len(),
    ensures
        r.1 == nul_index(buf@, start as int),
        r.0@ == cstr_at(buf@, start as int),
{
    let end = find_nul(buf, start);
    proof {
        lemma_nul_index(buf@, start as int);
    }
    let bytes = copy_range(buf, start, end);
    (text_from_bytes(bytes.as_slice()), end)
}

/// The text that ASCII bytes spell, one character per byte.
pub fn ascii_string(bytes: &Vec<u8>) -> (r: String)
    requires
        forall|i: int| 0 <= i < bytes@.len() ==> bytes@[i] < 0x80,
    ensures
        r@ == ascii_text(bytes@),
{
    proof {
        lemma_ascii_decode(bytes@);
    }
    text_from_bytes(bytes.as_slice())
}

/// Appends the UTF-8 bytes of `s` and a terminating zero byte.
pub fn push_cstr(buf: &mut Vec<u8>, s: &String)
    ensures
        final(buf)@ == old(buf)@ + encode_utf8(s@) + seq![0u8],
{
    let bytes = s.as_str().as_bytes();
    let mut i: usize = 0;
    while i < bytes.len()
        invariant
            0 <= i <= bytes@.len(),
            bytes@ == encode_utf8(s@),
            buf@ == old(buf)@ + bytes@.subrange(0, i as int),
        decreases bytes@.len() - i,
    {
        buf.push(bytes[i]);
        i = i + 1;
        assert(buf@ =~= old(buf)@ + bytes@.subrange(0, i as int));
    }
    buf.push(0u8);
    assert(bytes@.subrange(0, bytes@.len() as int) =~= bytes@);
}

} // verus!
