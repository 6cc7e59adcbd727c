use vstd::prelude::*;

verus! {

/// The four little-endian bytes of `x`.
pub open spec fn le_bytes_u32(x: u32) -> Seq<u8> {
    seq![
        (x % 0x100) as u8,
        ((x / 0x100) % 0x100) as u8,
        ((x / 0x1_0000) % 0x100) as u8,
        ((x / 0x100_0000) % 0x100) as u8,
    ]
}

/// The two little-endian bytes of `x`.
pub open spec fn le_bytes_u16(x: u16) -> Seq<u8> {
    seq![(x % 0x100) as u8, ((x / 0x100) % 0x100) as u8]
}

/// The number that the bytes `s` encode in little-endian order.
pub open spec fn le_value(s: Seq<u8>) -> nat
    decreases s.len(),
{
    if s.len() == 0 {
        0
    } else {
        s[0] as nat + 0x100 * le_value(s.drop_first())
    }
}

/// Appends the four little-endian bytes of `x` to `v`.
pub fn push_u32_le(v: &mut Vec<u8>, x: u32)
    ensures
        final(v)@ == old(v)@ + le_bytes_u32(x),
{
    v.push((x % 0x100) as u8);
    v.push(((x / 0x100) % 0x100) as u8);
    v.push(((x / 0x1_0000) % 0x100) as u8);
    v.push(((x / 0x100_0000) % 0x100) as u8);
}

/// Appends the two little-endian bytes of `x` to `v`.
pub fn push_u16_le(v: &mut Vec<u8>, x: u16)
    ensures
        final(v)@ == old(v)@ + le_bytes_u16(x),
{
    v.push((x % 0x100) as u8);
    v.push(((x / 0x100) % 0x100) as u8);
}

/// Four words packed as sixteen little-endian bytes, `a` first.
pub fn pack_u32x4(a: u32, b: u32, c: u32, d: u32) -> (v: Vec<u8>)
    ensures
        v@ == le_bytes_u32(a) + le_bytes_u32(b) + le_bytes_u32(c) + le_bytes_u32(d),
{
    let mut v = Vec::with_capacity(16);
    push_u32_le(&mut v, a);
    push_u32_le(&mut v, b);
    push_u32_le(&mut v, c);
    push_u32_le(&mut v, d);
    v
}

/// The value of four little-endian bytes.
pub proof fn lemma_le_value_4(s: Seq<u8>)
    requires
        s.len() == 4,
    ensures
        le_value(s) == s[0] + 0x100 * s[1] + 0x1_0000 * s[2] + 0x100_0000 * s[3],
{
    reveal_with_fuel(le_value, 5);
    assert(s.drop_first().drop_first().drop_first().drop_first().len() == 0);
}

/// Reading back the four little-endian bytes of a word gives the word.
pub proof fn lemma_le_bytes_u32_roundtrip(x: u32)
    ensures
        le_value(le_bytes_u32(x)) == x,
{
    lemma_le_value_4(le_bytes_u32(x));
    let b0 = x % 0x100;
    let q0 = x / 0x100;
    let b1 = q0 % 0x100;
    let q1 = q0 / 0x100;
    let b2 = q1 % 0x100;
    let q2 = q1 / 0x100;
    let b3 = q2 % 0x100;
    assert(x / 0x1_0000 == q1) by {
        vstd::arithmetic::div_mod::lemma_div_denominator(x as int, 0x100, 0x100);
    }
    assert(x / 0x100_0000 == q2) by {
        vstd::arithmetic::div_mod::lemma_div_denominator(x as int, 0x100, 0x100);
        vstd::arithmetic::div_mod::lemma_div_denominator(x as int, 0x1_0000, 0x100);
    }
    assert(q2 < 0x100);
    assert(x == b0 + 0x100 * (b1 + 0x100 * (b2 + 0x100 * b3)));
}

/// Each word packed by [`pack_u32x4`] reads back from its four bytes.
pub proof fn lemma_pack_u32x4_roundtrip(a: u32, b: u32, c: u32, d: u32)
    ensures
        ({
            let packed = le_bytes_u32(a) + le_bytes_u32(b) + le_bytes_u32(c) + le_bytes_u32(d);
            &&& packed.len() == 16
            &&& le_value(packed.subrange(0, 4)) == a
            &&& le_value(packed.subrange(4, 8)) == b
            &&& le_value(packed.subrange(8, 12)) == c
            &&& le_value(packed.subrange(12, 16)) == d
        }),
{
    let packed = le_bytes_u32(a) + le_bytes_u32(b) + le_bytes_u32(c) + le_bytes_u32(d);
    assert(packed.subrange(0, 4) =~= le_bytes_u32(a));
    assert(packed.subrange(4, 8) =~= le_bytes_u32(b));
    assert(packed.subrange(8, 12) =~= le_bytes_u32(c));
    assert(packed.subrange(12, 16) =~= le_bytes_u32(d));
    lemma_le_bytes_u32_roundtrip(a);
    lemma_le_bytes_u32_roundtrip(b);
    lemma_le_bytes_u32_roundtrip(c);
    lemma_le_bytes_u32_roundtrip(d);
}

/// Reading back the two little-endian bytes of a half-word gives it.
pub proof fn lemma_le_bytes_u16_roundtrip(x: u16)
    ensures
        le_value(le_bytes_u16(x)) == x,
{
    reveal_with_fuel(le_value, 3);
    let s = le_bytes_u16(x);
    assert(s.drop_first().drop_first().len() == 0);
    assert(x / 0x100 < 0x100);
}

} // verus!
