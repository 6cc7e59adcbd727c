use vstd::prelude::*;

use super::encoding::{le_value, lemma_le_value_4};

verus! {

/// The sum of the little-endian 32-bit words of `data`, as a mathematical
/// number; a last word of fewer than four bytes counts as if padded with
/// zero bytes.
pub open spec fn word_sum(data: Seq<u8>) -> nat
    decreases data.len(),
{
    if data.len() <= 4 {
        le_value(data)
    } else {
        le_value(data.take(4)) + word_sum(data.skip(4))
    }
}

/// The additive checksum used by AMLS blocks and media writes.
pub open spec fn spec_amls_checksum(data: Seq<u8>) -> u32 {
    (word_sum(data) % 0x1_0000_0000) as u32
}

proof fn lemma_le_value_3(s: Seq<u8>)
    requires
        s.len() == 3,
    ensures
        le_value(s) == s[0] + 0x100 * s[1] + 0x1_0000 * s[2],
{
    reveal_with_fuel(le_value, 4);
}

proof fn lemma_le_value_2(s: Seq<u8>)
    requires
        s.len() == 2,
    ensures
        le_value(s) == s[0] + 0x100 * s[1],
{
    reveal_with_fuel(le_value, 3);
}

proof fn lemma_le_value_1(s: Seq<u8>)
    requires
        s.len() == 1,
    ensures
        le_value(s) == s[0],
{
    reveal_with_fuel(le_value, 2);
}

/// Adds up the little-endian 32-bit words of `data`, wrapping at 2^32; a
/// last word of fewer than four bytes is read as if padded with zeros.
pub fn amls_checksum(data: &[u8]) -> (checksum: u32)
    ensures
        checksum == spec_amls_checksum(data@),
{
    let len = data.len();
    let mut checksum: u32 = 0;
    let mut offset: usize = 0;
    assert(data@.skip(0) =~= data@);
    while offset < len
        invariant
            len == data@.len(),
            offset <= len,
            (checksum + word_sum(data@.skip(offset as int))) % 0x1_0000_0000
                == word_sum(data@) % 0x1_0000_0000,
        decreases len - offset,
    {
        let left = len - offset;
        let ghost rest = data@.skip(offset as int);
        let val: u32;
        if left >= 4 {
            proof {
                lemma_le_value_4(rest.take(4));
            }
            val = data[offset] as u32 + 0x100 * (data[offset + 1] as u32) + 0x1_0000 * (
            data[offset + 2] as u32) + 0x100_0000 * (data[offset + 3] as u32);
            assert(rest.skip(4) =~= data@.skip(offset + 4));
            if left == 4 {
                assert(rest.take(4) =~= rest);
                assert(data@.skip(offset + 4).len() == 0);
                reveal_with_fuel(word_sum, 2);
            }
            offset = offset + 4;
        } else {
            if left == 3 {
                proof {
                    lemma_le_value_3(rest);
                }
                val = data[offset] as u32 + 0x100 * (data[offset + 1] as u32) + 0x1_0000 * (
                data[offset + 2] as u32);
            } else if left == 2 {
                proof {
                    lemma_le_value_2(rest);
                }
                val = data[offset] as u32 + 0x100 * (data[offset + 1] as u32);
            } else {
                proof {
                    lemma_le_value_1(rest);
                }
                val = data[offset] as u32;
            }
            assert(data@.skip(len as int).len() == 0);
            offset = len;
        }
        assert((checksum + word_sum(rest)) % 0x1_0000_0000 == (checksum + val + word_sum(
            data@.skip(offset as int),
        )) % 0x1_0000_0000);
        checksum = checksum.wrapping_add(val);
    }
    assert(word_sum(data@.skip(len as int)) == 0) by {
        reveal_with_fuel(le_value, 1);
    }
    checksum
}

/// The sum of the words of two pieces, the first a whole number of words,
/// is the sum of the words of their concatenation.
pub proof fn lemma_word_sum_concat(a: Seq<u8>, b: Seq<u8>)
    requires
        a.len() % 4 == 0,
    ensures
        word_sum(a + b) == word_sum(a) + word_sum(b),
    decreases a.len(),
{
    if a.len() == 0 {
        assert(a + b =~= b);
        reveal_with_fuel(le_value, 1);
    } else {
        assert((a + b).take(4) =~= a.take(4));
        if (a + b).len() <= 4 {
            assert(b.len() == 0);
            assert(a + b =~= a);
            reveal_with_fuel(le_value, 1);
        } else {
            assert((a + b).skip(4) =~= a.skip(4) + b);
            lemma_word_sum_concat(a.skip(4), b);
            if a.len() == 4 {
                assert(a.take(4) =~= a);
                assert(a.skip(4).len() == 0);
                reveal_with_fuel(le_value, 1);
            }
        }
    }
}

/// The checksum of a whole number of words followed by more data is the
/// wrapping sum of the checksums of the two parts.
pub proof fn lemma_checksum_concat(a: Seq<u8>, b: Seq<u8>)
    requires
        a.len() % 4 == 0,
    ensures
        spec_amls_checksum(a + b) == vstd::wrapping::u32_specs::wrapping_add(
            spec_amls_checksum(a),
            spec_amls_checksum(b),
        ),
{
    lemma_word_sum_concat(a, b);
    let x = word_sum(a) as int;
    let y = word_sum(b) as int;
    vstd::arithmetic::div_mod::lemma_add_mod_noop(x, y, 0x1_0000_0000);
}

/// `n` zero bytes.
pub open spec fn zeros(n: nat) -> Seq<u8> {
    Seq::new(n, |i: int| 0u8)
}

proof fn lemma_le_value_zeros(s: Seq<u8>, n: nat)
    ensures
        le_value(s + zeros(n)) == le_value(s),
    decreases s.len() + n,
{
    if s.len() == 0 {
        if n > 0 {
            assert((s + zeros(n)).drop_first() =~= Seq::<u8>::empty() + zeros((n - 1) as nat));
            lemma_le_value_zeros(Seq::<u8>::empty(), (n - 1) as nat);
            assert(Seq::<u8>::empty() + zeros((n - 1) as nat) =~= zeros((n - 1) as nat));
        } else {
            assert(s + zeros(n) =~= s);
        }
    } else {
        assert((s + zeros(n)).drop_first() =~= s.drop_first() + zeros(n));
        lemma_le_value_zeros(s.drop_first(), n);
    }
}

proof fn lemma_word_sum_zeros(n: nat)
    ensures
        word_sum(zeros(n)) == 0,
    decreases n,
{
    lemma_le_value_zeros(Seq::empty(), n);
    assert(Seq::<u8>::empty() + zeros(n) =~= zeros(n));
    reveal_with_fuel(le_value, 1);
    if n > 4 {
        lemma_le_value_zeros(Seq::empty(), 4);
        assert(Seq::<u8>::empty() + zeros(4) =~= zeros(n).take(4));
        assert(zeros(n).skip(4) =~= zeros((n - 4) as nat));
        lemma_word_sum_zeros((n - 4) as nat);
    }
}

/// Zero bytes appended to data leave its word sum unchanged.
pub proof fn lemma_word_sum_zero_pad(a: Seq<u8>, n: nat)
    ensures
        word_sum(a + zeros(n)) == word_sum(a),
    decreases a.len(),
{
    let p = a + zeros(n);
    if p.len() <= 4 {
        lemma_le_value_zeros(a, n);
    } else if a.len() <= 4 {
        let k = (4 - a.len()) as nat;
        assert(p.take(4) =~= a + zeros(k));
        lemma_le_value_zeros(a, k);
        assert(p.skip(4) =~= zeros((n - k) as nat));
        lemma_word_sum_zeros((n - k) as nat);
    } else {
        assert(p.take(4) =~= a.take(4));
        assert(p.skip(4) =~= a.skip(4) + zeros(n));
        lemma_word_sum_zero_pad(a.skip(4), n);
    }
}

/// Zero bytes appended to data leave its checksum unchanged.
pub proof fn lemma_checksum_zero_pad(a: Seq<u8>, n: nat)
    ensures
        spec_amls_checksum(a + zeros(n)) == spec_amls_checksum(a),
{
    lemma_word_sum_zero_pad(a, n);
}

/// The checksum of at most four bytes is the little-endian word they
/// make, the missing high bytes counting as zeros.
pub proof fn lemma_checksum_short(t: Seq<u8>)
    requires
        t.len() <= 4,
    ensures
        spec_amls_checksum(t) == le_value(t),
        le_value(t) < 0x1_0000_0000,
{
    let k = (4 - t.len()) as nat;
    lemma_le_value_zeros(t, k);
    let w = t + zeros(k);
    lemma_le_value_4(w);
    assert(le_value(w) < 0x1_0000_0000);
}

/// The checksum of a whole number of words followed by a last word of at
/// most four bytes adds the value of that last word, wrapping at 2^32.
pub proof fn lemma_checksum_tail(a: Seq<u8>, t: Seq<u8>)
    requires
        a.len() % 4 == 0,
        t.len() <= 4,
    ensures
        spec_amls_checksum(a + t) == (spec_amls_checksum(a) + le_value(t)) % 0x1_0000_0000,
{
    lemma_checksum_concat(a, t);
    lemma_checksum_short(t);
}

} // verus!
