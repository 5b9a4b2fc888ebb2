//! Numbers given by their little-endian bytes, the canonical form of field
//! elements.
use vstd::arithmetic::power2::{lemma_pow2_unfold, pow2};
use vstd::prelude::*;

verus! {

/// The number with the given little-endian bytes.
pub open spec fn le_value(b: Seq<u8>) -> nat
    decreases b.len(),
{
    if b.len() == 0 {
        0
    } else {
        b[0] as nat + 256 * le_value(b.skip(1))
    }
}

/// Bytes further out weigh at least as much as the number they make alone.
proof fn lemma_suffix_below(b: Seq<u8>, i: int)
    requires
        0 <= i <= b.len(),
    ensures
        le_value(b.skip(i)) <= le_value(b),
    decreases i,
{
    if i > 0 {
        lemma_suffix_below(b, i - 1);
        let t = b.skip(i - 1);
        assert(t.skip(1) =~= b.skip(i));
    } else {
        assert(b.skip(0) =~= b);
    }
}

/// The number as a machine word, when it fits.
pub fn le_to_usize(bytes: &Vec<u8>) -> (r: Option<usize>)
    ensures
        match r {
            Some(v) => v == le_value(bytes@),
            None => le_value(bytes@) > usize::MAX,
        },
{
    let mut acc: usize = 0;
    let mut i: usize = bytes.len();
    assert(bytes@.skip(i as int) =~= Seq::<u8>::empty());
    while i > 0
        invariant
            i <= bytes@.len(),
            acc == le_value(bytes@.skip(i as int)),
        decreases i,
    {
        let byte = bytes[i - 1];
        proof {
            let t = bytes@.skip(i - 1);
            assert(t.skip(1) =~= bytes@.skip(i as int));
            assert(t[0] == byte);
            lemma_suffix_below(bytes@, i - 1);
        }
        if acc > (usize::MAX - byte as usize) / 256 {
            return None;
        }
        acc = acc * 256 + byte as usize;
        i = i - 1;
    }
    assert(bytes@.skip(0) =~= bytes@);
    Some(acc)
}

/// A 64-bit word read as a two's complement integer.
pub open spec fn signed_word(v: nat) -> int {
    if v < 0x8000_0000_0000_0000 {
        v as int
    } else {
        v - 0x1_0000_0000_0000_0000
    }
}

/// The number as a 64-bit integer; none where it takes more than eight bytes.
pub fn field_to_i64_like(bytes: &Vec<u8>) -> (r: Option<i64>)
    ensures
        match r {
            Some(v) => le_value(bytes@) <= u64::MAX && v == signed_word(le_value(bytes@)),
            None => le_value(bytes@) > u64::MAX,
        },
{
    let mut acc: u64 = 0;
    let mut i: usize = bytes.len();
    assert(bytes@.skip(i as int) =~= Seq::<u8>::empty());
    while i > 0
        invariant
            i <= bytes@.len(),
            acc == le_value(bytes@.skip(i as int)),
        decreases i,
    {
        let byte = bytes[i - 1];
        proof {
            let t = bytes@.skip(i - 1);
            assert(t.skip(1) =~= bytes@.skip(i as int));
            assert(t[0] == byte);
            lemma_suffix_below(bytes@, i - 1);
        }
        if acc > (u64::MAX - byte as u64) / 256 {
            return None;
        }
        acc = acc * 256 + byte as u64;
        i = i - 1;
    }
    assert(bytes@.skip(0) =~= bytes@);
    if acc < 0x8000_0000_0000_0000 {
        Some(acc as i64)
    } else {
        let rest: u64 = u64::MAX - acc;
        Some(-1 - (rest as i64))
    }
}

/// Two to the power of `log_size`, when it is a machine word.
pub fn checked_pow2(log_size: usize) -> (r: Option<usize>)
    ensures
        match r {
            Some(v) => v == pow2(log_size as nat),
            None => pow2(log_size as nat) > usize::MAX,
        },
{
    let mut acc: usize = 1;
    let mut i: usize = 0;
    proof {
        vstd::arithmetic::power2::lemma2_to64();
    }
    while i < log_size
        invariant
            i <= log_size,
            acc == pow2(i as nat),
        decreases log_size - i,
    {
        proof {
            lemma_pow2_unfold((i + 1) as nat);
        }
        if acc > usize::MAX / 2 {
            proof {
                lemma_pow2_monotone((i + 1) as nat, log_size as nat);
            }
            return None;
        }
        acc = acc * 2;
        i = i + 1;
    }
    Some(acc)
}

/// A larger exponent gives a larger power of two.
pub proof fn lemma_pow2_monotone(a: nat, b: nat)
    requires
        a <= b,
    ensures
        pow2(a) <= pow2(b),
    decreases b,
{
    if a < b {
        lemma_pow2_monotone(a, (b - 1) as nat);
        lemma_pow2_unfold(b);
    }
}

/// The first byte weighs least, what stands behind a byte counts as often as
/// the byte has values, and zeros behind a number change nothing.
pub proof fn bytes_weigh_by_their_place(x: u8, b: Seq<u8>)
    ensures
        le_value(Seq::<u8>::empty()) == 0,
        le_value(seq![x] + b) == x + 256 * le_value(b),
        le_value(b.push(0)) == le_value(b),
        le_value(seq![x]) == x,
    decreases b.len(),
{
    assert((seq![x] + b).skip(1) =~= b);
    assert(seq![x].skip(1) =~= Seq::<u8>::empty());
    if b.len() > 0 {
        bytes_weigh_by_their_place(x, b.skip(1));
        assert(b.push(0).skip(1) =~= b.skip(1).push(0));
    } else {
        assert(b.push(0).skip(1) =~= Seq::<u8>::empty());
    }
}

/// A word is read as the signed number of 64 bits that agrees with it up to
/// a multiple of two to the sixty-fourth.
pub proof fn words_are_read_in_twos_complement(v: nat)
    requires
        v <= u64::MAX,
    ensures
        i64::MIN <= signed_word(v) <= i64::MAX,
        signed_word(v) == v || signed_word(v) == v - 0x1_0000_0000_0000_0000,
{
}

} // verus!
