//! Packed bit-set over pixel indices.
//!
//! The painter uses one bit per pixel; a set bit means the pixel is still
//! "unknown" (waiting to be reconstructed). The set is backed by 32-bit
//! words and never resized after construction.

use vstd::prelude::*;

verus! {

/// One bit per pixel, packed into 32-bit words.
pub type Bitmask = Vec<u32>;

/// Number of 32-bit words needed to hold `size` bits.
pub open spec fn word_count(size: nat) -> nat {
    if size % 32 == 0 {
        size / 32
    } else {
        size / 32 + 1
    }
}

/// Bit `i` of the packed words.
pub open spec fn bit(v: Seq<u32>, i: int) -> bool {
    v[i / 32] & (1u32 << ((i % 32) as u32)) != 0
}

/// A fresh mask of `size` bits, all clear.
pub fn new(size: usize) -> (v: Bitmask)
    ensures
        v@.len() == word_count(size as nat),
        forall|i: int| 0 <= i < size ==> !bit(v@, i),
{
    let words: usize = if size % 32 == 0 {
        size / 32
    } else {
        size / 32 + 1
    };
    let mut v: Vec<u32> = Vec::new();
    let mut k: usize = 0;
    while k < words
        invariant
            k <= words,
            v@.len() == k,
            forall|j: int| 0 <= j < k ==> v@[j] == 0u32,
        decreases words - k,
    {
        v.push(0);
        k = k + 1;
    }
    proof {
        assert forall|i: int| 0 <= i < size implies !bit(v@, i) by {
            lemma_word_count_covers(size as nat, i);
            let b = (i % 32) as u32;
            assert(0u32 & (1u32 << b) == 0) by (bit_vector);
        }
    }
    v
}

/// The word that holds bit `i` lies inside a mask of `word_count(n)` words
/// whenever `i < n`.
pub proof fn lemma_word_count_covers(n: nat, i: int)
    requires
        0 <= i < n,
    ensures
        i / 32 < word_count(n),
{
    vstd::arithmetic::div_mod::lemma_fundamental_div_mod(i, 32);
    vstd::arithmetic::div_mod::lemma_fundamental_div_mod(n as int, 32);
}

/// Read bit `i`.
pub fn get(v: &Bitmask, i: usize) -> (r: bool)
    requires
        i as int / 32 < v@.len(),
    ensures
        r == bit(v@, i as int),
{
    let w = i / 32;
    let b: u32 = (i % 32) as u32;
    (v[w] & (1u32 << b)) != 0
}

/// Set bit `i`; every other bit is unchanged.
pub fn set(v: &mut Bitmask, i: usize)
    requires
        i as int / 32 < old(v)@.len(),
    ensures
        final(v)@.len() == old(v)@.len(),
        bit(final(v)@, i as int),
        forall|j: int| 0 <= j && j / 32 < old(v)@.len() && j != i ==> bit(final(v)@, j) == bit(
            old(v)@,
            j,
        ),
{
    let w = i / 32;
    let b: u32 = (i % 32) as u32;
    let x = v[w];
    v[w] = x | (1u32 << b);
    proof {
        lemma_or_bit(x, b);
        assert forall|j: int|
            0 <= j && j / 32 < old(v)@.len() && j != i implies bit(final(v)@, j) == bit(
            old(v)@,
            j,
        ) by {
            if j / 32 == w as int {
                lemma_same_word_distinct_bits(j, i as int);
            }
        }
    }
}

/// Clear bit `i`; every other bit is unchanged.
pub fn unset(v: &mut Bitmask, i: usize)
    requires
        i as int / 32 < old(v)@.len(),
    ensures
        final(v)@.len() == old(v)@.len(),
        !bit(final(v)@, i as int),
        forall|j: int| 0 <= j && j / 32 < old(v)@.len() && j != i ==> bit(final(v)@, j) == bit(
            old(v)@,
            j,
        ),
{
    let w = i / 32;
    let b: u32 = (i % 32) as u32;
    let x = v[w];
    v[w] = x & !(1u32 << b);
    proof {
        lemma_andnot_bit(x, b);
        assert forall|j: int|
            0 <= j && j / 32 < old(v)@.len() && j != i implies bit(final(v)@, j) == bit(
            old(v)@,
            j,
        ) by {
            if j / 32 == w as int {
                lemma_same_word_distinct_bits(j, i as int);
            }
        }
    }
}

/// After `x | (1 << b)`, bit `b` is set and the other bits keep their value.
proof fn lemma_or_bit(x: u32, b: u32)
    requires
        b < 32,
    ensures
        (x | (1u32 << b)) & (1u32 << b) != 0,
        forall|c: u32| c < 32 && c != b ==> ((x | (1u32 << b)) & (1u32 << c)) == (x & (1u32 << c)),
{
    assert((x | (1u32 << b)) & (1u32 << b) != 0) by (bit_vector)
        requires
            b < 32,
    ;
    assert forall|c: u32| c < 32 && c != b implies ((x | (1u32 << b)) & (1u32 << c)) == (x & (1u32
        << c)) by {
        assert(((x | (1u32 << b)) & (1u32 << c)) == (x & (1u32 << c))) by (bit_vector)
            requires
                b < 32,
                c < 32,
                c != b,
        ;
    }
}

/// After `x & !(1 << b)`, bit `b` is clear and the other bits keep their value.
proof fn lemma_andnot_bit(x: u32, b: u32)
    requires
        b < 32,
    ensures
        (x & !(1u32 << b)) & (1u32 << b) == 0,
        forall|c: u32| c < 32 && c != b ==> ((x & !(1u32 << b)) & (1u32 << c)) == (x & (1u32
            << c)),
{
    assert((x & !(1u32 << b)) & (1u32 << b) == 0) by (bit_vector)
        requires
            b < 32,
    ;
    assert forall|c: u32| c < 32 && c != b implies ((x & !(1u32 << b)) & (1u32 << c)) == (x & (1u32
        << c)) by {
        assert(((x & !(1u32 << b)) & (1u32 << c)) == (x & (1u32 << c))) by (bit_vector)
            requires
                b < 32,
                c < 32,
                c != b,
        ;
    }
}

/// Two bit indices in the same word are equal exactly when their offsets are.
proof fn lemma_same_word_distinct_bits(j: int, i: int)
    requires
        j >= 0,
        i >= 0,
        j / 32 == i / 32,
        j != i,
    ensures
        j % 32 != i % 32,
{
    vstd::arithmetic::div_mod::lemma_fundamental_div_mod(j, 32);
    vstd::arithmetic::div_mod::lemma_fundamental_div_mod(i, 32);
}

} // verus!
