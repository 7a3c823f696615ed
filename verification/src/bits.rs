//! Bit-level facts about 64-bit masks.
//!
//! Every other module reasons about masks through [`bit`]: the lemmas here are
//! the only places where the bit-vector solver is needed for the operators.

use vstd::prelude::*;

verus! {

/// Bit `i` of `b`, for a machine index.
pub open spec fn bitu(b: u64, i: u64) -> bool {
    (b >> i) & 1u64 == 1u64
}

/// Whether index `i` is set in `b`. False outside `0..64`.
pub open spec fn bit(b: u64, i: int) -> bool {
    0 <= i < 64 && bitu(b, i as u64)
}

/// The set of indices set in `b`.
pub open spec fn squares(b: u64) -> Set<int> {
    Set::new(|i: int| bit(b, i))
}

/// Number of bits set in `b`.
pub open spec fn count(b: u64) -> nat {
    squares(b).len()
}

/// The intersection of two masks holds what both hold.
pub proof fn lemma_and(a: u64, b: u64)
    ensures
        forall|i: int|
            #![trigger bit(a & b, i)]
            #![trigger bit(a, i), bit(b, i)]
            bit(a & b, i) <==> bit(a, i) && bit(b, i),
{
    assert forall|i: int| #[trigger] bit(a & b, i) <==> bit(a, i) && bit(b, i) by {
        if 0 <= i < 64 {
            let k = i as u64;
            assert(((a & b) >> k) & 1u64 == 1u64 <==> ((a >> k) & 1u64 == 1u64) && ((b >> k) & 1u64
                == 1u64)) by (bit_vector);
        }
    }
}

/// The union of two masks holds what either holds.
pub proof fn lemma_or(a: u64, b: u64)
    ensures
        forall|i: int|
            #![trigger bit(a | b, i)]
            #![trigger bit(a, i), bit(b, i)]
            bit(a | b, i) <==> bit(a, i) || bit(b, i),
{
    assert forall|i: int| #[trigger] bit(a | b, i) <==> bit(a, i) || bit(b, i) by {
        if 0 <= i < 64 {
            let k = i as u64;
            assert(((a | b) >> k) & 1u64 == 1u64 <==> ((a >> k) & 1u64 == 1u64) || ((b >> k) & 1u64
                == 1u64)) by (bit_vector);
        }
    }
}

/// The difference of two masks holds what one of them holds and the other does not.
pub proof fn lemma_xor(a: u64, b: u64)
    ensures
        forall|i: int|
            #![trigger bit(a ^ b, i)]
            #![trigger bit(a, i), bit(b, i)]
            bit(a ^ b, i) <==> bit(a, i) != bit(b, i),
{
    assert forall|i: int| #[trigger] bit(a ^ b, i) <==> bit(a, i) != bit(b, i) by {
        if 0 <= i < 64 {
            let k = i as u64;
            assert(((a ^ b) >> k) & 1u64 == 1u64 <==> ((a >> k) & 1u64 == 1u64) != ((b >> k) & 1u64
                == 1u64)) by (bit_vector);
        }
    }
}

/// The complement of a mask holds what the mask does not hold.
pub proof fn lemma_not(a: u64)
    ensures
        forall|i: int|
            #![trigger bit(!a, i)]
            #![trigger bit(a, i)]
            0 <= i < 64 ==> (bit(!a, i) <==> !bit(a, i)),
{
    assert forall|i: int| 0 <= i < 64 implies (#[trigger] bit(!a, i) <==> !bit(a, i)) by {
        let k = i as u64;
        assert(k < 64 ==> (((!a) >> k) & 1u64 == 1u64 <==> !((a >> k) & 1u64 == 1u64)))
            by (bit_vector);
    }
}

/// `1 << k` holds exactly index `k`.
pub proof fn lemma_single(k: u64)
    requires
        k < 64,
    ensures
        forall|i: int| #[trigger] bit(1u64 << k, i) <==> i == k,
        1u64 << k != 0,
{
    assert forall|i: int| #[trigger] bit(1u64 << k, i) <==> i == k by {
        if 0 <= i < 64 {
            let j = i as u64;
            assert(k < 64 && j < 64 ==> (((1u64 << k) >> j) & 1u64 == 1u64 <==> j == k))
                by (bit_vector);
        }
    }
    assert(k < 64 ==> 1u64 << k != 0) by (bit_vector);
}

/// Shifting left by `k` moves every index up by `k`; what passes 63 is lost.
pub proof fn lemma_shl(a: u64, k: u64)
    requires
        k < 64,
    ensures
        forall|i: int| #[trigger] bit(a << k, i) <==> k <= i < 64 && bit(a, i - k),
{
    assert forall|i: int| #[trigger] bit(a << k, i) <==> k <= i < 64 && bit(a, i - k) by {
        if 0 <= i < 64 {
            let j = i as u64;
            assert(k < 64 && j < 64 ==> (((a << k) >> j) & 1u64 == 1u64 <==> j >= k && ((a >> (
            (j - k) as u64)) & 1u64 == 1u64))) by (bit_vector);
        }
    }
}

/// Shifting right by `k` moves every index down by `k`; what passes 0 is lost.
pub proof fn lemma_shr(a: u64, k: u64)
    requires
        k < 64,
    ensures
        forall|i: int| #[trigger] bit(a >> k, i) <==> 0 <= i && i + k < 64 && bit(a, i + k),
{
    assert forall|i: int| #[trigger] bit(a >> k, i) <==> 0 <= i && i + k < 64 && bit(a, i + k) by {
        if 0 <= i < 64 {
            let j = i as u64;
            assert(k < 64 && j < 64 ==> (((a >> k) >> j) & 1u64 == 1u64 <==> j + k < 64 && ((a >> (
            (j + k) as u64)) & 1u64 == 1u64))) by (bit_vector);
        }
    }
}

/// Zero holds nothing, and the mask of all ones holds every index.
pub proof fn lemma_zero()
    ensures
        forall|i: int| !#[trigger] bit(0u64, i),
        forall|i: int| 0 <= i < 64 ==> #[trigger] bit(u64::MAX, i),
{
    assert forall|i: int| !#[trigger] bit(0u64, i) by {
        if 0 <= i < 64 {
            let j = i as u64;
            assert((0u64 >> j) & 1u64 == 0u64) by (bit_vector);
        }
    }
    assert forall|i: int| 0 <= i < 64 implies #[trigger] bit(u64::MAX, i) by {
        let j = i as u64;
        assert(j < 64 ==> (0xffff_ffff_ffff_ffffu64 >> j) & 1u64 == 1u64) by (bit_vector);
    }
}

/// Two masks with the same bits are the same mask.
pub proof fn lemma_equal(a: u64, b: u64)
    requires
        forall|i: int| 0 <= i < 64 ==> bit(a, i) == bit(b, i),
    ensures
        a == b,
{
    let x = a ^ b;
    if x != 0 {
        vstd::std_specs::bits::axiom_u64_trailing_zeros(x);
        let t = vstd::std_specs::bits::u64_trailing_zeros(x) as int;
        assert(bit(x, t));
        lemma_xor(a, b);
        assert(bit(a, t) != bit(b, t));
    }
    assert(a ^ b == 0 ==> a == b) by (bit_vector);
}

/// A mask is not zero exactly when it holds some index.
pub proof fn lemma_nonzero(a: u64)
    ensures
        a != 0 <==> exists|i: int| bit(a, i),
{
    lemma_zero();
    if a != 0 {
        lemma_lowest(a);
        assert(bit(a, lowest(a)));
    }
}

/// Index of the lowest bit set in `b`; 64 for the empty mask.
pub open spec fn lowest(b: u64) -> int {
    vstd::std_specs::bits::u64_trailing_zeros(b) as int
}

/// The lowest index of a mask is set in it, and nothing below it is.
pub proof fn lemma_lowest(b: u64)
    ensures
        0 <= lowest(b) <= 64,
        b == 0 <==> lowest(b) == 64,
        b != 0 ==> bit(b, lowest(b)),
        forall|j: int| 0 <= j < lowest(b) ==> !#[trigger] bit(b, j),
{
    vstd::std_specs::bits::axiom_u64_trailing_zeros(b);
    assert forall|j: int| 0 <= j < lowest(b) implies !#[trigger] bit(b, j) by {
        let k = j as u64;
        assert((b >> k) & 1u64 == 0u64);
    }
}

/// Every mask holds at most 64 indices.
pub proof fn lemma_count(b: u64)
    ensures
        squares(b).finite(),
        count(b) <= 64,
        b == 0 <==> count(b) == 0,
{
    let all = vstd::set_lib::set_int_range(0, 64);
    vstd::set_lib::lemma_int_range(0, 64);
    assert(squares(b).subset_of(all));
    vstd::set_lib::lemma_len_subset(squares(b), all);
    lemma_zero();
    if b == 0 {
        assert(squares(b) =~= Set::empty());
    } else {
        lemma_lowest(b);
        assert(squares(b).contains(lowest(b)));
    }
}

/// Clearing one index that is set takes one from the count.
pub proof fn lemma_clear(b: u64, k: u64)
    requires
        k < 64,
    ensures
        squares(b & !(1u64 << k)) == squares(b).remove(k as int),
        bit(b, k as int) ==> count(b & !(1u64 << k)) + 1 == count(b),
        forall|i: int| #[trigger] bit(b & !(1u64 << k), i) <==> bit(b, i) && i != k,
{
    lemma_single(k);
    lemma_not(1u64 << k);
    lemma_and(b, !(1u64 << k));
    assert(squares(b & !(1u64 << k)) =~= squares(b).remove(k as int));
    lemma_count(b);
}

/// Setting one index that is clear adds one to the count.
pub proof fn lemma_put(b: u64, k: u64)
    requires
        k < 64,
    ensures
        squares(b | (1u64 << k)) == squares(b).insert(k as int),
        !bit(b, k as int) ==> count(b | (1u64 << k)) == count(b) + 1,
        forall|i: int| #[trigger] bit(b | (1u64 << k), i) <==> bit(b, i) || i == k,
{
    lemma_single(k);
    lemma_or(b, 1u64 << k);
    assert(squares(b | (1u64 << k)) =~= squares(b).insert(k as int));
    lemma_count(b);
}

/// Counts the bits set in `b`.
pub fn popcount(b: u64) -> (n: u32)
    ensures
        n == count(b),
        n <= 64,
{
    let mut x: u64 = b;
    let mut n: u32 = 0;
    proof {
        lemma_count(b);
    }
    while x != 0
        invariant
            n + count(x) == count(b),
            count(b) <= 64,
        decreases count(x),
    {
        let t: u32 = x.trailing_zeros();
        proof {
            lemma_lowest(x);
            lemma_clear(x, t as u64);
        }
        x = x & !(1u64 << t);
        n = n + 1;
    }
    proof {
        lemma_count(x);
    }
    n
}

/// Shifting a single bit moves it, as long as it stays inside the mask.
pub proof fn lemma_shift_single(c: u64, k: u64)
    requires
        c < 64,
        k < 64,
    ensures
        c + k < 64 ==> (1u64 << c) << k == 1u64 << ((c + k) as u64),
        k <= c ==> (1u64 << c) >> k == 1u64 << ((c - k) as u64),
{
    lemma_single(c);
    lemma_shl(1u64 << c, k);
    lemma_shr(1u64 << c, k);
    if c + k < 64 {
        lemma_single((c + k) as u64);
        lemma_equal((1u64 << c) << k, 1u64 << ((c + k) as u64));
    }
    if k <= c {
        lemma_single((c - k) as u64);
        lemma_equal((1u64 << c) >> k, 1u64 << ((c - k) as u64));
    }
}

/// A mask meets the single bit `k` exactly where it holds `k`.
pub proof fn lemma_test(x: u64, k: u64)
    requires
        k < 64,
    ensures
        x & (1u64 << k) != 0 <==> bit(x, k as int),
{
    let y = x & (1u64 << k);
    lemma_single(k);
    lemma_and(x, 1u64 << k);
    lemma_nonzero(y);
    if bit(x, k as int) {
        assert(bit(y, k as int));
    }
    if y != 0 {
        let i = choose|i: int| bit(y, i);
        assert(i == k);
    }
}

} // verus!
