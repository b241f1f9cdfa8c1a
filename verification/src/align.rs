//! Rounding sizes up to a page boundary.

use vstd::arithmetic::div_mod::{lemma_fundamental_div_mod, lemma_mod_multiples_basic};
use vstd::arithmetic::power2::pow2;
use vstd::prelude::*;

verus! {

/// `n` is one of 1, 2, 4, 8, ...
pub open spec fn is_power_of_two(n: int) -> bool {
    exists|k: nat| n == #[trigger] pow2(k)
}

/// `n` rounded up to a multiple of `alignment`.
pub open spec fn aligned_up(n: int, alignment: int) -> int {
    ((n + alignment - 1) / alignment) * alignment
}

/// Rounds `addr` up to the next multiple of `alignment`.
///
/// The alignment is a power of two, and the rounding must not pass the end of
/// the address range.
pub fn align_upwards(addr: usize, alignment: usize) -> (aligned: usize)
    requires
        is_power_of_two(alignment as int),
        addr + alignment - 1 <= usize::MAX,
    ensures
        aligned == aligned_up(addr as int, alignment as int),
        aligned % alignment == 0,
        addr <= aligned < addr + alignment,
{
    proof {
        lemma_power_of_two_positive(alignment as int);
        law_aligned_up_is_least_multiple(addr as int, alignment as int);
    }
    let top: usize = addr + (alignment - 1);
    proof {
        lemma_fundamental_div_mod(top as int, alignment as int);
        vstd::arithmetic::mul::lemma_mul_is_commutative(
            alignment as int,
            top as int / alignment as int,
        );
    }
    top - top % alignment
}

/// A power of two is at least 1.
pub proof fn lemma_power_of_two_positive(n: int)
    requires
        is_power_of_two(n),
    ensures
        n >= 1,
{
    let k = choose|k: nat| n == #[trigger] pow2(k);
    vstd::arithmetic::power2::lemma_pow2_pos(k);
}

/// Rounding up yields a multiple of the alignment, never less than what was
/// rounded and less than one alignment above it; no smaller multiple would do.
pub proof fn law_aligned_up_is_least_multiple(n: int, alignment: int)
    requires
        alignment >= 1,
    ensures
        aligned_up(n, alignment) % alignment == 0,
        n <= aligned_up(n, alignment) < n + alignment,
        forall|m: int|
            m >= n && #[trigger] (m % alignment) == 0 ==> aligned_up(n, alignment) <= m,
{
    let q = (n + alignment - 1) / alignment;
    let r = (n + alignment - 1) % alignment;
    lemma_fundamental_div_mod(n + alignment - 1, alignment);
    vstd::arithmetic::mul::lemma_mul_is_commutative(alignment, q);
    lemma_mod_multiples_basic(q, alignment);
    assert forall|m: int| m >= n && #[trigger] (m % alignment) == 0 implies aligned_up(
        n,
        alignment,
    ) <= m by {
        let k = m / alignment;
        lemma_fundamental_div_mod(m, alignment);
        assert(k >= q) by (nonlinear_arith)
            requires
                alignment >= 1,
                alignment * k == m,
                m >= n,
                alignment * q + r == n + alignment - 1,
                0 <= r < alignment,
        ;
        assert(q * alignment <= k * alignment) by (nonlinear_arith)
            requires
                k >= q,
                alignment >= 1,
        ;
        vstd::arithmetic::mul::lemma_mul_is_commutative(alignment, k);
    }
}

/// Of the multiples of the alignment, just one is not less than what is rounded and
/// less than one alignment above it, and that is the one that rounding yields.
pub proof fn law_rounding_is_unique(n: int, alignment: int, m: int)
    requires
        alignment >= 1,
        m % alignment == 0,
        n <= m < n + alignment,
    ensures
        aligned_up(n, alignment) == m,
{
    law_aligned_up_is_least_multiple(n, alignment);
    let low = aligned_up(n, alignment);
    assert(low <= m) by {
        assert(m % alignment == 0);
    }
    lemma_fundamental_div_mod(m, alignment);
    lemma_fundamental_div_mod(low, alignment);
    let a = m / alignment;
    let b = low / alignment;
    assert(a == b) by (nonlinear_arith)
        requires
            alignment >= 1,
            m == alignment * a,
            low == alignment * b,
            0 <= m - low < alignment,
    ;
}

/// Every power of two will do as an alignment.
pub proof fn law_powers_of_two_are_accepted(k: nat)
    ensures
        is_power_of_two(pow2(k) as int),
{
}

/// Rounding an already rounded size changes nothing.
pub proof fn law_aligned_up_is_idempotent(n: int, alignment: int)
    requires
        alignment >= 1,
    ensures
        aligned_up(aligned_up(n, alignment), alignment) == aligned_up(n, alignment),
{
    let once = aligned_up(n, alignment);
    law_aligned_up_is_least_multiple(n, alignment);
    law_aligned_up_is_least_multiple(once, alignment);
    assert(once % alignment == 0);
}

} // verus!
