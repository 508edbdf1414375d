//! Rounding an address up to an alignment.

use vstd::arithmetic::div_mod::lemma_fundamental_div_mod;
use vstd::arithmetic::div_mod::lemma_mod_multiples_basic;
use vstd::arithmetic::mul::lemma_mul_inequality;
use vstd::arithmetic::mul::lemma_mul_is_commutative;
use vstd::arithmetic::mul::lemma_mul_is_distributive_add;
use vstd::prelude::*;

verus! {

/// The least multiple of `align` that is not below `addr`.
pub open spec fn round_up(addr: nat, align: nat) -> nat
    recommends
        align > 0,
{
    if addr % align == 0 {
        addr
    } else {
        (addr + align - addr % align) as nat
    }
}

/// `round_up` yields a multiple of the alignment, at most one alignment
/// step above the address.
pub proof fn lemma_round_up_aligned(addr: nat, align: nat)
    requires
        align > 0,
    ensures
        round_up(addr, align) % align == 0,
        addr <= round_up(addr, align) < addr + align,
{
    let a: int = addr as int;
    let d: int = align as int;
    if a % d != 0 {
        // a == d * (a / d) + a % d, so the result is d * (a / d + 1)
        lemma_fundamental_div_mod(a, d);
        lemma_mul_is_distributive_add(d, a / d, 1);
        lemma_mul_is_commutative(d, a / d + 1);
        lemma_mod_multiples_basic(a / d + 1, d);
    }
}

/// No multiple of the alignment lies between the address and `round_up`
/// of it: the padding is as small as the alignment allows.
pub proof fn lemma_round_up_least(addr: nat, align: nat, other: nat)
    requires
        align > 0,
        other % align == 0,
        addr <= other,
    ensures
        round_up(addr, align) <= other,
{
    let a: int = addr as int;
    let d: int = align as int;
    let m: int = other as int;
    if a % d != 0 {
        // m == d * (m / d) and a == d * (a / d) + a % d with 0 < a % d < d
        lemma_fundamental_div_mod(a, d);
        lemma_fundamental_div_mod(m, d);
        lemma_mul_is_commutative(d, m / d);
        assert(a / d < m / d) by {
            if m / d <= a / d {
                lemma_mul_inequality(m / d, a / d, d);
                lemma_mul_is_commutative(d, a / d);
            }
        }
        lemma_mul_inequality(a / d + 1, m / d, d);
        lemma_mul_is_distributive_add(d, a / d, 1);
        lemma_mul_is_commutative(d, a / d + 1);
    }
}

/// Rounds `addr` up to the next multiple of `align`, or reports that the
/// result does not fit the address space.
pub fn checked_round_up(addr: usize, align: usize) -> (rounded: Option<usize>)
    requires
        align > 0,
    ensures
        rounded == if round_up(addr as nat, align as nat) <= usize::MAX {
            Some(round_up(addr as nat, align as nat) as usize)
        } else {
            None
        },
{
    let rest: usize = addr % align;
    if rest == 0 {
        Some(addr)
    } else {
        addr.checked_add(align - rest)
    }
}

} // verus!
