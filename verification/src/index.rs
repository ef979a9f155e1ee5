//! Sequence numbers and the slots they live in.
//!
//! Every ring counts what has gone through it with a sequence number that only
//! grows, and keeps the item with sequence number `seq` in slot `seq % cap`. A
//! capacity is a positive power of two, so the remainder is one `&` with `cap - 1`.

use vstd::prelude::*;

verus! {

/// The capacities that a ring can have: 1, 2, 4, 8 and so on.
pub open spec fn is_cap(cap: int) -> bool {
    vstd::arithmetic::power2::is_pow2(cap)
}

/// The slot of sequence number `seq` in a ring of `cap` slots.
pub open spec fn slot(seq: int, cap: int) -> int {
    seq % cap
}

/// The number of times that the ring was gone through before `seq`.
pub open spec fn round(seq: int, cap: int) -> int {
    seq / cap
}

/// A capacity is positive.
pub proof fn lemma_cap_positive(cap: int)
    requires
        is_cap(cap),
    ensures
        cap > 0,
{
    reveal(vstd::arithmetic::power2::is_pow2);
}

/// A slot is one of the ring's slots.
pub proof fn lemma_slot_bound(seq: int, cap: int)
    requires
        cap > 0,
    ensures
        0 <= slot(seq, cap) < cap,
{
    vstd::arithmetic::div_mod::lemma_mod_bound(seq, cap);
}

/// Two different sequence numbers that are less than `cap` apart have two different slots.
pub proof fn lemma_slots_differ(a: int, b: int, cap: int)
    requires
        0 <= a < b < a + cap,
    ensures
        slot(a, cap) != slot(b, cap),
{
    if slot(a, cap) == slot(b, cap) {
        vstd::arithmetic::div_mod::lemma_mod_equivalence(b, a, cap);
        vstd::arithmetic::div_mod::lemma_small_mod((b - a) as nat, cap as nat);
    }
}

/// Whether `n` is a power of two.
pub fn is_power_of_two(n: usize) -> (yes: bool)
    ensures
        yes == vstd::arithmetic::power2::is_pow2(n as int),
{
    proof {
        reveal(vstd::arithmetic::power2::is_pow2);
    }
    if n == 0 {
        return false;
    }
    let mut m: usize = n;
    while m % 2 == 0
        invariant
            m > 0,
            vstd::arithmetic::power2::is_pow2(n as int)
                == vstd::arithmetic::power2::is_pow2(m as int),
        decreases m,
    {
        proof {
            reveal(vstd::arithmetic::power2::is_pow2);
        }
        m = m / 2;
    }
    proof {
        reveal(vstd::arithmetic::power2::is_pow2);
    }
    m == 1
}

/// The slot of `seq`, by the mask `cap - 1`.
pub fn slot_of(seq: usize, mask: usize) -> (i: usize)
    requires
        mask < usize::MAX,
        is_cap(mask + 1),
    ensures
        i == slot(seq as int, mask + 1),
        i <= mask,
{
    proof {
        let cap = mask + 1;
        vstd::arithmetic::power2::is_pow2_equiv(cap);
        let k = choose|k: nat| vstd::arithmetic::power::pow(2, k) == cap;
        vstd::arithmetic::power2::lemma_pow2(k);
        if k >= usize::BITS {
            vstd::arithmetic::power2::lemma2_to64();
            vstd::arithmetic::power2::lemma2_to64_rest();
            if k > usize::BITS {
                vstd::arithmetic::power2::lemma_pow2_strictly_increases(usize::BITS as nat, k);
            }
            assert(false);
        }
        vstd::bits::lemma_usize_low_bits_mask_is_mod(seq, k);
        lemma_slot_bound(seq as int, cap);
    }
    seq & mask
}

/// A ring can have `cap` slots exactly if `cap` is 2 to some power.
pub proof fn law_capacities_are_powers_of_two(cap: int)
    ensures
        is_cap(cap) <==> exists|k: nat| #[trigger] vstd::arithmetic::power2::pow2(k) == cap,
{
    vstd::arithmetic::power2::is_pow2_equiv(cap);
    if is_cap(cap) {
        let k = choose|k: nat| vstd::arithmetic::power::pow(2, k) == cap;
        vstd::arithmetic::power2::lemma_pow2(k);
        assert(vstd::arithmetic::power2::pow2(k) == cap);
    }
    if exists|k: nat| #[trigger] vstd::arithmetic::power2::pow2(k) == cap {
        let k = choose|k: nat| #[trigger] vstd::arithmetic::power2::pow2(k) == cap;
        vstd::arithmetic::power2::lemma_pow2(k);
        assert(vstd::arithmetic::power::pow(2, k) == cap);
    }
}

/// A sequence number is told by its slot and its round, and by no others.
pub proof fn law_slot_and_round_tell_the_number(seq: int, cap: int, i: int, r: int)
    requires
        cap > 0,
    ensures
        0 <= slot(seq, cap) < cap,
        round(seq, cap) * cap + slot(seq, cap) == seq,
        0 <= i < cap && r * cap + i == seq ==> i == slot(seq, cap) && r == round(seq, cap),
{
    vstd::arithmetic::div_mod::lemma_fundamental_div_mod(seq, cap);
    vstd::arithmetic::div_mod::lemma_mod_bound(seq, cap);
    vstd::arithmetic::mul::lemma_mul_is_commutative(round(seq, cap), cap);
    if 0 <= i < cap && r * cap + i == seq {
        vstd::arithmetic::div_mod::lemma_fundamental_div_mod_converse(seq, cap, r, i);
    }
}

} // verus!
