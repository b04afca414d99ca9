use vstd::prelude::*;

verus! {

/// Greatest common divisor, by Euclid's recursion.
pub open spec fn gcd(a: nat, b: nat) -> nat
    decreases b,
{
    if b == 0 {
        a
    } else {
        gcd(b, (a % b) as nat)
    }
}

/// Least common multiple, written as `a * (b / gcd(a, b))`; zero when both are zero.
pub open spec fn lcm(a: nat, b: nat) -> nat {
    if a == 0 && b == 0 {
        0
    } else {
        a * (b / gcd(a, b))
    }
}

/// The least common multiple of a sequence, folded from the left starting at one.
pub open spec fn lcm_all(s: Seq<nat>) -> nat
    decreases s.len(),
{
    if s.len() == 0 {
        1
    } else {
        lcm(lcm_all(s.drop_last()), s.last())
    }
}

/// Relies on `num::integer::lcm` for `u64`: for operands that are not both zero it
/// returns `a * (b / gcd(a, b))`, which cannot overflow for 32-bit operands.
#[verifier::external_body]
pub(crate) fn lcm_u32(a: u32, b: u32) -> (r: u64)
    ensures
        r == lcm(a as nat, b as nat),
{
    num::integer::lcm(a as u64, b as u64)
}

/// The greatest common divisor with a positive number is positive and at most it.
pub proof fn lemma_gcd_bounds(a: nat, b: nat)
    requires
        b > 0,
    ensures
        0 < gcd(a, b) <= b,
    decreases b,
{
    let r = (a % b) as nat;
    assert(r < b);
    assert(gcd(a, b) == gcd(b, r));
    if r > 0 {
        lemma_gcd_bounds(b, r);
    } else {
        assert(gcd(b, 0) == b);
    }
}

/// The least common multiple of two positive numbers is at least the first of them.
pub proof fn lemma_lcm_at_least_left(a: nat, b: nat)
    requires
        a >= 1,
        b >= 1,
    ensures
        lcm(a, b) >= a,
{
    lemma_gcd_bounds(a, b);
    let g = gcd(a, b);
    vstd::arithmetic::div_mod::lemma_div_is_ordered(g as int, b as int, g as int);
    assert(g / g == 1) by (nonlinear_arith) requires g >= 1;
    vstd::arithmetic::mul::lemma_mul_inequality(1, (b / g) as int, a as int);
}

/// Over positive numbers, the fold over any prefix is positive and at most the fold
/// over the whole sequence.
pub proof fn lemma_lcm_all_prefix(s: Seq<nat>, i: int)
    requires
        0 <= i <= s.len(),
        forall|j: int| 0 <= j < s.len() ==> s[j] >= 1,
    ensures
        1 <= lcm_all(s.take(i)) <= lcm_all(s),
    decreases s.len(),
{
    if i == s.len() {
        assert(s.take(i) =~= s);
        if s.len() > 0 {
            lemma_lcm_all_prefix(s.drop_last(), i - 1);
            assert(s.drop_last().take(i - 1) =~= s.drop_last());
            lemma_lcm_at_least_left(lcm_all(s.drop_last()), s.last());
        }
    } else {
        lemma_lcm_all_prefix(s.drop_last(), i);
        assert(s.drop_last().take(i) =~= s.take(i));
        lemma_lcm_all_prefix(s.drop_last(), s.len() - 1);
        assert(s.drop_last().take(s.len() - 1) =~= s.drop_last());
        lemma_lcm_at_least_left(lcm_all(s.drop_last()), s.last());
    }
}

} // verus!
