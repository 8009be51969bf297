//! Arithmetic on a cycle of `n` positions, used for port indices and
//! rotation steps.
use vstd::prelude::*;

verus! {

/// Position reached from `a` after `s` steps forward on a cycle of `n`.
pub open spec fn add_mod(a: nat, s: nat, n: nat) -> nat
    recommends
        n > 0,
{
    (a + s) % n
}

/// Position reached from `a` after `s` steps backward on a cycle of `n`.
pub open spec fn sub_mod(a: nat, s: nat, n: nat) -> nat
    recommends
        n > 0,
        s <= n,
{
    ((a + n - s) % (n as int)) as nat
}

/// For reduced operands a step forward wraps around at most once.
pub proof fn lemma_add_mod(a: nat, s: nat, n: nat)
    requires
        a < n,
        s < n,
    ensures
        add_mod(a, s, n) == (if a + s < n {
            a + s
        } else {
            (a + s - n) as nat
        }),
        add_mod(a, s, n) < n,
{
    if a + s < n {
        vstd::arithmetic::div_mod::lemma_small_mod(a + s, n);
    } else {
        vstd::arithmetic::div_mod::lemma_small_mod((a + s - n) as nat, n);
        vstd::arithmetic::div_mod::lemma_mod_sub_multiples_vanish((a + s) as int, n as int);
    }
}

/// For reduced operands a step backward wraps around at most once.
pub proof fn lemma_sub_mod(a: nat, s: nat, n: nat)
    requires
        a < n,
        s < n,
    ensures
        sub_mod(a, s, n) == (if s <= a {
            (a - s) as nat
        } else {
            (a + n - s) as nat
        }),
        sub_mod(a, s, n) < n,
{
    if s <= a {
        vstd::arithmetic::div_mod::lemma_small_mod((a - s) as nat, n);
        vstd::arithmetic::div_mod::lemma_mod_sub_multiples_vanish((a + n - s) as int, n as int);
    } else {
        vstd::arithmetic::div_mod::lemma_small_mod((a + n - s) as nat, n);
    }
}

/// Stepping forward and then backward by the same amount returns to the start,
/// and so does stepping backward and then forward.
pub proof fn lemma_add_sub_cancel(a: nat, s: nat, n: nat)
    requires
        a < n,
        s < n,
    ensures
        sub_mod(add_mod(a, s, n), s, n) == a,
        add_mod(sub_mod(a, s, n), s, n) == a,
{
    lemma_add_mod(a, s, n);
    lemma_sub_mod(a, s, n);
    lemma_sub_mod(add_mod(a, s, n), s, n);
    lemma_add_mod(sub_mod(a, s, n), s, n);
}

/// Two steps forward are one step forward by the reduced sum.
pub proof fn lemma_add_mod_twice(a: nat, s: nat, t: nat, n: nat)
    requires
        a < n,
        s < n,
        t < n,
    ensures
        add_mod(add_mod(a, s, n), t, n) == add_mod(a, add_mod(s, t, n), n),
{
    lemma_add_mod(a, s, n);
    lemma_add_mod(s, t, n);
    lemma_add_mod(add_mod(a, s, n), t, n);
    lemma_add_mod(a, add_mod(s, t, n), n);
}

/// Two steps backward are one step backward by the reduced sum.
pub proof fn lemma_sub_mod_twice(a: nat, s: nat, t: nat, n: nat)
    requires
        a < n,
        s < n,
        t < n,
    ensures
        sub_mod(sub_mod(a, t, n), s, n) == sub_mod(a, add_mod(s, t, n), n),
{
    lemma_sub_mod(a, t, n);
    lemma_add_mod(s, t, n);
    lemma_sub_mod(sub_mod(a, t, n), s, n);
    lemma_sub_mod(a, add_mod(s, t, n), n);
}

/// Adds two reduced residues on a cycle of `n`.
pub fn add_mod_u32(a: u32, s: u32, n: u32) -> (r: u32)
    requires
        a < n,
        s < n,
    ensures
        r as nat == add_mod(a as nat, s as nat, n as nat),
        r < n,
{
    proof {
        lemma_add_mod(a as nat, s as nat, n as nat);
    }
    if a < n - s {
        a + s
    } else {
        a - (n - s)
    }
}

/// Subtracts a reduced residue from another on a cycle of `n`.
pub fn sub_mod_u32(a: u32, s: u32, n: u32) -> (r: u32)
    requires
        a < n,
        s < n,
    ensures
        r as nat == sub_mod(a as nat, s as nat, n as nat),
        r < n,
{
    proof {
        lemma_sub_mod(a as nat, s as nat, n as nat);
    }
    if s <= a {
        a - s
    } else {
        n - s + a
    }
}

/// The product of two 32-bit numbers, which always fits 64 bits.
pub fn wide_mul(a: u32, b: u32) -> (r: u64)
    ensures
        r == (a as nat) * (b as nat),
{
    assert((a as int) * (b as int) <= 0xffff_ffff * 0xffff_ffff) by (nonlinear_arith)
        requires
            0 <= a <= 0xffff_ffff,
            0 <= b <= 0xffff_ffff,
    ;
    (a as u64) * (b as u64)
}

} // verus!
