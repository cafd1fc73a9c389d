//! Arithmetic in the scalar field: residues modulo the prime `FR_ORDER`.
//!
//! Every element is kept in canonical form, a `u64` strictly below the
//! modulus. The executable operations are proved against the mathematical
//! residue arithmetic stated by the `*_v` specification functions.
//! Multiplicative inverses are found by bounded search, which yields an
//! exact characterisation of when an inverse exists without appealing to
//! any unproved number theory.

use vstd::prelude::*;

use crate::params::FR_ORDER;

verus! {

/// The sum of two residues.
pub open spec fn fr_add_v(a: nat, b: nat) -> nat {
    (a + b) % (FR_ORDER as nat)
}

/// The difference of two residues (`a - b`, lifted to stay non-negative).
pub open spec fn fr_sub_v(a: nat, b: nat) -> nat {
    (((a + FR_ORDER) - b) % (FR_ORDER as int)) as nat
}

/// The product of two residues.
pub open spec fn fr_mul_v(a: nat, b: nat) -> nat {
    (a * b) % (FR_ORDER as nat)
}

/// Whether `d` has a multiplicative inverse modulo `FR_ORDER`.
pub open spec fn fr_invertible(d: nat) -> bool {
    exists|w: nat| w < FR_ORDER && #[trigger] ((d * w) % (FR_ORDER as nat)) == 1
}

/// The multiplicative inverse of `d` modulo `FR_ORDER`, when one exists.
pub open spec fn fr_inv_v(d: nat) -> nat {
    if fr_invertible(d) {
        choose|w: nat| w < FR_ORDER && #[trigger] ((d * w) % (FR_ORDER as nat)) == 1
    } else {
        0
    }
}

/// An inverse modulo the prime is unique among canonical residues.
pub proof fn lemma_fr_inv_unique(d: nat, w1: nat, w2: nat)
    requires
        w1 < FR_ORDER,
        w2 < FR_ORDER,
        (d * w1) % (FR_ORDER as nat) == 1,
        (d * w2) % (FR_ORDER as nat) == 1,
    ensures
        w1 == w2,
{
    let q = FR_ORDER as int;
    let di = d as int;
    let x1 = w1 as int;
    let x2 = w2 as int;
    // w1 == w1 * (d * w2) == (w1 * d) * w2 == w2  (mod q)
    assert((x1 * (di * x2)) % q == ((x1 * ((di * x2) % q)) % q)
        && ((di * x1) * x2) % q == ((((di * x1) % q) * x2) % q)) by {
        vstd::arithmetic::div_mod::lemma_mul_mod_noop_general(x1, di * x2, q);
        vstd::arithmetic::div_mod::lemma_mul_mod_noop_general(di * x1, x2, q);
    }
    assert(x1 * (di * x2) == (di * x1) * x2) by (nonlinear_arith);
    assert((di * x1) % q == 1 && (di * x2) % q == 1);
    assert((x1 * 1) % q == (1 * x2) % q);
    assert(x1 % q == x1 && x2 % q == x2) by {
        vstd::arithmetic::div_mod::lemma_small_mod(w1, FR_ORDER as nat);
        vstd::arithmetic::div_mod::lemma_small_mod(w2, FR_ORDER as nat);
    }
}

/// Residue multiplication is commutative.
pub proof fn lemma_fr_mul_v_comm(a: nat, b: nat)
    ensures
        fr_mul_v(a, b) == fr_mul_v(b, a),
{
    vstd::arithmetic::mul::lemma_mul_is_commutative(a as int, b as int);
}

/// Residue multiplication is associative.
pub proof fn lemma_fr_mul_v_assoc(a: nat, b: nat, c: nat)
    ensures
        fr_mul_v(fr_mul_v(a, b), c) == fr_mul_v(a, fr_mul_v(b, c)),
{
    let q = FR_ORDER as int;
    let ai = a as int;
    let bi = b as int;
    let ci = c as int;
    assert((((ai * bi) % q) * ci) % q == ((ai * bi) * ci) % q) by {
        vstd::arithmetic::div_mod::lemma_mul_mod_noop_general(ai * bi, ci, q);
    }
    assert((ai * ((bi * ci) % q)) % q == (ai * (bi * ci)) % q) by {
        vstd::arithmetic::div_mod::lemma_mul_mod_noop_general(ai, bi * ci, q);
    }
    assert((ai * bi) * ci == ai * (bi * ci)) by {
        vstd::arithmetic::mul::lemma_mul_is_associative(ai, bi, ci);
    }
}

/// Residue multiplication distributes over residue addition.
pub proof fn lemma_fr_mul_v_distrib(a: nat, b: nat, c: nat)
    ensures
        fr_mul_v(fr_add_v(a, b), c) == fr_add_v(fr_mul_v(a, c), fr_mul_v(b, c)),
{
    let q = FR_ORDER as int;
    let ai = a as int;
    let bi = b as int;
    let ci = c as int;
    assert((((ai + bi) % q) * ci) % q == ((ai + bi) * ci) % q) by {
        vstd::arithmetic::div_mod::lemma_mul_mod_noop_general(ai + bi, ci, q);
    }
    assert((ai + bi) * ci == ai * ci + bi * ci) by {
        vstd::arithmetic::mul::lemma_mul_is_distributive_add_other_way(ci, ai, bi);
    }
    assert((ai * ci + bi * ci) % q == ((ai * ci) % q + (bi * ci) % q) % q) by {
        vstd::arithmetic::div_mod::lemma_add_mod_noop(ai * ci, bi * ci, q);
    }
}

/// An invertible factor can be cancelled from a residue equality.
pub proof fn lemma_fr_cancel(a: nat, x: nat, y: nat)
    requires
        fr_invertible(a),
        x < FR_ORDER,
        y < FR_ORDER,
        fr_mul_v(x, a) == fr_mul_v(y, a),
    ensures
        x == y,
{
    let w = choose|w: nat| w < FR_ORDER && #[trigger] ((a * w) % (FR_ORDER as nat)) == 1;
    assert(fr_mul_v(a, w) == 1);
    // x == x * (a * w) == (x * a) * w == (y * a) * w == y * (a * w) == y  (mod q)
    lemma_fr_mul_v_assoc(x, a, w);
    lemma_fr_mul_v_assoc(y, a, w);
    assert(fr_mul_v(x, 1) == x) by {
        vstd::arithmetic::div_mod::lemma_small_mod(x, FR_ORDER as nat);
    }
    assert(fr_mul_v(y, 1) == y) by {
        vstd::arithmetic::div_mod::lemma_small_mod(y, FR_ORDER as nat);
    }
}

/// The product of two canonical residues fits comfortably in 64 bits.
pub proof fn lemma_fr_mul_fits(a: nat, b: nat)
    requires
        a < FR_ORDER,
        b < FR_ORDER,
    ensures
        a * b < 0x4_0000_0000_0000,
{
    assert(FR_ORDER == 1_000_003);
    assert(a * b < 0x4_0000_0000_0000) by (nonlinear_arith)
        requires
            a < 1_000_003,
            b < 1_000_003,
    ;
}

/// Adds two canonical residues.
pub fn fr_add(a: u64, b: u64) -> (r: u64)
    requires
        a < FR_ORDER,
        b < FR_ORDER,
    ensures
        r == fr_add_v(a as nat, b as nat),
        r < FR_ORDER,
{
    (a + b) % FR_ORDER
}

/// Subtracts one canonical residue from another.
pub fn fr_sub(a: u64, b: u64) -> (r: u64)
    requires
        a < FR_ORDER,
        b < FR_ORDER,
    ensures
        r == fr_sub_v(a as nat, b as nat),
        r < FR_ORDER,
{
    ((a + FR_ORDER) - b) % FR_ORDER
}

/// Multiplies two canonical residues.
pub fn fr_mul(a: u64, b: u64) -> (r: u64)
    requires
        a < FR_ORDER,
        b < FR_ORDER,
    ensures
        r == fr_mul_v(a as nat, b as nat),
        r < FR_ORDER,
{
    proof {
        lemma_fr_mul_fits(a as nat, b as nat);
    }
    (a * b) % FR_ORDER
}

/// Searches for the multiplicative inverse of `d`. Returns `None` exactly
/// when no canonical residue inverts `d` — in the prime field that happens
/// only for `d == 0`, but the contract states the searched fact itself.
pub fn fr_inv_find(d: u64) -> (r: Option<u64>)
    requires
        d < FR_ORDER,
    ensures
        r is Some <==> fr_invertible(d as nat),
        r is Some ==> r->0 == fr_inv_v(d as nat) && r->0 < FR_ORDER && (d * r->0) % (
        FR_ORDER as int) == 1,
{
    let mut x: u64 = 0;
    while x < FR_ORDER
        invariant
            d < FR_ORDER,
            x <= FR_ORDER,
            forall|w: nat| w < x ==> #[trigger] (((d as nat) * w) % (FR_ORDER as nat)) != 1,
        decreases FR_ORDER - x,
    {
        proof {
            lemma_fr_mul_fits(d as nat, x as nat);
        }
        if (d * x) % FR_ORDER == 1 {
            proof {
                assert(((d as nat) * (x as nat)) % (FR_ORDER as nat) == 1);
                assert(fr_invertible(d as nat));
                let w0 = fr_inv_v(d as nat);
                assert(w0 < FR_ORDER && ((d as nat) * w0) % (FR_ORDER as nat) == 1);
                lemma_fr_inv_unique(d as nat, w0, x as nat);
            }
            return Some(x);
        }
        x = x + 1;
    }
    proof {
        assert forall|w: nat| !(w < FR_ORDER && #[trigger] (((d as nat) * w) % (FR_ORDER as nat))
            == 1) by {
            if w < FR_ORDER {
                assert(w < x);
            }
        }
    }
    None
}

} // verus!
