//! Raw element representations: one canonical coordinate per group.
//!
//! The engine is compiled for a single parameter set, so each element of the
//! scalar field (`MclBnFr`), of the two paired curve groups (`MclBnG1`,
//! `MclBnG2`) and of the pairing target group (`MclBnGT`) is carried by one
//! canonical residue modulo `FR_ORDER`. The view of each type is that
//! residue; a type invariant keeps every value canonical, which makes the
//! native equality of each group coincide with equality of views. No raw
//! coordinate access is exposed outside the crate: the rest of the library
//! goes through `mk` and `coord`, whose contracts speak of views only.

use vstd::prelude::*;

use crate::params::FR_ORDER;

verus! {

/// A scalar-field element.
#[derive(Debug, Clone, Copy, PartialEq, Eq, Structural)]
pub struct MclBnFr(pub(crate) u64);

/// The scalar-field value whose canonical coordinate is `v` (meaningful for
/// `v < FR_ORDER`).
pub(crate) open spec fn fr_of(v: nat) -> MclBnFr {
    MclBnFr(v as u64)
}

impl View for MclBnFr {
    type V = nat;

    closed spec fn view(&self) -> nat {
        self.0 as nat
    }
}

impl MclBnFr {
    #[verifier::type_invariant]
    pub closed spec fn wf(self) -> bool {
        self.0 < FR_ORDER
    }

    /// Two values of equal view are the same value.
    pub proof fn lemma_view_injective(self, other: Self)
        ensures
            self@ == other@ <==> self == other,
    {
    }

    pub(crate) proof fn lemma_of(v: nat)
        requires
            v < FR_ORDER,
        ensures
            fr_of(v)@ == v,
    {
    }

    /// Wraps a canonical coordinate.
    pub(crate) fn mk(v: u64) -> (r: Self)
        requires
            v < FR_ORDER,
        ensures
            r@ == v,
            r == fr_of(v as nat),
    {
        MclBnFr(v)
    }

    /// The canonical coordinate of this value.
    pub(crate) fn coord(&self) -> (c: u64)
        ensures
            c == self@,
            c < FR_ORDER,
    {
        proof {
            use_type_invariant(self);
        }
        self.0
    }

    /// The zero scalar.
    pub fn new() -> (r: Self)
        ensures
            r@ == 0,
    {
        MclBnFr(0)
    }
}

impl core::default::Default for MclBnFr {
    fn default() -> (r: Self)
        ensures
            r@ == 0,
    {
        MclBnFr(0)
    }
}

/// An element of the curve group that carries signatures and hashed
/// messages.
#[derive(Debug, Clone, Copy, PartialEq, Eq, Structural)]
pub struct MclBnG1(pub(crate) u64);

/// The signature-group value whose canonical coordinate is `v` (meaningful
/// for `v < FR_ORDER`).
pub(crate) open spec fn g1_of(v: nat) -> MclBnG1 {
    MclBnG1(v as u64)
}

impl View for MclBnG1 {
    type V = nat;

    closed spec fn view(&self) -> nat {
        self.0 as nat
    }
}

impl MclBnG1 {
    #[verifier::type_invariant]
    pub closed spec fn wf(self) -> bool {
        self.0 < FR_ORDER
    }

    pub proof fn lemma_view_injective(self, other: Self)
        ensures
            self@ == other@ <==> self == other,
    {
    }

    pub(crate) proof fn lemma_of(v: nat)
        requires
            v < FR_ORDER,
        ensures
            g1_of(v)@ == v,
    {
    }

    pub(crate) fn mk(v: u64) -> (r: Self)
        requires
            v < FR_ORDER,
        ensures
            r@ == v,
            r == g1_of(v as nat),
    {
        MclBnG1(v)
    }

    pub(crate) fn coord(&self) -> (c: u64)
        ensures
            c == self@,
            c < FR_ORDER,
    {
        proof {
            use_type_invariant(self);
        }
        self.0
    }

    /// The group identity.
    pub fn new() -> (r: Self)
        ensures
            r@ == 0,
    {
        MclBnG1(0)
    }
}

impl core::default::Default for MclBnG1 {
    fn default() -> (r: Self)
        ensures
            r@ == 0,
    {
        MclBnG1(0)
    }
}

/// An element of the curve group that carries public keys.
#[derive(Debug, Clone, Copy, PartialEq, Eq, Structural)]
pub struct MclBnG2(pub(crate) u64);

/// The public-key-group value whose canonical coordinate is `v` (meaningful
/// for `v < FR_ORDER`).
pub(crate) open spec fn g2_of(v: nat) -> MclBnG2 {
    MclBnG2(v as u64)
}

impl View for MclBnG2 {
    type V = nat;

    closed spec fn view(&self) -> nat {
        self.0 as nat
    }
}

impl MclBnG2 {
    #[verifier::type_invariant]
    pub closed spec fn wf(self) -> bool {
        self.0 < FR_ORDER
    }

    pub proof fn lemma_view_injective(self, other: Self)
        ensures
            self@ == other@ <==> self == other,
    {
    }

    pub(crate) proof fn lemma_of(v: nat)
        requires
            v < FR_ORDER,
        ensures
            g2_of(v)@ == v,
    {
    }

    pub(crate) fn mk(v: u64) -> (r: Self)
        requires
            v < FR_ORDER,
        ensures
            r@ == v,
            r == g2_of(v as nat),
    {
        MclBnG2(v)
    }

    pub(crate) fn coord(&self) -> (c: u64)
        ensures
            c == self@,
            c < FR_ORDER,
    {
        proof {
            use_type_invariant(self);
        }
        self.0
    }

    /// The group identity.
    pub fn new() -> (r: Self)
        ensures
            r@ == 0,
    {
        MclBnG2(0)
    }
}

impl core::default::Default for MclBnG2 {
    fn default() -> (r: Self)
        ensures
            r@ == 0,
    {
        MclBnG2(0)
    }
}

/// An element of the pairing target group; produced only by the pairing.
#[derive(Debug, Clone, Copy, PartialEq, Eq, Structural)]
pub struct MclBnGT(pub(crate) u64);

impl View for MclBnGT {
    type V = nat;

    closed spec fn view(&self) -> nat {
        self.0 as nat
    }
}

impl MclBnGT {
    #[verifier::type_invariant]
    pub closed spec fn wf(self) -> bool {
        self.0 < FR_ORDER
    }

    pub(crate) fn mk(v: u64) -> (r: Self)
        requires
            v < FR_ORDER,
        ensures
            r@ == v,
    {
        MclBnGT(v)
    }

    pub(crate) fn coord(&self) -> (c: u64)
        ensures
            c == self@,
            c < FR_ORDER,
    {
        proof {
            use_type_invariant(self);
        }
        self.0
    }
}

} // verus!
