//! Signatures: elements of the signature curve group, and pairing-based
//! verification.

use vstd::prelude::*;
use vstd::std_specs::ops::{AddSpec, SubSpec};

use crate::bytes::{le_bytes, le_decode_checked, le_store, le_val};
use crate::fr::{fr_add, fr_add_v, fr_mul, fr_sub, fr_sub_v};
use crate::params::{FR_ORDER, PK_GEN, SIG_SER_BYTES, TEXT_BUF_BYTES};
use crate::public_key::BlsPublicKey;
use crate::repr::{g1_of, MclBnG1, MclBnG2, MclBnGT};
use crate::scheme::{hash_to_coord, pair_v, verify_v};
use crate::text::{
    all_dec_digits, all_hex_digits, dec_chars, dec_parse, dec_render, dec_value, hex_chars,
    hex_parse, hex_render, hex_value,
};

verus! {

/// Evaluates the bilinear pairing on one element of each curve group.
fn pairing(x: &MclBnG1, y: &MclBnG2) -> (r: MclBnGT)
    ensures
        r@ == pair_v(x@, y@),
{
    MclBnGT::mk(fr_mul(x.coord(), y.coord()))
}

/// A signature. Its view is the coordinate of the group element it
/// carries; equality is the group's equality. The invariant
/// `signature == secret key · hash(message)` is kept by the contract of
/// `BlsSecretKey::sign`.
#[derive(Debug, Clone, Copy, PartialEq, Eq, Structural)]
pub struct BlsSignature(pub(crate) MclBnG1);

impl View for BlsSignature {
    type V = nat;

    closed spec fn view(&self) -> nat {
        self.0@
    }
}

impl BlsSignature {
    /// The group identity.
    pub fn new() -> (r: Self)
        ensures
            r@ == 0,
    {
        BlsSignature(MclBnG1::new())
    }

    pub(crate) fn mk(v: u64) -> (r: Self)
        requires
            v < FR_ORDER,
        ensures
            r@ == v,
    {
        BlsSignature(MclBnG1::mk(v))
    }

    pub(crate) fn coord(&self) -> (c: u64)
        ensures
            c == self@,
            c < FR_ORDER,
    {
        self.0.coord()
    }

    /// Two signatures are equal exactly when they are the same group
    /// element: the group's own equality decides, never a raw byte
    /// comparison.
    pub proof fn lemma_eq_is_group_eq(self, other: Self)
        ensures
            self == other <==> self@ == other@,
    {
        self.0.lemma_view_injective(other.0);
    }

    /// Tests the pairing equality of this signature against a public key
    /// and a message. Returns `false` — never an error — on a mismatched
    /// message or key.
    pub fn verify(&self, public_key: &BlsPublicKey, msg: &[u8]) -> (r: bool)
        ensures
            r == verify_v(self@, public_key@, msg@),
    {
        let generator = MclBnG2::mk(PK_GEN);
        let hashed = MclBnG1::mk(hash_to_coord(msg));
        let key_point = MclBnG2::mk(public_key.coord());
        let own_point = MclBnG1::mk(self.coord());
        let lhs = pairing(&own_point, &generator);
        let rhs = pairing(&hashed, &key_point);
        lhs.coord() == rhs.coord()
    }

    /// Writes the canonical fixed-width encoding into the front of `buf`,
    /// returning the number of bytes written; fails, leaving the buffer
    /// untouched, exactly when the buffer is too small.
    pub fn serialize(&self, buf: &mut [u8]) -> (r: Result<usize, ()>)
        ensures
            r is Ok <==> old(buf)@.len() >= SIG_SER_BYTES,
            r is Ok ==> r->Ok_0 == SIG_SER_BYTES,
            r is Ok ==> final(buf)@.len() == old(buf)@.len(),
            r is Ok ==> final(buf)@.take(SIG_SER_BYTES as int) == le_bytes(
                self@,
                SIG_SER_BYTES as nat,
            ),
            r is Ok ==> final(buf)@.skip(SIG_SER_BYTES as int) == old(buf)@.skip(
                SIG_SER_BYTES as int,
            ),
            r is Err ==> final(buf)@ == old(buf)@,
    {
        if buf.len() < SIG_SER_BYTES {
            return Err(());
        }
        let c = self.0.coord();
        let n = le_store(buf, SIG_SER_BYTES, c);
        Ok(n)
    }

    /// Reads the canonical fixed-width encoding; fails, leaving the value
    /// untouched, exactly when the length is wrong or the bytes do not
    /// carry a canonical group element.
    pub fn deserialize(&mut self, buf: &[u8]) -> (r: Result<usize, ()>)
        ensures
            r is Ok <==> (buf@.len() == SIG_SER_BYTES && le_val(buf@) < FR_ORDER),
            r is Ok ==> r->Ok_0 == SIG_SER_BYTES && final(self)@ == le_val(buf@),
            r is Err ==> *final(self) == *old(self),
    {
        if buf.len() != SIG_SER_BYTES {
            return Err(());
        }
        match le_decode_checked(buf) {
            Some(v) => {
                self.0 = MclBnG1::mk(v);
                Ok(SIG_SER_BYTES)
            },
            None => Err(()),
        }
    }

    /// Parses a decimal string; fails, leaving the value untouched, exactly
    /// when the string is empty, holds a non-digit (an embedded NUL among
    /// them), or carries a value at or above the group order.
    pub fn set_dec_str(&mut self, dec_str: &str) -> (r: Result<(), ()>)
        ensures
            r is Ok <==> (dec_str@.len() > 0 && all_dec_digits(dec_str@) && dec_value(dec_str@)
                < FR_ORDER),
            r is Ok ==> final(self)@ == dec_value(dec_str@),
            r is Err ==> *final(self) == *old(self),
    {
        match dec_parse(dec_str) {
            Some(v) => {
                self.0 = MclBnG1::mk(v);
                Ok(())
            },
            None => Err(()),
        }
    }

    /// Renders the minimal decimal string for this signature.
    pub fn get_dec_str(&self) -> (r: Result<String, ()>)
        ensures
            r is Ok,
            r is Ok ==> r->Ok_0@ == dec_chars(self@),
            r is Ok ==> r->Ok_0@.len() <= TEXT_BUF_BYTES,
    {
        Ok(dec_render(self.0.coord()))
    }

    /// Parses a hexadecimal string (either letter case); fails, leaving the
    /// value untouched, exactly when the string is empty, holds a non-digit
    /// (an embedded NUL among them), or carries a value at or above the
    /// group order.
    pub fn set_hex_str(&mut self, hex_str: &str) -> (r: Result<(), ()>)
        ensures
            r is Ok <==> (hex_str@.len() > 0 && all_hex_digits(hex_str@) && hex_value(hex_str@)
                < FR_ORDER),
            r is Ok ==> final(self)@ == hex_value(hex_str@),
            r is Err ==> *final(self) == *old(self),
    {
        match hex_parse(hex_str) {
            Some(v) => {
                self.0 = MclBnG1::mk(v);
                Ok(())
            },
            None => Err(()),
        }
    }

    /// Renders the minimal lower-case hexadecimal string for this
    /// signature.
    pub fn get_hex_str(&self) -> (r: Result<String, ()>)
        ensures
            r is Ok,
            r is Ok ==> r->Ok_0@ == hex_chars(self@),
            r is Ok ==> r->Ok_0@.len() <= TEXT_BUF_BYTES,
    {
        Ok(hex_render(self.0.coord()))
    }

    /// Adds another signature into this one, in place.
    pub fn add_assign(&mut self, other: &Self)
        ensures
            final(self)@ == fr_add_v(old(self)@, other@),
    {
        let c = fr_add(self.0.coord(), other.0.coord());
        self.0 = MclBnG1::mk(c);
    }

    /// Subtracts another signature from this one, in place.
    pub fn sub_assign(&mut self, other: &Self)
        ensures
            final(self)@ == fr_sub_v(old(self)@, other@),
    {
        let c = fr_sub(self.0.coord(), other.0.coord());
        self.0 = MclBnG1::mk(c);
    }
}

impl core::ops::Add for BlsSignature {
    type Output = BlsSignature;

    /// Group addition of signatures.
    fn add(self, other: BlsSignature) -> (r: BlsSignature) {
        BlsSignature(MclBnG1::mk(fr_add(self.0.coord(), other.0.coord())))
    }
}

impl vstd::std_specs::ops::AddSpecImpl for BlsSignature {
    open spec fn obeys_add_spec() -> bool {
        true
    }

    open spec fn add_req(self, rhs: BlsSignature) -> bool {
        true
    }

    closed spec fn add_spec(self, rhs: BlsSignature) -> BlsSignature {
        BlsSignature(g1_of(fr_add_v(self@, rhs@)))
    }
}

impl core::ops::Sub for BlsSignature {
    type Output = BlsSignature;

    /// Group subtraction of signatures.
    fn sub(self, other: BlsSignature) -> (r: BlsSignature) {
        BlsSignature(MclBnG1::mk(fr_sub(self.0.coord(), other.0.coord())))
    }
}

impl vstd::std_specs::ops::SubSpecImpl for BlsSignature {
    open spec fn obeys_sub_spec() -> bool {
        true
    }

    open spec fn sub_req(self, rhs: BlsSignature) -> bool {
        true
    }

    closed spec fn sub_spec(self, rhs: BlsSignature) -> BlsSignature {
        BlsSignature(g1_of(fr_sub_v(self@, rhs@)))
    }
}

/// What the `+` operator yields on signatures, over views.
pub proof fn lemma_sig_add_view(a: BlsSignature, b: BlsSignature)
    ensures
        a.add_spec(b)@ == fr_add_v(a@, b@),
{
    MclBnG1::lemma_of(fr_add_v(a@, b@));
}

/// What the `-` operator yields on signatures, over views.
pub proof fn lemma_sig_sub_view(a: BlsSignature, b: BlsSignature)
    ensures
        a.sub_spec(b)@ == fr_sub_v(a@, b@),
{
    MclBnG1::lemma_of(fr_sub_v(a@, b@));
}

impl core::default::Default for BlsSignature {
    fn default() -> (r: Self)
        ensures
            r@ == 0,
    {
        BlsSignature(MclBnG1::new())
    }
}

} // verus!
