//! Secret keys: scalar-field elements, with key generation, public-key
//! derivation and signing.

use vstd::prelude::*;
use vstd::std_specs::ops::{AddSpec, SubSpec};

use crate::bytes::{le_bytes, le_decode_checked, le_decode_mod, le_store, le_val};
use crate::fr::{fr_add, fr_add_v, fr_mul, fr_sub, fr_sub_v};
use crate::params::{FR_ORDER, FR_SER_BYTES, PK_GEN, TEXT_BUF_BYTES};
use crate::public_key::BlsPublicKey;
use crate::repr::{fr_of, MclBnFr};
use crate::scheme::{hash_to_coord, pk_of_v, sign_v};
use crate::signature::BlsSignature;
use crate::text::{
    all_dec_digits, all_hex_digits, dec_chars, dec_parse, dec_render, dec_value, hex_chars,
    hex_parse, hex_render, hex_value,
};

verus! {

/// Relies on `rand::random`: a uniformly random 64-bit value from the
/// thread-local cryptographically secure generator. Nothing can be promised
/// of the value drawn.
#[verifier::external_body]
fn random_u64() -> u64 {
    rand::random::<u64>()
}

/// A secret key. Its view is the scalar it carries; equality is the scalar
/// field's equality.
#[derive(Debug, Clone, Copy, PartialEq, Eq, Structural)]
pub struct BlsSecretKey(pub(crate) MclBnFr);

impl View for BlsSecretKey {
    type V = nat;

    closed spec fn view(&self) -> nat {
        self.0@
    }
}

impl BlsSecretKey {
    /// The zero scalar.
    pub fn new() -> (r: Self)
        ensures
            r@ == 0,
    {
        BlsSecretKey(MclBnFr::new())
    }

    pub(crate) fn mk(v: u64) -> (r: Self)
        requires
            v < FR_ORDER,
        ensures
            r@ == v,
    {
        BlsSecretKey(MclBnFr::mk(v))
    }

    pub(crate) fn coord(&self) -> (c: u64)
        ensures
            c == self@,
            c < FR_ORDER,
    {
        self.0.coord()
    }

    /// Two secret keys are equal exactly when they carry the same scalar:
    /// the field's own equality decides, never a raw byte comparison.
    pub proof fn lemma_eq_is_scalar_eq(self, other: Self)
        ensures
            self == other <==> self@ == other@,
    {
        self.0.lemma_view_injective(other.0);
    }

    /// Draws a fresh secret key from the secure random source. The draw
    /// itself cannot fail; nothing is promised of which scalar comes out
    /// beyond its being canonical.
    pub fn new_random() -> (r: Result<Self, ()>)
        ensures
            r is Ok,
            r is Ok ==> r->Ok_0@ < FR_ORDER,
    {
        let x = random_u64();
        Ok(BlsSecretKey(MclBnFr::mk(x % FR_ORDER)))
    }

    /// Sets the scalar from a little-endian byte string of any length, if
    /// the value it carries is canonical; an out-of-range value leaves the
    /// key unchanged.
    pub fn set_little_endian(&mut self, buf: &[u8])
        ensures
            le_val(buf@) < FR_ORDER ==> final(self)@ == le_val(buf@),
            le_val(buf@) >= FR_ORDER ==> *final(self) == *old(self),
    {
        match le_decode_checked(buf) {
            Some(v) => {
                self.0 = MclBnFr::mk(v);
            },
            None => {},
        }
    }

    /// Sets the scalar from a little-endian byte string of any length,
    /// reducing the value into the field.
    pub fn set_little_endian_mod(&mut self, buf: &[u8])
        ensures
            final(self)@ == le_val(buf@) % (FR_ORDER as nat),
    {
        let v = le_decode_mod(buf);
        self.0 = MclBnFr::mk(v);
    }

    /// Derives the public key: the secret scalar times the fixed generator
    /// of the public-key group.
    pub fn to_public_key(&self) -> (r: BlsPublicKey)
        ensures
            r@ == pk_of_v(self@),
    {
        BlsPublicKey::mk(fr_mul(self.coord(), PK_GEN))
    }

    /// Signs a message: the hashed message, scaled by the secret scalar.
    /// Deterministic in the key and the message.
    pub fn sign(&self, msg: &[u8]) -> (r: BlsSignature)
        ensures
            r@ == sign_v(self@, msg@),
    {
        let h = hash_to_coord(msg);
        BlsSignature::mk(fr_mul(self.coord(), h))
    }

    /// Writes the canonical fixed-width encoding into the front of `buf`,
    /// returning the number of bytes written; fails, leaving the buffer
    /// untouched, exactly when the buffer is too small.
    pub fn serialize(&self, buf: &mut [u8]) -> (r: Result<usize, ()>)
        ensures
            r is Ok <==> old(buf)@.len() >= FR_SER_BYTES,
            r is Ok ==> r->Ok_0 == FR_SER_BYTES,
            r is Ok ==> final(buf)@.len() == old(buf)@.len(),
            r is Ok ==> final(buf)@.take(FR_SER_BYTES as int) == le_bytes(
                self@,
                FR_SER_BYTES as nat,
            ),
            r is Ok ==> final(buf)@.skip(FR_SER_BYTES as int) == old(buf)@.skip(
                FR_SER_BYTES as int,
            ),
            r is Err ==> final(buf)@ == old(buf)@,
    {
        if buf.len() < FR_SER_BYTES {
            return Err(());
        }
        let c = self.0.coord();
        let n = le_store(buf, FR_SER_BYTES, c);
        Ok(n)
    }

    /// Reads the canonical fixed-width encoding; fails, leaving the value
    /// untouched, exactly when the length is wrong or the bytes do not
    /// carry a canonical scalar.
    pub fn deserialize(&mut self, buf: &[u8]) -> (r: Result<usize, ()>)
        ensures
            r is Ok <==> (buf@.len() == FR_SER_BYTES && le_val(buf@) < FR_ORDER),
            r is Ok ==> r->Ok_0 == FR_SER_BYTES && final(self)@ == le_val(buf@),
            r is Err ==> *final(self) == *old(self),
    {
        if buf.len() != FR_SER_BYTES {
            return Err(());
        }
        match le_decode_checked(buf) {
            Some(v) => {
                self.0 = MclBnFr::mk(v);
                Ok(FR_SER_BYTES)
            },
            None => Err(()),
        }
    }

    /// Parses a decimal string; fails, leaving the value untouched, exactly
    /// when the string is empty, holds a non-digit (an embedded NUL among
    /// them), or carries a value at or above the field order.
    pub fn set_dec_str(&mut self, dec_str: &str) -> (r: Result<(), ()>)
        ensures
            r is Ok <==> (dec_str@.len() > 0 && all_dec_digits(dec_str@) && dec_value(dec_str@)
                < FR_ORDER),
            r is Ok ==> final(self)@ == dec_value(dec_str@),
            r is Err ==> *final(self) == *old(self),
    {
        match dec_parse(dec_str) {
            Some(v) => {
                self.0 = MclBnFr::mk(v);
                Ok(())
            },
            None => Err(()),
        }
    }

    /// Renders the minimal decimal string for this secret key.
    pub fn get_dec_str(&self) -> (r: Result<String, ()>)
        ensures
            r is Ok,
            r is Ok ==> r->Ok_0@ == dec_chars(self@),
            r is Ok ==> r->Ok_0@.len() <= TEXT_BUF_BYTES,
    {
        Ok(dec_render(self.0.coord()))
    }

    /// Parses a hexadecimal string (either letter case); fails, leaving the
    /// value untouched, exactly when the string is empty, holds a non-digit
    /// (an embedded NUL among them), or carries a value at or above the
    /// field order.
    pub fn set_hex_str(&mut self, hex_str: &str) -> (r: Result<(), ()>)
        ensures
            r is Ok <==> (hex_str@.len() > 0 && all_hex_digits(hex_str@) && hex_value(hex_str@)
                < FR_ORDER),
            r is Ok ==> final(self)@ == hex_value(hex_str@),
            r is Err ==> *final(self) == *old(self),
    {
        match hex_parse(hex_str) {
            Some(v) => {
                self.0 = MclBnFr::mk(v);
                Ok(())
            },
            None => Err(()),
        }
    }

    /// Renders the minimal lower-case hexadecimal string for this secret
    /// key.
    pub fn get_hex_str(&self) -> (r: Result<String, ()>)
        ensures
            r is Ok,
            r is Ok ==> r->Ok_0@ == hex_chars(self@),
            r is Ok ==> r->Ok_0@.len() <= TEXT_BUF_BYTES,
    {
        Ok(hex_render(self.0.coord()))
    }

    /// Adds another secret key into this one, in place.
    pub fn add_assign(&mut self, other: &Self)
        ensures
            final(self)@ == fr_add_v(old(self)@, other@),
    {
        let c = fr_add(self.0.coord(), other.0.coord());
        self.0 = MclBnFr::mk(c);
    }

    /// Subtracts another secret key from this one, in place.
    pub fn sub_assign(&mut self, other: &Self)
        ensures
            final(self)@ == fr_sub_v(old(self)@, other@),
    {
        let c = fr_sub(self.0.coord(), other.0.coord());
        self.0 = MclBnFr::mk(c);
    }
}

impl core::ops::Add for BlsSecretKey {
    type Output = BlsSecretKey;

    /// Scalar-field addition of secret keys.
    fn add(self, other: BlsSecretKey) -> (r: BlsSecretKey) {
        BlsSecretKey(MclBnFr::mk(fr_add(self.0.coord(), other.0.coord())))
    }
}

impl vstd::std_specs::ops::AddSpecImpl for BlsSecretKey {
    open spec fn obeys_add_spec() -> bool {
        true
    }

    open spec fn add_req(self, rhs: BlsSecretKey) -> bool {
        true
    }

    closed spec fn add_spec(self, rhs: BlsSecretKey) -> BlsSecretKey {
        BlsSecretKey(fr_of(fr_add_v(self@, rhs@)))
    }
}

impl core::ops::Sub for BlsSecretKey {
    type Output = BlsSecretKey;

    /// Scalar-field subtraction of secret keys.
    fn sub(self, other: BlsSecretKey) -> (r: BlsSecretKey) {
        BlsSecretKey(MclBnFr::mk(fr_sub(self.0.coord(), other.0.coord())))
    }
}

impl vstd::std_specs::ops::SubSpecImpl for BlsSecretKey {
    open spec fn obeys_sub_spec() -> bool {
        true
    }

    open spec fn sub_req(self, rhs: BlsSecretKey) -> bool {
        true
    }

    closed spec fn sub_spec(self, rhs: BlsSecretKey) -> BlsSecretKey {
        BlsSecretKey(fr_of(fr_sub_v(self@, rhs@)))
    }
}

/// What the `+` operator yields on secret keys, over views.
pub proof fn lemma_sk_add_view(a: BlsSecretKey, b: BlsSecretKey)
    ensures
        a.add_spec(b)@ == fr_add_v(a@, b@),
{
    MclBnFr::lemma_of(fr_add_v(a@, b@));
}

/// What the `-` operator yields on secret keys, over views.
pub proof fn lemma_sk_sub_view(a: BlsSecretKey, b: BlsSecretKey)
    ensures
        a.sub_spec(b)@ == fr_sub_v(a@, b@),
{
    MclBnFr::lemma_of(fr_sub_v(a@, b@));
}

impl core::default::Default for BlsSecretKey {
    fn default() -> (r: Self)
        ensures
            r@ == 0,
    {
        BlsSecretKey(MclBnFr::new())
    }
}

} // verus!
