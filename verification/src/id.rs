//! Participant identities: scalar-field elements used as the x-coordinates
//! of the sharing polynomial.

use vstd::prelude::*;

use crate::bytes::{le_bytes, le_decode_checked, le_store, le_val};
use crate::params::{FR_ORDER, FR_SER_BYTES, TEXT_BUF_BYTES};
use crate::repr::MclBnFr;
use crate::text::{
    all_dec_digits, all_hex_digits, dec_chars, dec_parse, dec_render, dec_value, hex_chars,
    hex_parse, hex_render, hex_value,
};

verus! {

/// A participant identity. Its view is the scalar it carries; equality is
/// the scalar field's equality.
#[derive(Debug, Clone, Copy, PartialEq, Eq, Structural)]
pub struct BlsId(pub(crate) MclBnFr);

impl View for BlsId {
    type V = nat;

    closed spec fn view(&self) -> nat {
        self.0@
    }
}

impl BlsId {
    /// The zero identity.
    pub fn new() -> (r: Self)
        ensures
            r@ == 0,
    {
        BlsId(MclBnFr::new())
    }

    pub(crate) fn mk(v: u64) -> (r: Self)
        requires
            v < FR_ORDER,
        ensures
            r@ == v,
    {
        BlsId(MclBnFr::mk(v))
    }

    pub(crate) fn coord(&self) -> (c: u64)
        ensures
            c == self@,
            c < FR_ORDER,
    {
        self.0.coord()
    }

    /// Two identities are equal exactly when they carry the same scalar:
    /// the field's own equality decides, never a raw byte comparison.
    pub proof fn lemma_eq_is_scalar_eq(self, other: Self)
        ensures
            self == other <==> self@ == other@,
    {
        self.0.lemma_view_injective(other.0);
    }

    /// Sets the identity to `x`, reduced into the scalar field (negative
    /// values wrap around, as in the field).
    pub fn set_int(&mut self, x: i32)
        ensures
            final(self)@ == (x as int) % (FR_ORDER as int),
    {
        let v: u64 = if x >= 0 {
            (x as u64) % FR_ORDER
        } else {
            let mag = (-(x as i64)) as u64;
            let mr = mag % FR_ORDER;
            proof {
                let q = FR_ORDER as int;
                let a = mag as int;
                if mr == 0 {
                    vstd::arithmetic::div_mod::lemma_mod_multiples_basic(-(a / q), q);
                    assert((-a) == (-(a / q)) * q) by {
                        vstd::arithmetic::div_mod::lemma_fundamental_div_mod(a, q);
                        assert((-(a / q)) * q == -((a / q) * q)) by (nonlinear_arith);
                    }
                } else {
                    // -a == q * (-(a / q) - 1) + (q - a % q)
                    assert((-a) == q * (-(a / q) - 1) + (q - mr)) by {
                        vstd::arithmetic::div_mod::lemma_fundamental_div_mod(a, q);
                        assert(q * (-(a / q) - 1) == -(q * (a / q)) - q) by (nonlinear_arith);
                    }
                    vstd::arithmetic::div_mod::lemma_fundamental_div_mod_converse_mod(
                        -a,
                        q,
                        -(a / q) - 1,
                        q - mr,
                    );
                }
            }
            if mr == 0 {
                0
            } else {
                FR_ORDER - mr
            }
        };
        self.0 = MclBnFr::mk(v);
    }

    /// Writes the canonical fixed-width encoding into the front of `buf`,
    /// returning the number of bytes written; fails, leaving the buffer
    /// untouched, exactly when the buffer is too small.
    pub fn serialize(&self, buf: &mut [u8]) -> (r: Result<usize, ()>)
        ensures
            r is Ok <==> old(buf)@.len() >= FR_SER_BYTES,
            r is Ok ==> r->Ok_0 == FR_SER_BYTES,
            r is Ok ==> final(buf)@.len() == old(buf)@.len(),
            r is Ok ==> final(buf)@.take(FR_SER_BYTES as int) == le_bytes(
                self@,
                FR_SER_BYTES as nat,
            ),
            r is Ok ==> final(buf)@.skip(FR_SER_BYTES as int) == old(buf)@.skip(
                FR_SER_BYTES as int,
            ),
            r is Err ==> final(buf)@ == old(buf)@,
    {
        if buf.len() < FR_SER_BYTES {
            return Err(());
        }
        let c = self.0.coord();
        let n = le_store(buf, FR_SER_BYTES, c);
        Ok(n)
    }

    /// Reads the canonical fixed-width encoding; fails, leaving the value
    /// untouched, exactly when the length is wrong or the bytes do not
    /// carry a canonical scalar.
    pub fn deserialize(&mut self, buf: &[u8]) -> (r: Result<usize, ()>)
        ensures
            r is Ok <==> (buf@.len() == FR_SER_BYTES && le_val(buf@) < FR_ORDER),
            r is Ok ==> r->Ok_0 == FR_SER_BYTES && final(self)@ == le_val(buf@),
            r is Err ==> *final(self) == *old(self),
    {
        if buf.len() != FR_SER_BYTES {
            return Err(());
        }
        match le_decode_checked(buf) {
            Some(v) => {
                self.0 = MclBnFr::mk(v);
                Ok(FR_SER_BYTES)
            },
            None => Err(()),
        }
    }

    /// Parses a decimal string; fails, leaving the value untouched, exactly
    /// when the string is empty, holds a non-digit (an embedded NUL among
    /// them), or carries a value at or above the field order.
    pub fn set_dec_str(&mut self, dec_str: &str) -> (r: Result<(), ()>)
        ensures
            r is Ok <==> (dec_str@.len() > 0 && all_dec_digits(dec_str@) && dec_value(dec_str@)
                < FR_ORDER),
            r is Ok ==> final(self)@ == dec_value(dec_str@),
            r is Err ==> *final(self) == *old(self),
    {
        match dec_parse(dec_str) {
            Some(v) => {
                self.0 = MclBnFr::mk(v);
                Ok(())
            },
            None => Err(()),
        }
    }

    /// Renders the minimal decimal string for this identity.
    pub fn get_dec_str(&self) -> (r: Result<String, ()>)
        ensures
            r is Ok,
            r is Ok ==> r->Ok_0@ == dec_chars(self@),
            r is Ok ==> r->Ok_0@.len() <= TEXT_BUF_BYTES,
    {
        Ok(dec_render(self.0.coord()))
    }

    /// Parses a hexadecimal string (either letter case); fails, leaving the
    /// value untouched, exactly when the string is empty, holds a non-digit
    /// (an embedded NUL among them), or carries a value at or above the
    /// field order.
    pub fn set_hex_str(&mut self, hex_str: &str) -> (r: Result<(), ()>)
        ensures
            r is Ok <==> (hex_str@.len() > 0 && all_hex_digits(hex_str@) && hex_value(hex_str@)
                < FR_ORDER),
            r is Ok ==> final(self)@ == hex_value(hex_str@),
            r is Err ==> *final(self) == *old(self),
    {
        match hex_parse(hex_str) {
            Some(v) => {
                self.0 = MclBnFr::mk(v);
                Ok(())
            },
            None => Err(()),
        }
    }

    /// Renders the minimal lower-case hexadecimal string for this identity.
    pub fn get_hex_str(&self) -> (r: Result<String, ()>)
        ensures
            r is Ok,
            r is Ok ==> r->Ok_0@ == hex_chars(self@),
            r is Ok ==> r->Ok_0@.len() <= TEXT_BUF_BYTES,
    {
        Ok(hex_render(self.0.coord()))
    }
}

impl core::default::Default for BlsId {
    fn default() -> (r: Self)
        ensures
            r@ == 0,
    {
        BlsId(MclBnFr::new())
    }
}

} // verus!
