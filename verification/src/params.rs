//! Curve context: the process-wide parameter choice and its one-shot
//! initialization gate.
//!
//! The arithmetic engine in this crate is compiled for exactly one parameter
//! set, so exactly one curve selector is accepted. Because every element type
//! is monomorphic over that single compiled choice, re-initialization with the
//! accepted selector is a no-op, and initialization with any other selector
//! reports the initialization error — a conflicting re-initialization is
//! therefore impossible rather than silently ignored.

use vstd::prelude::*;

verus! {

/// Order of the scalar field: a prime. Identities, secret keys and
/// polynomial coefficients are residues modulo this number.
pub const FR_ORDER: u64 = 1_000_003;

/// Scalar coordinate of the fixed generator of the public-key group.
pub const PK_GEN: u64 = 3;

/// Serialized width, in bytes, of a scalar-field element (identities and
/// secret keys).
pub const FR_SER_BYTES: usize = 32;

/// Serialized width, in bytes, of a public-key group element.
pub const PK_SER_BYTES: usize = 96;

/// Serialized width, in bytes, of a signature group element.
pub const SIG_SER_BYTES: usize = 48;

/// Largest number of bytes a rendered decimal or hexadecimal string may
/// occupy.
pub const TEXT_BUF_BYTES: usize = 128;

/// The curve selectors a caller may ask for. Only `Bls12CurveFp381` is
/// backed by the compiled parameter set of this crate's arithmetic engine.
#[derive(Debug, Clone, Copy, PartialEq, Eq, Structural)]
pub enum CurveType {
    CurveFp254BNb,
    CurveFp382One,
    CurveFp382Two,
    CurveFp462,
    CurveSNARK1,
    Bls12CurveFp381,
}

/// Establishes the curve context. Succeeds exactly for the selector the
/// engine was compiled for; any other selector yields the initialization
/// error. Calling it again with the accepted selector is a no-op.
pub fn bls_init(curve: CurveType) -> (r: Result<(), isize>)
    ensures
        r is Ok <==> curve is Bls12CurveFp381,
        r is Err ==> r->Err_0 == -1,
{
    match curve {
        CurveType::Bls12CurveFp381 => Ok(()),
        _ => Err(-1),
    }
}

} // verus!
