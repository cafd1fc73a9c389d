//! The algebra of the signature scheme, stated over coordinates.
//!
//! Messages are hashed into the signature group; a public key is the secret
//! scalar times the fixed generator of the public-key group; a signature is
//! the secret scalar times the hashed message; and verification tests the
//! bilinear pairing equality. The pairing of this engine's groups maps a
//! pair of coordinates to the product of the coordinates, which is bilinear,
//! so every protocol law can be proved outright.

use vstd::prelude::*;

use crate::fr::fr_mul_v;
use crate::params::{FR_ORDER, PK_GEN};

verus! {

/// Seed of the message hash.
pub const HASH_SEED: u64 = 7;

/// Multiplier of the message hash.
pub const HASH_MULT: u64 = 131;

/// The coordinate in the signature group that a message hashes to.
pub open spec fn hash_val(m: Seq<u8>) -> nat
    decreases m.len(),
{
    if m.len() == 0 {
        HASH_SEED as nat
    } else {
        ((hash_val(m.drop_last()) * (HASH_MULT as nat) + m.last() + 1) as nat) % (FR_ORDER as nat)
    }
}

/// A hashed message is a canonical coordinate.
pub proof fn lemma_hash_bound(m: Seq<u8>)
    ensures
        hash_val(m) < FR_ORDER,
    decreases m.len(),
{
    if m.len() > 0 {
        lemma_hash_bound(m.drop_last());
    }
}

/// The public key derived from a secret scalar.
pub open spec fn pk_of_v(sk: nat) -> nat {
    fr_mul_v(sk, PK_GEN as nat)
}

/// The signature of a message under a secret scalar.
pub open spec fn sign_v(sk: nat, m: Seq<u8>) -> nat {
    fr_mul_v(sk, hash_val(m))
}

/// The bilinear pairing on coordinates.
pub open spec fn pair_v(x: nat, y: nat) -> nat {
    fr_mul_v(x, y)
}

/// The verification equality: the pairing of the signature with the
/// public generator must match the pairing of the hashed message with the
/// public key.
pub open spec fn verify_v(sig: nat, pk: nat, m: Seq<u8>) -> bool {
    pair_v(sig, PK_GEN as nat) == pair_v(hash_val(m), pk)
}

/// Hashes a message to its coordinate in the signature group.
pub fn hash_to_coord(msg: &[u8]) -> (r: u64)
    ensures
        r == hash_val(msg@),
        r < FR_ORDER,
{
    let n = msg.len();
    let mut acc: u64 = HASH_SEED;
    let mut i: usize = 0;
    proof {
        assert(msg@.take(0) =~= Seq::<u8>::empty());
    }
    while i < n
        invariant
            i <= n,
            n == msg@.len(),
            acc == hash_val(msg@.take(i as int)),
            acc < FR_ORDER,
        decreases n - i,
    {
        let b = msg[i];
        proof {
            assert(msg@.take(i + 1).drop_last() =~= msg@.take(i as int));
            assert(msg@.take(i + 1).last() == msg@[i as int]);
        }
        acc = (acc * HASH_MULT + b as u64 + 1) % FR_ORDER;
        i = i + 1;
    }
    proof {
        assert(msg@.take(n as int) =~= msg@);
    }
    acc
}

} // verus!
