//! The laws of the scheme, proved once and for all inputs over the
//! specification functions that the executable contracts are stated with.

use vstd::prelude::*;

use crate::bytes::{
    le_bytes, le_val, lemma_le_bytes_len, lemma_le_val_le_bytes, lemma_pow256_monotone,
    lemma_pow256_vals, pow256,
};
use crate::fr::{
    fr_add_v, fr_invertible, fr_mul_v, lemma_fr_cancel, lemma_fr_mul_v_assoc, lemma_fr_mul_v_comm,
    lemma_fr_mul_v_distrib,
};
use crate::params::{FR_ORDER, PK_GEN};
use crate::scheme::{hash_val, lemma_hash_bound, pk_of_v, sign_v, verify_v};
use crate::sharing::{lag_coeff, lag_sum, poly_eval, poly_tail, recover_ok, recover_v, share_coeff};
use crate::text::{
    all_dec_digits, all_hex_digits, dec_chars, dec_value, hex_chars, hex_value,
    lemma_dec_roundtrip, lemma_hex_roundtrip,
};

verus! {

/// Binary round trip: the fixed-width encoding of any valid element decodes
/// back to it, at every width the element types use, so deserializing a
/// serialized element succeeds and gives the element back.
pub proof fn lemma_serialize_roundtrip(v: nat, w: nat)
    requires
        v < FR_ORDER,
        w >= 3,
    ensures
        le_bytes(v, w).len() == w,
        le_val(le_bytes(v, w)) == v,
{
    lemma_le_bytes_len(v, w);
    lemma_le_val_le_bytes(v, w);
    lemma_pow256_vals();
    lemma_pow256_monotone(3, w);
    vstd::arithmetic::div_mod::lemma_small_mod(v, pow256(w));
}

/// Decimal text round trip: rendering any valid element and parsing the
/// digits back succeeds and gives the element back.
pub proof fn lemma_dec_text_roundtrip(v: nat)
    requires
        v < FR_ORDER,
    ensures
        dec_chars(v).len() > 0,
        all_dec_digits(dec_chars(v)),
        dec_value(dec_chars(v)) == v,
        dec_value(dec_chars(v)) < FR_ORDER,
{
    lemma_dec_roundtrip(v);
}

/// Hexadecimal text round trip: rendering any valid element and parsing the
/// digits back succeeds and gives the element back.
pub proof fn lemma_hex_text_roundtrip(v: nat)
    requires
        v < FR_ORDER,
    ensures
        hex_chars(v).len() > 0,
        all_hex_digits(hex_chars(v)),
        hex_value(hex_chars(v)) == v,
        hex_value(hex_chars(v)) < FR_ORDER,
{
    lemma_hex_roundtrip(v);
}

/// Sign/verify correctness: a signature made with a secret key verifies
/// against that key's public key and the signed message.
pub proof fn lemma_sign_verify(sk: nat, m: Seq<u8>)
    requires
        sk < FR_ORDER,
    ensures
        verify_v(sign_v(sk, m), pk_of_v(sk), m),
{
    let h = hash_val(m);
    let g = PK_GEN as nat;
    // (sk·h)·g == (h·sk)·g == h·(sk·g)
    lemma_fr_mul_v_comm(sk, h);
    lemma_fr_mul_v_assoc(h, sk, g);
}

/// Verification rejects a tampered message: signing one message and
/// verifying against another fails whenever the two messages hash apart
/// and the key's pairing with the generator is invertible (it is not only
/// for the zero key).
pub proof fn lemma_verify_rejects_message(sk: nat, m1: Seq<u8>, m2: Seq<u8>)
    requires
        sk < FR_ORDER,
        hash_val(m1) != hash_val(m2),
        fr_invertible(fr_mul_v(sk, PK_GEN as nat)),
    ensures
        !verify_v(sign_v(sk, m1), pk_of_v(sk), m2),
{
    let h1 = hash_val(m1);
    let h2 = hash_val(m2);
    let g = PK_GEN as nat;
    let kg = fr_mul_v(sk, g);
    lemma_hash_bound(m1);
    lemma_hash_bound(m2);
    if verify_v(sign_v(sk, m1), pk_of_v(sk), m2) {
        // (sk·h1)·g == h1·(sk·g), so h1·(sk·g) == h2·(sk·g), so h1 == h2
        lemma_fr_mul_v_comm(sk, h1);
        lemma_fr_mul_v_assoc(h1, sk, g);
        assert(fr_mul_v(h1, kg) == fr_mul_v(h2, kg));
        lemma_fr_cancel(kg, h1, h2);
    }
}

/// Verification rejects an unrelated public key: a signature verifies
/// against the public key of a different secret key for no message whose
/// hashed point pairs invertibly with the generator.
pub proof fn lemma_verify_rejects_key(sk1: nat, sk2: nat, m: Seq<u8>)
    requires
        sk1 < FR_ORDER,
        sk2 < FR_ORDER,
        sk1 != sk2,
        fr_invertible(fr_mul_v(hash_val(m), PK_GEN as nat)),
    ensures
        !verify_v(sign_v(sk1, m), pk_of_v(sk2), m),
{
    let h = hash_val(m);
    let g = PK_GEN as nat;
    let hg = fr_mul_v(h, g);
    if verify_v(sign_v(sk1, m), pk_of_v(sk2), m) {
        // (sk1·h)·g == sk1·(h·g)
        lemma_fr_mul_v_assoc(sk1, h, g);
        // h·(sk2·g) == (h·sk2)·g == (sk2·h)·g == sk2·(h·g)
        lemma_fr_mul_v_assoc(h, sk2, g);
        lemma_fr_mul_v_comm(h, sk2);
        lemma_fr_mul_v_assoc(sk2, h, g);
        assert(fr_mul_v(sk1, hg) == fr_mul_v(sk2, hg));
        lemma_fr_mul_v_comm(sk1, hg);
        lemma_fr_mul_v_comm(sk2, hg);
        lemma_fr_cancel(hg, sk1, sk2);
    }
}

/// Key-aggregation homomorphism: the public key of a sum of secret keys is
/// the sum of their public keys.
pub proof fn lemma_aggregate_public(a: nat, b: nat)
    ensures
        pk_of_v(fr_add_v(a, b)) == fr_add_v(pk_of_v(a), pk_of_v(b)),
{
    lemma_fr_mul_v_distrib(a, b, PK_GEN as nat);
}

/// Signature-aggregation homomorphism: the sum of two signatures over one
/// message verifies against the sum of the two public keys.
pub proof fn lemma_aggregate_verify(a: nat, b: nat, m: Seq<u8>)
    requires
        a < FR_ORDER,
        b < FR_ORDER,
    ensures
        verify_v(fr_add_v(sign_v(a, m), sign_v(b, m)), fr_add_v(pk_of_v(a), pk_of_v(b)), m),
{
    let h = hash_val(m);
    let g = PK_GEN as nat;
    let s1 = sign_v(a, m);
    let s2 = sign_v(b, m);
    let p1 = pk_of_v(a);
    let p2 = pk_of_v(b);
    // (s1 + s2)·g == s1·g + s2·g
    lemma_fr_mul_v_distrib(s1, s2, g);
    // s_i·g == h·p_i
    lemma_sign_verify(a, m);
    lemma_sign_verify(b, m);
    // h·(p1 + p2) == (p1 + p2)·h == p1·h + p2·h == h·p1 + h·p2
    lemma_fr_mul_v_comm(h, fr_add_v(p1, p2));
    lemma_fr_mul_v_distrib(p1, p2, h);
    lemma_fr_mul_v_comm(p1, h);
    lemma_fr_mul_v_comm(p2, h);
}

/// Degenerate sharing: with a single coefficient the sharing polynomial is
/// constant, so every share is the master key itself.
pub proof fn lemma_share_degenerate(msk: nat, x: nat)
    requires
        msk < FR_ORDER,
    ensures
        poly_eval(msk, 1, x) == msk,
{
    assert(poly_tail(msk, 1, 1, x) == 0);
    assert(share_coeff(msk, 0) == msk);
    assert(fr_mul_v(x, 0) == 0) by {
        assert(x * 0 == 0);
        vstd::arithmetic::div_mod::lemma_small_mod(0, FR_ORDER as nat);
    }
    assert(fr_add_v(msk, 0) == msk) by {
        vstd::arithmetic::div_mod::lemma_small_mod(msk, FR_ORDER as nat);
    }
}

/// Degenerate recovery: a single identity/share pair is recoverable
/// whenever the identity is non-zero, and recovery gives the share back.
pub proof fn lemma_recover_single(x: nat, s: nat)
    requires
        0 < x < FR_ORDER,
        s < FR_ORDER,
    ensures
        recover_ok(seq![x]),
        recover_v(seq![x], seq![s]) == s,
{
    let ids = seq![x];
    let vals = seq![s];
    assert(lag_coeff(ids, 0, 1) == 1);
    assert(lag_coeff(ids, 0, 0) == 1);
    assert(lag_sum(ids, vals, 1) == 0);
    assert(fr_mul_v(s, 1) == s) by {
        vstd::arithmetic::div_mod::lemma_small_mod(s, FR_ORDER as nat);
    }
    assert(fr_add_v(s, 0) == s) by {
        vstd::arithmetic::div_mod::lemma_small_mod(s, FR_ORDER as nat);
    }
    assert(lag_sum(ids, vals, 0) == fr_add_v(fr_mul_v(s, 1), 0));
}

/// Degenerate sharing composed with degenerate recovery: sharing a master
/// key with a single coefficient and recovering from that one share gives
/// the master key back, for secret keys and public keys alike.
pub proof fn lemma_degenerate_share_recover(msk: nat, x: nat)
    requires
        msk < FR_ORDER,
        0 < x < FR_ORDER,
    ensures
        recover_ok(seq![x]),
        recover_v(seq![x], seq![poly_eval(msk, 1, x)]) == msk,
{
    lemma_share_degenerate(msk, x);
    lemma_recover_single(x, msk);
}

} // verus!
