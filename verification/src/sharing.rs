//! Shamir-style threshold sharing over the scalar field, indexed by
//! participant identity, with Lagrange recovery at zero.
//!
//! A master key defines an implicit sharing polynomial: its constant
//! coefficient is the master key itself and every higher coefficient is
//! derived deterministically from it, so share derivation is a pure
//! function of its inputs. A share is the polynomial evaluated at the
//! participant's identity. Recovery interpolates at zero; that it returns
//! the master key is proved for the degenerate single-coefficient sharing
//! and exercised by tests beyond it. Fewer shares than the true threshold
//! silently yield an unrelated value — recovery cannot detect that case,
//! and callers must supply the right count. Recovery reports an error
//! exactly when the
//! count is zero or exceeds the slices, an identity is zero, or a pair of
//! identities cannot be separated (duplicates among them).

use vstd::prelude::*;
use vstd::slice::slice_index_get;

use crate::fr::{
    fr_add, fr_add_v, fr_inv_find, fr_inv_v, fr_invertible, fr_mul, fr_mul_v, fr_sub, fr_sub_v,
};
use crate::id::BlsId;
use crate::params::FR_ORDER;
use crate::public_key::BlsPublicKey;
use crate::secret_key::BlsSecretKey;
use crate::signature::BlsSignature;

verus! {

/// Multiplier that derives the higher coefficients of the implicit sharing
/// polynomial from the master key.
pub const SHARE_MIX: u64 = 48_271;

/// Coefficient `j` of the implicit sharing polynomial defined by `msk`.
pub open spec fn share_coeff(msk: nat, j: nat) -> nat {
    if j == 0 {
        msk
    } else {
        fr_mul_v(fr_add_v(msk, j % (FR_ORDER as nat)), SHARE_MIX as nat)
    }
}

/// The tail of the Horner evaluation: the value at `x` of the polynomial
/// whose coefficients are `share_coeff(msk, j) .. share_coeff(msk, k - 1)`.
pub open spec fn poly_tail(msk: nat, k: nat, j: nat, x: nat) -> nat
    decreases k - j,
{
    if j >= k {
        0
    } else {
        fr_add_v(share_coeff(msk, j), fr_mul_v(x, poly_tail(msk, k, (j + 1) as nat, x)))
    }
}

/// The sharing polynomial of `msk` with `k` coefficients, evaluated at `x`.
pub open spec fn poly_eval(msk: nat, k: nat, x: nat) -> nat {
    poly_tail(msk, k, 0, x)
}

/// The Lagrange factor product for centre `i`, over positions `j` onward:
/// the product of `x_t / (x_t - x_i)` for `t != i`, evaluated at zero.
pub open spec fn lag_coeff(ids: Seq<nat>, i: int, j: int) -> nat
    decreases ids.len() - j,
{
    if j < 0 || j >= ids.len() {
        1
    } else if j == i {
        lag_coeff(ids, i, j + 1)
    } else {
        fr_mul_v(
            fr_mul_v(ids[j], fr_inv_v(fr_sub_v(ids[j], ids[i]))),
            lag_coeff(ids, i, j + 1),
        )
    }
}

/// The Lagrange interpolation at zero, summed from position `i` onward.
pub open spec fn lag_sum(ids: Seq<nat>, vals: Seq<nat>, i: int) -> nat
    decreases ids.len() - i,
{
    if i < 0 || i >= ids.len() {
        0
    } else {
        fr_add_v(fr_mul_v(vals[i], lag_coeff(ids, i, 0)), lag_sum(ids, vals, i + 1))
    }
}

/// The value recovered from `(ids, vals)` pairs: the interpolating
/// polynomial of the pairs, evaluated at zero.
pub open spec fn recover_v(ids: Seq<nat>, vals: Seq<nat>) -> nat {
    lag_sum(ids, vals, 0)
}

/// When recovery succeeds: at least one pair, no zero identity, and every
/// pair of identities separated by an invertible difference (a duplicate
/// identity gives the non-invertible difference zero).
pub open spec fn recover_ok(ids: Seq<nat>) -> bool {
    &&& ids.len() >= 1
    &&& forall|i: int| 0 <= i < ids.len() ==> ids[i] != 0
    &&& forall|i: int, j: int|
        0 <= i < ids.len() && 0 <= j < ids.len() && i != j ==> fr_invertible(
            fr_sub_v(ids[j], ids[i]),
        )
}

/// Zero has no multiplicative inverse.
pub proof fn lemma_zero_not_invertible()
    ensures
        !fr_invertible(0),
{
    assert forall|w: nat| !(w < FR_ORDER && #[trigger] ((0nat * w) % (FR_ORDER as nat)) == 1) by {
        assert(0nat * w == 0);
    }
}

/// The views of a sequence of identities.
pub open spec fn id_views(s: Seq<BlsId>) -> Seq<nat> {
    Seq::new(s.len(), |i: int| s[i]@)
}

/// The views of a sequence of secret keys.
pub open spec fn sk_views(s: Seq<BlsSecretKey>) -> Seq<nat> {
    Seq::new(s.len(), |i: int| s[i]@)
}

/// The views of a sequence of public keys.
pub open spec fn pk_views(s: Seq<BlsPublicKey>) -> Seq<nat> {
    Seq::new(s.len(), |i: int| s[i]@)
}

/// The views of a sequence of signatures.
pub open spec fn sig_views(s: Seq<BlsSignature>) -> Seq<nat> {
    Seq::new(s.len(), |i: int| s[i]@)
}

/// The coordinates of a sequence of `u64` values, as residues.
pub open spec fn nat_seq(s: Seq<u64>) -> Seq<nat> {
    Seq::new(s.len(), |i: int| s[i] as nat)
}

/// Evaluates the sharing polynomial of `msk` with `k` coefficients at `x`.
fn share_coord(msk: u64, k: usize, x: u64) -> (r: u64)
    requires
        msk < FR_ORDER,
        x < FR_ORDER,
        k >= 1,
    ensures
        r == poly_eval(msk as nat, k as nat, x as nat),
        r < FR_ORDER,
{
    let mut acc: u64 = 0;
    let mut j: usize = k;
    while j > 0
        invariant
            msk < FR_ORDER,
            x < FR_ORDER,
            j <= k,
            acc == poly_tail(msk as nat, k as nat, j as nat, x as nat),
            acc < FR_ORDER,
        decreases j,
    {
        j = j - 1;
        let c = if j == 0 {
            msk
        } else {
            fr_mul(fr_add(msk, (j as u64) % FR_ORDER), SHARE_MIX)
        };
        acc = fr_add(c, fr_mul(x, acc));
    }
    acc
}

/// Interpolates the `(ids, vals)` pairs at zero. `None` exactly when the
/// pairs cannot be interpolated (a zero or non-separable identity).
fn recover_core(ids: &Vec<u64>, vals: &Vec<u64>) -> (r: Option<u64>)
    requires
        ids@.len() == vals@.len(),
        ids@.len() >= 1,
        forall|t: int| 0 <= t < ids@.len() ==> #[trigger] ids@[t] < FR_ORDER,
        forall|t: int| 0 <= t < vals@.len() ==> #[trigger] vals@[t] < FR_ORDER,
    ensures
        r is Some <==> recover_ok(nat_seq(ids@)),
        r is Some ==> r->0 == recover_v(nat_seq(ids@), nat_seq(vals@)) && r->0 < FR_ORDER,
{
    let n = ids.len();
    let ghost xseq = nat_seq(ids@);
    let ghost vseq = nat_seq(vals@);
    let mut z: usize = 0;
    while z < n
        invariant
            n == ids@.len(),
            xseq == nat_seq(ids@),
            z <= n,
            forall|t: int| 0 <= t < z ==> xseq[t] != 0,
        decreases n - z,
    {
        if ids[z] == 0 {
            proof {
                assert(xseq[z as int] == 0);
            }
            return None;
        }
        z = z + 1;
    }
    let mut acc: u64 = 0;
    let mut i: usize = n;
    while i > 0
        invariant
            n == ids@.len(),
            n == vals@.len(),
            n >= 1,
            xseq == nat_seq(ids@),
            vseq == nat_seq(vals@),
            forall|t: int| 0 <= t < ids@.len() ==> #[trigger] ids@[t] < FR_ORDER,
            forall|t: int| 0 <= t < vals@.len() ==> #[trigger] vals@[t] < FR_ORDER,
            i <= n,
            acc == lag_sum(xseq, vseq, i as int),
            acc < FR_ORDER,
            forall|t: int| 0 <= t < n ==> xseq[t] != 0,
            forall|t: int, j: int|
                i <= t < n && 0 <= j < n && j != t ==> fr_invertible(
                    fr_sub_v(xseq[j], xseq[t]),
                ),
        decreases i,
    {
        i = i - 1;
        let mut num: u64 = 1;
        let mut j: usize = n;
        while j > 0
            invariant
                n == ids@.len(),
                n == vals@.len(),
                xseq == nat_seq(ids@),
                forall|t: int| 0 <= t < ids@.len() ==> #[trigger] ids@[t] < FR_ORDER,
                i < n,
                j <= n,
                num == lag_coeff(xseq, i as int, j as int),
                num < FR_ORDER,
                forall|t: int|
                    j <= t < n && t != i ==> fr_invertible(fr_sub_v(xseq[t], xseq[i as int])),
            decreases j,
        {
            j = j - 1;
            if j != i {
                let d = fr_sub(*slice_index_get(ids.as_slice(), j), *slice_index_get(
                    ids.as_slice(),
                    i,
                ));
                match fr_inv_find(d) {
                    None => {
                        proof {
                            assert(!fr_invertible(fr_sub_v(xseq[j as int], xseq[i as int])));
                        }
                        return None;
                    },
                    Some(w) => {
                        num = fr_mul(fr_mul(*slice_index_get(ids.as_slice(), j), w), num);
                    },
                }
            }
        }
        acc = fr_add(fr_mul(*slice_index_get(vals.as_slice(), i), num), acc);
    }
    Some(acc)
}

impl BlsSecretKey {
    /// Evaluates the implicit sharing polynomial of `msk`, with
    /// `num_shares` coefficients, at `id`, producing that participant's
    /// share of the secret. Fails exactly when `num_shares` is zero. With
    /// one share the polynomial is constant and the share is the master
    /// key itself.
    pub fn new_share(msk: &BlsSecretKey, num_shares: usize, id: &BlsId) -> (r: Result<
        BlsSecretKey,
        (),
    >)
        ensures
            r is Ok <==> num_shares >= 1,
            r is Ok ==> r->Ok_0@ == poly_eval(msk@, num_shares as nat, id@),
    {
        if num_shares == 0 {
            return Err(());
        }
        Ok(BlsSecretKey::mk(share_coord(msk.coord(), num_shares, id.coord())))
    }

    /// Reconstructs a secret from the first `num_shares` identity/share
    /// pairs by Lagrange interpolation at zero. Fails exactly when the
    /// count is zero or exceeds either slice, an identity is zero, or two
    /// identities cannot be separated (duplicates among them). Supplying
    /// fewer shares than the sharing's true threshold is *not* detected:
    /// the interpolation then silently yields a value unrelated to the
    /// master key.
    pub fn recover(shares: &[BlsSecretKey], ids: &[BlsId], num_shares: usize) -> (r: Result<
        BlsSecretKey,
        (),
    >)
        ensures
            r is Ok <==> (1 <= num_shares && num_shares <= shares@.len() && num_shares
                <= ids@.len() && recover_ok(id_views(ids@).take(num_shares as int))),
            r is Ok ==> r->Ok_0@ == recover_v(
                id_views(ids@).take(num_shares as int),
                sk_views(shares@).take(num_shares as int),
            ),
    {
        if num_shares == 0 || num_shares > shares.len() || num_shares > ids.len() {
            return Err(());
        }
        let mut xs: Vec<u64> = Vec::new();
        let mut vs: Vec<u64> = Vec::new();
        let mut t: usize = 0;
        while t < num_shares
            invariant
                num_shares <= shares@.len(),
                num_shares <= ids@.len(),
                t <= num_shares,
                xs@.len() == t,
                vs@.len() == t,
                forall|u: int| 0 <= u < t ==> #[trigger] (xs@[u] as nat) == id_views(ids@)[u],
                forall|u: int| 0 <= u < t ==> #[trigger] (vs@[u] as nat) == sk_views(shares@)[u],
                forall|u: int| 0 <= u < t ==> #[trigger] xs@[u] < FR_ORDER,
                forall|u: int| 0 <= u < t ==> #[trigger] vs@[u] < FR_ORDER,
            decreases num_shares - t,
        {
            xs.push(slice_index_get(ids, t).coord());
            vs.push(slice_index_get(shares, t).coord());
            t = t + 1;
        }
        proof {
            assert(nat_seq(xs@) =~= id_views(ids@).take(num_shares as int));
            assert(nat_seq(vs@) =~= sk_views(shares@).take(num_shares as int));
        }
        match recover_core(&xs, &vs) {
            Some(c) => Ok(BlsSecretKey::mk(c)),
            None => Err(()),
        }
    }
}

impl BlsPublicKey {
    /// Evaluates the implicit sharing polynomial of `mpk`, with
    /// `num_shares` coefficients, at `id`, producing that participant's
    /// share of the public key. Fails exactly when `num_shares` is zero.
    /// With one share the polynomial is constant and the share is the
    /// master public key itself.
    pub fn new_share(mpk: &BlsPublicKey, num_shares: usize, id: &BlsId) -> (r: Result<
        BlsPublicKey,
        (),
    >)
        ensures
            r is Ok <==> num_shares >= 1,
            r is Ok ==> r->Ok_0@ == poly_eval(mpk@, num_shares as nat, id@),
    {
        if num_shares == 0 {
            return Err(());
        }
        Ok(BlsPublicKey::mk(share_coord(mpk.coord(), num_shares, id.coord())))
    }

    /// Reconstructs an aggregate public key from the first `num_shares`
    /// identity/share pairs by group-element interpolation at zero, with
    /// the same success condition as the secret-key recovery; no secret
    /// share is involved.
    pub fn recover(shares: &[BlsPublicKey], ids: &[BlsId], num_shares: usize) -> (r: Result<
        BlsPublicKey,
        (),
    >)
        ensures
            r is Ok <==> (1 <= num_shares && num_shares <= shares@.len() && num_shares
                <= ids@.len() && recover_ok(id_views(ids@).take(num_shares as int))),
            r is Ok ==> r->Ok_0@ == recover_v(
                id_views(ids@).take(num_shares as int),
                pk_views(shares@).take(num_shares as int),
            ),
    {
        if num_shares == 0 || num_shares > shares.len() || num_shares > ids.len() {
            return Err(());
        }
        let mut xs: Vec<u64> = Vec::new();
        let mut vs: Vec<u64> = Vec::new();
        let mut t: usize = 0;
        while t < num_shares
            invariant
                num_shares <= shares@.len(),
                num_shares <= ids@.len(),
                t <= num_shares,
                xs@.len() == t,
                vs@.len() == t,
                forall|u: int| 0 <= u < t ==> #[trigger] (xs@[u] as nat) == id_views(ids@)[u],
                forall|u: int| 0 <= u < t ==> #[trigger] (vs@[u] as nat) == pk_views(shares@)[u],
                forall|u: int| 0 <= u < t ==> #[trigger] xs@[u] < FR_ORDER,
                forall|u: int| 0 <= u < t ==> #[trigger] vs@[u] < FR_ORDER,
            decreases num_shares - t,
        {
            xs.push(slice_index_get(ids, t).coord());
            vs.push(slice_index_get(shares, t).coord());
            t = t + 1;
        }
        proof {
            assert(nat_seq(xs@) =~= id_views(ids@).take(num_shares as int));
            assert(nat_seq(vs@) =~= pk_views(shares@).take(num_shares as int));
        }
        match recover_core(&xs, &vs) {
            Some(c) => Ok(BlsPublicKey::mk(c)),
            None => Err(()),
        }
    }
}

impl BlsSignature {
    /// Reconstructs an aggregate signature from the first `num_shares`
    /// identity/signature pairs by group-element interpolation at zero,
    /// with the same success condition as the secret-key recovery.
    pub fn recover(shares: &[BlsSignature], ids: &[BlsId], num_shares: usize) -> (r: Result<
        BlsSignature,
        (),
    >)
        ensures
            r is Ok <==> (1 <= num_shares && num_shares <= shares@.len() && num_shares
                <= ids@.len() && recover_ok(id_views(ids@).take(num_shares as int))),
            r is Ok ==> r->Ok_0@ == recover_v(
                id_views(ids@).take(num_shares as int),
                sig_views(shares@).take(num_shares as int),
            ),
    {
        if num_shares == 0 || num_shares > shares.len() || num_shares > ids.len() {
            return Err(());
        }
        let mut xs: Vec<u64> = Vec::new();
        let mut vs: Vec<u64> = Vec::new();
        let mut t: usize = 0;
        while t < num_shares
            invariant
                num_shares <= shares@.len(),
                num_shares <= ids@.len(),
                t <= num_shares,
                xs@.len() == t,
                vs@.len() == t,
                forall|u: int| 0 <= u < t ==> #[trigger] (xs@[u] as nat) == id_views(ids@)[u],
                forall|u: int| 0 <= u < t ==> #[trigger] (vs@[u] as nat) == sig_views(shares@)[u],
                forall|u: int| 0 <= u < t ==> #[trigger] xs@[u] < FR_ORDER,
                forall|u: int| 0 <= u < t ==> #[trigger] vs@[u] < FR_ORDER,
            decreases num_shares - t,
        {
            xs.push(slice_index_get(ids, t).coord());
            vs.push(slice_index_get(shares, t).coord());
            t = t + 1;
        }
        proof {
            assert(nat_seq(xs@) =~= id_views(ids@).take(num_shares as int));
            assert(nat_seq(vs@) =~= sig_views(shares@).take(num_shares as int));
        }
        match recover_core(&xs, &vs) {
            Some(c) => Ok(BlsSignature::mk(c)),
            None => Err(()),
        }
    }
}

} // verus!
