//! Canonical fixed-width little-endian encoding of field and group
//! coordinates.
//!
//! A coordinate is written as `w` little-endian bytes; since every canonical
//! coordinate is below `FR_ORDER`, all bytes from the third onward are zero.
//! `le_val` and `le_bytes` are the mathematical decoding and encoding, and
//! the executable routines are proved against them exactly, including the
//! precise condition under which decoding succeeds.

use vstd::arithmetic::div_mod::{
    lemma_add_mod_noop_right, lemma_breakdown, lemma_div_denominator, lemma_mul_mod_noop_right,
};
use vstd::arithmetic::mul::{lemma_mul_is_associative, lemma_mul_upper_bound};
use vstd::prelude::*;

use crate::params::FR_ORDER;

verus! {

/// `256^k`.
pub open spec fn pow256(k: nat) -> nat
    decreases k,
{
    if k == 0 {
        1
    } else {
        256 * pow256((k - 1) as nat)
    }
}

/// The value of a little-endian byte string.
pub open spec fn le_val(s: Seq<u8>) -> nat
    decreases s.len(),
{
    if s.len() == 0 {
        0
    } else {
        (s[0] + 256 * le_val(s.skip(1))) as nat
    }
}

/// The `w`-byte little-endian encoding of `v` (truncated to `w` bytes).
pub open spec fn le_bytes(v: nat, w: nat) -> Seq<u8>
    decreases w,
{
    if w == 0 {
        Seq::empty()
    } else {
        seq![(v % 256) as u8] + le_bytes(v / 256, (w - 1) as nat)
    }
}

pub proof fn lemma_pow256_pos(k: nat)
    ensures
        pow256(k) >= 1,
    decreases k,
{
    if k > 0 {
        lemma_pow256_pos((k - 1) as nat);
    }
}

pub proof fn lemma_pow256_monotone(i: nat, j: nat)
    requires
        i <= j,
    ensures
        pow256(i) <= pow256(j),
    decreases j,
{
    if i < j {
        lemma_pow256_monotone(i, (j - 1) as nat);
        lemma_pow256_pos((j - 1) as nat);
    }
}

/// The first few powers of 256, unfolded.
pub proof fn lemma_pow256_vals()
    ensures
        pow256(0) == 1,
        pow256(1) == 256,
        pow256(2) == 0x10000,
        pow256(3) == 0x1000000,
{
    reveal_with_fuel(pow256, 4);
}

pub proof fn lemma_le_bytes_len(v: nat, w: nat)
    ensures
        le_bytes(v, w).len() == w,
    decreases w,
{
    if w > 0 {
        lemma_le_bytes_len(v / 256, (w - 1) as nat);
    }
}

/// Decoding an encoding recovers the value modulo `256^w`.
pub proof fn lemma_le_val_le_bytes(v: nat, w: nat)
    ensures
        le_val(le_bytes(v, w)) == v % pow256(w),
    decreases w,
{
    if w == 0 {
        assert(pow256(0) == 1);
        assert(v % 1 == 0) by {
            vstd::arithmetic::div_mod::lemma_mod_multiples_basic(v as int, 1);
        }
    } else {
        let s = le_bytes(v, w);
        let tail = le_bytes(v / 256, (w - 1) as nat);
        assert(s.skip(1) =~= tail);
        lemma_le_val_le_bytes(v / 256, (w - 1) as nat);
        let p = pow256((w - 1) as nat);
        lemma_pow256_pos((w - 1) as nat);
        // v % (256 * p) == 256 * ((v / 256) % p) + v % 256
        lemma_breakdown(v as int, 256, p as int);
        assert(le_val(s) == v % 256 + 256 * ((v / 256) % p));
    }
}

/// Byte `i` of an encoding is digit `i` of the value in base 256.
pub proof fn lemma_le_bytes_index(v: nat, w: nat, i: int)
    requires
        0 <= i < w,
    ensures
        le_bytes(v, w)[i] == ((v / pow256(i as nat)) % 256) as u8,
    decreases i,
{
    lemma_le_bytes_len(v, w);
    lemma_le_bytes_len(v / 256, (w - 1) as nat);
    if i == 0 {
        assert(le_bytes(v, w)[0] == (v % 256) as u8);
        assert(v / pow256(0) == v) by {
            assert(pow256(0) == 1);
        }
    } else {
        lemma_le_bytes_index(v / 256, (w - 1) as nat, i - 1);
        assert(le_bytes(v, w)[i] == le_bytes(v / 256, (w - 1) as nat)[i - 1]);
        let p = pow256((i - 1) as nat);
        lemma_pow256_pos((i - 1) as nat);
        // (v / 256) / 256^(i-1) == v / 256^i
        lemma_div_denominator(v as int, 256, p as int);
        assert(256 * p == pow256(i as nat));
    }
}

/// A little-endian string splits at any position `k`.
pub proof fn lemma_le_val_split(s: Seq<u8>, k: int)
    requires
        0 <= k <= s.len(),
    ensures
        le_val(s) == le_val(s.take(k)) + pow256(k as nat) * le_val(s.skip(k)),
    decreases k,
{
    if k == 0 {
        assert(s.take(0) =~= Seq::<u8>::empty());
        assert(s.skip(0) =~= s);
        assert(le_val(Seq::<u8>::empty()) == 0);
        assert(pow256(0) == 1);
        assert(le_val(s) == le_val(s.take(0)) + 1 * le_val(s.skip(0)));
    } else {
        let t = s.skip(1);
        lemma_le_val_split(t, k - 1);
        assert(t.take(k - 1) =~= s.take(k).skip(1));
        assert(t.skip(k - 1) =~= s.skip(k));
        let p = pow256((k - 1) as nat);
        let b = le_val(s.skip(k));
        let a = le_val(t.take(k - 1));
        assert(le_val(t) == a + p * b);
        assert(le_val(s) == s[0] + 256 * le_val(t));
        assert(s.take(k).len() == k && s.take(k)[0] == s[0]);
        assert(le_val(s.take(k)) == s[0] + 256 * le_val(s.take(k).skip(1)));
        assert(le_val(s.take(k)) == s[0] + 256 * a);
        // s[0] + 256 * (a + p * b) == (s[0] + 256 * a) + (256 * p) * b
        assert(256 * (a + p * b) == 256 * a + 256 * (p * b)) by (nonlinear_arith);
        lemma_mul_is_associative(256, p as int, b as int);
        assert(pow256(k as nat) == 256 * pow256((k - 1) as nat));
        assert(le_val(s) == le_val(s.take(k)) + (256 * p) * b);
    }
}

/// A little-endian string has value zero exactly when every byte is zero.
pub proof fn lemma_le_val_zero(s: Seq<u8>)
    ensures
        le_val(s) == 0 <==> (forall|j: int| 0 <= j < s.len() ==> s[j] == 0),
    decreases s.len(),
{
    if s.len() > 0 {
        lemma_le_val_zero(s.skip(1));
        if le_val(s) == 0 {
            assert(forall|j: int| 1 <= j < s.len() ==> s[j] == s.skip(1)[j - 1]);
        } else {
            if forall|j: int| 0 <= j < s.len() ==> s[j] == 0 {
                assert(forall|j: int| 0 <= j < s.skip(1).len() ==> s.skip(1)[j] == s[j + 1]);
                assert(le_val(s.skip(1)) == 0);
            }
        }
    }
}

/// The value of a byte string is below `256^len`.
pub proof fn lemma_le_val_bound(s: Seq<u8>)
    ensures
        le_val(s) < pow256(s.len()),
    decreases s.len(),
{
    if s.len() == 0 {
    } else {
        lemma_le_val_bound(s.skip(1));
        let p = pow256((s.len() - 1) as nat);
        assert(le_val(s.skip(1)) + 1 <= p);
        assert(256 * le_val(s.skip(1)) <= 256 * (p - 1)) by (nonlinear_arith)
            requires
                le_val(s.skip(1)) <= p - 1,
        ;
        assert(pow256(s.len()) == 256 * p);
    }
}

/// How many low bytes can carry a canonical coordinate: all of them when the
/// string is shorter than three bytes, three otherwise.
pub open spec fn low_w(s: Seq<u8>) -> int {
    if s.len() < 3 {
        s.len() as int
    } else {
        3
    }
}

/// Reads the value of the low bytes of `buf` (up to three, which suffices
/// for any canonical coordinate).
fn le_load_low(buf: &[u8]) -> (r: u64)
    ensures
        r == le_val(buf@.take(low_w(buf@))),
        r < pow256(3),
{
    let n = buf.len();
    let k = if n < 3 {
        n
    } else {
        3
    };
    let mut i: usize = 0;
    let mut mult: u64 = 1;
    let mut acc: u64 = 0;
    proof {
        assert(buf@.take(0) =~= Seq::<u8>::empty());
    }
    while i < k
        invariant
            k <= 3,
            k <= buf@.len(),
            i <= k,
            i < 3 ==> mult == pow256(i as nat),
            acc == le_val(buf@.take(i as int)),
            acc < pow256(i as nat),
        decreases k - i,
    {
        proof {
            lemma_pow256_vals();
            lemma_pow256_monotone(i as nat, 2);
            lemma_le_val_split(buf@.take(i + 1), i as int);
            assert(buf@.take(i + 1).take(i as int) =~= buf@.take(i as int));
            assert(buf@.take(i + 1).skip(i as int) =~= seq![buf@[i as int]]);
            assert(le_val(seq![buf@[i as int]]) == buf@[i as int] + 256 * le_val(
                seq![buf@[i as int]].skip(1)));
            assert(seq![buf@[i as int]].skip(1) =~= Seq::<u8>::empty());
            lemma_mul_upper_bound(mult as int, 0x10000, buf@[i as int] as int, 255);
            assert(pow256(i as nat) * (buf@[i as int] as int) + pow256(i as nat) <= pow256(
                i as nat) * 256) by (nonlinear_arith)
                requires
                    buf@[i as int] < 256,
                    pow256(i as nat) >= 1,
            ;
            assert(pow256((i + 1) as nat) == 256 * pow256(i as nat));
        }
        acc = acc + mult * (buf[i] as u64);
        if i < 2 {
            mult = mult * 256;
        }
        i = i + 1;
    }
    proof {
        lemma_pow256_monotone(k as nat, 3);
    }
    acc
}

/// Whether every byte of `buf` from position `k` on is zero.
fn tail_is_zero(buf: &[u8], k: usize) -> (r: bool)
    requires
        k <= buf@.len(),
    ensures
        r <==> (forall|j: int| k <= j < buf@.len() ==> buf@[j] == 0),
{
    let n = buf.len();
    let mut i: usize = k;
    while i < n
        invariant
            k <= i <= n,
            n == buf@.len(),
            forall|j: int| k <= j < i ==> buf@[j] == 0,
        decreases n - i,
    {
        if buf[i] != 0 {
            return false;
        }
        i = i + 1;
    }
    true
}

/// Decodes a little-endian byte string of any length as a canonical
/// coordinate. Returns `None` exactly when the value it carries is not
/// below the field order.
pub fn le_decode_checked(buf: &[u8]) -> (r: Option<u64>)
    ensures
        r is Some <==> le_val(buf@) < FR_ORDER,
        r is Some ==> r->0 == le_val(buf@) && r->0 < FR_ORDER,
{
    let n = buf.len();
    let k = if n < 3 {
        n
    } else {
        3
    };
    let low = le_load_low(buf);
    let zt = tail_is_zero(buf, k);
    proof {
        lemma_pow256_vals();
        lemma_le_val_split(buf@, k as int);
        lemma_le_val_zero(buf@.skip(k as int));
        let lo = le_val(buf@.take(k as int));
        let hi = le_val(buf@.skip(k as int));
        assert(low == lo);
        if zt {
            assert forall|j: int| 0 <= j < buf@.skip(k as int).len() implies buf@.skip(
                k as int,
            )[j] == 0 by {
                assert(buf@.skip(k as int)[j] == buf@[j + k]);
            }
            assert(hi == 0);
            assert(le_val(buf@) == lo + pow256(k as nat) * 0);
            assert(le_val(buf@) == lo);
        } else {
            // some tail byte is set, so the value overflows the low part
            assert(hi != 0) by {
                if hi == 0 {
                    assert forall|j: int| k <= j < buf@.len() implies buf@[j] == 0 by {
                        assert(buf@.skip(k as int)[j - k] == buf@[j]);
                    }
                }
            }
            assert(k == 3) by {
                if k < 3 {
                    assert(k == buf@.len());
                    assert(buf@.skip(k as int).len() == 0);
                }
            }
            assert(pow256(3) * hi >= pow256(3)) by (nonlinear_arith)
                requires
                    hi >= 1,
            ;
            assert(le_val(buf@) >= 0x1000000);
        }
    }
    if zt && low < FR_ORDER {
        Some(low)
    } else {
        None
    }
}

/// Decodes a little-endian byte string of any length, reducing the value
/// modulo the field order.
pub fn le_decode_mod(buf: &[u8]) -> (r: u64)
    ensures
        r == le_val(buf@) % (FR_ORDER as nat),
        r < FR_ORDER,
{
    let n = buf.len();
    let mut i: usize = n;
    let mut acc: u64 = 0;
    proof {
        assert(buf@.skip(n as int) =~= Seq::<u8>::empty());
    }
    while i > 0
        invariant
            i <= n,
            n == buf@.len(),
            acc == le_val(buf@.skip(i as int)) % (FR_ORDER as nat),
            acc < FR_ORDER,
        decreases i,
    {
        i = i - 1;
        let b = buf[i];
        proof {
            let t = buf@.skip(i as int);
            assert(t[0] == buf@[i as int]);
            assert(t.skip(1) =~= buf@.skip(i + 1));
            assert(le_val(t) == buf@[i as int] + 256 * le_val(buf@.skip(i + 1)));
            let q = FR_ORDER as int;
            let v1 = le_val(buf@.skip(i + 1)) as int;
            lemma_mul_mod_noop_right(256, v1, q);
            lemma_add_mod_noop_right(buf@[i as int] as int, 256 * v1, q);
            assert((buf@[i as int] + 256 * v1) % q == (buf@[i as int] + (256 * (v1 % q)) % q) % q);
            lemma_add_mod_noop_right(buf@[i as int] as int, 256 * (v1 % q), q);
        }
        acc = (b as u64 + 256 * acc) % FR_ORDER;
    }
    proof {
        assert(buf@.skip(0) =~= buf@);
    }
    acc
}

/// Writes the `w`-byte little-endian encoding of `v` into the start of
/// `buf`, leaving the rest of the buffer untouched.
pub fn le_store(buf: &mut [u8], w: usize, v: u64) -> (r: usize)
    requires
        w <= old(buf)@.len(),
    ensures
        r == w,
        final(buf)@.len() == old(buf)@.len(),
        final(buf)@.take(w as int) =~= le_bytes(v as nat, w as nat),
        final(buf)@.skip(w as int) =~= old(buf)@.skip(w as int),
{
    let mut i: usize = 0;
    let mut tmp: u64 = v;
    proof {
        lemma_pow256_vals();
    }
    while i < w
        invariant
            i <= w,
            w <= buf@.len(),
            buf@.len() == old(buf)@.len(),
            tmp == (v as nat) / pow256(i as nat),
            forall|j: int| 0 <= j < i ==> buf@[j] == ((((v as nat) / pow256(j as nat)) % 256) as u8),
            forall|j: int| w <= j < buf@.len() ==> buf@[j] == old(buf)@[j],
        decreases w - i,
    {
        buf[i] = (tmp % 256) as u8;
        proof {
            let p = pow256(i as nat);
            lemma_pow256_pos(i as nat);
            lemma_div_denominator(v as int, p as int, 256);
            assert(p * 256 == 256 * p);
            assert(pow256((i + 1) as nat) == 256 * pow256(i as nat));
        }
        tmp = tmp / 256;
        i = i + 1;
    }
    proof {
        lemma_le_bytes_len(v as nat, w as nat);
        assert forall|j: int| 0 <= j < w implies buf@.take(w as int)[j] == le_bytes(
            v as nat,
            w as nat,
        )[j] by {
            lemma_le_bytes_index(v as nat, w as nat, j);
        }
    }
    w
}

} // verus!
