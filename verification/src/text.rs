//! Decimal and hexadecimal text encoding of field and group coordinates.
//!
//! Rendering produces the minimal digit string (lower case for
//! hexadecimal); parsing accepts exactly the non-empty all-digit strings
//! whose value is a canonical coordinate, and rejects anything else — in
//! particular an embedded NUL byte, which is not a digit. `dec_value`,
//! `dec_chars`, `hex_value` and `hex_chars` are the mathematical codecs the
//! executable routines are proved against.

use vstd::prelude::*;
use vstd::string::{StrSliceExecFns, StringExecFns};

use crate::params::{FR_ORDER, TEXT_BUF_BYTES};

verus! {

/// The character for digit `d` (`d < 16`), lower case.
pub open spec fn digit_char(d: nat) -> char {
    if d == 0 {
        '0'
    } else if d == 1 {
        '1'
    } else if d == 2 {
        '2'
    } else if d == 3 {
        '3'
    } else if d == 4 {
        '4'
    } else if d == 5 {
        '5'
    } else if d == 6 {
        '6'
    } else if d == 7 {
        '7'
    } else if d == 8 {
        '8'
    } else if d == 9 {
        '9'
    } else if d == 10 {
        'a'
    } else if d == 11 {
        'b'
    } else if d == 12 {
        'c'
    } else if d == 13 {
        'd'
    } else if d == 14 {
        'e'
    } else {
        'f'
    }
}

pub open spec fn is_dec_digit(c: char) -> bool {
    48 <= c as u32 <= 57
}

pub open spec fn dec_digit_val(c: char) -> nat {
    if is_dec_digit(c) {
        (c as u32 - 48) as nat
    } else {
        0
    }
}

pub open spec fn all_dec_digits(s: Seq<char>) -> bool {
    forall|i: int| 0 <= i < s.len() ==> is_dec_digit(#[trigger] s[i])
}

/// The value of a decimal digit string.
pub open spec fn dec_value(s: Seq<char>) -> nat
    decreases s.len(),
{
    if s.len() == 0 {
        0
    } else {
        dec_value(s.drop_last()) * 10 + dec_digit_val(s.last())
    }
}

/// The minimal decimal rendering of `v`.
pub open spec fn dec_chars(v: nat) -> Seq<char>
    decreases v,
{
    if v < 10 {
        seq![digit_char(v)]
    } else {
        dec_chars(v / 10).push(digit_char(v % 10))
    }
}

pub open spec fn is_hex_digit(c: char) -> bool {
    48 <= c as u32 <= 57 || 97 <= c as u32 <= 102 || 65 <= c as u32 <= 70
}

pub open spec fn hex_digit_val(c: char) -> nat {
    if 48 <= c as u32 <= 57 {
        (c as u32 - 48) as nat
    } else if 97 <= c as u32 <= 102 {
        (c as u32 - 87) as nat
    } else if 65 <= c as u32 <= 70 {
        (c as u32 - 55) as nat
    } else {
        0
    }
}

pub open spec fn all_hex_digits(s: Seq<char>) -> bool {
    forall|i: int| 0 <= i < s.len() ==> is_hex_digit(#[trigger] s[i])
}

/// The value of a hexadecimal digit string (either letter case).
pub open spec fn hex_value(s: Seq<char>) -> nat
    decreases s.len(),
{
    if s.len() == 0 {
        0
    } else {
        hex_value(s.drop_last()) * 16 + hex_digit_val(s.last())
    }
}

/// The minimal lower-case hexadecimal rendering of `v`.
pub open spec fn hex_chars(v: nat) -> Seq<char>
    decreases v,
{
    if v < 16 {
        seq![digit_char(v)]
    } else {
        hex_chars(v / 16).push(digit_char(v % 16))
    }
}

/// The digit characters decode to the digits they stand for.
pub proof fn lemma_digit_char_val(d: nat)
    requires
        d < 16,
    ensures
        is_hex_digit(digit_char(d)),
        hex_digit_val(digit_char(d)) == d,
        d < 10 ==> is_dec_digit(digit_char(d)) && dec_digit_val(digit_char(d)) == d,
{
}

/// Rendering then parsing a value in decimal gives the value back.
pub proof fn lemma_dec_roundtrip(v: nat)
    ensures
        dec_value(dec_chars(v)) == v,
        all_dec_digits(dec_chars(v)),
        dec_chars(v).len() >= 1,
    decreases v,
{
    if v < 10 {
        let s = dec_chars(v);
        assert(s.drop_last() =~= Seq::<char>::empty());
        assert(dec_value(Seq::<char>::empty()) == 0);
        assert(s.last() == digit_char(v));
        lemma_digit_char_val(v);
        assert(dec_value(s) == 0 * 10 + dec_digit_val(digit_char(v)));
    } else {
        lemma_dec_roundtrip(v / 10);
        lemma_digit_char_val(v % 10);
        let s = dec_chars(v);
        assert(s.drop_last() =~= dec_chars(v / 10));
        assert(s.last() == digit_char(v % 10));
        vstd::arithmetic::div_mod::lemma_fundamental_div_mod(v as int, 10);
        assert(forall|i: int| 0 <= i < s.len() - 1 ==> s[i] == dec_chars(v / 10)[i]);
    }
}

/// Rendering then parsing a value in hexadecimal gives the value back.
pub proof fn lemma_hex_roundtrip(v: nat)
    ensures
        hex_value(hex_chars(v)) == v,
        all_hex_digits(hex_chars(v)),
        hex_chars(v).len() >= 1,
    decreases v,
{
    if v < 16 {
        let s = hex_chars(v);
        assert(s.drop_last() =~= Seq::<char>::empty());
        assert(hex_value(Seq::<char>::empty()) == 0);
        assert(s.last() == digit_char(v));
        lemma_digit_char_val(v);
        assert(hex_value(s) == 0 * 16 + hex_digit_val(digit_char(v)));
    } else {
        lemma_hex_roundtrip(v / 16);
        lemma_digit_char_val(v % 16);
        let s = hex_chars(v);
        assert(s.drop_last() =~= hex_chars(v / 16));
        assert(s.last() == digit_char(v % 16));
        vstd::arithmetic::div_mod::lemma_fundamental_div_mod(v as int, 16);
        assert(forall|i: int| 0 <= i < s.len() - 1 ==> s[i] == hex_chars(v / 16)[i]);
    }
}

/// A longer decimal prefix never has a smaller value.
proof fn lemma_dec_prefix_monotone(s: Seq<char>, i: int)
    requires
        0 <= i <= s.len(),
    ensures
        dec_value(s.take(i)) <= dec_value(s),
    decreases s.len() - i,
{
    if i < s.len() {
        let t = s.take(i + 1);
        assert(t.drop_last() =~= s.take(i));
        assert(dec_value(s.take(i)) * 10 >= dec_value(s.take(i)));
        lemma_dec_prefix_monotone(s, i + 1);
    } else {
        assert(s.take(i) =~= s);
    }
}

proof fn lemma_hex_prefix_monotone(s: Seq<char>, i: int)
    requires
        0 <= i <= s.len(),
    ensures
        hex_value(s.take(i)) <= hex_value(s),
    decreases s.len() - i,
{
    if i < s.len() {
        let t = s.take(i + 1);
        assert(t.drop_last() =~= s.take(i));
        assert(hex_value(s.take(i)) * 16 >= hex_value(s.take(i)));
        lemma_hex_prefix_monotone(s, i + 1);
    } else {
        assert(s.take(i) =~= s);
    }
}

/// `10^k`.
pub open spec fn pow10(k: nat) -> nat
    decreases k,
{
    if k == 0 {
        1
    } else {
        10 * pow10((k - 1) as nat)
    }
}

/// `16^k`.
pub open spec fn pow16(k: nat) -> nat
    decreases k,
{
    if k == 0 {
        1
    } else {
        16 * pow16((k - 1) as nat)
    }
}

/// A value below `10^k` renders to at most `k` decimal digits.
pub proof fn lemma_dec_chars_len(v: nat, k: nat)
    requires
        v < pow10(k),
        k >= 1,
    ensures
        dec_chars(v).len() <= k,
    decreases k,
{
    if v >= 10 {
        assert(k >= 2) by {
            if k == 1 {
                reveal_with_fuel(pow10, 2);
                assert(pow10(1) == 10);
            }
        }
        let p = pow10((k - 1) as nat);
        assert(v / 10 < p) by {
            vstd::arithmetic::div_mod::lemma_multiply_divide_lt(v as int, 10, p as int);
        }
        lemma_dec_chars_len(v / 10, (k - 1) as nat);
    }
}

/// A value below `16^k` renders to at most `k` hexadecimal digits.
pub proof fn lemma_hex_chars_len(v: nat, k: nat)
    requires
        v < pow16(k),
        k >= 1,
    ensures
        hex_chars(v).len() <= k,
    decreases k,
{
    if v >= 16 {
        assert(k >= 2) by {
            if k == 1 {
                reveal_with_fuel(pow16, 2);
                assert(pow16(1) == 16);
            }
        }
        let p = pow16((k - 1) as nat);
        assert(v / 16 < p) by {
            vstd::arithmetic::div_mod::lemma_multiply_divide_lt(v as int, 16, p as int);
        }
        lemma_hex_chars_len(v / 16, (k - 1) as nat);
    }
}

/// The one-character string for a digit.
fn digit_str(d: u64) -> (r: &'static str)
    requires
        d < 16,
    ensures
        r@ =~= seq![digit_char(d as nat)],
{
    let r = if d == 0 {
        "0"
    } else if d == 1 {
        "1"
    } else if d == 2 {
        "2"
    } else if d == 3 {
        "3"
    } else if d == 4 {
        "4"
    } else if d == 5 {
        "5"
    } else if d == 6 {
        "6"
    } else if d == 7 {
        "7"
    } else if d == 8 {
        "8"
    } else if d == 9 {
        "9"
    } else if d == 10 {
        "a"
    } else if d == 11 {
        "b"
    } else if d == 12 {
        "c"
    } else if d == 13 {
        "d"
    } else if d == 14 {
        "e"
    } else {
        "f"
    };
    proof {
        reveal_strlit("0");
        reveal_strlit("1");
        reveal_strlit("2");
        reveal_strlit("3");
        reveal_strlit("4");
        reveal_strlit("5");
        reveal_strlit("6");
        reveal_strlit("7");
        reveal_strlit("8");
        reveal_strlit("9");
        reveal_strlit("a");
        reveal_strlit("b");
        reveal_strlit("c");
        reveal_strlit("d");
        reveal_strlit("e");
        reveal_strlit("f");
    }
    r
}

/// The digit characters of `ds`, read back to front.
pub open spec fn rev_digit_chars(ds: Seq<u64>) -> Seq<char> {
    Seq::new(ds.len(), |i: int| digit_char(ds[ds.len() - 1 - i] as nat))
}

/// Renders a canonical coordinate as its minimal decimal string.
pub fn dec_render(v: u64) -> (r: String)
    requires
        v < FR_ORDER,
    ensures
        r@ =~= dec_chars(v as nat),
        r@.len() <= TEXT_BUF_BYTES,
{
    proof {
        reveal_with_fuel(pow10, 8);
        lemma_dec_chars_len(v as nat, 7);
    }
    let mut digs: Vec<u64> = Vec::new();
    digs.push(v % 10);
    let mut cur: u64 = v / 10;
    proof {
        if v < 10 {
            vstd::arithmetic::div_mod::lemma_small_mod(v as nat, 10);
            assert(rev_digit_chars(digs@) =~= dec_chars(v as nat));
        } else {
            assert(rev_digit_chars(digs@) =~= seq![digit_char((v % 10) as nat)]);
            assert(dec_chars(v as nat) =~= dec_chars((v / 10) as nat) + rev_digit_chars(digs@));
        }
    }
    while cur > 0
        invariant
            cur > 0 ==> dec_chars(v as nat) =~= dec_chars(cur as nat) + rev_digit_chars(digs@),
            cur == 0 ==> dec_chars(v as nat) =~= rev_digit_chars(digs@),
            forall|i: int| 0 <= i < digs@.len() ==> #[trigger] digs@[i] < 16,
        decreases cur,
    {
        let d = cur % 10;
        let ghost olddigs = digs@;
        digs.push(d);
        proof {
            assert(rev_digit_chars(digs@) =~= seq![digit_char(d as nat)] + rev_digit_chars(
                olddigs,
            ));
        }
        let prev = cur;
        cur = cur / 10;
        proof {
            if prev < 10 {
                vstd::arithmetic::div_mod::lemma_small_mod(prev as nat, 10);
                assert(dec_chars(prev as nat) =~= seq![digit_char(d as nat)]);
                assert(dec_chars(v as nat) =~= rev_digit_chars(digs@));
            } else {
                assert(dec_chars(prev as nat) =~= dec_chars((prev / 10) as nat).push(
                    digit_char((prev % 10) as nat),
                ));
                assert(dec_chars(v as nat) =~= dec_chars(cur as nat) + rev_digit_chars(digs@));
            }
        }
    }
    digit_string(&digs)
}

/// Renders a canonical coordinate as its minimal lower-case hexadecimal
/// string.
pub fn hex_render(v: u64) -> (r: String)
    requires
        v < FR_ORDER,
    ensures
        r@ =~= hex_chars(v as nat),
        r@.len() <= TEXT_BUF_BYTES,
{
    proof {
        reveal_with_fuel(pow16, 7);
        lemma_hex_chars_len(v as nat, 6);
    }
    let mut digs: Vec<u64> = Vec::new();
    digs.push(v % 16);
    let mut cur: u64 = v / 16;
    proof {
        if v < 16 {
            vstd::arithmetic::div_mod::lemma_small_mod(v as nat, 16);
            assert(rev_digit_chars(digs@) =~= hex_chars(v as nat));
        } else {
            assert(rev_digit_chars(digs@) =~= seq![digit_char((v % 16) as nat)]);
            assert(hex_chars(v as nat) =~= hex_chars((v / 16) as nat) + rev_digit_chars(digs@));
        }
    }
    while cur > 0
        invariant
            cur > 0 ==> hex_chars(v as nat) =~= hex_chars(cur as nat) + rev_digit_chars(digs@),
            cur == 0 ==> hex_chars(v as nat) =~= rev_digit_chars(digs@),
            forall|i: int| 0 <= i < digs@.len() ==> #[trigger] digs@[i] < 16,
        decreases cur,
    {
        let d = cur % 16;
        let ghost olddigs = digs@;
        digs.push(d);
        proof {
            assert(rev_digit_chars(digs@) =~= seq![digit_char(d as nat)] + rev_digit_chars(
                olddigs,
            ));
        }
        let prev = cur;
        cur = cur / 16;
        proof {
            if prev < 16 {
                vstd::arithmetic::div_mod::lemma_small_mod(prev as nat, 16);
                assert(hex_chars(prev as nat) =~= seq![digit_char(d as nat)]);
                assert(hex_chars(v as nat) =~= rev_digit_chars(digs@));
            } else {
                assert(hex_chars(prev as nat) =~= hex_chars((prev / 16) as nat).push(
                    digit_char((prev % 16) as nat),
                ));
                assert(hex_chars(v as nat) =~= hex_chars(cur as nat) + rev_digit_chars(digs@));
            }
        }
    }
    digit_string(&digs)
}

/// Builds the string whose characters are the digits of `digs`, back to
/// front.
fn digit_string(digs: &Vec<u64>) -> (r: String)
    requires
        forall|i: int| 0 <= i < digs@.len() ==> #[trigger] digs@[i] < 16,
    ensures
        r@ =~= rev_digit_chars(digs@),
{
    let mut out = String::new();
    let n = digs.len();
    let mut i: usize = n;
    while i > 0
        invariant
            i <= n,
            n == digs@.len(),
            forall|j: int| 0 <= j < digs@.len() ==> #[trigger] digs@[j] < 16,
            out@ =~= rev_digit_chars(digs@).take(n - i),
        decreases i,
    {
        i = i - 1;
        let ghost oldout = out@;
        out.append(digit_str(digs[i]));
        proof {
            assert(out@ =~= rev_digit_chars(digs@).take(n - i));
        }
    }
    proof {
        assert(rev_digit_chars(digs@).take(n as int) =~= rev_digit_chars(digs@));
    }
    out
}

/// Parses a decimal string into a canonical coordinate. Returns `None`
/// exactly when the string is empty, holds a non-digit (an embedded NUL
/// byte among them), or carries a value at or above the field order.
pub fn dec_parse(s: &str) -> (r: Option<u64>)
    ensures
        r is Some <==> (s@.len() > 0 && all_dec_digits(s@) && dec_value(s@) < FR_ORDER),
        r is Some ==> r->0 == dec_value(s@) && r->0 < FR_ORDER,
{
    let n = s.unicode_len();
    if n == 0 {
        return None;
    }
    let mut acc: u64 = 0;
    let mut i: usize = 0;
    proof {
        assert(s@.take(0) =~= Seq::<char>::empty());
    }
    while i < n
        invariant
            i <= n,
            n == s@.len(),
            acc == dec_value(s@.take(i as int)),
            acc < FR_ORDER,
            forall|j: int| 0 <= j < i ==> is_dec_digit(#[trigger] s@[j]),
        decreases n - i,
    {
        let c = s.get_char(i);
        let u = c as u32;
        if u < 48 || u > 57 {
            return None;
        }
        let d = (u - 48) as u64;
        proof {
            assert(s@.take(i + 1).drop_last() =~= s@.take(i as int));
            assert(s@.take(i + 1).last() == s@[i as int]);
        }
        acc = acc * 10 + d;
        i = i + 1;
        if acc >= FR_ORDER {
            proof {
                lemma_dec_prefix_monotone(s@, i as int);
            }
            return None;
        }
    }
    proof {
        assert(s@.take(n as int) =~= s@);
    }
    Some(acc)
}

/// Parses a hexadecimal string (either letter case) into a canonical
/// coordinate. Returns `None` exactly when the string is empty, holds a
/// non-digit (an embedded NUL byte among them), or carries a value at or
/// above the field order.
pub fn hex_parse(s: &str) -> (r: Option<u64>)
    ensures
        r is Some <==> (s@.len() > 0 && all_hex_digits(s@) && hex_value(s@) < FR_ORDER),
        r is Some ==> r->0 == hex_value(s@) && r->0 < FR_ORDER,
{
    let n = s.unicode_len();
    if n == 0 {
        return None;
    }
    let mut acc: u64 = 0;
    let mut i: usize = 0;
    proof {
        assert(s@.take(0) =~= Seq::<char>::empty());
    }
    while i < n
        invariant
            i <= n,
            n == s@.len(),
            acc == hex_value(s@.take(i as int)),
            acc < FR_ORDER,
            forall|j: int| 0 <= j < i ==> is_hex_digit(#[trigger] s@[j]),
        decreases n - i,
    {
        let c = s.get_char(i);
        let u = c as u32;
        let d: u64 = if 48 <= u && u <= 57 {
            (u - 48) as u64
        } else if 97 <= u && u <= 102 {
            (u - 87) as u64
        } else if 65 <= u && u <= 70 {
            (u - 55) as u64
        } else {
            return None;
        };
        proof {
            assert(s@.take(i + 1).drop_last() =~= s@.take(i as int));
            assert(s@.take(i + 1).last() == s@[i as int]);
        }
        acc = acc * 16 + d;
        i = i + 1;
        if acc >= FR_ORDER {
            proof {
                lemma_hex_prefix_monotone(s@, i as int);
            }
            return None;
        }
    }
    proof {
        assert(s@.take(n as int) =~= s@);
    }
    Some(acc)
}

} // verus!
