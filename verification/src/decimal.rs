//! Decimal floating-point text (`1.72e12`, `-3.5`, `.5E+2`) read as an
//! integer: the number's value truncated toward zero and held within the
//! range of `i64`.

use vstd::prelude::*;
use crate::text::{is_digit, all_digits, digits_value, chars_of};

verus! {

/// Ten to the power `n`.
pub open spec fn pow10(n: nat) -> nat
    decreases n,
{
    if n == 0 {
        1
    } else {
        pow10((n - 1) as nat) * 10
    }
}

/// The position of the first `a` or `b` in `s`, or its length when there is
/// none.
pub open spec fn pos_of(s: Seq<char>, a: char, b: char) -> int
    decreases s.len(),
{
    if s.len() == 0 {
        0
    } else if s[0] == a || s[0] == b {
        0
    } else {
        1 + pos_of(s.drop_first(), a, b)
    }
}

/// `v`, or `cap` when `v` is larger.
pub open spec fn capped(v: int, cap: int) -> int {
    if v > cap {
        cap
    } else {
        v
    }
}

/// An optional sign followed by at least one digit: the signed value.
pub open spec fn signed_digits(t: Seq<char>) -> Option<int> {
    let neg = t.len() > 0 && t[0] == '-';
    let body = if t.len() > 0 && (t[0] == '+' || t[0] == '-') {
        t.drop_first()
    } else {
        t
    };
    if body.len() > 0 && all_digits(body) {
        Some(
            if neg {
                -(digits_value(body) as int)
            } else {
                digits_value(body) as int
            },
        )
    } else {
        None
    }
}

/// The integer part of the number whose decimal digits are `ds` scaled by
/// ten to the power `e`: the digits before the decimal point once the
/// point has moved `e` places.
pub open spec fn shifted_value(ds: Seq<char>, e: int) -> int {
    if e >= 0 {
        (digits_value(ds) * pow10(e as nat)) as int
    } else if ds.len() + e <= 0 {
        0
    } else {
        digits_value(ds.take(ds.len() + e)) as int
    }
}

/// The text of a decimal floating-point number, `[+-]digits[.digits][(e|E)[+-]digits]`
/// with at least one digit before the exponent, read as an integer: its value
/// truncated toward zero and held within `i64`. `None` for any other text.
pub open spec fn float_text_value(s: Seq<char>) -> Option<i64> {
    let neg = s.len() > 0 && s[0] == '-';
    let body = if s.len() > 0 && (s[0] == '+' || s[0] == '-') {
        s.drop_first()
    } else {
        s
    };
    let epos = pos_of(body, 'e', 'E');
    let mant = body.take(epos);
    let dpos = pos_of(mant, '.', '.');
    let ip = mant.take(dpos);
    let fp = if dpos < mant.len() {
        mant.skip(dpos + 1)
    } else {
        Seq::<char>::empty()
    };
    let x = if epos < body.len() {
        signed_digits(body.skip(epos + 1))
    } else {
        Some(0int)
    };
    if all_digits(ip) && all_digits(fp) && ip.len() + fp.len() > 0 && x is Some {
        let v = shifted_value(ip + fp, x->0 - fp.len());
        Some(
            if neg {
                (-capped(v, 0x8000_0000_0000_0000)) as i64
            } else {
                capped(v, 0x7fff_ffff_ffff_ffff) as i64
            },
        )
    } else {
        None
    }
}

proof fn lemma_pow10_pos(n: nat)
    ensures
        pow10(n) >= 1,
    decreases n,
{
    if n > 0 {
        lemma_pow10_pos((n - 1) as nat);
    }
}

proof fn lemma_pow10_mono(i: nat, j: nat)
    requires
        i <= j,
    ensures
        pow10(i) <= pow10(j),
    decreases j,
{
    if i < j {
        lemma_pow10_mono(i, (j - 1) as nat);
        lemma_pow10_pos((j - 1) as nat);
    }
}

/// Scaling a positive value by at least 19 places leaves `i64`'s range.
proof fn lemma_large_shift(d: nat, e: nat)
    requires
        d >= 1,
        e >= 19,
    ensures
        d * pow10(e) > 0x8000_0000_0000_0000,
{
    assert(pow10(19) == 10_000_000_000_000_000_000) by {
        reveal_with_fuel(pow10, 20);
    }
    lemma_pow10_mono(19, e);
    assert(d * pow10(e) >= pow10(e)) by (nonlinear_arith)
        requires
            d >= 1,
            pow10(e) >= 1,
    ;
}

proof fn lemma_capped_step(x: int, d: int, cap: int)
    requires
        x >= 0,
        0 <= d <= 9,
        cap >= 0,
    ensures
        capped(capped(x, cap) * 10 + d, cap) == capped(x * 10 + d, cap),
{
}

proof fn lemma_pos_of(s: Seq<char>, a: char, b: char, i: int)
    requires
        0 <= i <= s.len(),
        forall|j: int| 0 <= j < i ==> s[j] != a && s[j] != b,
        i == s.len() || s[i] == a || s[i] == b,
    ensures
        pos_of(s, a, b) == i,
    decreases i,
{
    if i > 0 {
        lemma_pos_of(s.drop_first(), a, b, i - 1);
    }
}

/// The first position in `cs[lo..hi]` that holds `a` or `b`, or `hi`.
fn find_in(cs: &Vec<char>, lo: usize, hi: usize, a: char, b: char) -> (r: usize)
    requires
        lo <= hi <= cs@.len(),
    ensures
        lo <= r <= hi,
        r - lo == pos_of(cs@.subrange(lo as int, hi as int), a, b),
{
    let ghost s = cs@.subrange(lo as int, hi as int);
    let mut i = lo;
    while i < hi
        invariant
            lo <= i <= hi <= cs@.len(),
            s == cs@.subrange(lo as int, hi as int),
            forall|j: int| 0 <= j < i - lo ==> s[j] != a && s[j] != b,
        decreases hi - i,
    {
        if cs[i] == a || cs[i] == b {
            proof {
                lemma_pos_of(s, a, b, i - lo);
            }
            return i;
        }
        i = i + 1;
    }
    proof {
        lemma_pos_of(s, a, b, i - lo);
    }
    i
}

/// Append the characters `cs[lo..hi]` to `ds`, when they are all digits.
fn push_digits(cs: &Vec<char>, lo: usize, hi: usize, ds: &mut Vec<char>) -> (ok: bool)
    requires
        lo <= hi <= cs@.len(),
    ensures
        ok == all_digits(cs@.subrange(lo as int, hi as int)),
        ok ==> final(ds)@ == old(ds)@ + cs@.subrange(lo as int, hi as int),
{
    let ghost s = cs@.subrange(lo as int, hi as int);
    let ghost start = ds@;
    let mut i = lo;
    while i < hi
        invariant
            lo <= i <= hi <= cs@.len(),
            s == cs@.subrange(lo as int, hi as int),
            all_digits(s.take(i - lo)),
            ds@ == start + s.take(i - lo),
        decreases hi - i,
    {
        let c = cs[i];
        if !('0' <= c && c <= '9') {
            assert(s[i - lo] == c);
            return false;
        }
        ds.push(c);
        assert(s.take(i - lo + 1) =~= s.take(i - lo).push(c));
        i = i + 1;
    }
    assert(s.take(i - lo) =~= s);
    true
}

/// The digits `ds[..k]` as a number, or `cap` when it is larger.
fn capped_digits(ds: &Vec<char>, k: usize, cap: u64) -> (r: u64)
    requires
        k <= ds@.len(),
        all_digits(ds@),
    ensures
        r == capped(digits_value(ds@.take(k as int)) as int, cap as int),
{
    let mut acc: u64 = 0;
    let mut i: usize = 0;
    while i < k
        invariant
            i <= k <= ds@.len(),
            all_digits(ds@),
            acc == capped(digits_value(ds@.take(i as int)) as int, cap as int),
        decreases k - i,
    {
        let c = ds[i];
        assert(is_digit(ds@[i as int]));
        let d = (c as u64) - 48;
        let ghost prev = digits_value(ds@.take(i as int)) as int;
        assert(ds@.take(i + 1).drop_last() =~= ds@.take(i as int));
        proof {
            lemma_capped_step(prev, d as int, cap as int);
        }
        acc = if d > cap || acc > (cap - d) / 10 {
            assert(acc * 10 + d > cap) by (nonlinear_arith)
                requires
                    d > cap || acc > (cap - d) / 10,
                    d <= 9,
            ;
            cap
        } else {
            assert(acc * 10 + d <= cap) by (nonlinear_arith)
                requires
                    acc <= (cap - d) / 10,
                    d <= cap,
            ;
            acc * 10 + d
        };
        i = i + 1;
    }
    acc
}

/// The signed digits of `cs[lo..]`, with the magnitude held at `cap` when
/// it is larger.
fn capped_exponent(cs: &Vec<char>, lo: usize) -> (r: Option<(bool, u128)>)
    requires
        lo <= cs@.len(),
    ensures
        ({
            let t = cs@.skip(lo as int);
            match r {
                Some((neg, m)) => signed_digits(t) is Some && neg == (signed_digits(t)->0 < 0)
                    && m == capped(
                    if neg {
                        -signed_digits(t)->0
                    } else {
                        signed_digits(t)->0
                    },
                    EXP_CAP as int,
                ),
                None => signed_digits(t) is None,
            }
        }),
{
    let ghost t = cs@.skip(lo as int);
    let n = cs.len();
    let neg = lo < n && cs[lo] == '-';
    let start = if lo < n && (cs[lo] == '+' || cs[lo] == '-') {
        lo + 1
    } else {
        lo
    };
    let ghost body = cs@.subrange(start as int, n as int);
    assert(body =~= (if t.len() > 0 && (t[0] == '+' || t[0] == '-') {
        t.drop_first()
    } else {
        t
    }));
    if start >= n {
        return None;
    }
    let mut acc: u128 = 0;
    let mut i = start;
    while i < n
        invariant
            start <= i <= n == cs@.len(),
            start < n,
            t == cs@.skip(lo as int),
            neg == (t.len() > 0 && t[0] == '-'),
            body == (if t.len() > 0 && (t[0] == '+' || t[0] == '-') {
                t.drop_first()
            } else {
                t
            }),
            body == cs@.subrange(start as int, n as int),
            all_digits(body.take(i - start)),
            acc == capped(digits_value(body.take(i - start)) as int, EXP_CAP as int),
        decreases n - i,
    {
        let c = cs[i];
        if !('0' <= c && c <= '9') {
            assert(body[i - start] == c);
            return None;
        }
        let d = (c as u128) - 48;
        let ghost prev = digits_value(body.take(i - start)) as int;
        assert(body.take(i - start + 1).drop_last() =~= body.take(i - start));
        assert(all_digits(body.take(i - start + 1)));
        proof {
            lemma_capped_step(prev, d as int, EXP_CAP as int);
        }
        acc = if acc > (EXP_CAP - d) / 10 {
            EXP_CAP
        } else {
            acc * 10 + d
        };
        i = i + 1;
    }
    assert(body.take(n - start) =~= body);
    Some((neg && acc != 0, acc))
}

/// `acc`, the value `dv` held at `cap`, scaled by ten to the power `e` and
/// held at `cap` again.
fn capped_scaled(acc0: u64, Ghost(dv): Ghost<int>, e: i128, cap: u64) -> (r: u64)
    requires
        dv >= 0,
        e >= 0,
        cap > 0,
        acc0 == capped(dv, cap as int),
    ensures
        r == capped(dv * pow10(e as nat), cap as int),
{
    let mut acc = acc0;
    let mut i: i128 = 0;
    assert(pow10(0) == 1);
    assert(dv * pow10(0) == dv);
    while i < e && acc != 0 && acc < cap
        invariant
            0 <= i <= e,
            dv >= 0,
            acc == capped(dv * pow10(i as nat), cap as int),
        decreases e - i,
    {
        proof {
            assert(pow10((i + 1) as nat) == pow10(i as nat) * 10);
            assert(dv * pow10((i + 1) as nat) == (dv * pow10(i as nat)) * 10) by (nonlinear_arith)
                requires
                    pow10((i + 1) as nat) == pow10(i as nat) * 10,
            ;
            lemma_pow10_pos(i as nat);
            assert(dv * pow10(i as nat) >= 0) by (nonlinear_arith)
                requires
                    dv >= 0,
                    pow10(i as nat) >= 1,
            ;
            lemma_capped_step(dv * pow10(i as nat), 0, cap as int);
        }
        acc = if acc > cap / 10 {
            cap
        } else {
            acc * 10
        };
        i = i + 1;
    }
    proof {
        lemma_pow10_pos(i as nat);
        lemma_pow10_pos(e as nat);
        lemma_pow10_mono(i as nat, e as nat);
        if acc == 0 {
            assert(dv == 0) by (nonlinear_arith)
                requires
                    dv * pow10(i as nat) <= 0,
                    dv >= 0,
                    pow10(i as nat) >= 1,
            ;
        } else if acc >= cap {
            assert(dv * pow10(e as nat) >= dv * pow10(i as nat)) by (nonlinear_arith)
                requires
                    dv >= 0,
                    pow10(e as nat) >= pow10(i as nat),
            ;
        }
    }
    acc
}

/// Reading the exponent only up to `EXP_CAP` changes no result.
proof fn lemma_exponent_cap(ds: Seq<char>, x: int, f: int, m: int, eneg: bool, cap: int)
    requires
        0 <= f <= ds.len() <= usize::MAX,
        m == capped(if x < 0 { -x } else { x }, EXP_CAP as int),
        eneg == (x < 0),
        0 < cap <= 0x8000_0000_0000_0000,
    ensures
        capped(shifted_value(ds, x - f), cap) == capped(shifted_value(ds, (if eneg { -m } else { m }) - f), cap),
{
    let e = (if eneg { -m } else { m }) - f;
    let dv = digits_value(ds);
    if x - f != e {
        if x > 0 {
            if dv == 0 {
                assert(dv * pow10((x - f) as nat) == 0);
                assert(dv * pow10(e as nat) == 0);
            } else {
                lemma_large_shift(dv, (x - f) as nat);
                lemma_large_shift(dv, e as nat);
            }
        }
    }
}

/// The digits `ds` with the decimal point moved `e` places, truncated and
/// held at `cap`.
fn shifted_capped(ds: &Vec<char>, e: i128, cap: u64) -> (v: u64)
    requires
        all_digits(ds@),
        cap > 0,
    ensures
        v == capped(shifted_value(ds@, e as int), cap as int),
{
    let len = ds.len();
    let ghost dv = digits_value(ds@) as int;
    if e < 0 {
        let k: i128 = (len as i128) + e;
        if k <= 0 {
            0
        } else {
            assert(k as usize as int == len + e);
            capped_digits(ds, k as usize, cap)
        }
    } else {
        assert(ds@.take(len as int) =~= ds@);
        capped_scaled(capped_digits(ds, len, cap), Ghost(dv), e, cap)
    }
}

/// Exponents are read up to this magnitude; past it every result is
/// already fixed (0, or the end of `i64`'s range).
pub const EXP_CAP: u128 = 0x10_0000_0000_0000_0000_0000_0000;

/// Read a decimal floating-point text as an integer, truncated toward zero
/// and held within `i64`.
#[verifier::rlimit(40)]
pub fn float_text_to_i64(s: &str) -> (r: Option<i64>)
    ensures
        r == float_text_value(s@),
{
    let cs = chars_of(s);
    let n = cs.len();
    let neg = n > 0 && cs[0] == '-';
    let start: usize = if n > 0 && (cs[0] == '+' || cs[0] == '-') {
        1
    } else {
        0
    };
    let ghost body = cs@.subrange(start as int, n as int);
    assert(body =~= (if s@.len() > 0 && (s@[0] == '+' || s@[0] == '-') {
        s@.drop_first()
    } else {
        s@
    }));
    let epos = find_in(&cs, start, n, 'e', 'E');
    let ghost mant = body.take(epos - start);
    assert(mant =~= cs@.subrange(start as int, epos as int));
    let dpos = find_in(&cs, start, epos, '.', '.');
    let ghost ip = mant.take(dpos - start);
    assert(ip =~= cs@.subrange(start as int, dpos as int));
    let mut ds: Vec<char> = Vec::new();
    if !push_digits(&cs, start, dpos, &mut ds) {
        return None;
    }
    let frac_lo = if dpos < epos {
        dpos + 1
    } else {
        epos
    };
    let ghost fp = if dpos < epos {
        mant.skip(dpos - start + 1)
    } else {
        Seq::<char>::empty()
    };
    assert(fp =~= cs@.subrange(frac_lo as int, epos as int));
    if !push_digits(&cs, frac_lo, epos, &mut ds) {
        return None;
    }
    assert(ds@ =~= ip + fp);
    let frac_len = epos - frac_lo;
    if ds.len() == 0 {
        return None;
    }
    let ex: Option<(bool, u128)> = if epos < n {
        assert(body.skip(epos - start + 1) =~= cs@.skip(epos + 1));
        capped_exponent(&cs, epos + 1)
    } else {
        Some((false, 0))
    };
    let (eneg, emag) = match ex {
        Some(p) => p,
        None => {
            return None;
        },
    };
    let ghost x: int = if epos < n {
        signed_digits(body.skip(epos - start + 1))->0
    } else {
        0
    };
    let ghost e_true: int = x - frac_len;
    let e: i128 = if eneg {
        -(emag as i128) - (frac_len as i128)
    } else {
        (emag as i128) - (frac_len as i128)
    };
    let cap: u64 = if neg {
        0x8000_0000_0000_0000
    } else {
        0x7fff_ffff_ffff_ffff
    };
    let v = shifted_capped(&ds, e, cap);
    proof {
        lemma_exponent_cap(ds@, x, frac_len as int, emag as int, eneg, cap as int);
    }
    if neg {
        if v == 0x8000_0000_0000_0000 {
            Some(i64::MIN)
        } else {
            Some(-(v as i64))
        }
    } else {
        Some(v as i64)
    }
}

} // verus!
