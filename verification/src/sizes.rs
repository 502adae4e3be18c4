//! Sizes in kilobytes, written for people.
use vstd::prelude::*;
use crate::num::{dec, push_dec, digits_ok, digits_value, digit_val, lemma_dec_digits};
use crate::text::ends_with;

verus! {

pub open spec fn two53() -> nat {
    0x20000000000000
}

/// The least power of two `p`, from the given one up, such that `n / p` is below 2^53.
pub open spec fn f64_scale_from(n: nat, p: nat) -> nat
    decreases n / p,
{
    if p == 0 {
        1
    } else if n / p < two53() {
        p
    } else {
        proof {
            vstd::arithmetic::div_mod::lemma_div_denominator(n as int, p as int, 2);
        }
        f64_scale_from(n, 2 * p)
    }
}

/// The `f64` nearest to `n`, ties to even: what `n as f64` holds, for `n` below 2^64.
pub open spec fn f64_value(n: nat) -> nat {
    let p = f64_scale_from(n, 1);
    let q = n / p;
    let r = n % p;
    if 2 * r > p || (2 * r == p && q % 2 == 1) {
        (q + 1) * p
    } else {
        q * p
    }
}

/// `num / den` in tenths, rounded to the nearest tenth, ties to even.
pub open spec fn round_tenths(num: nat, den: nat) -> nat {
    let q = (num * 10) / den;
    let r = (num * 10) % den;
    if 2 * r > den || (2 * r == den && q % 2 == 1) {
        q + 1
    } else {
        q
    }
}

/// A number of tenths written with one decimal, as `{:.1}` writes it.
pub open spec fn tenths_text(t: nat) -> Seq<char> {
    dec(t / 10) + seq!['.'] + dec(t % 10)
}

/// A size in kilobytes as `format_size_kb` writes it: in GB with one decimal from 1024 * 1024 KB
/// on, in MB with one decimal from 1024 KB on, else in KB; the decimal is that of the `f64`
/// quotient, rounded to nearest, ties to even.
pub open spec fn size_text(kb: u64) -> Seq<char> {
    if kb >= 1048576 {
        tenths_text(round_tenths(f64_value(kb as nat), 1048576)) + " GB"@
    } else if kb >= 1024 {
        tenths_text(round_tenths(kb as nat, 1024)) + " MB"@
    } else {
        dec(kb as nat) + " KB"@
    }
}

/// `t` is a number with exactly one decimal, whose value in tenths is `v`, then `unit`.
pub open spec fn one_decimal_then(t: Seq<char>, v: nat, unit: Seq<char>) -> bool {
    let n = t.len() - unit.len();
    &&& t.len() >= unit.len() + 3
    &&& t.skip(n) == unit
    &&& t[n - 2] == '.'
    &&& digits_ok(t.take(n - 2), 10)
    &&& digits_value(t.take(n - 2), 10) == v / 10
    &&& digit_val(t[n - 1], 10) == v % 10
}

proof fn lemma_tenths_text(v: nat, unit: Seq<char>)
    ensures
        one_decimal_then(tenths_text(v) + unit, v, unit),
{
    lemma_dec_digits(v / 10);
    lemma_dec_digits(v % 10);
    let w = dec(v / 10);
    let d = dec(v % 10);
    let t = tenths_text(v) + unit;
    assert(d.len() == 1) by {
        reveal_with_fuel(dec, 2);
    }
    let n = t.len() - unit.len();
    assert(t == w + seq!['.'] + d + unit);
    assert(t.skip(n) =~= unit);
    assert(t.take(n - 2) =~= w);
    assert(t[n - 2] == '.');
    assert(t[n - 1] == d[0]);
    assert(digits_value(d, 10) == digits_value(d.drop_last(), 10) * 10 + digit_val(d.last(), 10) as nat);
    assert(d.drop_last().len() == 0);
}

/// The unit is chosen from the size in kilobytes, before any rounding: `KB` below 1024 KB,
/// with the count as it is; `MB` from there below 1024 * 1024 KB, and `GB` from there on, each
/// with exactly one decimal of the quotient.
pub proof fn lemma_size_units(kb: u64)
    ensures
        kb < 1024 ==> size_text(kb) == dec(kb as nat) + " KB"@,
        1024 <= kb < 1048576 ==> one_decimal_then(size_text(kb), round_tenths(kb as nat, 1024), " MB"@),
        kb >= 1048576 ==> one_decimal_then(
            size_text(kb),
            round_tenths(f64_value(kb as nat), 1048576),
            " GB"@,
        ),
        ends_with(size_text(kb), " KB"@) <==> kb < 1024,
        ends_with(size_text(kb), " MB"@) <==> 1024 <= kb < 1048576,
        ends_with(size_text(kb), " GB"@) <==> kb >= 1048576,
{
    reveal_strlit(" KB");
    reveal_strlit(" MB");
    reveal_strlit(" GB");
    let t = size_text(kb);
    if kb < 1024 {
        let w = dec(kb as nat);
        assert(t.skip(t.len() - 3) =~= " KB"@);
        assert(t.skip(t.len() - 3) != " MB"@) by {
            assert(t.skip(t.len() - 3)[1] == 'K');
        }
        assert(t.skip(t.len() - 3) != " GB"@) by {
            assert(t.skip(t.len() - 3)[1] == 'K');
        }
    } else if kb < 1048576 {
        lemma_tenths_text(round_tenths(kb as nat, 1024), " MB"@);
        assert(t.skip(t.len() - 3) != " KB"@) by {
            assert(t.skip(t.len() - 3)[1] == 'M');
        }
        assert(t.skip(t.len() - 3) != " GB"@) by {
            assert(t.skip(t.len() - 3)[1] == 'M');
        }
    } else {
        lemma_tenths_text(round_tenths(f64_value(kb as nat), 1048576), " GB"@);
        assert(t.skip(t.len() - 3) != " KB"@) by {
            assert(t.skip(t.len() - 3)[1] == 'G');
        }
        assert(t.skip(t.len() - 3) != " MB"@) by {
            assert(t.skip(t.len() - 3)[1] == 'G');
        }
    }
}

fn f64_nearest(n: u64) -> (res: u128)
    ensures
        res as nat == f64_value(n as nat),
        res <= 2 * (n as nat) + 1,
{
    let nn: u128 = n as u128;
    let mut p: u128 = 1;
    while nn / p >= 0x20000000000000
        invariant
            nn == n,
            p >= 1,
            p <= nn + 1,
            f64_scale_from(n as nat, 1) == f64_scale_from(n as nat, p as nat),
        decreases nn / p,
    {
        assert(p * 0x20000000000000 <= nn) by (nonlinear_arith)
            requires
                nn / p >= 0x20000000000000,
                p >= 1,
        ;
        proof {
            vstd::arithmetic::div_mod::lemma_div_denominator(nn as int, p as int, 2);
        }
        p = p * 2;
    }
    let q = nn / p;
    let r = nn % p;
    assert(q * p <= nn) by (nonlinear_arith)
        requires
            q == nn / p,
            p >= 1,
    ;
    assert(q * p + p <= 2 * nn + 1) by (nonlinear_arith)
        requires
            q * p <= nn,
            p <= nn + 1,
    ;
    if 2 * r > p || (2 * r == p && q % 2 == 1) {
        assert((q + 1) * p == q * p + p) by (nonlinear_arith);
        (q + 1) * p
    } else {
        q * p
    }
}

fn round_tenths_exec(num: u128, den: u128) -> (res: u64)
    requires
        num <= 0x40000000000000000,
        1024 <= den <= 1048576,
    ensures
        res as nat == round_tenths(num as nat, den as nat),
{
    let q = (num * 10) / den;
    let r = (num * 10) % den;
    assert(q <= 0x1000000000000000) by (nonlinear_arith)
        requires
            q == (num * 10) / (den as int),
            num <= 0x40000000000000000,
            den >= 1024,
    ;
    if 2 * r > den || (2 * r == den && q % 2 == 1) {
        (q + 1) as u64
    } else {
        q as u64
    }
}

/// A size in kilobytes written for people, as in `12.0 GB`, `512.5 MB` or `640 KB`.
pub fn format_size_kb(kb: u64) -> (res: String)
    ensures
        res@ == size_text(kb),
{
    let mut s = String::new();
    if kb >= 1048576 {
        let v = f64_nearest(kb);
        let t = round_tenths_exec(v, 1048576);
        push_dec(&mut s, t / 10);
        s.push('.');
        push_dec(&mut s, t % 10);
        s.append(" GB");
    } else if kb >= 1024 {
        let t = round_tenths_exec(kb as u128, 1024);
        push_dec(&mut s, t / 10);
        s.push('.');
        push_dec(&mut s, t % 10);
        s.append(" MB");
    } else {
        push_dec(&mut s, kb);
        s.append(" KB");
    }
    s
}

} // verus!
