//! Integers read from and written as text.
use vstd::prelude::*;
use crate::text::slice_chars;

verus! {

/// The value of digit `c` in base `radix` (10 or 16), or -1.
pub open spec fn digit_val(c: char, radix: nat) -> int {
    if '0' <= c && c <= '9' {
        c as int - '0' as int
    } else if radix == 16 && 'a' <= c && c <= 'f' {
        c as int - 'a' as int + 10
    } else if radix == 16 && 'A' <= c && c <= 'F' {
        c as int - 'A' as int + 10
    } else {
        -1
    }
}

pub open spec fn digits_ok(d: Seq<char>, radix: nat) -> bool {
    forall|i: int| 0 <= i < d.len() ==> digit_val(#[trigger] d[i], radix) >= 0
}

/// The number that the digits `d` write in base `radix`.
pub open spec fn digits_value(d: Seq<char>, radix: nat) -> nat
    decreases d.len(),
{
    if d.len() == 0 {
        0
    } else {
        digits_value(d.drop_last(), radix) * radix + digit_val(d.last(), radix) as nat
    }
}

/// Digits alone, at least one, whose value is at most `max`.
pub open spec fn parse_digits(d: Seq<char>, radix: nat, max: nat) -> Option<nat> {
    if d.len() > 0 && digits_ok(d, radix) && digits_value(d, radix) <= max {
        Some(digits_value(d, radix))
    } else {
        None
    }
}

/// `s` without one leading `'+'`.
pub open spec fn unsigned_body(s: Seq<char>) -> Seq<char> {
    if s.len() > 0 && s[0] == '+' {
        s.drop_first()
    } else {
        s
    }
}

/// What `from_str_radix` of an unsigned type whose largest value is `max` gives:
/// an optional `'+'`, then digits whose value fits.
pub open spec fn parse_unsigned(s: Seq<char>, radix: nat, max: nat) -> Option<nat> {
    parse_digits(unsigned_body(s), radix, max)
}

/// What `str::parse::<i32>` gives: an optional sign, then decimal digits whose value fits.
pub open spec fn parse_i32(s: Seq<char>) -> Option<int> {
    if s.len() > 0 && s[0] == '-' {
        match parse_digits(s.drop_first(), 10, 2147483648) {
            Some(v) => Some(-(v as int)),
            None => None,
        }
    } else {
        match parse_unsigned(s, 10, 2147483647) {
            Some(v) => Some(v as int),
            None => None,
        }
    }
}

pub open spec fn digit_char(d: nat) -> char {
    (48 + d) as char
}

/// The decimal digits of `n`, as `Display` writes an unsigned integer.
pub open spec fn dec(n: nat) -> Seq<char>
    decreases n,
{
    if n < 10 {
        seq![digit_char(n)]
    } else {
        dec(n / 10).push(digit_char(n % 10))
    }
}

/// The decimal digits of `n` are digits, at least one, and write `n`.
pub proof fn lemma_dec_digits(n: nat)
    ensures
        dec(n).len() > 0,
        digits_ok(dec(n), 10),
        digits_value(dec(n), 10) == n,
    decreases n,
{
    if n < 10 {
        assert(dec(n).drop_last().len() == 0);
        assert(digit_char(n) as int == 48 + n);
        assert(digit_val(dec(n).last(), 10) == n);
        assert(digits_value(dec(n).drop_last(), 10) == 0);
        assert(digits_value(dec(n), 10) == digits_value(dec(n).drop_last(), 10) * 10 + n);
    } else {
        lemma_dec_digits(n / 10);
        let d = dec(n);
        assert(d.drop_last() == dec(n / 10));
        assert(digit_char(n % 10) as int == 48 + n % 10);
        assert(digit_val(d.last(), 10) == n % 10);
        assert(digits_value(d, 10) == digits_value(dec(n / 10), 10) * 10 + n % 10);
        assert(d.drop_last() == dec(n / 10));
        assert forall|i: int| 0 <= i < d.len() implies digit_val(#[trigger] d[i], 10) >= 0 by {
            if i < d.len() - 1 {
                assert(d[i] == dec(n / 10)[i]);
            }
        }
    }
}

/// `n` in decimal, with a `'-'` when negative, as `Display` writes a signed integer.
pub open spec fn dec_int(n: int) -> Seq<char> {
    if n < 0 {
        seq!['-'] + dec((-n) as nat)
    } else {
        dec(n as nat)
    }
}

proof fn lemma_digits_value_prefix(d: Seq<char>, radix: nat, i: int)
    requires
        digits_ok(d, radix),
        radix >= 1,
        0 <= i <= d.len(),
    ensures
        digits_value(d.take(i), radix) <= digits_value(d, radix),
    decreases d.len(),
{
    if i < d.len() {
        let e = d.drop_last();
        assert(d.take(i) == e.take(i));
        assert(digits_ok(e, radix)) by {
            assert forall|j: int| 0 <= j < e.len() implies digit_val(#[trigger] e[j], radix) >= 0 by {
                assert(e[j] == d[j]);
            }
        }
        lemma_digits_value_prefix(e, radix, i);
        let x = digits_value(e, radix);
        assert(x * radix >= x) by (nonlinear_arith)
            requires
                radix >= 1,
        ;
    } else {
        assert(d.take(i) == d);
    }
}

fn digit_exec(c: char, radix: u64) -> (res: Option<u64>)
    requires
        radix == 10 || radix == 16,
    ensures
        match res {
            Some(x) => x as int == digit_val(c, radix as nat) && x < radix,
            None => digit_val(c, radix as nat) < 0,
        },
{
    if '0' <= c && c <= '9' {
        Some(((c as u32) - 48) as u64)
    } else if radix == 16 && 'a' <= c && c <= 'f' {
        Some(((c as u32) - 87) as u64)
    } else if radix == 16 && 'A' <= c && c <= 'F' {
        Some(((c as u32) - 55) as u64)
    } else {
        None
    }
}

/// Parse digits alone (no sign) in base `radix`, refusing a value above `max`.
pub fn parse_digits_exec(d: &Vec<char>, radix: u64, max: u64) -> (res: Option<u64>)
    requires
        radix == 10 || radix == 16,
    ensures
        match res {
            Some(x) => parse_digits(d@, radix as nat, max as nat) == Some(x as nat),
            None => parse_digits(d@, radix as nat, max as nat) is None,
        },
{
    let n = d.len();
    if n == 0 {
        return None;
    }
    let mut acc: u64 = 0;
    assert(d@.take(0) == Seq::<char>::empty());
    for i in 0..n
        invariant
            n == d@.len(),
            radix == 10 || radix == 16,
            acc as nat == digits_value(d@.take(i as int), radix as nat),
            acc <= max,
            forall|j: int| 0 <= j < i ==> digit_val(#[trigger] d@[j], radix as nat) >= 0,
    {
        assert(d@.take(i + 1).drop_last() == d@.take(i as int));
        assert(d@.take(i + 1).last() == d@[i as int]);
        match digit_exec(d[i], radix) {
            None => {
                return None;
            },
            Some(x) => {
                if x > max || acc > (max - x) / radix {
                    proof {
                        if digits_ok(d@, radix as nat) {
                            lemma_digits_value_prefix(d@, radix as nat, i + 1);
                            assert(acc * radix + x > max) by (nonlinear_arith)
                                requires
                                    x > max || acc > (max - x) / (radix as int),
                                    radix >= 10,
                            ;
                        }
                    }
                    return None;
                }
                assert(acc * radix + x <= max) by (nonlinear_arith)
                    requires
                        x <= max,
                        acc <= (max - x) / (radix as int),
                        radix >= 10,
                ;
                acc = acc * radix + x;
            },
        }
    }
    assert(d@.take(n as int) == d@);
    Some(acc)
}

/// `str::parse` or `from_str_radix` for an unsigned type whose largest value is `max`.
pub fn parse_unsigned_exec(s: &Vec<char>, radix: u64, max: u64) -> (res: Option<u64>)
    requires
        radix == 10 || radix == 16,
    ensures
        match res {
            Some(x) => parse_unsigned(s@, radix as nat, max as nat) == Some(x as nat),
            None => parse_unsigned(s@, radix as nat, max as nat) is None,
        },
{
    if s.len() > 0 && s[0] == '+' {
        let body = slice_chars(s, 1, s.len());
        assert(body@ == s@.drop_first());
        parse_digits_exec(&body, radix, max)
    } else {
        parse_digits_exec(s, radix, max)
    }
}

/// `str::parse::<u64>`.
pub fn parse_u64(s: &Vec<char>) -> (res: Option<u64>)
    ensures
        match res {
            Some(x) => parse_unsigned(s@, 10, u64::MAX as nat) == Some(x as nat),
            None => parse_unsigned(s@, 10, u64::MAX as nat) is None,
        },
{
    parse_unsigned_exec(s, 10, u64::MAX)
}

/// `str::parse::<i32>`.
pub fn parse_i32_exec(s: &Vec<char>) -> (res: Option<i32>)
    ensures
        match res {
            Some(x) => parse_i32(s@) == Some(x as int),
            None => parse_i32(s@) is None,
        },
{
    if s.len() > 0 && s[0] == '-' {
        let body = slice_chars(s, 1, s.len());
        assert(body@ == s@.drop_first());
        match parse_digits_exec(&body, 10, 2147483648) {
            Some(v) => {
                let w: i64 = v as i64;
                Some((-w) as i32)
            },
            None => None,
        }
    } else {
        match parse_unsigned_exec(s, 10, 2147483647) {
            Some(v) => Some(v as i32),
            None => None,
        }
    }
}

/// Append the decimal digits of `n`.
pub fn push_dec(out: &mut String, n: u64)
    ensures
        final(out)@ == old(out)@ + dec(n as nat),
    decreases n,
{
    if n >= 10 {
        push_dec(out, n / 10);
    }
    let d: u8 = (n % 10) as u8;
    out.push((d + 48) as char);
    assert(digit_char((n % 10) as nat) == (d + 48) as char);
}

/// Append `n` in decimal, with a `'-'` when negative.
pub fn push_dec_i64(out: &mut String, n: i64)
    ensures
        final(out)@ == old(out)@ + dec_int(n as int),
{
    if n < 0 {
        out.push('-');
        let m: u64 = if n == i64::MIN {
            9223372036854775808u64
        } else {
            (-n) as u64
        };
        push_dec(out, m);
    } else {
        push_dec(out, n as u64);
    }
}

} // verus!
