//! Decimal and hexadecimal numbers: parsing as `str::parse` does for
//! unsigned integers, rendering as `Display` / `{:x}` do, and bit counting.
use vstd::prelude::*;
use crate::text::{all_chars, chars_of, is_digit, is_digit_char, push_char};

verus! {

pub open spec fn digit_val(c: char) -> nat {
    ((c as u32) - ('0' as u32)) as nat
}

/// Value of a run of decimal digits.
pub open spec fn digits_value(d: Seq<char>) -> nat
    decreases d.len(),
{
    if d.len() == 0 {
        0
    } else {
        digits_value(d.drop_last()) * 10 + digit_val(d.last())
    }
}

/// The digit run that `from_str` examines: an optional leading `+` removed.
pub open spec fn unsigned_digits(s: Seq<char>) -> Seq<char> {
    if s.len() > 0 && s[0] == '+' {
        s.drop_first()
    } else {
        s
    }
}

/// `<uN as FromStr>::from_str` for an unsigned type whose maximum is `max`:
/// an optional `+`, then one or more decimal digits whose value fits.
pub open spec fn parse_unsigned(s: Seq<char>, max: nat) -> Option<nat> {
    let d = unsigned_digits(s);
    if d.len() > 0 && all_chars(d, |c: char| is_digit(c)) && digits_value(d) <= max {
        Some(digits_value(d))
    } else {
        None
    }
}

/// Parse an unsigned decimal no larger than `max`.
pub fn parse_unsigned_str(s: &str, max: u64) -> (r: Option<u64>)
    ensures
        match r {
            Some(n) => parse_unsigned(s@, max as nat) == Some(n as nat),
            None => parse_unsigned(s@, max as nat) is None,
        },
{
    let v = chars_of(s);
    let start: usize = if v.len() > 0 && v[0] == '+' {
        1
    } else {
        0
    };
    let ghost d = unsigned_digits(s@);
    assert(d =~= v@.skip(start as int));
    if start >= v.len() {
        assert(d.len() == 0);
        return None;
    }
    let cap: u128 = (max as u128) + 1;
    let mut acc: u128 = 0;
    let mut i = start;
    while i < v.len()
        invariant
            start <= i <= v@.len(),
            v@ == s@,
            d == unsigned_digits(s@),
            d == v@.skip(start as int),
            cap == max + 1,
            acc == if digits_value(d.take(i - start)) < cap {
                digits_value(d.take(i - start))
            } else {
                cap as nat
            },
            all_chars(d.take(i - start), |c: char| is_digit(c)),
        decreases v@.len() - i,
    {
        let c = v[i];
        if !is_digit_char(c) {
            assert(d[i - start] == c);
            assert(!all_chars(d, |c: char| is_digit(c)));
            return None;
        }
        let dig = ((c as u32) - ('0' as u32)) as u128;
        proof {
            let k = i - start;
            assert(d.take(k + 1).drop_last() =~= d.take(k));
            assert(d.take(k + 1).last() == c);
            assert forall|j: int| 0 <= j < d.take(k + 1).len() implies is_digit(#[trigger] d.take(k + 1)[j]) by {
                if j < k {
                    assert(d.take(k + 1)[j] == d.take(k)[j]);
                }
            }
        }
        if acc >= cap {
            acc = cap;
        } else {
            let next = acc * 10 + dig;
            acc = if next < cap {
                next
            } else {
                cap
            };
        }
        i += 1;
    }
    assert(d.take(i - start) =~= d);
    if acc >= cap {
        None
    } else {
        Some(acc as u64)
    }
}

/// `s.parse::<u32>().ok()`.
pub fn parse_u32(s: &str) -> (r: Option<u32>)
    ensures
        match r {
            Some(n) => parse_unsigned(s@, u32::MAX as nat) == Some(n as nat),
            None => parse_unsigned(s@, u32::MAX as nat) is None,
        },
{
    match parse_unsigned_str(s, u32::MAX as u64) {
        Some(n) => Some(n as u32),
        None => None,
    }
}

/// `s.parse::<u64>().ok()`.
pub fn parse_u64(s: &str) -> (r: Option<u64>)
    ensures
        match r {
            Some(n) => parse_unsigned(s@, u64::MAX as nat) == Some(n as nat),
            None => parse_unsigned(s@, u64::MAX as nat) is None,
        },
{
    parse_unsigned_str(s, u64::MAX)
}

// ───────────────────────── rendering ─────────────────────────

pub open spec fn digit_char(d: nat) -> char {
    ((('0' as u32) + d) as u32) as char
}

/// `n.to_string()` for an unsigned integer.
pub open spec fn dec(n: nat) -> Seq<char>
    decreases n,
{
    if n < 10 {
        seq![digit_char(n)]
    } else {
        dec(n / 10).push(digit_char(n % 10))
    }
}

fn digit_to_char(d: u64) -> (c: char)
    requires
        d < 10,
    ensures
        c == digit_char(d as nat),
{
    (((('0' as u32) + (d as u32)) as u8) as char)
}

/// Append the decimal rendering of `n` to `s`.
pub fn push_dec(s: &mut String, n: u64)
    ensures
        final(s)@ == old(s)@ + dec(n as nat),
    decreases n,
{
    if n < 10 {
        push_char(s, digit_to_char(n));
    } else {
        push_dec(s, n / 10);
        push_char(s, digit_to_char(n % 10));
    }
}

/// `n.to_string()`.
pub fn dec_string(n: u64) -> (r: String)
    ensures
        r@ == dec(n as nat),
{
    let mut s = String::new();
    push_dec(&mut s, n);
    s
}

pub open spec fn hex_char(d: nat) -> char {
    if d < 10 {
        digit_char(d)
    } else {
        ((('a' as u32) + (d - 10)) as u32) as char
    }
}

fn hex_digit(d: u16) -> (c: char)
    requires
        d < 16,
    ensures
        c == hex_char(d as nat),
{
    if d < 10 {
        (((('0' as u32) + (d as u32)) as u8) as char)
    } else {
        (((('a' as u32) + (d as u32) - 10) as u8) as char)
    }
}

/// `format!("{:04x}", n)` for a 16-bit value: four lower-case hex digits.
pub open spec fn hex4(n: u16) -> Seq<char> {
    seq![
        hex_char((n / 4096) as nat),
        hex_char(((n / 256) % 16) as nat),
        hex_char(((n / 16) % 16) as nat),
        hex_char((n % 16) as nat),
    ]
}

pub fn push_hex4(s: &mut String, n: u16)
    ensures
        final(s)@ == old(s)@ + hex4(n),
{
    let ghost s0 = s@;
    push_char(s, hex_digit(n / 4096));
    push_char(s, hex_digit((n / 256) % 16));
    push_char(s, hex_digit((n / 16) % 16));
    push_char(s, hex_digit(n % 16));
    assert(s@ =~= s0 + hex4(n));
}

// ───────────────────────── bit counting ─────────────────────────

/// Number of set bits (`count_ones`).
pub open spec fn popcount(n: nat) -> nat
    decreases n,
{
    if n == 0 {
        0
    } else {
        (n % 2) + popcount(n / 2)
    }
}

pub fn count_ones_u32(n: u32) -> (r: u32)
    ensures
        r == popcount(n as nat),
        r <= 32,
{
    let mut m = n;
    let mut c: u32 = 0;
    let mut k: u32 = 0;
    proof {
        lemma_pow2_32_step(32);
    }
    while m > 0
        invariant
            c + popcount(m as nat) == popcount(n as nat),
            c <= k,
            k <= 32,
            m < pow2_32((32 - k) as nat),
        decreases m,
    {
        proof {
            lemma_pow2_32_step((32 - k) as nat);
        }
        c = c + m % 2;
        m = m / 2;
        k = k + 1;
    }
    c
}

pub open spec fn pow2_32(e: nat) -> nat
    decreases e,
{
    if e == 0 {
        1
    } else {
        2 * pow2_32((e - 1) as nat)
    }
}

pub proof fn lemma_pow2_32_step(e: nat)
    ensures
        e > 0 ==> pow2_32(e) == 2 * pow2_32((e - 1) as nat),
        pow2_32(e) >= 1,
        pow2_32(32) == 0x1_0000_0000,
    decreases e,
{
    if e > 0 {
        lemma_pow2_32_step((e - 1) as nat);
    }
    reveal_with_fuel(pow2_32, 33);
}

// ───────────────────────── signed numbers ─────────────────────────

/// `<i64 as FromStr>::from_str`: an optional sign, then one or more decimal
/// digits whose signed value lies in the range of `i64`.
pub open spec fn parse_signed64(s: Seq<char>) -> Option<int> {
    if s.len() > 0 && s[0] == '-' {
        let d = s.drop_first();
        if d.len() > 0 && all_chars(d, |c: char| is_digit(c)) && digits_value(d)
            <= 9223372036854775808 {
            Some(-(digits_value(d) as int))
        } else {
            None
        }
    } else {
        match parse_unsigned(s, 9223372036854775807) {
            Some(n) => Some(n as int),
            None => None,
        }
    }
}

/// `s.parse::<i64>().ok()`.
pub fn parse_i64(s: &str) -> (r: Option<i64>)
    ensures
        match r {
            Some(n) => parse_signed64(s@) == Some(n as int),
            None => parse_signed64(s@) is None,
        },
{
    let v = chars_of(s);
    if v.len() > 0 && v[0] == '-' {
        let rest = crate::text::string_from(&v, 1, v.len());
        assert(rest@ =~= s@.drop_first());
        if v.len() > 1 && v[1] == '+' {
            assert(!is_digit(rest@[0]));
            return None;
        }
        match parse_unsigned_str(rest.as_str(), 9223372036854775808) {
            Some(n) => {
                assert(unsigned_digits(rest@) == rest@);
                if n == 9223372036854775808 {
                    Some(i64::MIN)
                } else {
                    Some(-(n as i64))
                }
            },
            None => {
                assert(rest@.len() > 0 ==> unsigned_digits(rest@) == rest@);
                None
            },
        }
    } else {
        match parse_unsigned_str(s, 9223372036854775807) {
            Some(n) => Some(n as i64),
            None => None,
        }
    }
}

/// `n.to_string()` for a signed integer.
pub open spec fn int_dec(n: int) -> Seq<char> {
    if n < 0 {
        seq!['-'] + dec((-n) as nat)
    } else {
        dec(n as nat)
    }
}

/// Append the decimal rendering of a signed `n` to `s`.
pub fn push_i64(s: &mut String, n: i64)
    ensures
        final(s)@ == old(s)@ + int_dec(n as int),
{
    if n < 0 {
        let ghost s0 = s@;
        push_char(s, '-');
        let m: u64 = ((-(n + 1)) as u64) + 1;
        push_dec(s, m);
        assert(s@ =~= s0 + int_dec(n as int));
    } else {
        push_dec(s, n as u64);
    }
}

/// A digit written and read back.
pub proof fn lemma_digit_char(d: nat)
    requires
        d < 10,
    ensures
        is_digit(digit_char(d)),
        digit_val(digit_char(d)) == d,
{
    assert(('0' as u32) == 48);
    assert(((48 + d) as u32) as char as u32 == 48 + d);
}

/// A number written in decimal: digits only, and their value is the number.
pub proof fn lemma_dec_digits(n: nat)
    ensures
        dec(n).len() > 0,
        forall|k: int| 0 <= k < dec(n).len() ==> is_digit(#[trigger] dec(n)[k]),
        digits_value(dec(n)) == n,
    decreases n,
{
    if n < 10 {
        lemma_digit_char(n);
        let d = dec(n);
        assert(d == seq![digit_char(n)]);
        assert(d.drop_last() =~= Seq::<char>::empty());
        assert(digits_value(d) == digits_value(d.drop_last()) * 10 + digit_val(d.last()));
    } else {
        lemma_dec_digits(n / 10);
        lemma_digit_char(n % 10);
        let d = dec(n);
        let h = dec(n / 10);
        assert(d == h.push(digit_char(n % 10)));
        assert(d.drop_last() =~= h);
        assert forall|k: int| 0 <= k < d.len() implies is_digit(#[trigger] d[k]) by {
            if k < h.len() {
                assert(d[k] == h[k]);
            }
        }
        assert(digits_value(d) == digits_value(h) * 10 + digit_val(d.last()));
        assert(n == (n / 10) * 10 + n % 10) by (nonlinear_arith);
    }
}

/// A number written in decimal parses back.
pub proof fn lemma_parse_dec(n: nat, max: nat)
    requires
        n <= max,
    ensures
        parse_unsigned(dec(n), max) == Some(n),
{
    lemma_dec_digits(n);
    let d = dec(n);
    assert(d[0] != '+');
    assert(unsigned_digits(d) == d);
    assert(all_chars(d, |c: char| is_digit(c)));
}

} // verus!
