//! Amounts of bytes for people to read.
//!
//! An amount is shown in the largest of the units B, KB, MB and GB that it
//! reaches, a unit being 1024 of the one before, with one digit after the
//! point for KB and two for MB and GB. An amount is rounded to the nearest
//! value that can be shown, and to the even one of two that are equally
//! near. Amounts of 2^53 bytes and more are first rounded, in the same way,
//! to 53 binary digits.

use vstd::prelude::*;
use vstd::arithmetic::power2::pow2;
use crate::text::{append, chars_of, decimal, digit_char, render_u64, string_of};

verus! {

/// The bytes of a KB.
pub const KB: u64 = 1024;

/// The bytes of a MB.
pub const MB: u64 = 1024 * 1024;

/// The bytes of a GB.
pub const GB: u64 = 1024 * 1024 * 1024;

/// The least amount that takes more than 53 binary digits.
pub const EXACT_LIMIT: u64 = 0x20_0000_0000_0000;

/// The quotient of `n` by `d`, rounded to the nearest integer, and to the
/// even one of two that are equally near.
pub open spec fn rounded_quotient(n: int, d: int) -> int {
    let q = n / d;
    let r = n % d;
    if 2 * r > d || (2 * r == d && q % 2 == 1) {
        q + 1
    } else {
        q
    }
}

/// How many binary digits of `v` go beyond 53.
pub open spec fn excess_digits(v: int) -> nat
    decreases v,
{
    if v < EXACT_LIMIT {
        0
    } else {
        1 + excess_digits(v / 2)
    }
}

/// An amount rounded to 53 binary digits.
pub open spec fn rounded_amount(bytes: u64) -> int {
    let unit = pow2(excess_digits(bytes as int)) as int;
    rounded_quotient(bytes as int, unit) * unit
}

/// A number of tenths, written with one digit after the point.
pub open spec fn tenths_text(tenths: int) -> Seq<char> {
    decimal((tenths / 10) as nat).push('.').push(digit_char(tenths % 10))
}

/// A number of hundredths, written with two digits after the point.
pub open spec fn hundredths_text(hundredths: int) -> Seq<char> {
    decimal((hundredths / 100) as nat).push('.').push(digit_char(hundredths / 10 % 10)).push(
        digit_char(hundredths % 10),
    )
}

/// An amount of bytes as it is shown.
pub open spec fn formatted_bytes(bytes: u64) -> Seq<char> {
    if bytes >= GB {
        hundredths_text(rounded_quotient(rounded_amount(bytes) * 100, GB as int)) + " GB"@
    } else if bytes >= MB {
        hundredths_text(rounded_quotient(bytes * 100, MB as int)) + " MB"@
    } else if bytes >= KB {
        tenths_text(rounded_quotient(bytes * 10, KB as int)) + " KB"@
    } else {
        decimal(bytes as nat) + " B"@
    }
}

fn round_div(n: u128, d: u128) -> (q: u128)
    requires
        0 < d <= GB,
        n <= 0x1_0000_0000_0000_0000 * 100,
    ensures
        q == rounded_quotient(n as int, d as int),
        q <= n,
{
    let q = n / d;
    let r = n % d;
    proof {
        vstd::arithmetic::div_mod::lemma_fundamental_div_mod(n as int, d as int);
    }
    if 2 * r > d || (2 * r == d && q % 2 == 1) {
        assert(q + 1 <= n) by (nonlinear_arith)
            requires
                n == d * q + r,
                2 * r >= d,
                r < d,
                d > 0,
                q >= 0,
        {
        }
        q + 1
    } else {
        assert(q <= n) by (nonlinear_arith)
            requires
                n == d * q + r,
                r >= 0,
                d > 0,
                q >= 0,
        {
        }
        q
    }
}

proof fn lemma_room_for_one_unit(bytes: u64, digits: nat)
    requires
        1 <= digits <= 11,
    ensures
        (bytes as int / pow2(digits) as int) * pow2(digits) + pow2(digits)
            <= 0x1_0000_0000_0000_0000int,
{
    vstd::arithmetic::power2::lemma2_to64();
    let unit = pow2(digits) as int;
    let whole = bytes as int / unit;
    vstd::arithmetic::div_mod::lemma_fundamental_div_mod(bytes as int, unit);
    assert(unit == 2 || unit == 4 || unit == 8 || unit == 16 || unit == 32 || unit == 64 || unit
        == 128 || unit == 256 || unit == 512 || unit == 1024 || unit == 2048);
    if unit == 2 {
        assert(0x1_0000_0000_0000_0000int % 2 == 0);
    }
    if unit == 4 {
        assert(0x1_0000_0000_0000_0000int % 4 == 0);
    }
    if unit == 8 {
        assert(0x1_0000_0000_0000_0000int % 8 == 0);
    }
    if unit == 16 {
        assert(0x1_0000_0000_0000_0000int % 16 == 0);
    }
    if unit == 32 {
        assert(0x1_0000_0000_0000_0000int % 32 == 0);
    }
    if unit == 64 {
        assert(0x1_0000_0000_0000_0000int % 64 == 0);
    }
    if unit == 128 {
        assert(0x1_0000_0000_0000_0000int % 128 == 0);
    }
    if unit == 256 {
        assert(0x1_0000_0000_0000_0000int % 256 == 0);
    }
    if unit == 512 {
        assert(0x1_0000_0000_0000_0000int % 512 == 0);
    }
    if unit == 1024 {
        assert(0x1_0000_0000_0000_0000int % 1024 == 0);
    }
    if unit == 2048 {
        assert(0x1_0000_0000_0000_0000int % 2048 == 0);
    }
    assert(0x1_0000_0000_0000_0000int % unit == 0);
    assert(whole * unit <= bytes) by (nonlinear_arith)
        requires
            bytes as int == unit * whole + (bytes as int % unit),
            bytes as int % unit >= 0,
    {
    }
    let cap = 0x1_0000_0000_0000_0000int / unit;
    assert(cap * unit == 0x1_0000_0000_0000_0000int) by {
        vstd::arithmetic::div_mod::lemma_fundamental_div_mod(0x1_0000_0000_0000_0000int, unit);
        assert(unit * cap == cap * unit) by (nonlinear_arith);
    }
    assert(whole < cap) by (nonlinear_arith)
        requires
            whole * unit <= bytes,
            bytes < cap * unit,
            unit > 0,
    {
    }
    assert(whole * unit + unit <= cap * unit) by (nonlinear_arith)
        requires
            whole + 1 <= cap,
            unit > 0,
    {
    }
}

fn round_amount(bytes: u64) -> (amount: u128)
    ensures
        amount == rounded_amount(bytes),
        amount <= 0x1_0000_0000_0000_0000,
{
    let mut v: u64 = bytes;
    let mut unit: u64 = 1;
    let ghost mut digits: nat = 0;
    proof {
        vstd::arithmetic::power2::lemma2_to64();
    }
    while v >= EXACT_LIMIT
        invariant
            unit == pow2(digits),
            digits <= 11,
            v == bytes / unit,
            unit >= 1,
            excess_digits(bytes as int) == digits + excess_digits(v as int),
            v as int * unit as int <= bytes,
        decreases v,
    {
        proof {
            vstd::arithmetic::power2::lemma2_to64();
            vstd::arithmetic::power2::lemma_pow2_unfold(digits + 1);
            vstd::arithmetic::div_mod::lemma_div_denominator(bytes as int, unit as int, 2);
            assert(digits < 11) by {
                if digits >= 11 {
                    assert(unit == 2048);
                    assert(v <= bytes / 2048);
                }
            }
            assert(digits == 0 || digits == 1 || digits == 2 || digits == 3 || digits == 4
                || digits == 5 || digits == 6 || digits == 7 || digits == 8 || digits == 9
                || digits == 10);
            vstd::arithmetic::div_mod::lemma_fundamental_div_mod(bytes as int, 2 * unit as int);
            assert((v / 2) as int * (2 * unit as int) <= bytes) by (nonlinear_arith)
                requires
                    (v / 2) as int == bytes as int / (2 * unit as int),
                    bytes as int == (2 * unit as int) * (bytes as int / (2 * unit as int)) + (
                    bytes as int % (2 * unit as int)),
                    bytes as int % (2 * unit as int) >= 0,
            {
            }
            digits = digits + 1;
        }
        v = v / 2;
        unit = unit * 2;
    }
    let q = round_div(bytes as u128, unit as u128);
    proof {
        vstd::arithmetic::power2::lemma2_to64();
        vstd::arithmetic::div_mod::lemma_fundamental_div_mod(bytes as int, unit as int);
        assert(digits == 0 || digits == 1 || digits == 2 || digits == 3 || digits == 4 || digits
            == 5 || digits == 6 || digits == 7 || digits == 8 || digits == 9 || digits == 10
            || digits == 11);
        if digits >= 1 {
            lemma_room_for_one_unit(bytes, digits);
        }
    }
    assert(q as int * unit as int <= 0x1_0000_0000_0000_0000) by (nonlinear_arith)
        requires
            q as int <= (bytes as int / unit as int) + 1,
            (bytes as int / unit as int) * unit as int <= bytes as int,
            1 <= unit <= 2048,
            bytes <= 0xFFFF_FFFF_FFFF_FFFF,
            bytes as int / unit as int >= 0,
            q >= 0,
            unit > 1 ==> (bytes as int / unit as int) * unit as int + unit as int
                <= 0x1_0000_0000_0000_0000,
            unit == 1 ==> q as int == bytes as int,
    {
    }
    q * (unit as u128)
}

fn digit(d: u128) -> (c: char)
    requires
        d < 10,
    ensures
        c == digit_char(d as int),
{
    (48u8 + d as u8) as char
}

fn amount_text(hundredths: u128, unit: &str) -> (text: String)
    requires
        hundredths <= 0xFFFF_FFFF_FFFF_FFFF,
    ensures
        text@ == hundredths_text(hundredths as int) + unit@,
{
    let mut out = render_u64((hundredths / 100) as u64);
    out.push('.');
    out.push(digit(hundredths / 10 % 10));
    out.push(digit(hundredths % 10));
    append(&mut out, &chars_of(unit));
    string_of(&out)
}

/// Writes an amount of bytes for people to read.
pub fn format_bytes(bytes: u64) -> (text: String)
    ensures
        text@ == formatted_bytes(bytes),
{
    if bytes >= GB {
        let amount = round_amount(bytes);
        let hundredths = round_div(amount * 100, GB as u128);
        assert(hundredths <= 0xFFFF_FFFF_FFFF_FFFF) by {
            assert(hundredths as int == rounded_quotient(amount * 100, GB as int));
            assert((amount * 100) as int / (GB as int) <= 0x1_0000_0000_0000_0000 * 100
                / 0x4000_0000);
        }
        amount_text(hundredths, " GB")
    } else if bytes >= MB {
        let hundredths = round_div(bytes as u128 * 100, MB as u128);
        amount_text(hundredths, " MB")
    } else if bytes >= KB {
        let tenths = round_div(bytes as u128 * 10, KB as u128);
        let mut out = render_u64((tenths / 10) as u64);
        out.push('.');
        out.push(digit(tenths % 10));
        append(&mut out, &chars_of(" KB"));
        string_of(&out)
    } else {
        let mut out = render_u64(bytes);
        append(&mut out, &chars_of(" B"));
        string_of(&out)
    }
}

} // verus!
