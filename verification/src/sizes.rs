//! File sizes as short text.
//!
//! A size of a kilobyte or more is written with one decimal. The quotient is that of
//! double-precision division, which is exact here up to the rounding of the size itself.

use vstd::prelude::*;

use crate::digits;
use crate::digits::decimal_string;

verus! {

/// `n / d`, rounded to the nearest whole number, a tie to the even one.
pub open spec fn round_half_even(n: nat, d: nat) -> nat
    recommends
        d > 0,
{
    let q = n / d;
    let r = n % d;
    if 2 * r > d || (2 * r == d && q % 2 == 1) {
        q + 1
    } else {
        q
    }
}

/// The distance between neighbouring double-precision numbers from `n` on: 1 below 2^53, and twice
/// as much for each further binary digit.
pub open spec fn double_gap(n: nat) -> nat
    decreases n,
{
    if n < 0x20_0000_0000_0000 {
        1
    } else {
        2 * double_gap(n / 2)
    }
}

/// The double-precision number nearest to `n`, a tie to the even one.
pub open spec fn nearest_double(n: nat) -> nat {
    round_half_even(n, double_gap(n)) * double_gap(n)
}

/// How many tenths of `unit` a size is shown as.
pub open spec fn tenths(bytes: nat, unit: nat) -> nat {
    round_half_even(nearest_double(bytes) * 10, unit)
}

/// A number of tenths with a decimal point, and the name of the unit.
pub open spec fn tenths_text(n: nat, unit: Seq<char>) -> Seq<char> {
    digits::decimal(n / 10).push('.').push(digits::digit(n % 10)) + unit
}

/// A size as short text.
pub open spec fn size_text(bytes: nat) -> Seq<char> {
    if bytes < 1024 {
        digits::decimal(bytes) + " B"@
    } else if bytes < 1024 * 1024 {
        tenths_text(tenths(bytes, 1024), " KB"@)
    } else if bytes < 1024 * 1024 * 1024 {
        tenths_text(tenths(bytes, 1024 * 1024), " MB"@)
    } else {
        tenths_text(tenths(bytes, 1024 * 1024 * 1024), " GB"@)
    }
}

fn rounded(n: u128, d: u128) -> (r: u128)
    requires
        0 < d < 0x1_0000_0000_0000_0000,
        n < 0x1_0000_0000_0000_0000_0000_0000,
    ensures
        r == round_half_even(n as nat, d as nat),
        r <= n + 1,
{
    let q: u128 = n / d;
    let r: u128 = n % d;
    assert(q <= n) by (nonlinear_arith)
        requires
            q == n / d,
            d > 0,
    ;
    assert(r < d) by (nonlinear_arith)
        requires
            r == n % d,
            d > 0,
    ;
    if 2 * r > d || (2 * r == d && q % 2 == 1) {
        q + 1
    } else {
        q
    }
}

fn gap(n: u64) -> (g: u64)
    ensures
        g == double_gap(n as nat),
        0 < g,
        g * 0x10_0000_0000_0000 <= n || g == 1,
    decreases n,
{
    if n < 0x20_0000_0000_0000 {
        1
    } else {
        let half: u64 = gap(n / 2);
        2 * half
    }
}

/// Rounding to a multiple moves a number by less than the multiple.
proof fn lemma_round_bound(n: nat, d: nat)
    requires
        d > 0,
    ensures
        round_half_even(n, d) * d <= n + d,
{
    let q = n / d;
    assert(q * d <= n) by (nonlinear_arith)
        requires
            q == n / d,
            d > 0,
    ;
    assert((q + 1) * d == q * d + d) by (nonlinear_arith);
}

fn nearest(n: u64) -> (r: u128)
    ensures
        r == nearest_double(n as nat),
        r < 0x2_0000_0000_0000_0000,
{
    let g: u64 = gap(n);
    let q: u128 = rounded(n as u128, g as u128);
    proof {
        lemma_round_bound(n as nat, g as nat);
    }
    q * (g as u128)
}

fn tenths_string(bytes: u64, unit: u64, name: &str) -> (s: String)
    requires
        unit == 1024 || unit == 1024 * 1024 || unit == 1024 * 1024 * 1024,
    ensures
        s@ == tenths_text(tenths(bytes as nat, unit as nat), name@),
{
    let whole: u128 = nearest(bytes) * 10;
    let t: u128 = rounded(whole, unit as u128);
    proof {
        lemma_round_bound(whole as nat, unit as nat);
    }
    assert(t < 0x1_0000_0000_0000_0000) by (nonlinear_arith)
        requires
            t * unit <= whole + unit,
            unit >= 1024,
            whole < 0x14_0000_0000_0000_0000,
    ;
    let n: u64 = t as u64;
    let mut s: String = decimal_string(n / 10);
    s.push('.');
    s.push((48 + (n % 10) as u8) as char);
    s.append(name);
    s
}

/// A size as short text.
pub fn format_size(bytes: u64) -> (s: String)
    ensures
        s@ == size_text(bytes as nat),
{
    if bytes < 1024 {
        let mut s: String = decimal_string(bytes);
        s.append(" B");
        s
    } else if bytes < 1024 * 1024 {
        tenths_string(bytes, 1024, " KB")
    } else if bytes < 1024 * 1024 * 1024 {
        tenths_string(bytes, 1024 * 1024, " MB")
    } else {
        tenths_string(bytes, 1024 * 1024 * 1024, " GB")
    }
}

/// Below 2^53 the size itself is exact, so that only the tenths are rounded.
pub proof fn law_small_sizes_are_exact(bytes: nat)
    requires
        bytes < 0x20_0000_0000_0000,
    ensures
        nearest_double(bytes) == bytes,
{
    assert(double_gap(bytes) == 1);
    assert(bytes / 1 == bytes && bytes % 1 == 0);
}

/// Rounding gives the nearest whole number.
proof fn lemma_rounded(n: nat, d: nat)
    requires
        d > 0,
    ensures
        ({
            let off = round_half_even(n, d) * d - n;
            -d <= 2 * off <= d
        }),
{
    let q = n / d;
    let r = n % d;
    assert(q * d + r == n) by (nonlinear_arith)
        requires
            q == n / d,
            r == n % d,
            d > 0,
    ;
    assert((q + 1) * d == q * d + d) by (nonlinear_arith);
    assert(r < d);
}

/// A size below 1024 is shown in bytes as it is. A larger one, as far as it is exact in double
/// precision, is shown in the largest unit that it reaches, up to gigabytes, as a number with one
/// decimal that is off by at most half a tenth of the unit.
pub proof fn law_shown_size(bytes: nat)
    requires
        bytes < 0x20_0000_0000_0000,
    ensures
        bytes < 1024 ==> size_text(bytes) == digits::decimal(bytes) + " B"@,
        bytes >= 1024 ==> ({
            let (unit, name) = if bytes < 0x10_0000 {
                (1024int, " KB"@)
            } else if bytes < 0x4000_0000 {
                (0x10_0000int, " MB"@)
            } else {
                (0x4000_0000int, " GB"@)
            };
            exists|whole: Seq<char>, tenth: char|
                {
                    &&& size_text(bytes) == #[trigger] decimal_point(whole, tenth) + name
                    &&& digits::writes(whole, digits::value(whole))
                    &&& digits::is_digit(tenth)
                    &&& nearest_tenths(digits::value(whole.push(tenth)), unit as nat, bytes)
                }
        }),
{
    law_small_sizes_are_exact(bytes);
    if bytes >= 1024 {
        let unit: nat = if bytes < 0x10_0000 {
            1024
        } else if bytes < 0x4000_0000 {
            0x10_0000
        } else {
            0x4000_0000
        };
        let name = if bytes < 0x10_0000 {
            " KB"@
        } else if bytes < 0x4000_0000 {
            " MB"@
        } else {
            " GB"@
        };
        let n = tenths(bytes, unit);
        let whole = digits::decimal(n / 10);
        let tenth = digits::digit(n % 10);
        digits::law_decimal_writes(n / 10);
        assert(tenth as nat == 48 + n % 10);
        digits::law_place_value(whole, tenth);
        law_rounding(bytes * 10, unit);
        assert(digits::value(whole.push(tenth)) == n);
        assert(size_text(bytes) == decimal_point(whole, tenth) + name);
    }
}

/// Whether `n` tenths of a unit are nearest to a number of bytes, and even if it lies half-way.
pub open spec fn nearest_tenths(n: nat, unit: nat, bytes: nat) -> bool {
    let off = 2 * (n * unit - 10 * bytes);
    -unit <= off <= unit && (off == unit || off == -unit ==> n % 2 == 0)
}

/// A size that is not exact in double precision is shown in gigabytes, by the nearest number in double
/// precision.
pub proof fn law_shown_large_size(bytes: nat)
    requires
        bytes >= 0x20_0000_0000_0000,
    ensures
        exists|whole: Seq<char>, tenth: char|
            {
                &&& size_text(bytes) == #[trigger] decimal_point(whole, tenth) + " GB"@
                &&& digits::writes(whole, digits::value(whole))
                &&& digits::is_digit(tenth)
                &&& nearest_tenths(
                    digits::value(whole.push(tenth)),
                    0x4000_0000,
                    nearest_double(bytes),
                )
            },
{
    let n = tenths(bytes, 0x4000_0000);
    let whole = digits::decimal(n / 10);
    let tenth = digits::digit(n % 10);
    digits::law_decimal_writes(n / 10);
    assert(tenth as nat == 48 + n % 10);
    digits::law_place_value(whole, tenth);
    law_rounding(nearest_double(bytes) * 10, 0x4000_0000);
    assert(digits::value(whole.push(tenth)) == n);
    assert(size_text(bytes) == decimal_point(whole, tenth) + " GB"@);
}

/// A number with a decimal point.
pub open spec fn decimal_point(whole: Seq<char>, tenth: char) -> Seq<char> {
    whole.push('.').push(tenth)
}

/// A double-precision number has 53 binary digits: the gap between neighbours is the one for which the
/// number has as many, the nearest one is a multiple of it and at most half of it away, and of two
/// that are equally near the even multiple is taken.
pub proof fn law_nearest_double(n: nat)
    requires
        n >= 0x20_0000_0000_0000,
    ensures
        ({
            let g = double_gap(n);
            let near = nearest_double(n);
            &&& g * 0x10_0000_0000_0000 <= n < g * 0x20_0000_0000_0000
            &&& near == round_half_even(n, g) * g
            &&& -g <= 2 * (near - n) <= g
            &&& 2 * (near - n) == g || 2 * (near - n) == -g ==> round_half_even(n, g) % 2 == 0
        }),
{
    lemma_gap(n);
    let g = double_gap(n);
    lemma_rounded(n, g);
    let q = (n / g) as int;
    let r = (n % g) as int;
    assert(n == g * q + r && 0 <= r < g) by (nonlinear_arith)
        requires
            g > 0,
            q == n / g,
            r == n % g,
    ;
    assert((q + 1) * g == g * q + g && q * g == g * q) by (nonlinear_arith);
}

/// The gap between neighbours.
proof fn lemma_gap(n: nat)
    ensures
        double_gap(n) >= 1,
        n < 0x20_0000_0000_0000 ==> double_gap(n) == 1,
        n >= 0x20_0000_0000_0000 ==> double_gap(n) * 0x10_0000_0000_0000 <= n < double_gap(n)
            * 0x20_0000_0000_0000,
    decreases n,
{
    if n >= 0x20_0000_0000_0000 {
        lemma_gap(n / 2);
    }
}

/// Rounding takes the nearest whole number, and of two that are equally near the even one.
pub proof fn law_rounding(n: nat, d: nat)
    requires
        d > 0,
    ensures
        ({
            let r = round_half_even(n, d);
            &&& -d <= 2 * (r * d - n) <= d
            &&& 2 * (r * d - n) == d || 2 * (r * d - n) == -d ==> r % 2 == 0
        }),
{
    lemma_rounded(n, d);
    let q = (n / d) as int;
    let r = (n % d) as int;
    assert(n == d * q + r && 0 <= r < d) by (nonlinear_arith)
        requires
            d > 0,
            q == n / d,
            r == n % d,
    ;
    assert((q + 1) * d == d * q + d && q * d == d * q) by (nonlinear_arith);
}

} // verus!
