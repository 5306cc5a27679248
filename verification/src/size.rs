//! Sizes in bytes as people read them.
use vstd::prelude::*;
use vstd::string::StringExecFns;

use crate::number::{decimal_text, signed_decimal_text};
use crate::number::{decimal, signed_decimal};

verus! {

/// Bytes in a kilobyte.
pub const KILOBYTE: u64 = 0x400;

/// Bytes in a megabyte.
pub const MEGABYTE: u64 = 0x10_0000;

/// Bytes in a gigabyte.
pub const GIGABYTE: u64 = 0x4000_0000;

/// The whole number nearest to `n / d`; the even one of two that are equally near.
pub open spec fn nearest(n: nat, d: nat) -> nat {
    let below = n / d;
    let rest = n % d;
    if 2 * rest < d || (2 * rest == d && below % 2 == 0) {
        below
    } else {
        below + 1
    }
}

/// How far apart the whole numbers of 53 significant bits lie around `n`.
pub open spec fn spacing(n: nat) -> nat
    decreases n,
{
    if n < 0x20_0000_0000_0000 {
        1
    } else {
        2 * spacing(n / 2)
    }
}

/// `n`, rounded to 53 significant bits.
pub open spec fn to_53_bits(n: nat) -> nat {
    nearest(n, spacing(n)) * spacing(n)
}

/// How many tenths of `unit` are shown for `n` bytes.
pub open spec fn shown_tenths(n: nat, unit: nat) -> nat {
    nearest(10 * to_53_bits(n), unit)
}

/// `n` bytes counted in `unit`, with one digit behind the point.
pub open spec fn in_units(n: nat, unit: nat) -> Seq<char> {
    let tenths = shown_tenths(n, unit);
    decimal(tenths / 10) + seq!['.'] + decimal(tenths % 10)
}

/// A size in the largest unit that it reaches; sizes below a kilobyte, negative ones among
/// them, in bytes.
pub open spec fn size_text(size: int) -> Seq<char> {
    if size >= GIGABYTE {
        in_units(size as nat, GIGABYTE as nat) + " GB"@
    } else if size >= MEGABYTE {
        in_units(size as nat, MEGABYTE as nat) + " MB"@
    } else if size >= KILOBYTE {
        in_units(size as nat, KILOBYTE as nat) + " KB"@
    } else {
        signed_decimal(size) + " B"@
    }
}

/// `nearest` is at most half a step away, and is even where two numbers are equally near.
pub proof fn law_nearest(n: nat, d: nat)
    requires
        d > 0,
    ensures
        -d <= 2 * (nearest(n, d) * d - n) <= d,
        2 * (nearest(n, d) * d - n) == d || 2 * (nearest(n, d) * d - n) == -d ==> nearest(n, d) % 2
            == 0,
{
    let below = n / d;
    let rest = n % d;
    vstd::arithmetic::div_mod::lemma_fundamental_div_mod(n as int, d as int);
    assert(0 <= rest < d) by (nonlinear_arith)
        requires
            d > 0,
            rest == n % d,
    ;
    assert(below * d == d * below) by (nonlinear_arith);
    assert((below + 1) * d == below * d + d) by (nonlinear_arith);
}

/// What is shown is at most half a tenth of the unit away from the size rounded to 53 bits, and
/// below two to the 53rd that is the size itself.
pub proof fn law_shown_size_is_near(n: nat, unit: nat)
    requires
        unit > 0,
    ensures
        -unit <= 2 * (shown_tenths(n, unit) * unit - 10 * to_53_bits(n)) <= unit,
        -spacing(n) <= 2 * (to_53_bits(n) - n) <= spacing(n),
        n < 0x20_0000_0000_0000 ==> to_53_bits(n) == n,
{
    lemma_spacing_bound(n);
    law_nearest(n, spacing(n));
    law_nearest(10 * to_53_bits(n), unit);
    if n < 0x20_0000_0000_0000 {
        assert(spacing(n) == 1);
        assert(nearest(n, 1) * 1 == n);
    }
}

/// How much is shown for a size, in tenths of a byte.
pub open spec fn shown_amount(size: int) -> int {
    if size >= GIGABYTE {
        shown_tenths(size as nat, GIGABYTE as nat) * GIGABYTE
    } else if size >= MEGABYTE {
        shown_tenths(size as nat, MEGABYTE as nat) * MEGABYTE
    } else if size >= KILOBYTE {
        shown_tenths(size as nat, KILOBYTE as nat) * KILOBYTE
    } else {
        10 * size
    }
}

/// A larger size never shows smaller.
pub proof fn law_larger_size_shows_no_smaller(a: int, b: int)
    requires
        a <= b,
    ensures
        shown_amount(a) <= shown_amount(b),
{
    let kilo = KILOBYTE as nat;
    let mega = MEGABYTE as nat;
    let giga = GIGABYTE as nat;
    lemma_to_53_bits_of_units();
    if a >= KILOBYTE {
        let x = a as nat;
        let y = b as nat;
        lemma_to_53_bits_monotone(x, y);
        lemma_nearest_monotone(10 * to_53_bits(x), 10 * to_53_bits(y), kilo);
        lemma_nearest_monotone(10 * to_53_bits(x), 10 * to_53_bits(y), mega);
        lemma_nearest_monotone(10 * to_53_bits(x), 10 * to_53_bits(y), giga);
    }
    if a < GIGABYTE && b >= GIGABYTE {
        lemma_to_53_bits_monotone(giga, b as nat);
        lemma_nearest_monotone(10 * giga, 10 * to_53_bits(b as nat), giga);
    }
    if a < MEGABYTE && b >= MEGABYTE {
        lemma_to_53_bits_monotone(mega, b as nat);
        lemma_nearest_monotone(10 * mega, 10 * to_53_bits(b as nat), mega);
    }
    if a < KILOBYTE && b >= KILOBYTE {
        lemma_to_53_bits_monotone(kilo, b as nat);
        lemma_nearest_monotone(10 * kilo, 10 * to_53_bits(b as nat), kilo);
    }
    if KILOBYTE <= a && a < MEGABYTE {
        lemma_to_53_bits_monotone(a as nat, mega);
        lemma_nearest_monotone(10 * to_53_bits(a as nat), 10 * mega, kilo);
    }
    if MEGABYTE <= a && a < GIGABYTE {
        lemma_to_53_bits_monotone(a as nat, giga);
        lemma_nearest_monotone(10 * to_53_bits(a as nat), 10 * giga, mega);
    }
}

proof fn lemma_to_53_bits_of_units()
    ensures
        to_53_bits(KILOBYTE as nat) == KILOBYTE,
        to_53_bits(MEGABYTE as nat) == MEGABYTE,
        to_53_bits(GIGABYTE as nat) == GIGABYTE,
{
    law_shown_size_is_near(KILOBYTE as nat, 1);
    law_shown_size_is_near(MEGABYTE as nat, 1);
    law_shown_size_is_near(GIGABYTE as nat, 1);
}

proof fn lemma_nearest_monotone(m: nat, n: nat, d: nat)
    requires
        m <= n,
        d > 0,
    ensures
        nearest(m, d) <= nearest(n, d),
{
    vstd::arithmetic::div_mod::lemma_fundamental_div_mod(m as int, d as int);
    vstd::arithmetic::div_mod::lemma_fundamental_div_mod(n as int, d as int);
    vstd::arithmetic::div_mod::lemma_div_is_ordered(m as int, n as int, d as int);
}

proof fn lemma_spacing_monotone(m: nat, n: nat)
    requires
        m <= n,
    ensures
        spacing(m) <= spacing(n),
        m < 0x20_0000_0000_0000 * spacing(m),
        spacing(m) < spacing(n) ==> 0x20_0000_0000_0000 * spacing(m) <= 0x10_0000_0000_0000
            * spacing(n) && 0x10_0000_0000_0000 * spacing(n) <= n,
    decreases n,
{
    lemma_spacing_bound(m);
    lemma_spacing_bound(n);
    if n >= 0x20_0000_0000_0000 {
        lemma_spacing_monotone(m / 2, n / 2);
        lemma_spacing_bound(n / 2);
    }
}

proof fn lemma_to_53_bits_monotone(m: nat, n: nat)
    requires
        m <= n,
    ensures
        to_53_bits(m) <= to_53_bits(n),
{
    let s = spacing(m);
    let t = spacing(n);
    lemma_spacing_bound(m);
    lemma_spacing_bound(n);
    lemma_spacing_monotone(m, n);
    if s == t {
        lemma_nearest_monotone(m, n, s);
        let p = nearest(m, s);
        let q = nearest(n, s);
        assert(p * s <= q * s) by (nonlinear_arith)
            requires
                p <= q,
        ;
    } else {
        lemma_nearest_of_multiple(0x20_0000_0000_0000, s);
        lemma_nearest_of_multiple(0x10_0000_0000_0000, t);
        lemma_nearest_monotone(m, 0x20_0000_0000_0000 * s, s);
        lemma_nearest_monotone(0x10_0000_0000_0000 * t, n, t);
        let p = nearest(m, s);
        let q = nearest(n, t);
        assert(p * s <= 0x20_0000_0000_0000 * s) by (nonlinear_arith)
            requires
                p <= 0x20_0000_0000_0000,
        ;
        assert(0x10_0000_0000_0000 * t <= q * t) by (nonlinear_arith)
            requires
                0x10_0000_0000_0000 <= q,
        ;
    }
}

proof fn lemma_nearest_of_multiple(k: nat, d: nat)
    requires
        d > 0,
    ensures
        nearest(k * d, d) == k,
{
    vstd::arithmetic::div_mod::lemma_div_multiples_vanish(k as int, d as int);
    vstd::arithmetic::div_mod::lemma_mod_multiples_basic(k as int, d as int);
    assert(k * d == d * k) by (nonlinear_arith);
}

proof fn lemma_spacing_bound(n: nat)
    ensures
        spacing(n) >= 1,
        spacing(n) == 1 || spacing(n) * 0x10_0000_0000_0000 <= n,
    decreases n,
{
    if n >= 0x20_0000_0000_0000 {
        lemma_spacing_bound(n / 2);
    }
}

fn spacing_of(n: u64) -> (res: u64)
    ensures
        res == spacing(n as nat),
    decreases n,
{
    if n < 0x20_0000_0000_0000 {
        1
    } else {
        proof {
            lemma_spacing_bound((n / 2) as nat);
        }
        2 * spacing_of(n / 2)
    }
}

fn nearest_to(n: u128, d: u128) -> (res: u128)
    requires
        0 < d <= 0x1_0000_0000_0000_0000,
        n <= 0x10_0000_0000_0000_0000,
    ensures
        res == nearest(n as nat, d as nat),
        res <= n + 1,
{
    let below: u128 = n / d;
    let rest: u128 = n % d;
    proof {
        assert(below <= n) by (nonlinear_arith)
            requires
                d > 0,
                below == n / d,
        ;
    }
    if 2 * rest < d || (2 * rest == d && below % 2 == 0) {
        below
    } else {
        below + 1
    }
}

fn rounded_to_53_bits(n: u64) -> (res: u128)
    ensures
        res == to_53_bits(n as nat),
        res <= 0x1_8000_0000_0000_0000,
{
    let step: u64 = spacing_of(n);
    proof {
        lemma_spacing_bound(n as nat);
        law_nearest(n as nat, step as nat);
    }
    let count: u128 = nearest_to(n as u128, step as u128);
    count * (step as u128)
}

/// `n` bytes counted in `unit`, with one digit behind the point.
fn in_units_text(n: u64, unit: u64) -> (res: String)
    requires
        unit >= KILOBYTE,
    ensures
        res@ == in_units(n as nat, unit as nat),
{
    let rounded: u128 = rounded_to_53_bits(n);
    let tenths: u128 = nearest_to(10 * rounded, unit as u128);
    proof {
        law_nearest((10 * rounded) as nat, unit as nat);
        assert(tenths <= 0x1000_0000_0000_0000) by (nonlinear_arith)
            requires
                2 * (tenths * unit - 10 * rounded) <= unit,
                rounded <= 0x1_8000_0000_0000_0000,
                0x400 <= unit,
        ;
    }
    let mut res = decimal_text((tenths / 10) as u64);
    res.append(".");
    let last = decimal_text((tenths % 10) as u64);
    res.append(last.as_str());
    proof {
        reveal_strlit(".");
        assert("."@ =~= seq!['.']);
    }
    res
}

/// A size as people read it: with one digit behind the point in the largest unit that it
/// reaches, or in whole bytes.
pub fn format_size(size: i64) -> (res: String)
    ensures
        res@ == size_text(size as int),
{
    if size >= GIGABYTE as i64 {
        let mut res = in_units_text(size as u64, GIGABYTE);
        res.append(" GB");
        res
    } else if size >= MEGABYTE as i64 {
        let mut res = in_units_text(size as u64, MEGABYTE);
        res.append(" MB");
        res
    } else if size >= KILOBYTE as i64 {
        let mut res = in_units_text(size as u64, KILOBYTE);
        res.append(" KB");
        res
    } else {
        let mut res = signed_decimal_text(size);
        res.append(" B");
        res
    }
}

} // verus!
