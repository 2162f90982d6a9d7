//! Floating point values as numbers, and what rounding to them means.
//!
//! A finite value is a whole multiple of the smallest positive one. Rounded arithmetic gives the
//! value that no other one comes closer than to the exact result.

use vstd::prelude::*;

#[allow(unused_imports)]
use crate::softfloat::{
    doublings, excess_bits, f32_nearest, f32_of_f64, f32_of_i32, f32_product_of, f32_quotient_of,
    f32_shift, f32_significand, f64_finite_product, f64_finite_ratio, f64_of_i32, f64_product_of,
    alpha_units_of, cta_units_of, f32_whole, f64_quotient_of, f64_ratio_of, f64_shift,
    fixed_16_16_of, round_half_up, s31_32_magnitude, s31_32_saturated, scaled, to_precision, unorm16_of_f32, unorm_of_f64, f64_significand, law_round_half_even_is_nearest,
    lemma_doublings_fit, lemma_excess_bound, lemma_excess_fills, lemma_few_doublings,
    lemma_more_doublings, lemma_round_even_bounds, lemma_shifted_below, lemma_two_pow_grows,
    lemma_two_pow_positive, lemma_two_pow_split, lemma_two_pow_values, quotient_bits,
    round_half_even, two_pow,
};

verus! {

/// How far two numbers are apart.
pub open spec fn gap(a: int, b: int) -> int {
    if a >= b {
        a - b
    } else {
        b - a
    }
}

/// A double precision value that is neither infinite nor not a number.
pub open spec fn finite64(bits: u64) -> bool {
    bits % 0x8000_0000_0000_0000 < 0x7ff0_0000_0000_0000
}

/// A finite double precision value in units of `2^-1074`.
pub open spec fn units64(bits: u64) -> int {
    let magnitude = bits % 0x8000_0000_0000_0000;
    let exponent = magnitude / 0x10_0000_0000_0000;
    let fraction = (magnitude % 0x10_0000_0000_0000) as int;
    let units = if exponent == 0 {
        fraction
    } else {
        (fraction + 0x10_0000_0000_0000) * two_pow((exponent - 1) as nat)
    };
    if bits >= 0x8000_0000_0000_0000 {
        -units
    } else {
        units
    }
}

/// A single precision value that is neither infinite nor not a number.
pub open spec fn finite32(bits: u32) -> bool {
    bits % 0x8000_0000 < 0x7f80_0000
}

/// A finite single precision value in units of `2^-149`.
pub open spec fn units32(bits: u32) -> int {
    let magnitude = bits % 0x8000_0000;
    let exponent = magnitude / 0x80_0000;
    let fraction = (magnitude % 0x80_0000) as int;
    let units = if exponent == 0 {
        fraction
    } else {
        (fraction + 0x80_0000) * two_pow((exponent - 1) as nat)
    };
    if bits >= 0x8000_0000 {
        -units
    } else {
        units
    }
}

/// No finite double precision value is closer to `num / den`, in units of `2^-1074`.
pub open spec fn closest64(bits: u64, num: int, den: int) -> bool {
    &&& finite64(bits)
    &&& forall|z: u64|
        finite64(z) ==> gap(units64(bits) * den, num) <= gap(#[trigger] units64(z) * den, num)
}

/// No finite single precision value is closer to `num / den`, in units of `2^-149`.
pub open spec fn closest32(bits: u32, num: int, den: int) -> bool {
    &&& finite32(bits)
    &&& forall|z: u32|
        finite32(z) ==> gap(units32(bits) * den, num) <= gap(#[trigger] units32(z) * den, num)
}

proof fn lemma_gap_times(a: int, b: int, k: int)
    requires
        k >= 0,
    ensures
        gap(a * k, b * k) == gap(a, b) * k,
{
    assert(gap(a * k, b * k) == gap(a, b) * k) by (nonlinear_arith)
        requires
            k >= 0,
    ;
}

proof fn lemma_same_scale(k: nat, d: nat, drop: nat, scale: nat, e: nat, c: nat)
    requires
        two_pow(e) * two_pow(c) == two_pow(drop) * scale,
    ensures
        (k * two_pow(e)) * (d * two_pow(c)) == (k * (d * two_pow(drop))) * scale,
{
    assert((k * two_pow(e)) * (d * two_pow(c)) == (k * (d * two_pow(drop))) * scale)
        by (nonlinear_arith)
        requires
            two_pow(e) * two_pow(c) == two_pow(drop) * scale,
    ;
}

/// A rounded significand is at least as close as any other value of the format: one with the same
/// or a larger unit is a multiple of the unit, and one with a smaller unit is below all of the
/// significands that can be.
proof fn lemma_rounded_is_closest(
    n: nat,
    d: nat,
    drop: nat,
    s: nat,
    e: nat,
    c: nat,
    half: nat,
    sz: nat,
    ez: nat,
)
    requires
        d > 0,
        e + c == drop + s,
        sz <= 2 * half,
        e > 0 ==> half * (d * two_pow(drop)) <= n,
    ensures
        gap(
            ((round_half_even(n, d * two_pow(drop)) * two_pow(e)) * (d * two_pow(c))) as int,
            (n * two_pow(s)) as int,
        ) <= gap(((sz * two_pow(ez)) * (d * two_pow(c))) as int, (n * two_pow(s)) as int),
{
    let unit = d * two_pow(drop);
    let m = round_half_even(n, unit);
    let scale = two_pow(s);
    lemma_two_pow_positive(drop);
    lemma_two_pow_positive(s);
    lemma_two_pow_positive(c);
    assert(unit > 0) by (nonlinear_arith)
        requires
            d > 0,
            two_pow(drop) >= 1,
            unit == d * two_pow(drop),
    ;
    lemma_two_pow_split(e, c);
    lemma_two_pow_split(drop, s);
    let p = two_pow(e) * two_pow(c);
    assert(p == two_pow(drop) * scale);
    lemma_same_scale(m, d, drop, scale, e, c);
    assert((m * two_pow(e)) * (d * two_pow(c)) == (m * unit) * scale);
    lemma_gap_times((m * unit) as int, n as int, scale as int);
    let z = (sz * two_pow(ez)) * (d * two_pow(c));
    let k: nat = if ez >= e {
        sz * two_pow((ez - e) as nat)
    } else {
        half
    };
    law_round_half_even_is_nearest(n, unit, k);
    assert(unit * m == m * unit && unit * k == k * unit) by (nonlinear_arith);
    assert(gap((m * unit) as int, n as int) <= gap((k * unit) as int, n as int));
    lemma_gap_times((k * unit) as int, n as int, scale as int);
    assert(gap((m * unit) as int, n as int) * scale <= gap((k * unit) as int, n as int) * scale)
        by (nonlinear_arith)
        requires
            gap((m * unit) as int, n as int) <= gap((k * unit) as int, n as int),
            scale >= 1,
    ;
    lemma_same_scale(k, d, drop, scale, e, c);
    if ez >= e {
        lemma_two_pow_split((ez - e) as nat, e);
        assert(sz * two_pow(ez) == k * two_pow(e)) by (nonlinear_arith)
            requires
                two_pow(ez) == two_pow((ez - e) as nat) * two_pow(e),
                k == sz * two_pow((ez - e) as nat),
        ;
    } else {
        lemma_two_pow_grows(ez, (e - 1) as nat);
        assert(two_pow(e) == 2 * two_pow((e - 1) as nat));
        assert(sz * two_pow(ez) <= half * two_pow(e)) by (nonlinear_arith)
            requires
                sz <= 2 * half,
                two_pow(ez) <= two_pow((e - 1) as nat),
                two_pow(e) == 2 * two_pow((e - 1) as nat),
        ;
        let f = d * two_pow(c);
        assert(z <= (half * two_pow(e)) * f) by (nonlinear_arith)
            requires
                z == (sz * two_pow(ez)) * f,
                sz * two_pow(ez) <= half * two_pow(e),
                f >= 0,
        ;
        assert((half * unit) * scale <= n * scale) by (nonlinear_arith)
            requires
                half * unit <= n,
                scale >= 1,
        ;
    }
}

/// The bits of a significand and an exponent, also where the significand has just reached the
/// next power of two.
proof fn lemma_fields64(e: nat, m: nat)
    requires
        m <= 0x20_0000_0000_0000,
        e > 0 ==> m >= 0x10_0000_0000_0000,
        e * 0x10_0000_0000_0000 + m < 0x8000_0000_0000_0000,
    ensures
        units64((e * 0x10_0000_0000_0000 + m) as u64) == m * two_pow(e),
{
    let bits = (e * 0x10_0000_0000_0000 + m) as u64;
    assert(two_pow(0) == 1);
    if m < 0x10_0000_0000_0000 {
        assert(e == 0);
        assert(bits / 0x10_0000_0000_0000 == 0);
        assert(m * 1 == m);
    } else if m < 0x20_0000_0000_0000 {
        assert(bits / 0x10_0000_0000_0000 == e + 1);
        assert(bits % 0x10_0000_0000_0000 == m - 0x10_0000_0000_0000);
    } else {
        assert(bits / 0x10_0000_0000_0000 == e + 2);
        assert(bits % 0x10_0000_0000_0000 == 0);
        assert(two_pow(e + 1) == 2 * two_pow(e));
        assert(0x10_0000_0000_0000 * (2 * two_pow(e)) == 0x20_0000_0000_0000 * two_pow(e));
    }
}

proof fn lemma_fields32(e: nat, m: nat)
    requires
        m <= 0x100_0000,
        e > 0 ==> m >= 0x80_0000,
        e * 0x80_0000 + m < 0x8000_0000,
    ensures
        units32((e * 0x80_0000 + m) as u32) == m * two_pow(e),
{
    let bits = (e * 0x80_0000 + m) as u32;
    assert(two_pow(0) == 1);
    if m < 0x80_0000 {
        assert(e == 0);
        assert(bits / 0x80_0000 == 0);
        assert(m * 1 == m);
    } else if m < 0x100_0000 {
        assert(bits / 0x80_0000 == e + 1);
        assert(bits % 0x80_0000 == m - 0x80_0000);
    } else {
        assert(bits / 0x80_0000 == e + 2);
        assert(bits % 0x80_0000 == 0);
        assert(two_pow(e + 1) == 2 * two_pow(e));
        assert(0x80_0000 * (2 * two_pow(e)) == 0x100_0000 * two_pow(e));
    }
}

/// Significand and exponent of a finite value without its sign.
pub proof fn lemma_parts64(a: u64)
    requires
        a < 0x7ff0_0000_0000_0000,
    ensures
        f64_significand(a) < 0x20_0000_0000_0000,
        -971 <= f64_shift(a) <= 1074,
        f64_shift(a) < 1074 ==> f64_significand(a) >= 0x10_0000_0000_0000,
        units64(a) == f64_significand(a) * two_pow((1074 - f64_shift(a)) as nat),
{
    assert(two_pow(0) == 1);
    let e = a / 0x10_0000_0000_0000;
    if e == 0 {
        assert(f64_significand(a) * 1 == f64_significand(a));
    }
}

pub proof fn lemma_parts32(a: u32)
    requires
        a < 0x7f80_0000,
    ensures
        f32_significand(a) < 0x100_0000,
        -104 <= f32_shift(a) <= 149,
        f32_shift(a) < 149 ==> f32_significand(a) >= 0x80_0000,
        units32(a) == f32_significand(a) * two_pow((149 - f32_shift(a)) as nat),
{
    assert(two_pow(0) == 1);
    let e = a / 0x80_0000;
    if e == 0 {
        assert(f32_significand(a) * 1 == f32_significand(a));
    }
}

pub proof fn lemma_sign64(bits: u64)
    ensures
        units64((bits % 0x8000_0000_0000_0000) as u64) >= 0,
        units64(bits) == if bits >= 0x8000_0000_0000_0000 {
            -units64((bits % 0x8000_0000_0000_0000) as u64)
        } else {
            units64((bits % 0x8000_0000_0000_0000) as u64)
        },
{
    let a = (bits % 0x8000_0000_0000_0000) as u64;
    let e = a / 0x10_0000_0000_0000;
    if e > 0 {
        let f = a % 0x10_0000_0000_0000 + 0x10_0000_0000_0000;
        lemma_two_pow_positive((e - 1) as nat);
        assert(f * two_pow((e - 1) as nat) >= 0) by (nonlinear_arith)
            requires
                f >= 0,
                two_pow((e - 1) as nat) >= 1,
        ;
    }
}

pub proof fn lemma_sign32(bits: u32)
    ensures
        units32((bits % 0x8000_0000) as u32) >= 0,
        units32(bits) == if bits >= 0x8000_0000 {
            -units32((bits % 0x8000_0000) as u32)
        } else {
            units32((bits % 0x8000_0000) as u32)
        },
{
    let a = (bits % 0x8000_0000) as u32;
    let e = a / 0x80_0000;
    if e > 0 {
        let f = a % 0x80_0000 + 0x80_0000;
        lemma_two_pow_positive((e - 1) as nat);
        assert(f * two_pow((e - 1) as nat) >= 0) by (nonlinear_arith)
            requires
                f >= 0,
                two_pow((e - 1) as nat) >= 1,
        ;
    }
}

/// Where a magnitude is closest among those without a sign, it is with its sign among all.
proof fn lemma_with_sign64(r: u64, exact: int, den: int, negative: bool)
    requires
        r < 0x7ff0_0000_0000_0000,
        exact >= 0,
        den >= 0,
        forall|z: u64|
            z < 0x7ff0_0000_0000_0000 ==> gap(units64(r) * den, exact) <= gap(
                #[trigger] units64(z) * den,
                exact,
            ),
    ensures
        negative ==> closest64((r + 0x8000_0000_0000_0000) as u64, -exact, den),
        !negative ==> closest64(r, exact, den),
{
    let bits = (if negative { r + 0x8000_0000_0000_0000 } else { r as int }) as u64;
    let target = if negative { -exact } else { exact };
    lemma_sign64(bits);
    lemma_sign64(r);
    assert(units64(0) == 0);
    assert(0 * den == 0);
    assert forall|z: u64| finite64(z) implies gap(units64(bits) * den, target) <= gap(
        #[trigger] units64(z) * den,
        target,
    ) by {
        let a = (z % 0x8000_0000_0000_0000) as u64;
        lemma_sign64(z);
        assert(gap(units64(r) * den, exact) <= gap(units64(a) * den, exact));
        assert(gap(units64(r) * den, exact) <= gap(units64(0) * den, exact));
        let u = units64(a) * den;
        assert((-units64(a)) * den == -u) by (nonlinear_arith)
            requires
                u == units64(a) * den,
        ;
        let v = units64(r) * den;
        assert((-units64(r)) * den == -v) by (nonlinear_arith)
            requires
                v == units64(r) * den,
        ;
        assert(u >= 0) by (nonlinear_arith)
            requires
                u == units64(a) * den,
                units64(a) >= 0,
                den >= 0,
        ;
    }
}

proof fn lemma_with_sign32(r: u32, exact: int, den: int, negative: bool)
    requires
        r < 0x7f80_0000,
        exact >= 0,
        den >= 0,
        forall|z: u32|
            z < 0x7f80_0000 ==> gap(units32(r) * den, exact) <= gap(
                #[trigger] units32(z) * den,
                exact,
            ),
    ensures
        negative ==> closest32((r + 0x8000_0000) as u32, -exact, den),
        !negative ==> closest32(r, exact, den),
{
    let bits = (if negative { r + 0x8000_0000 } else { r as int }) as u32;
    let target = if negative { -exact } else { exact };
    lemma_sign32(bits);
    lemma_sign32(r);
    assert(units32(0) == 0);
    assert(0 * den == 0);
    assert forall|z: u32| finite32(z) implies gap(units32(bits) * den, target) <= gap(
        #[trigger] units32(z) * den,
        target,
    ) by {
        let a = (z % 0x8000_0000) as u32;
        lemma_sign32(z);
        assert(gap(units32(r) * den, exact) <= gap(units32(a) * den, exact));
        assert(gap(units32(r) * den, exact) <= gap(units32(0) * den, exact));
        let u = units32(a) * den;
        assert((-units32(a)) * den == -u) by (nonlinear_arith)
            requires
                u == units32(a) * den,
        ;
        let v = units32(r) * den;
        assert((-units32(r)) * den == -v) by (nonlinear_arith)
            requires
                v == units32(r) * den,
        ;
        assert(u >= 0) by (nonlinear_arith)
            requires
                u == units32(a) * den,
                units32(a) >= 0,
                den >= 0,
        ;
    }
}

/// Two powers of two as one.
proof fn lemma_joined(a: nat, x: nat, b: nat, y: nat)
    ensures
        (a * two_pow(x)) * (b * two_pow(y)) == (a * b) * two_pow(x + y),
{
    lemma_two_pow_split(x, y);
    assert((a * two_pow(x)) * (b * two_pow(y)) == (a * b) * (two_pow(x) * two_pow(y)))
        by (nonlinear_arith);
}

/// The bits of a rounded significand are those of the closest value, unless they are beyond the
/// largest one.
proof fn lemma_closest_bits64(n: nat, d: nat, drop: nat, s: nat, e: nat, c: nat, num: int, den: int)
    requires
        d > 0,
        e + c == drop + s,
        e > 0 ==> 0x10_0000_0000_0000 * (d * two_pow(drop)) <= n,
        n <= 0x20_0000_0000_0000 * (d * two_pow(drop)),
        num == n * two_pow(s),
        den == d * two_pow(c),
        e * 0x10_0000_0000_0000 + round_half_even(n, d * two_pow(drop)) < 0x7ff0_0000_0000_0000,
    ensures
        ({
            let r = (e * 0x10_0000_0000_0000 + round_half_even(n, d * two_pow(drop))) as u64;
            &&& num >= 0
            &&& den >= 0
            &&& forall|z: u64|
                z < 0x7ff0_0000_0000_0000 ==> gap(units64(r) * den, num) <= gap(
                    #[trigger] units64(z) * den,
                    num,
                )
        }),
{
    let unit = d * two_pow(drop);
    lemma_two_pow_positive(drop);
    lemma_two_pow_positive(s);
    lemma_two_pow_positive(c);
    assert(unit > 0) by (nonlinear_arith)
        requires
            d > 0,
            two_pow(drop) >= 1,
            unit == d * two_pow(drop),
    ;
    assert(0 * unit == 0);
    lemma_round_even_bounds(n, unit, 0, 0x20_0000_0000_0000);
    if e > 0 {
        lemma_round_even_bounds(n, unit, 0x10_0000_0000_0000, 0x20_0000_0000_0000);
    }
    let m = round_half_even(n, unit);
    lemma_fields64(e, m);
    assert(num >= 0 && den >= 0) by (nonlinear_arith)
        requires
            num == n * two_pow(s),
            den == d * two_pow(c),
    ;
    let r = (e * 0x10_0000_0000_0000 + m) as u64;
    assert forall|z: u64| z < 0x7ff0_0000_0000_0000 implies gap(units64(r) * den, num) <= gap(
        #[trigger] units64(z) * den,
        num,
    ) by {
        lemma_parts64(z);
        lemma_rounded_is_closest(
            n,
            d,
            drop,
            s,
            e,
            c,
            0x10_0000_0000_0000,
            f64_significand(z),
            (1074 - f64_shift(z)) as nat,
        );
    }
}

proof fn lemma_closest_bits32(n: nat, d: nat, drop: nat, s: nat, e: nat, c: nat, num: int, den: int)
    requires
        d > 0,
        e + c == drop + s,
        e > 0 ==> 0x80_0000 * (d * two_pow(drop)) <= n,
        n <= 0x100_0000 * (d * two_pow(drop)),
        num == n * two_pow(s),
        den == d * two_pow(c),
        e * 0x80_0000 + round_half_even(n, d * two_pow(drop)) < 0x7f80_0000,
    ensures
        ({
            let r = (e * 0x80_0000 + round_half_even(n, d * two_pow(drop))) as u32;
            &&& num >= 0
            &&& den >= 0
            &&& forall|z: u32|
                z < 0x7f80_0000 ==> gap(units32(r) * den, num) <= gap(
                    #[trigger] units32(z) * den,
                    num,
                )
        }),
{
    let unit = d * two_pow(drop);
    lemma_two_pow_positive(drop);
    lemma_two_pow_positive(s);
    lemma_two_pow_positive(c);
    assert(unit > 0) by (nonlinear_arith)
        requires
            d > 0,
            two_pow(drop) >= 1,
            unit == d * two_pow(drop),
    ;
    assert(0 * unit == 0);
    lemma_round_even_bounds(n, unit, 0, 0x100_0000);
    if e > 0 {
        lemma_round_even_bounds(n, unit, 0x80_0000, 0x100_0000);
    }
    let m = round_half_even(n, unit);
    lemma_fields32(e, m);
    assert(num >= 0 && den >= 0) by (nonlinear_arith)
        requires
            num == n * two_pow(s),
            den == d * two_pow(c),
    ;
    let r = (e * 0x80_0000 + m) as u32;
    assert forall|z: u32| z < 0x7f80_0000 implies gap(units32(r) * den, num) <= gap(
        #[trigger] units32(z) * den,
        num,
    ) by {
        lemma_parts32(z);
        lemma_rounded_is_closest(
            n,
            d,
            drop,
            s,
            e,
            c,
            0x80_0000,
            f32_significand(z),
            (149 - f32_shift(z)) as nat,
        );
    }
}

/// Bounds of a significand of which the excess bits are dropped, and at least some given ones.
proof fn lemma_kept_bounds(n: nat, precision: nat, drop: nat, enough: bool)
    requires
        precision > 0,
        drop >= excess_bits(n, precision),
        enough ==> drop == excess_bits(n, precision) && n >= two_pow((precision - 1) as nat),
    ensures
        n <= two_pow(precision) * two_pow(drop),
        enough ==> two_pow((precision - 1) as nat) * two_pow(drop) <= n,
{
    lemma_shifted_below(n, precision);
    lemma_two_pow_grows(excess_bits(n, precision), drop);
    lemma_two_pow_positive(precision);
    assert(two_pow(precision) * two_pow(excess_bits(n, precision)) <= two_pow(precision) * two_pow(
        drop,
    )) by (nonlinear_arith)
        requires
            two_pow(excess_bits(n, precision)) <= two_pow(drop),
    ;
    if enough {
        if excess_bits(n, precision) > 0 {
            lemma_excess_fills(n, precision);
        } else {
            assert(two_pow(0) == 1);
            assert(two_pow((precision - 1) as nat) * 1 == two_pow((precision - 1) as nat));
        }
    }
}

/// A product is rounded to the closest value: no other one is nearer to the exact product.
pub proof fn law_product_is_closest(x: u64, y: u64)
    requires
        finite64(x),
        finite64(y),
        finite64(f64_product_of(x, y) as u64),
    ensures
        closest64(f64_product_of(x, y) as u64, units64(x) * units64(y), two_pow(1074) as int),
{
    let a = (x % 0x8000_0000_0000_0000) as u64;
    let b = (y % 0x8000_0000_0000_0000) as u64;
    lemma_sign64(x);
    lemma_sign64(y);
    lemma_parts64(a);
    lemma_parts64(b);
    let n = f64_significand(a) * f64_significand(b);
    let t = f64_shift(a) + f64_shift(b);
    let negative = (x >= 0x8000_0000_0000_0000) != (y >= 0x8000_0000_0000_0000);
    let num = units64(a) * units64(b);
    let den = two_pow(1074) as int;
    let r = f64_finite_product(a, b) as u64;
    lemma_joined(
        f64_significand(a),
        (1074 - f64_shift(a)) as nat,
        f64_significand(b),
        (1074 - f64_shift(b)) as nat,
    );
    assert(num == n * two_pow((2148 - t) as nat));
    if n == 0 {
        assert(0 * two_pow((2148 - t) as nat) == 0);
        assert(units64(0) == 0);
        assert(0 * den == 0);
        assert forall|z: u64| z < 0x7ff0_0000_0000_0000 implies gap(units64(r) * den, num) <= gap(
            #[trigger] units64(z) * den,
            num,
        ) by {}
    } else {
        let drop = crate::softfloat::f64_dropped(a, b);
        let precise = excess_bits(n, 53);
        let e = (drop - (t - 1074)) as nat;
        lemma_two_pow_values();
        let enough = e > 0;
        if enough {
            lemma_enough(a, b);
        }
        assert(two_pow((53 - 1) as nat) == 0x10_0000_0000_0000);
        lemma_kept_bounds(n, 53, drop as nat, enough);
        assert(1 * two_pow(drop as nat) == two_pow(drop as nat));
        assert(1 * two_pow(1074) == two_pow(1074));
        lemma_closest_bits64(
            n,
            1,
            drop as nat,
            (2148 - t) as nat,
            e,
            1074,
            num,
            den,
        );
    }
    lemma_with_sign64(r, num, den, negative);
    let ux = units64(x);
    let uy = units64(y);
    assert(ux * uy == if negative { -num } else { num }) by (nonlinear_arith)
        requires
            num == units64(a) * units64(b),
            ux == units64(a) || ux == -units64(a),
            uy == units64(b) || uy == -units64(b),
            negative == ((ux == -units64(a) && x >= 0x8000_0000_0000_0000) != (uy == -units64(b)
                && y >= 0x8000_0000_0000_0000)),
            x >= 0x8000_0000_0000_0000 ==> ux == -units64(a),
            x < 0x8000_0000_0000_0000 ==> ux == units64(a),
            y >= 0x8000_0000_0000_0000 ==> uy == -units64(b),
            y < 0x8000_0000_0000_0000 ==> uy == units64(b),
    ;
}

/// Bits that are not those of a finite value come of a significand beyond the largest one.
proof fn lemma_overflow64(n: nat, drop: nat, s: nat, e: nat, c: nat)
    requires
        e + c == drop + s,
        e > 0 ==> 0x10_0000_0000_0000 * two_pow(drop) <= n,
        n <= 0x20_0000_0000_0000 * two_pow(drop),
        n * two_pow(s) <= (0x1f_ffff_ffff_ffff * two_pow(2045)) * two_pow(c),
    ensures
        e * 0x10_0000_0000_0000 + round_half_even(n, two_pow(drop)) < 0x7ff0_0000_0000_0000,
{
    let unit = two_pow(drop);
    lemma_two_pow_positive(drop);
    lemma_two_pow_positive(s);
    lemma_two_pow_positive(c);
    lemma_two_pow_positive(2045);
    assert(0 * unit == 0);
    lemma_round_even_bounds(n, unit, 0, 0x20_0000_0000_0000);
    if e >= 2045 {
        lemma_two_pow_split(e, c);
        lemma_two_pow_split(drop, s);
        lemma_two_pow_grows(2045, e);
        let top = two_pow(2045);
        let scale = two_pow(s);
        if e >= 2046 {
            assert(two_pow(2046) == 2 * top);
            lemma_two_pow_grows(2046, e);
            assert(false) by (nonlinear_arith)
                requires
                    0x10_0000_0000_0000 * unit <= n,
                    n * scale <= (0x1f_ffff_ffff_ffff * top) * two_pow(c),
                    two_pow(e) * two_pow(c) == unit * scale,
                    two_pow(e) >= 2 * top,
                    top >= 1,
                    scale >= 1,
                    two_pow(c) >= 1,
            ;
        }
        assert(n <= 0x1f_ffff_ffff_ffff * unit) by (nonlinear_arith)
            requires
                n * scale <= (0x1f_ffff_ffff_ffff * top) * two_pow(c),
                top * two_pow(c) == unit * scale,
                scale >= 1,
        ;
        lemma_round_even_bounds(n, unit, 0, 0x1f_ffff_ffff_ffff);
    }
}

/// A product of finite values is finite unless it is beyond the largest value.
pub proof fn law_product_overflows_late(x: u64, y: u64)
    requires
        finite64(x),
        finite64(y),
        gap(units64(x) * units64(y), 0) <= units64(0x7fef_ffff_ffff_ffff) * two_pow(1074),
    ensures
        finite64(f64_product_of(x, y) as u64),
{
    let a = (x % 0x8000_0000_0000_0000) as u64;
    let b = (y % 0x8000_0000_0000_0000) as u64;
    lemma_sign64(x);
    lemma_sign64(y);
    lemma_parts64(a);
    lemma_parts64(b);
    let n = f64_significand(a) * f64_significand(b);
    let t = f64_shift(a) + f64_shift(b);
    lemma_joined(
        f64_significand(a),
        (1074 - f64_shift(a)) as nat,
        f64_significand(b),
        (1074 - f64_shift(b)) as nat,
    );
    let num = units64(a) * units64(b);
    assert(num == n * two_pow((2148 - t) as nat));
    let ux = units64(x);
    let uy = units64(y);
    assert(gap(ux * uy, 0) == num) by (nonlinear_arith)
        requires
            num == units64(a) * units64(b),
            units64(a) >= 0,
            units64(b) >= 0,
            ux == units64(a) || ux == -units64(a),
            uy == units64(b) || uy == -units64(b),
    ;
    if n > 0 {
        let drop = crate::softfloat::f64_dropped(a, b);
        let e = (drop - (t - 1074)) as nat;
        lemma_two_pow_values();
        if e > 0 {
            lemma_enough(a, b);
        }
        assert(two_pow((53 - 1) as nat) == 0x10_0000_0000_0000);
        lemma_kept_bounds(n, 53, drop as nat, e > 0);
        assert(units64(0x7fef_ffff_ffff_ffff) == 0x1f_ffff_ffff_ffff * two_pow(2045));
        lemma_overflow64(n, drop as nat, (2148 - t) as nat, e, 1074);
    }
}

/// The product of significands fills the precision, unless both values are so small that what
/// is kept is counted in the smallest unit.
proof fn lemma_enough(a: u64, b: u64)
    requires
        a < 0x7ff0_0000_0000_0000,
        b < 0x7ff0_0000_0000_0000,
        f64_significand(a) * f64_significand(b) > 0,
        crate::softfloat::f64_dropped(a, b) > f64_shift(a) + f64_shift(b) - 1074,
    ensures
        f64_significand(a) * f64_significand(b) >= 0x10_0000_0000_0000,
{
    lemma_parts64(a);
    lemma_parts64(b);
    let n = f64_significand(a) * f64_significand(b);
    lemma_two_pow_values();
    if f64_shift(a) == 1074 && f64_shift(b) == 1074 {
        // Both are below the smallest normal value: all is dropped.
        lemma_two_pow_split(53, 53);
        assert(n < two_pow(106)) by (nonlinear_arith)
            requires
                n == f64_significand(a) * f64_significand(b),
                f64_significand(a) < 0x20_0000_0000_0000,
                f64_significand(b) < 0x20_0000_0000_0000,
                two_pow(106) == 0x20_0000_0000_0000 * 0x20_0000_0000_0000,
        ;
        lemma_excess_bound(n, 53, 53);
    } else {
        assert(f64_significand(a) >= 1 && f64_significand(b) >= 1) by (nonlinear_arith)
            requires
                n == f64_significand(a) * f64_significand(b),
                n > 0,
        ;
        assert(n >= 0x10_0000_0000_0000) by (nonlinear_arith)
            requires
                n == f64_significand(a) * f64_significand(b),
                f64_significand(a) >= 0x10_0000_0000_0000 || f64_significand(b)
                    >= 0x10_0000_0000_0000,
                f64_significand(a) >= 1,
                f64_significand(b) >= 1,
        ;
    }
}

/// A product is negative exactly if one factor is, and a number unless a factor is none or zero
/// meets infinity.
pub proof fn law_product_signs(x: u64, y: u64)
    ensures
        ({
            let p = f64_product_of(x, y) as u64;
            let a = x % 0x8000_0000_0000_0000;
            let b = y % 0x8000_0000_0000_0000;
            let nan = |v: int| v > 0x7ff0_0000_0000_0000;
            let lost = nan(a as int) || nan(b as int) || (a == 0x7ff0_0000_0000_0000 && b == 0) || (a
                == 0 && b == 0x7ff0_0000_0000_0000);
            &&& nan((p % 0x8000_0000_0000_0000) as int) == lost
            &&& !lost ==> ((p >= 0x8000_0000_0000_0000) == ((x >= 0x8000_0000_0000_0000) != (y
                >= 0x8000_0000_0000_0000)))
            &&& !lost && !(finite64(x) && finite64(y)) ==> p % 0x8000_0000_0000_0000
                == 0x7ff0_0000_0000_0000
        }),
{
    let a = (x % 0x8000_0000_0000_0000) as u64;
    let b = (y % 0x8000_0000_0000_0000) as u64;
    if a < 0x7ff0_0000_0000_0000 && b < 0x7ff0_0000_0000_0000 {
        lemma_finite_product_bits(a, b);
    }
}

pub proof fn lemma_finite_product_bits(a: u64, b: u64)
    requires
        a < 0x7ff0_0000_0000_0000,
        b < 0x7ff0_0000_0000_0000,
    ensures
        0 <= f64_finite_product(a, b) <= 0x7ff0_0000_0000_0000,
{
    let n = f64_significand(a) * f64_significand(b);
    let drop = crate::softfloat::f64_dropped(a, b);
    let e = drop - (f64_shift(a) + f64_shift(b) - 1074);
    assert(e * 0x10_0000_0000_0000 >= 0) by (nonlinear_arith)
        requires
            e >= 0,
    ;
}

/// A quotient is rounded to the closest value: no other one is nearer to the exact quotient.
pub proof fn law_ratio_is_closest(x: u64, y: u64)
    requires
        finite64(x),
        finite64(y),
        units64(y) != 0,
        finite64(f64_ratio_of(x, y) as u64),
    ensures
        units64(y) > 0 ==> closest64(
            f64_ratio_of(x, y) as u64,
            units64(x) * two_pow(1074),
            units64(y),
        ),
        units64(y) < 0 ==> closest64(
            f64_ratio_of(x, y) as u64,
            -units64(x) * two_pow(1074),
            -units64(y),
        ),
{
    let a = (x % 0x8000_0000_0000_0000) as u64;
    let b = (y % 0x8000_0000_0000_0000) as u64;
    lemma_sign64(x);
    lemma_sign64(y);
    lemma_parts64(a);
    lemma_parts64(b);
    assert(units64(0) == 0);
    let sa = f64_significand(a);
    let sb = f64_significand(b);
    let negative = (x >= 0x8000_0000_0000_0000) != (y >= 0x8000_0000_0000_0000);
    let p = two_pow(1074) as int;
    let num = units64(a) * p;
    let den = units64(b);
    let r = (if a == 0 { 0 } else { f64_finite_ratio(a, b) }) as u64;
    if a == 0 {
        assert(0 * p == 0);
        assert(0 * den == 0);
        assert forall|z: u64| z < 0x7ff0_0000_0000_0000 implies gap(units64(r) * den, num) <= gap(
            #[trigger] units64(z) * den,
            num,
        ) by {}
    } else {
        assert(sa > 0);
        assert(sb > 0) by {
            if sb == 0 {
                assert(0 * two_pow((1074 - f64_shift(b)) as nat) == 0);
            }
        }
        let target = sb * 0x10_0000_0000_0000;
        let k = doublings(sa, target);
        let n = sa * two_pow(k);
        lemma_doublings_fit(sa, target);
        lemma_two_pow_values();
        // A significand has at most 106 bits to go.
        lemma_two_pow_split(53, 53);
        assert(target <= sa * two_pow(106)) by (nonlinear_arith)
            requires
                sa >= 1,
                target == sb * 0x10_0000_0000_0000,
                sb < 0x20_0000_0000_0000,
                two_pow(106) == 0x20_0000_0000_0000 * 0x20_0000_0000_0000,
        ;
        lemma_few_doublings(sa, target, 106);
        assert(n <= 2 * target) by {
            if k > 0 {
                assert(two_pow(k) == 2 * two_pow((k - 1) as nat));
                assert(sa * (2 * two_pow((k - 1) as nat)) == 2 * (sa * two_pow((k - 1) as nat)))
                    by (nonlinear_arith);
            } else {
                assert(two_pow(0) == 1);
                assert(sa * 1 == sa);
            }
        }
        let below = f64_shift(a) - f64_shift(b) + k - 1074;
        let drop: nat = if below > 0 {
            below as nat
        } else {
            0
        };
        let e = (drop - below) as nat;
        let s = (2148 - f64_shift(a) - k) as nat;
        let c = (1074 - f64_shift(b)) as nat;
        lemma_two_pow_positive(drop);
        assert(two_pow(0) == 1);
        assert(n <= 0x20_0000_0000_0000 * (sb * two_pow(drop))) by (nonlinear_arith)
            requires
                n <= 2 * target,
                target == sb * 0x10_0000_0000_0000,
                two_pow(drop) >= 1,
        ;
        if e > 0 {
            assert(sb * two_pow(drop) == sb) by (nonlinear_arith)
                requires
                    two_pow(drop) == 1,
            ;
        }
        lemma_two_pow_split(k, s);
        lemma_two_pow_split((1074 - f64_shift(a)) as nat, 1074);
        assert(num == n * two_pow(s)) by (nonlinear_arith)
            requires
                num == (sa * two_pow((1074 - f64_shift(a)) as nat)) * p,
                p == two_pow(1074),
                n == sa * two_pow(k),
                two_pow(k + s) == two_pow(k) * two_pow(s),
                two_pow(k + s) == two_pow((1074 - f64_shift(a)) as nat) * two_pow(1074),
        ;
        lemma_closest_bits64(n, sb, drop, s, e, c, num, den);
    }
    lemma_with_sign64(r, num, den, negative);
    let ux = units64(x);
    assert(ux * p == num || ux * p == -num) by (nonlinear_arith)
        requires
            num == units64(a) * p,
            ux == units64(a) || ux == -units64(a),
    ;
    assert(-ux * p == -(ux * p)) by (nonlinear_arith);
}

/// Bits that [`f32_nearest`] gives are those of the closest value.
proof fn lemma_f32_nearest(n: nat, t: int, s: nat, c: nat)
    requires
        n > 0,
        c + 149 == s + t,
        n >= 0x80_0000 || t - 149 >= excess_bits(n, 24),
        f32_nearest(n, t) < 0x7f80_0000,
    ensures
        0 <= f32_nearest(n, t),
        forall|z: u32|
            z < 0x7f80_0000 ==> gap(
                units32(f32_nearest(n, t) as u32) * two_pow(c),
                (n * two_pow(s)) as int,
            ) <= gap(#[trigger] units32(z) * two_pow(c), (n * two_pow(s)) as int),
{
    let precise = excess_bits(n, 24) as int;
    let below = t - 149;
    let drop = (if below > precise { below } else { precise }) as nat;
    let e = (drop - below) as nat;
    lemma_two_pow_values();
    assert(two_pow((24 - 1) as nat) == 0x80_0000);
    lemma_kept_bounds(n, 24, drop, e > 0);
    assert(1 * two_pow(drop) == two_pow(drop));
    assert(1 * two_pow(c) == two_pow(c));
    lemma_closest_bits32(n, 1, drop, s, e, c, (n * two_pow(s)) as int, two_pow(c) as int);
}

/// A double precision value is converted to the closest single precision one.
pub proof fn law_single_precision_is_closest(x: u64)
    requires
        finite64(x),
        finite32(f32_of_f64(x) as u32),
    ensures
        closest32(f32_of_f64(x) as u32, units64(x), two_pow(925) as int),
{
    let a = (x % 0x8000_0000_0000_0000) as u64;
    lemma_sign64(x);
    lemma_parts64(a);
    let n = f64_significand(a);
    let t = f64_shift(a);
    let den = two_pow(925) as int;
    let num = units64(a);
    let r = f32_nearest(n, t) as u32;
    assert(f32_nearest(n, t) >= 0) by {
        let precise = excess_bits(n, 24) as int;
        let below = t - 149;
        let drop = if below > precise { below } else { precise };
        assert((drop - below) * 0x80_0000 >= 0) by (nonlinear_arith)
            requires
                drop >= below,
        ;
    }
    if n == 0 {
        assert(0 * two_pow((1074 - t) as nat) == 0);
        assert(units32(0) == 0);
        assert(0 * den == 0);
        assert forall|z: u32| z < 0x7f80_0000 implies gap(units32(r) * den, num) <= gap(
            #[trigger] units32(z) * den,
            num,
        ) by {}
    } else {
        if t == 1074 {
            lemma_two_pow_values();
            lemma_two_pow_grows(53, 900);
            lemma_two_pow_grows(53, 924);
            lemma_excess_bound(n, 24, 900);
        }
        lemma_f32_nearest(n, t, (1074 - t) as nat, 925);
    }
    lemma_with_sign32(r, num, den, x >= 0x8000_0000_0000_0000);
}

/// A product in single precision is rounded to the closest value.
pub proof fn law_single_product_is_closest(x: u32, y: u32)
    requires
        finite32(x),
        finite32(y),
        finite32(f32_product_of(x, y) as u32),
    ensures
        closest32(f32_product_of(x, y) as u32, units32(x) * units32(y), two_pow(149) as int),
{
    let a = (x % 0x8000_0000) as u32;
    let b = (y % 0x8000_0000) as u32;
    lemma_sign32(x);
    lemma_sign32(y);
    lemma_parts32(a);
    lemma_parts32(b);
    let sa = f32_significand(a);
    let sb = f32_significand(b);
    let n = sa * sb;
    let t = f32_shift(a) + f32_shift(b);
    let negative = (x >= 0x8000_0000) != (y >= 0x8000_0000);
    let num = units32(a) * units32(b);
    let den = two_pow(149) as int;
    let r = f32_nearest(n, t) as u32;
    assert(f32_nearest(n, t) >= 0) by {
        let precise = excess_bits(n, 24) as int;
        let below = t - 149;
        let drop = if below > precise { below } else { precise };
        assert((drop - below) * 0x80_0000 >= 0) by (nonlinear_arith)
            requires
                drop >= below,
        ;
    }
    lemma_joined(sa, (149 - f32_shift(a)) as nat, sb, (149 - f32_shift(b)) as nat);
    assert(num == n * two_pow((298 - t) as nat));
    if n == 0 {
        assert(0 * two_pow((298 - t) as nat) == 0);
        assert(units32(0) == 0);
        assert(0 * den == 0);
        assert forall|z: u32| z < 0x7f80_0000 implies gap(units32(r) * den, num) <= gap(
            #[trigger] units32(z) * den,
            num,
        ) by {}
    } else {
        assert(sa >= 1 && sb >= 1) by (nonlinear_arith)
            requires
                n == sa * sb,
                n > 0,
        ;
        if f32_shift(a) == 149 && f32_shift(b) == 149 {
            lemma_two_pow_values();
            lemma_two_pow_split(24, 24);
            assert(n < two_pow(48)) by (nonlinear_arith)
                requires
                    n == sa * sb,
                    sa < 0x100_0000,
                    sb < 0x100_0000,
                    two_pow(48) == 0x100_0000 * 0x100_0000,
            ;
            lemma_excess_bound(n, 24, 24);
        } else {
            assert(n >= 0x80_0000) by (nonlinear_arith)
                requires
                    n == sa * sb,
                    sa >= 0x80_0000 || sb >= 0x80_0000,
                    sa >= 1,
                    sb >= 1,
            ;
        }
        lemma_f32_nearest(n, t, (298 - t) as nat, 149);
    }
    lemma_with_sign32(r, num, den, negative);
    let ux = units32(x);
    let uy = units32(y);
    assert(ux * uy == if negative { -num } else { num }) by (nonlinear_arith)
        requires
            num == units32(a) * units32(b),
            x >= 0x8000_0000 ==> ux == -units32(a),
            x < 0x8000_0000 ==> ux == units32(a),
            y >= 0x8000_0000 ==> uy == -units32(b),
            y < 0x8000_0000 ==> uy == units32(b),
            negative == ((x >= 0x8000_0000) != (y >= 0x8000_0000)),
    ;
}

/// The quotient of two integers of up to 32 bits is the closest double precision value.
pub proof fn law_quotient_is_closest(a: nat, b: nat)
    requires
        a < 0x1_0000_0000,
        0 < b < 0x1_0000_0000,
    ensures
        0 <= f64_quotient_of(a, b) < 0x7ff0_0000_0000_0000,
        closest64(f64_quotient_of(a, b) as u64, (a * two_pow(1074)) as int, b as int),
{
    let num = a * two_pow(1074);
    let den = b as int;
    let r = f64_quotient_of(a, b) as u64;
    if a == 0 {
        assert(0 * two_pow(1074) == 0);
        assert(units64(0) == 0);
        assert(0 * den == 0);
        assert forall|z: u64| z < 0x7ff0_0000_0000_0000 implies gap(units64(r) * den, num as int)
            <= gap(#[trigger] units64(z) * den, num as int) by {}
    } else {
        lemma_two_pow_values();
        assert(two_pow((53 - 1) as nat) == 0x10_0000_0000_0000);
        let target = b * 0x10_0000_0000_0000;
        let k = doublings(a, target);
        lemma_doublings_fit(a, target);
        lemma_two_pow_split(64, 20);
        lemma_two_pow_split(12, 8);
        reveal_with_fuel(two_pow, 13);
        assert(two_pow(8) == 256 && two_pow(12) == 4096 && two_pow(20) == 0x10_0000);
        assert(target <= a * two_pow(84)) by (nonlinear_arith)
            requires
                a >= 1,
                target == b * 0x10_0000_0000_0000,
                b < 0x1_0000_0000,
                two_pow(84) == 0x1_0000_0000_0000_0000 * 0x10_0000,
        ;
        lemma_few_doublings(a, target, 84);
        assert(a * two_pow(19) < target) by {
            lemma_two_pow_split(12, 7);
            assert(two_pow(19) == 0x8_0000);
        }
        lemma_more_doublings(a, target, 19);
        let n = a * two_pow(k);
        assert(two_pow(k) == 2 * two_pow((k - 1) as nat));
        assert(n == 2 * (a * two_pow((k - 1) as nat))) by (nonlinear_arith)
            requires
                n == a * (2 * two_pow((k - 1) as nat)),
        ;
        assert(two_pow(0) == 1);
        assert(b * two_pow(0) == b) by (nonlinear_arith)
            requires
                two_pow(0) == 1,
        ;
        let s = (1074 - k) as nat;
        lemma_two_pow_split(k, s);
        assert(num == n * two_pow(s)) by (nonlinear_arith)
            requires
                num == a * two_pow(1074),
                n == a * two_pow(k),
                two_pow(1074) == two_pow(k) * two_pow(s),
        ;
        lemma_round_even_bounds(n, b, 0x10_0000_0000_0000, 0x20_0000_0000_0000);
        lemma_closest_bits64(n, b, 0, s, s, 0, num as int, den);
    }
    lemma_with_sign64(r, num as int, den, false);
}

/// The quotient of two integers of up to 24 bits is the closest single precision value.
pub proof fn law_single_quotient_is_closest(a: nat, b: nat)
    requires
        a < 0x100_0000,
        0 < b < 0x100_0000,
    ensures
        0 <= f32_quotient_of(a, b) < 0x7f80_0000,
        closest32(f32_quotient_of(a, b) as u32, (a * two_pow(149)) as int, b as int),
{
    let num = a * two_pow(149);
    let den = b as int;
    let r = f32_quotient_of(a, b) as u32;
    if a == 0 {
        assert(0 * two_pow(149) == 0);
        assert(units32(0) == 0);
        assert(0 * den == 0);
        assert forall|z: u32| z < 0x7f80_0000 implies gap(units32(r) * den, num as int) <= gap(
            #[trigger] units32(z) * den,
            num as int,
        ) by {}
    } else {
        lemma_two_pow_values();
        assert(two_pow((24 - 1) as nat) == 0x80_0000);
        assert(two_pow(0) == 1);
        assert(excess_bits(a, 24) == 0 && excess_bits(b, 24) == 0);
        assert(round_half_even(a, 1) == a && round_half_even(b, 1) == b);
        let target = b * 0x80_0000;
        let k = doublings(a, target);
        lemma_doublings_fit(a, target);
        lemma_two_pow_split(24, 23);
        assert(target <= a * two_pow(47)) by (nonlinear_arith)
            requires
                a >= 1,
                target == b * 0x80_0000,
                b < 0x100_0000,
                two_pow(47) == 0x100_0000 * 0x80_0000,
        ;
        lemma_few_doublings(a, target, 47);
        let n = a * two_pow(k);
        if k > 0 {
            assert(two_pow(k) == 2 * two_pow((k - 1) as nat));
            assert(n == 2 * (a * two_pow((k - 1) as nat))) by (nonlinear_arith)
                requires
                    n == a * (2 * two_pow((k - 1) as nat)),
            ;
        } else {
            assert(n == a) by (nonlinear_arith)
                requires
                    n == a * two_pow(0),
                    two_pow(0) == 1,
            ;
        }
        assert(b * two_pow(0) == b) by (nonlinear_arith)
            requires
                two_pow(0) == 1,
        ;
        let s = (149 - k) as nat;
        lemma_two_pow_split(k, s);
        assert(num == n * two_pow(s)) by (nonlinear_arith)
            requires
                num == a * two_pow(149),
                n == a * two_pow(k),
                two_pow(149) == two_pow(k) * two_pow(s),
        ;
        lemma_round_even_bounds(n, b, 0x80_0000, 0x100_0000);
        lemma_closest_bits32(n, b, 0, s, s, 0, num as int, den);
    }
    lemma_with_sign32(r, num as int, den, false);
}

proof fn lemma_single_integer(a: nat)
    requires
        a <= 0xffff_ffff,
    ensures
        0 <= f32_quotient_of(a, 1) < 0x7f80_0000,
        forall|z: u32|
            z < 0x7f80_0000 ==> gap(
                units32(f32_quotient_of(a, 1) as u32) * 1,
                (a * two_pow(149)) as int,
            ) <= gap(#[trigger] units32(z) * 1, (a * two_pow(149)) as int),
{
    let num = a * two_pow(149);
    let r = f32_quotient_of(a, 1) as u32;
    assert(two_pow(0) == 1);
    if a == 0 {
        assert(0 * two_pow(149) == 0);
    } else {
        lemma_two_pow_values();
        assert(two_pow((24 - 1) as nat) == 0x80_0000);
        assert(excess_bits(1, 24) == 0);
        assert(round_half_even(1, 1) == 1);
        let e = excess_bits(a, 24);
        lemma_two_pow_split(24, 8);
        reveal_with_fuel(two_pow, 9);
        assert(two_pow(8) == 256);
        lemma_excess_bound(a, 24, 8);
        let unit = two_pow(e);
        let m = round_half_even(a, unit);
        crate::softfloat::lemma_significand_bounds(a, 24);
        let target: nat = 1 * 0x80_0000;
        let k = doublings(m, target);
        lemma_doublings_fit(m, target);
        assert(0x80_0000 <= m * two_pow(23)) by (nonlinear_arith)
            requires
                m >= 1,
                two_pow(23) == 0x80_0000,
        ;
        lemma_few_doublings(m, target, 23);
        let n = m * two_pow(k);
        assert(round_half_even(n, 1) == n);
        let up = (149 - k + e) as nat;
        if k > 0 {
            assert(two_pow(k) == 2 * two_pow((k - 1) as nat));
            assert(n == 2 * (m * two_pow((k - 1) as nat))) by (nonlinear_arith)
                requires
                    n == m * (2 * two_pow((k - 1) as nat)),
            ;
        } else {
            assert(n == m) by (nonlinear_arith)
                requires
                    n == m * two_pow(0),
                    two_pow(0) == 1,
            ;
        }
        assert(r == up * 0x80_0000 + n);
        lemma_fields32(up, n);
        lemma_two_pow_split(k, up);
        lemma_two_pow_split(e, 149);
        assert(units32(r) == m * two_pow(e + 149)) by (nonlinear_arith)
            requires
                units32(r) == n * two_pow(up),
                n == m * two_pow(k),
                two_pow(k + up) == two_pow(k) * two_pow(up),
                k + up == e + 149,
        ;
        if e == 0 {
            assert(m == a);
        } else {
            lemma_excess_fills(a, 24);
            assert(1 * unit == unit);
            assert forall|z: u32| z < 0x7f80_0000 implies gap(units32(r) * 1, num as int) <= gap(
                #[trigger] units32(z) * 1,
                num as int,
            ) by {
                lemma_parts32(z);
                lemma_rounded_is_closest(
                    a,
                    1,
                    e,
                    149,
                    e + 149,
                    0,
                    0x80_0000,
                    f32_significand(z),
                    (149 - f32_shift(z)) as nat,
                );
                let u = (m * two_pow(e + 149)) as int;
                let v = (f32_significand(z) * two_pow((149 - f32_shift(z)) as nat)) as int;
                assert(u * (1 * two_pow(0)) == u && v * (1 * two_pow(0)) == v) by (nonlinear_arith)
                    requires
                        two_pow(0) == 1,
                ;
            }
        }
    }
}

/// An integer is converted to the closest single precision value.
pub proof fn law_integers_become_closest(x: i32)
    ensures
        closest32(f32_of_i32(x as int) as u32, x * two_pow(149), 1),
{
    let a = (if x < 0 { -x } else { x as int }) as nat;
    lemma_single_integer(a);
    lemma_with_sign32(f32_quotient_of(a, 1) as u32, (a * two_pow(149)) as int, 1, x < 0);
    assert((-a) * two_pow(149) == -(a * two_pow(149))) by (nonlinear_arith);
}

/// An integer that is not negative is converted to the closest single precision value.
pub proof fn law_whole_numbers_become_closest(n: u32)
    ensures
        closest32(f32_quotient_of(n as nat, 1) as u32, n * two_pow(149), 1),
{
    lemma_single_integer(n as nat);
    lemma_with_sign32(f32_quotient_of(n as nat, 1) as u32, n * two_pow(149), 1, false);
}

/// An integer is exact in double precision.
pub proof fn law_integers_are_exact(x: i32)
    ensures
        finite64(f64_of_i32(x as int) as u64),
        units64(f64_of_i32(x as int) as u64) == x * two_pow(1074),
{
    let a = (if x < 0 { -x } else { x as int }) as nat;
    let bits = f64_quotient_of(a, 1);
    law_quotient_is_closest(a, 1);
    assert(two_pow(0) == 1);
    if a == 0 {
        assert(0 * two_pow(1074) == 0);
    } else {
        lemma_two_pow_values();
        assert(two_pow((53 - 1) as nat) == 0x10_0000_0000_0000);
        let target: nat = 1 * 0x10_0000_0000_0000;
        let k = doublings(a, target);
        lemma_doublings_fit(a, target);
        assert(0x10_0000_0000_0000 <= a * two_pow(52)) by (nonlinear_arith)
            requires
                a >= 1,
                two_pow(52) == 0x10_0000_0000_0000,
        ;
        lemma_few_doublings(a, target, 52);
        lemma_more_doublings(a, target, 0);
        let n = a * two_pow(k);
        assert(round_half_even(n, 1) == n);
        assert(two_pow(k) == 2 * two_pow((k - 1) as nat));
        assert(n == 2 * (a * two_pow((k - 1) as nat))) by (nonlinear_arith)
            requires
                n == a * (2 * two_pow((k - 1) as nat)),
        ;
        let s = (1074 - k) as nat;
        assert(bits == s * 0x10_0000_0000_0000 + n);
        lemma_fields64(s, n);
        lemma_two_pow_split(k, s);
        assert(n * two_pow(s) == a * two_pow(1074)) by (nonlinear_arith)
            requires
                n == a * two_pow(k),
                two_pow(1074) == two_pow(k) * two_pow(s),
        ;
    }
    lemma_sign64(f64_of_i32(x as int) as u64);
    assert((-a) * two_pow(1074) == -(a * two_pow(1074))) by (nonlinear_arith);
}

/// Rounding is at most half a unit off.
proof fn lemma_half_up(n: nat, d: nat)
    requires
        d > 0,
    ensures
        2 * gap((round_half_up(n, d) * d) as int, n as int) <= d,
{
    let q = n / d;
    let r = n % d;
    vstd::arithmetic::div_mod::lemma_fundamental_div_mod(n as int, d as int);
    assert(q * d == d * q && (q + 1) * d == d * q + d) by (nonlinear_arith);
}

proof fn lemma_half_even(n: nat, d: nat)
    requires
        d > 0,
    ensures
        2 * gap((round_half_even(n, d) * d) as int, n as int) <= d,
{
    let q = n / d;
    let r = n % d;
    vstd::arithmetic::div_mod::lemma_fundamental_div_mod(n as int, d as int);
    assert(q * d == d * q && (q + 1) * d == d * q + d) by (nonlinear_arith);
}

/// Keeping a number of significant bits changes a number by at most that part of it.
proof fn lemma_kept_error(n: nat, precision: nat)
    requires
        precision > 0,
    ensures
        gap(to_precision(n, precision) as int, n as int) * two_pow(precision) <= n,
{
    let e = excess_bits(n, precision);
    let unit = two_pow(e);
    let error = gap(to_precision(n, precision) as int, n as int);
    lemma_two_pow_positive(e);
    lemma_half_even(n, unit);
    if e == 0 {
        assert(two_pow(0) == 1);
        assert(n % 1 == 0 && n / 1 == n);
        assert(n * 1 == n);
        assert(0 * two_pow(precision) == 0);
    } else {
        lemma_excess_fills(n, precision);
        let half = two_pow((precision - 1) as nat);
        assert(two_pow(precision) == 2 * half);
        assert(error * (2 * half) <= n) by (nonlinear_arith)
            requires
                2 * error <= unit,
                half * unit <= n,
                half >= 0,
                error >= 0,
        ;
    }
}

/// A product that is rounded to some bits first and then to an integer is at most half a unit off,
/// and what the first rounding adds.
proof fn lemma_scaled_error(m: nat, factor: nat, t: nat, precision: nat, up: nat)
    requires
        precision > 0,
    ensures
        2 * two_pow(precision) * gap(
            (scaled(m, factor, t, precision) * two_pow(t + up)) as int,
            ((m * two_pow(up)) * factor) as int,
        ) <= two_pow(precision) * two_pow(t + up) + 2 * ((m * two_pow(up)) * factor),
{
    let n = m * factor;
    let kept = to_precision(n, precision);
    let d = two_pow(t);
    let r = scaled(m, factor, t, precision);
    let p = two_pow(precision);
    let u = two_pow(up);
    lemma_two_pow_positive(t);
    lemma_two_pow_positive(up);
    lemma_two_pow_positive(precision);
    lemma_half_up(kept, d);
    lemma_kept_error(n, precision);
    lemma_two_pow_split(t, up);
    let first = gap(kept as int, n as int);
    let second = gap((r * d) as int, kept as int);
    let error = gap((r * d) as int, n as int);
    assert(error <= first + second);
    assert(2 * p * error <= p * d + 2 * n) by (nonlinear_arith)
        requires
            error <= first + second,
            2 * second <= d,
            first * p <= n,
            p >= 1,
    ;
    lemma_gap_times((r * d) as int, n as int, u as int);
    assert(r * two_pow(t + up) == (r * d) * u) by (nonlinear_arith)
        requires
            two_pow(t + up) == d * u,
    ;
    assert((m * u) * factor == n * u) by (nonlinear_arith)
        requires
            n == m * factor,
    ;
    assert(2 * p * (error * u) <= p * (d * u) + 2 * (n * u)) by (nonlinear_arith)
        requires
            2 * p * error <= p * d + 2 * n,
            u >= 1,
    ;
}

/// A coordinate in 16.16 fixed point is the nearest one, in range: at most half a unit of `2^-16`
/// off. What is negative becomes zero, and what is too large the largest one.
pub proof fn law_fixed_point_is_nearest(bits: u64)
    requires
        finite64(bits),
    ensures
        ({
            let fixed = fixed_16_16_of(bits);
            let wide = units64(bits) * 65536;
            let one = two_pow(1074) as int;
            &&& fixed <= 0xffff_ffff
            &&& units64(bits) < 0 ==> fixed == 0
            &&& units64(bits) >= 0 && fixed < 0xffff_ffff ==> 2 * gap(fixed * one, wide) <= one
            &&& fixed == 0xffff_ffff ==> 2 * wide >= (2 * 0xffff_ffff - 1) * one
        }),
{
    lemma_sign64(bits);
    let one = two_pow(1074) as int;
    lemma_two_pow_positive(1074);
    if bits <= 0x7ff0_0000_0000_0000 {
        lemma_parts64(bits);
        let m = f64_significand(bits);
        let t = f64_shift(bits);
        let up = (1074 - t) as nat;
        if bits >= 0x40f0_0000_0000_0000 {
            // At least 2^16.
            let e = bits / 0x10_0000_0000_0000;
            assert(e >= 1039);
            lemma_two_pow_values();
            lemma_two_pow_grows(1038, up);
            lemma_two_pow_split(1038, 36);
            lemma_two_pow_split(16, 36);
            reveal_with_fuel(two_pow, 17);
            assert(two_pow(16) == 65536);
            assert(m * two_pow(up) >= 65536 * one) by (nonlinear_arith)
                requires
                    m >= 0x10_0000_0000_0000,
                    two_pow(up) >= two_pow(1038),
                    one == two_pow(1038) * two_pow(36),
                    0x10_0000_0000_0000 == 65536 * two_pow(36),
            ;
            assert(2 * (units64(bits) * 65536) >= (2 * 0xffff_ffff - 1) * one) by (nonlinear_arith)
                requires
                    units64(bits) >= 65536 * one,
                    one >= 1,
            ;
        } else {
            let d = two_pow(t as nat);
            let n = m * 65536;
            let r = round_half_up(n, d);
            lemma_two_pow_positive(t as nat);
            lemma_two_pow_positive(up);
            lemma_half_up(n, d);
            lemma_two_pow_split(t as nat, up);
            let u = two_pow(up) as int;
            lemma_gap_times((r * d) as int, n as int, u);
            assert(r * one == (r * d) * u) by (nonlinear_arith)
                requires
                    one == d * u,
            ;
            assert(units64(bits) * 65536 == n * u) by (nonlinear_arith)
                requires
                    units64(bits) == m * u,
                    n == m * 65536,
            ;
            let error = gap((r * d) as int, n as int);
            assert(2 * (error * u) <= one) by (nonlinear_arith)
                requires
                    2 * error <= d,
                    one == d * u,
                    u >= 1,
            ;
            if r >= 0xffff_ffff {
                assert(2 * (n * u) >= (2 * 0xffff_ffff - 1) * one) by (nonlinear_arith)
                    requires
                        2 * gap(r * one, n * u) <= one,
                        gap(r * one, n * u) >= r * one - n * u,
                        r >= 0xffff_ffff,
                        one >= 1,
                ;
            }
        }
    }
}

/// An opacity is converted to units of `1 / 65535`: at most half a unit off, and what single
/// precision loses. Zero and one are exact.
pub proof fn law_alpha_is_nearest(bits: u32)
    requires
        bits <= 0x3f80_0000,
    ensures
        0x200_0000 * gap((alpha_units_of(bits) * two_pow(149)) as int, units32(bits) * 65535)
            <= 0x100_0000 * two_pow(149) + 2 * (units32(bits) * 65535),
{
    lemma_parts32(bits);
    lemma_two_pow_values();
    let t = f32_shift(bits) as nat;
    lemma_scaled_error(f32_significand(bits), 65535, t, 24, (149 - t) as nat);
}

/// A single precision value in `[0, 1]` is converted to 16 bits: at most half a unit off, and what
/// single precision loses. Values outside are limited to the range.
pub proof fn law_table_entries_are_nearest(bits: u32)
    ensures
        bits <= 0x3f80_0000 ==> 0x200_0000 * gap(
            (unorm16_of_f32(bits) * two_pow(149)) as int,
            units32(bits) * 65535,
        ) <= 0x100_0000 * two_pow(149) + 2 * (units32(bits) * 65535),
        0x3f80_0000 <= bits <= 0x7f80_0000 ==> unorm16_of_f32(bits) == 65535,
        bits > 0x7f80_0000 ==> unorm16_of_f32(bits) == 0,
{
    if bits <= 0x3f80_0000 {
        lemma_parts32(bits);
        lemma_two_pow_values();
        let t = f32_shift(bits) as nat;
        if bits < 0x3f80_0000 {
            lemma_scaled_error(f32_significand(bits), 65535, t, 24, (149 - t) as nat);
        } else {
            lemma_two_pow_split(23, 126);
            assert(units32(bits) == two_pow(149));
            lemma_two_pow_positive(149);
            assert(0x200_0000 * 0 <= 0x100_0000 * two_pow(149) + 2 * (units32(bits) * 65535));
        }
    }
}

/// A double precision value in `[0, 1]` is converted to an integer up to a maximum: at most half a
/// unit off, and what double precision loses. Values outside are limited to the range.
pub proof fn law_normalized_integers_are_nearest(bits: u64, max: nat)
    ensures
        bits < 0x3ff0_0000_0000_0000 ==> 0x40_0000_0000_0000 * gap(
            (unorm_of_f64(bits, max) * two_pow(1074)) as int,
            units64(bits) * max,
        ) <= 0x20_0000_0000_0000 * two_pow(1074) + 2 * (units64(bits) * max),
        0x3ff0_0000_0000_0000 <= bits <= 0x7ff0_0000_0000_0000 ==> unorm_of_f64(bits, max) == max,
        bits > 0x7ff0_0000_0000_0000 ==> unorm_of_f64(bits, max) == 0,
{
    if bits < 0x3ff0_0000_0000_0000 {
        lemma_parts64(bits);
        lemma_two_pow_values();
        let t = f64_shift(bits) as nat;
        lemma_scaled_error(f64_significand(bits), max, t, 53, (1074 - t) as nat);
    }
}

/// A chromaticity coordinate is converted to units of `1 / 50000`: at most half a unit off, and
/// what double precision loses, and limited to 16 bits.
pub proof fn law_coordinates_are_nearest(bits: u64)
    ensures
        bits < 0x3ff4_0000_0000_0000 ==> 0x40_0000_0000_0000 * gap(
            (cta_units_of(bits) * two_pow(1074)) as int,
            units64(bits) * 50000,
        ) <= 0x20_0000_0000_0000 * two_pow(1074) + 2 * (units64(bits) * 50000),
        0x4000_0000_0000_0000 <= bits <= 0x7ff0_0000_0000_0000 ==> cta_units_of(bits) == 65535,
        bits > 0x7ff0_0000_0000_0000 ==> cta_units_of(bits) == 0,
{
    if bits < 0x3ff4_0000_0000_0000 {
        lemma_parts64(bits);
        lemma_two_pow_values();
        let t = f64_shift(bits) as nat;
        let up = (1074 - t) as nat;
        let m = f64_significand(bits);
        lemma_scaled_error(m, 50000, t, 53, up);
        let units = scaled(m, 50000, t, 53);
        // Below 1.25 there are at most 62,500 units.
        let one = two_pow(1074) as int;
        lemma_two_pow_positive(1074);
        let exact = units64(bits) * 50000;
        assert(4 * units64(bits) <= 5 * one) by {
            if t == 52 {
                lemma_two_pow_split(52, 1022);
                assert(m <= 0x14_0000_0000_0000);
                assert(4 * (m * two_pow(1022)) <= 5 * (0x10_0000_0000_0000 * two_pow(1022)))
                    by (nonlinear_arith)
                    requires
                        m <= 0x14_0000_0000_0000,
                        two_pow(1022) >= 0,
                ;
            } else {
                lemma_two_pow_grows(up, 1021);
                lemma_two_pow_split(53, 1021);
                assert(4 * (m * two_pow(up)) <= 5 * (0x20_0000_0000_0000 * two_pow(1021)))
                    by (nonlinear_arith)
                    requires
                        m <= 0x20_0000_0000_0000,
                        two_pow(up) <= two_pow(1021),
                        two_pow(1021) >= 0,
                ;
            }
        }
        assert(units <= 65535) by (nonlinear_arith)
            requires
                0x40_0000_0000_0000 * gap(units * one, exact) <= 0x20_0000_0000_0000 * one + 2
                    * exact,
                gap(units * one, exact) >= units * one - exact,
                exact == units64(bits) * 50000,
                4 * units64(bits) <= 5 * one,
                one >= 1,
        ;
    }
}

/// The whole part of a value: the largest integer that is not above it, in range.
pub proof fn law_whole_part_is_floor(bits: u32)
    ensures
        bits < 0x4f80_0000 ==> f32_whole(bits) * two_pow(149) <= units32(bits) < (f32_whole(bits)
            + 1) * two_pow(149),
        0x4f80_0000 <= bits <= 0x7f80_0000 ==> f32_whole(bits) == 0xffff_ffff,
        bits > 0x7f80_0000 ==> f32_whole(bits) == 0,
{
    if bits < 0x4f80_0000 {
        lemma_parts32(bits);
        let m = f32_significand(bits);
        let t = f32_shift(bits);
        lemma_two_pow_positive(149);
        if t >= 0 {
            let d = two_pow(t as nat);
            let u = two_pow((149 - t) as nat);
            lemma_two_pow_positive(t as nat);
            lemma_two_pow_positive((149 - t) as nat);
            lemma_two_pow_split(t as nat, (149 - t) as nat);
            let q = m / d;
            let r = m % d;
            vstd::arithmetic::div_mod::lemma_fundamental_div_mod(m as int, d as int);
            assert(q * (d * u) <= m * u < (q + 1) * (d * u)) by (nonlinear_arith)
                requires
                    m == d * q + r,
                    0 <= r < d,
                    u >= 1,
            ;
        } else {
            lemma_two_pow_split((-t) as nat, 149);
            assert((m * two_pow((-t) as nat)) * two_pow(149) == m * two_pow((149 - t) as nat))
                by (nonlinear_arith)
                requires
                    two_pow((149 - t) as nat) == two_pow((-t) as nat) * two_pow(149),
            ;
            let w = m * two_pow((-t) as nat);
            assert((w + 1) * two_pow(149) == w * two_pow(149) + two_pow(149)) by (nonlinear_arith);
        }
    }
}

proof fn lemma_two_pow_32()
    ensures
        two_pow(32) == 0x1_0000_0000,
{
    reveal_with_fuel(two_pow, 17);
    assert(two_pow(16) == 0x1_0000);
    lemma_two_pow_split(16, 16);
}

proof fn lemma_s31_32_rounded(m: nat, t: nat, up: nat)
    requires
        t + 32 + up == 1074,
    ensures
        ({
            let r = round_half_up(m, two_pow(t)) as int;
            let wide = (m * two_pow(up)) * 0x1_0000_0000;
            let one = two_pow(1074) as int;
            &&& 2 * gap(r * one, wide as int) <= one
            &&& r >= 0x7fff_ffff_ffff_ffff ==> 2 * wide >= (2 * 0x7fff_ffff_ffff_ffff - 1) * one
        }),
{
    let one = two_pow(1074) as int;
    let wide = ((m * two_pow(up)) * 0x1_0000_0000) as int;
    let d = two_pow(t);
    let r = round_half_up(m, d) as int;
    lemma_two_pow_positive(t);
    lemma_two_pow_positive(1074);
    lemma_half_up(m, d);
    let u = two_pow(up + 32) as int;
    lemma_two_pow_positive(up + 32);
    lemma_two_pow_split(up, 32);
    lemma_two_pow_32();
    lemma_two_pow_split(t, up + 32);
    assert(wide == m * u) by (nonlinear_arith)
        requires
            wide == (m * two_pow(up)) * 0x1_0000_0000,
            u == two_pow(up) * 0x1_0000_0000,
    ;
    lemma_gap_times(r * d, m as int, u);
    assert(r * one == (r * d) * u) by (nonlinear_arith)
        requires
            one == d * u,
    ;
    let error = gap(r * d, m as int);
    assert(2 * (error * u) <= one) by (nonlinear_arith)
        requires
            2 * error <= d,
            one == d * u,
            u >= 1,
    ;
    assert((2 * 0x7fff_ffff_ffff_ffff - 1) * one == 2 * (0x7fff_ffff_ffff_ffff * one) - one)
        by (nonlinear_arith);
    if r >= 0x7fff_ffff_ffff_ffff {
        let total = r * one;
        assert(total >= 0x7fff_ffff_ffff_ffff * one) by (nonlinear_arith)
            requires
                total == r * one,
                r >= 0x7fff_ffff_ffff_ffff,
                one >= 1,
        ;
    }
}

proof fn lemma_s31_32_whole(m: nat, k: nat, up: nat)
    requires
        k + 1074 == up + 32,
    ensures
        ({
            let w = (m * two_pow(k)) as int;
            let wide = (m * two_pow(up)) * 0x1_0000_0000;
            let one = two_pow(1074) as int;
            &&& w * one == wide
            &&& w >= 0x7fff_ffff_ffff_ffff ==> 2 * wide >= (2 * 0x7fff_ffff_ffff_ffff - 1) * one
        }),
{
    let one = two_pow(1074) as int;
    let w = (m * two_pow(k)) as int;
    let wide = ((m * two_pow(up)) * 0x1_0000_0000) as int;
    lemma_two_pow_positive(1074);
    lemma_two_pow_split(k, 1074);
    lemma_two_pow_split(up, 32);
    lemma_two_pow_32();
    assert(w * one == wide) by (nonlinear_arith)
        requires
            w == m * two_pow(k),
            wide == (m * two_pow(up)) * 0x1_0000_0000,
            two_pow(k) * one == two_pow(up) * 0x1_0000_0000,
    ;
    assert((2 * 0x7fff_ffff_ffff_ffff - 1) * one == 2 * (0x7fff_ffff_ffff_ffff * one) - one)
        by (nonlinear_arith);
    if w >= 0x7fff_ffff_ffff_ffff {
        assert(wide >= 0x7fff_ffff_ffff_ffff * one) by (nonlinear_arith)
            requires
                w * one == wide,
                w >= 0x7fff_ffff_ffff_ffff,
                one >= 1,
        ;
    }
}

/// What a rounded and limited magnitude says of the exact one.
pub open spec fn limited_s31_32(magnitude: int, exact: int) -> bool {
    let one = two_pow(1074) as int;
    let wide = exact * 0x1_0000_0000;
    &&& 0 <= magnitude <= 0x7fff_ffff_ffff_ffff
    &&& magnitude < 0x7fff_ffff_ffff_ffff ==> 2 * gap(magnitude * one, wide) <= one
    &&& magnitude == 0x7fff_ffff_ffff_ffff ==> 2 * wide >= (2 * 0x7fff_ffff_ffff_ffff - 1) * one
}

proof fn lemma_s31_32_magnitude(a: u64)
    requires
        a < 0x7ff0_0000_0000_0000,
    ensures
        limited_s31_32(s31_32_magnitude(a) as int, units64(a)),
{
    lemma_parts64(a);
    lemma_two_pow_positive(1074);
    let m = f64_significand(a);
    let t = f64_shift(a) - 32;
    let up = (1074 - f64_shift(a)) as nat;
    assert(units64(a) * 0x1_0000_0000 == (m * two_pow(up)) * 0x1_0000_0000);
    if t >= 0 {
        lemma_s31_32_rounded(m, t as nat, up);
    } else {
        lemma_s31_32_whole(m, (-t) as nat, up);
    }
}

/// A matrix entry or gain in S31.32 is the nearest one, in range: at most half a unit of `2^-32`
/// off, with the sign in the upper bit. What is too large becomes the largest one.
pub proof fn law_s31_32_is_limited(bits: u64)
    requires
        finite64(bits),
    ensures
        ({
            let r = s31_32_saturated(bits);
            &&& (r >= 0x8000_0000_0000_0000) == (bits >= 0x8000_0000_0000_0000)
            &&& limited_s31_32((r % 0x8000_0000_0000_0000) as int, gap(units64(bits), 0))
        }),
{
    let a = (bits % 0x8000_0000_0000_0000) as u64;
    lemma_sign64(bits);
    lemma_s31_32_magnitude(a);
    assert(s31_32_saturated(bits) % 0x8000_0000_0000_0000 == s31_32_magnitude(a));
}

proof fn lemma_overflow32(n: nat, drop: nat, s: nat, e: nat, c: nat)
    requires
        e + c == drop + s,
        e > 0 ==> 0x80_0000 * two_pow(drop) <= n,
        n <= 0x100_0000 * two_pow(drop),
        n * two_pow(s) <= (0xff_ffff * two_pow(253)) * two_pow(c),
    ensures
        e * 0x80_0000 + round_half_even(n, two_pow(drop)) < 0x7f80_0000,
{
    let unit = two_pow(drop);
    lemma_two_pow_positive(drop);
    lemma_two_pow_positive(s);
    lemma_two_pow_positive(c);
    lemma_two_pow_positive(253);
    assert(0 * unit == 0);
    lemma_round_even_bounds(n, unit, 0, 0x100_0000);
    if e >= 253 {
        lemma_two_pow_split(e, c);
        lemma_two_pow_split(drop, s);
        lemma_two_pow_grows(253, e);
        let top = two_pow(253);
        let scale = two_pow(s);
        if e >= 254 {
            assert(two_pow(254) == 2 * top);
            lemma_two_pow_grows(254, e);
            assert(false) by (nonlinear_arith)
                requires
                    0x80_0000 * unit <= n,
                    n * scale <= (0xff_ffff * top) * two_pow(c),
                    two_pow(e) * two_pow(c) == unit * scale,
                    two_pow(e) >= 2 * top,
                    top >= 1,
                    scale >= 1,
                    two_pow(c) >= 1,
            ;
        }
        assert(n <= 0xff_ffff * unit) by (nonlinear_arith)
            requires
                n * scale <= (0xff_ffff * top) * two_pow(c),
                top * two_pow(c) == unit * scale,
                scale >= 1,
        ;
        lemma_round_even_bounds(n, unit, 0, 0xff_ffff);
    }
}

/// A double precision value becomes infinite in single precision only if it is beyond the largest
/// value.
pub proof fn law_single_precision_overflows_late(x: u64)
    requires
        finite64(x),
        gap(units64(x), 0) <= units32(0x7f7f_ffff) * two_pow(925),
    ensures
        finite32(f32_of_f64(x) as u32),
{
    let a = (x % 0x8000_0000_0000_0000) as u64;
    lemma_sign64(x);
    lemma_parts64(a);
    let n = f64_significand(a);
    let t = f64_shift(a);
    if n > 0 {
        let precise = excess_bits(n, 24) as int;
        let below = t - 149;
        let drop = (if below > precise { below } else { precise }) as nat;
        let e = (drop - below) as nat;
        lemma_two_pow_values();
        if t == 1074 {
            lemma_two_pow_grows(53, 900);
            lemma_two_pow_grows(53, 924);
            lemma_excess_bound(n, 24, 900);
        }
        assert(two_pow((24 - 1) as nat) == 0x80_0000);
        lemma_kept_bounds(n, 24, drop, e > 0);
        assert(units32(0x7f7f_ffff) == 0xff_ffff * two_pow(253));
        lemma_overflow32(n, drop, (1074 - t) as nat, e, 925);
    }
}

/// A product of positive values that is not among the smallest is off by at most one part in
/// `2^53`.
pub proof fn law_product_is_precise(x: u64, y: u64)
    requires
        x < 0x7ff0_0000_0000_0000,
        y < 0x7ff0_0000_0000_0000,
        f64_product_of(x, y) < 0x7ff0_0000_0000_0000,
        0x10_0000_0000_0000 * two_pow(1074) <= units64(x) * units64(y),
    ensures
        0 <= f64_product_of(x, y),
        gap(units64(f64_product_of(x, y) as u64) * two_pow(1074), units64(x) * units64(y))
            * 0x20_0000_0000_0000 <= units64(x) * units64(y),
{
    lemma_parts64(x);
    lemma_parts64(y);
    lemma_finite_product_bits(x, y);
    let n = f64_significand(x) * f64_significand(y);
    let t = f64_shift(x) + f64_shift(y);
    let s = (2148 - t) as nat;
    lemma_joined(
        f64_significand(x),
        (1074 - f64_shift(x)) as nat,
        f64_significand(y),
        (1074 - f64_shift(y)) as nat,
    );
    let exact = units64(x) * units64(y);
    assert(exact == n * two_pow(s));
    lemma_two_pow_positive(1074);
    lemma_two_pow_positive(s);
    if n == 0 {
        assert(0 * two_pow(s) == 0);
        assert(false);
    }
    let drop = crate::softfloat::f64_dropped(x, y) as nat;
    let e = (drop - (t - 1074)) as nat;
    lemma_two_pow_values();
    if e > 0 {
        lemma_enough(x, y);
    }
    assert(two_pow((53 - 1) as nat) == 0x10_0000_0000_0000);
    lemma_kept_bounds(n, 53, drop, e > 0);
    let unit = two_pow(drop);
    let m = round_half_even(n, unit);
    lemma_two_pow_positive(drop);
    assert(0 * unit == 0);
    lemma_round_even_bounds(n, unit, 0, 0x20_0000_0000_0000);
    if e > 0 {
        lemma_round_even_bounds(n, unit, 0x10_0000_0000_0000, 0x20_0000_0000_0000);
    }
    lemma_fields64(e, m);
    lemma_half_even(n, unit);
    lemma_two_pow_split(e, 1074);
    lemma_two_pow_split(drop, s);
    let scale = two_pow(s) as int;
    let p = f64_product_of(x, y) as u64;
    assert(units64(p) == m * two_pow(e));
    assert(units64(p) * two_pow(1074) == (m * unit) * scale) by (nonlinear_arith)
        requires
            units64(p) == m * two_pow(e),
            two_pow(e) * two_pow(1074) == unit * scale,
    ;
    lemma_gap_times((m * unit) as int, n as int, scale);
    let error = gap((m * unit) as int, n as int);
    // The unit is at most one part in 2^52 of the exact product.
    assert(0x10_0000_0000_0000 * (unit * scale) <= exact) by {
        if e > 0 {
            assert(0x10_0000_0000_0000 * (unit * scale) <= n * scale) by (nonlinear_arith)
                requires
                    0x10_0000_0000_0000 * unit <= n,
                    scale >= 1,
            ;
        } else {
            assert(two_pow(0) == 1);
            assert(unit * scale == two_pow(1074));
        }
    }
    assert((error * scale) * 0x20_0000_0000_0000 <= exact) by (nonlinear_arith)
        requires
            2 * error <= unit,
            0x10_0000_0000_0000 * (unit * scale) <= exact,
            scale >= 1,
    ;
}

/// A quotient of two integers of up to 32 bits is off by at most one part in `2^53`.
pub proof fn law_quotient_is_precise(a: nat, b: nat)
    requires
        0 < a < 0x1_0000_0000,
        0 < b < 0x1_0000_0000,
    ensures
        0 <= f64_quotient_of(a, b) < 0x7ff0_0000_0000_0000,
        gap(units64(f64_quotient_of(a, b) as u64) * b, (a * two_pow(1074)) as int)
            * 0x20_0000_0000_0000 <= a * two_pow(1074),
{
    law_quotient_is_closest(a, b);
    lemma_two_pow_values();
    assert(two_pow((53 - 1) as nat) == 0x10_0000_0000_0000);
    let target = b * 0x10_0000_0000_0000;
    let k = doublings(a, target);
    lemma_doublings_fit(a, target);
    lemma_two_pow_split(64, 20);
    lemma_two_pow_split(12, 8);
    reveal_with_fuel(two_pow, 13);
    assert(two_pow(8) == 256 && two_pow(12) == 4096 && two_pow(20) == 0x10_0000);
    assert(target <= a * two_pow(84)) by (nonlinear_arith)
        requires
            a >= 1,
            target == b * 0x10_0000_0000_0000,
            b < 0x1_0000_0000,
            two_pow(84) == 0x1_0000_0000_0000_0000 * 0x10_0000,
    ;
    lemma_few_doublings(a, target, 84);
    assert(a * two_pow(19) < target) by {
        lemma_two_pow_split(12, 7);
        assert(two_pow(19) == 0x8_0000);
    }
    lemma_more_doublings(a, target, 19);
    let n = a * two_pow(k);
    assert(two_pow(k) == 2 * two_pow((k - 1) as nat));
    assert(n == 2 * (a * two_pow((k - 1) as nat))) by (nonlinear_arith)
        requires
            n == a * (2 * two_pow((k - 1) as nat)),
    ;
    let s = (1074 - k) as nat;
    lemma_two_pow_split(k, s);
    let scale = two_pow(s) as int;
    lemma_two_pow_positive(s);
    let exact = (a * two_pow(1074)) as int;
    assert(exact == n * scale) by (nonlinear_arith)
        requires
            exact == a * two_pow(1074),
            n == a * two_pow(k),
            two_pow(1074) == two_pow(k) * scale,
    ;
    let m = round_half_even(n, b);
    lemma_round_even_bounds(n, b, 0x10_0000_0000_0000, 0x20_0000_0000_0000);
    lemma_fields64(s, m);
    lemma_half_even(n, b);
    let q = f64_quotient_of(a, b) as u64;
    let half = two_pow((53 - 1) as nat);
    assert(b * half == target);
    assert(f64_quotient_of(a, b) == s * half + m) by (nonlinear_arith)
        requires
            f64_quotient_of(a, b) == (1023 + 52 - k) * half + m - half,
            s == 1074 - k,
    ;
    assert(units64(q) == m * scale);
    assert(units64(q) * b == (m * b) * scale) by (nonlinear_arith)
        requires
            units64(q) == m * scale,
    ;
    lemma_gap_times((m * b) as int, n as int, scale);
    let error = gap((m * b) as int, n as int);
    assert((error * scale) * 0x20_0000_0000_0000 <= exact) by (nonlinear_arith)
        requires
            2 * error <= b,
            b * 0x10_0000_0000_0000 <= n,
            exact == n * scale,
            scale >= 1,
    ;
}

/// Finite values that are not negative are ordered as their bits are.
pub proof fn law_values_are_ordered(a: u64, b: u64)
    requires
        a < b < 0x7ff0_0000_0000_0000,
    ensures
        0 <= units64(a) < units64(b),
{
    let (ea, eb) = (a / 0x10_0000_0000_0000, b / 0x10_0000_0000_0000);
    let (ma, mb) = (f64_significand(a) as int, f64_significand(b) as int);
    lemma_parts64(a);
    lemma_parts64(b);
    let pa = two_pow((1074 - f64_shift(a)) as nat) as int;
    let pb = two_pow((1074 - f64_shift(b)) as nat) as int;
    lemma_two_pow_positive((1074 - f64_shift(a)) as nat);
    lemma_two_pow_positive((1074 - f64_shift(b)) as nat);
    assert(ma * pa >= 0) by (nonlinear_arith)
        requires
            ma >= 0,
            pa >= 1,
    ;
    if f64_shift(a) == f64_shift(b) {
        assert(ma * pa < mb * pa) by (nonlinear_arith)
            requires
                ma < mb,
                pa >= 1,
        ;
    } else {
        let da = (1074 - f64_shift(a)) as nat;
        lemma_two_pow_grows(da + 1, (1074 - f64_shift(b)) as nat);
        assert(two_pow(da + 1) == 2 * two_pow(da));
        assert(ma * pa < mb * pb) by (nonlinear_arith)
            requires
                0 <= ma < 0x20_0000_0000_0000,
                mb >= 0x10_0000_0000_0000,
                pb >= 2 * pa,
                pa >= 1,
        ;
    }
}

} // verus!
