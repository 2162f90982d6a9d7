//! Conversions between integers and IEEE 754 bit patterns.
//!
//! Binary floating point values are carried as their bit patterns: `u32` for single and `u64`
//! for double precision. The conversions here give the bits, or the integer, that correctly
//! rounded arithmetic gives.

use vstd::prelude::*;

verus! {

/// `2` to the power of `k`.
pub open spec fn two_pow(k: nat) -> nat
    decreases k,
{
    if k == 0 {
        1
    } else {
        2 * two_pow((k - 1) as nat)
    }
}

/// `n / d` rounded to the nearest integer, ties to even.
pub open spec fn round_half_even(n: nat, d: nat) -> nat {
    let q = n / d;
    let r = n % d;
    if 2 * r > d || (2 * r == d && q % 2 == 1) {
        q + 1
    } else {
        q
    }
}

/// `n / d` rounded to the nearest integer, ties away from zero.
pub open spec fn round_half_up(n: nat, d: nat) -> nat {
    if 2 * (n % d) >= d {
        n / d + 1
    } else {
        n / d
    }
}

/// Rounding gives an integer that is at least as close as any other.
pub proof fn law_round_half_even_is_nearest(n: nat, d: nat, k: nat)
    requires
        d > 0,
    ensures
        ({
            let m = round_half_even(n, d);
            let error = if n >= d * m { n - d * m } else { d * m - n };
            let other = if n >= d * k { n - d * k } else { d * k - n };
            error <= other
        }),
{
    let q = n / d;
    let r = n % d;
    vstd::arithmetic::div_mod::lemma_fundamental_div_mod(n as int, d as int);
    vstd::arithmetic::mul::lemma_mul_is_distributive_add(d as int, q as int, 1);
    if k <= q {
        vstd::arithmetic::mul::lemma_mul_inequality(k as int, q as int, d as int);
        vstd::arithmetic::mul::lemma_mul_is_commutative(k as int, d as int);
        vstd::arithmetic::mul::lemma_mul_is_commutative(q as int, d as int);
    } else {
        vstd::arithmetic::mul::lemma_mul_inequality(q as int + 1, k as int, d as int);
        vstd::arithmetic::mul::lemma_mul_is_commutative(k as int, d as int);
        vstd::arithmetic::mul::lemma_mul_is_commutative(q as int + 1, d as int);
    }
}

fn round_even(n: u128, d: u128) -> (r: u128)
    requires
        0 < d < 0x4000_0000_0000_0000_0000_0000_0000_0000,
        n < 0x4000_0000_0000_0000_0000_0000_0000_0000,
    ensures
        r == round_half_even(n as nat, d as nat),
{
    let q: u128 = n / d;
    let rem: u128 = n % d;
    assert(q <= n) by (nonlinear_arith)
        requires
            q == n / d,
            d > 0,
    ;
    if 2 * rem > d || (2 * rem == d && q % 2 == 1) {
        q + 1
    } else {
        q
    }
}

fn round_up(n: u128, d: u128) -> (r: u128)
    requires
        0 < d < 0x4000_0000_0000_0000_0000_0000_0000_0000,
        n < 0x4000_0000_0000_0000_0000_0000_0000_0000,
    ensures
        r == round_half_up(n as nat, d as nat),
{
    let q: u128 = n / d;
    let rem: u128 = n % d;
    assert(q <= n) by (nonlinear_arith)
        requires
            q == n / d,
            d > 0,
    ;
    if 2 * rem >= d {
        q + 1
    } else {
        q
    }
}

pub proof fn lemma_two_pow_positive(k: nat)
    ensures
        two_pow(k) >= 1,
    decreases k,
{
    if k > 0 {
        lemma_two_pow_positive((k - 1) as nat);
    }
}

pub proof fn lemma_two_pow_grows(j: nat, k: nat)
    requires
        j <= k,
    ensures
        two_pow(j) <= two_pow(k),
    decreases k - j,
{
    if j < k {
        lemma_two_pow_grows(j, (k - 1) as nat);
        lemma_two_pow_positive((k - 1) as nat);
    }
}

pub proof fn lemma_two_pow_values()
    ensures
        two_pow(23) == 0x80_0000,
        two_pow(24) == 0x100_0000,
        two_pow(52) == 0x10_0000_0000_0000,
        two_pow(53) == 0x20_0000_0000_0000,
        two_pow(64) == 0x1_0000_0000_0000_0000,
        two_pow(120) == 0x100_0000_0000_0000_0000_0000_0000_0000,
{
    reveal_with_fuel(two_pow, 13);
    assert(two_pow(12) == 0x1000);
    assert(two_pow(24) == 0x100_0000);
    assert(two_pow(36) == 0x10_0000_0000);
    assert(two_pow(48) == 0x1_0000_0000_0000);
    assert(two_pow(60) == 0x1000_0000_0000_0000);
    assert(two_pow(72) == 0x100_0000_0000_0000_0000);
    assert(two_pow(84) == 0x10_0000_0000_0000_0000_0000);
    assert(two_pow(96) == 0x1_0000_0000_0000_0000_0000_0000);
    assert(two_pow(108) == 0x1000_0000_0000_0000_0000_0000_0000);
    assert(two_pow(120) == 0x100_0000_0000_0000_0000_0000_0000_0000);
}

fn pow_of_two(k: u32) -> (r: u128)
    requires
        k <= 120,
    ensures
        r == two_pow(k as nat),
        1 <= r <= 0x100_0000_0000_0000_0000_0000_0000_0000,
{
    let mut r: u128 = 1;
    let mut i: u32 = 0;
    while i < k
        invariant
            i <= k <= 120,
            r == two_pow(i as nat),
        decreases k - i,
    {
        proof {
            lemma_two_pow_values();
            lemma_two_pow_grows(i as nat + 1, 120);
        }
        r = r * 2;
        i = i + 1;
    }
    proof {
        lemma_two_pow_values();
        lemma_two_pow_grows(k as nat, 120);
        lemma_two_pow_positive(k as nat);
    }
    r
}

/// Number of low bits that do not fit into `precision` significant bits.
pub open spec fn excess_bits(n: nat, precision: nat) -> nat
    decreases n,
{
    if n == 0 || n < two_pow(precision) {
        0
    } else {
        1 + excess_bits(n / 2, precision)
    }
}

/// `n` rounded to `precision` significant bits, ties to even.
pub open spec fn to_precision(n: nat, precision: nat) -> nat {
    let unit = two_pow(excess_bits(n, precision));
    round_half_even(n, unit) * unit
}

/// Number of low bits to drop, for up to 120 bits.
fn count_excess(n: u128, precision: u32) -> (k: u32)
    requires
        n < 0x100_0000_0000_0000_0000_0000_0000_0000,
        1 <= precision <= 53,
    ensures
        k == excess_bits(n as nat, precision as nat),
        k <= 119,
        two_pow(k as nat) <= n || k == 0,
{
    let limit: u128 = pow_of_two(precision);
    let mut x: u128 = n;
    let mut k: u32 = 0;
    proof {
        lemma_two_pow_values();
        assert(two_pow(0) == 1);
        assert(x as nat * 1 <= n);
    }
    while x >= limit
        invariant
            limit == two_pow(precision as nat),
            1 <= precision <= 53,
            1 <= limit,
            x <= n,
            n < 0x100_0000_0000_0000_0000_0000_0000_0000,
            excess_bits(n as nat, precision as nat) == k + excess_bits(
                x as nat,
                precision as nat,
            ),
            x as nat * two_pow(k as nat) <= n,
            n == 0 || x >= 1,
            k <= 119,
        decreases x,
    {
        proof {
            lemma_two_pow_positive((precision - 1) as nat);
            assert(limit >= 2);
            let y = x / 2;
            let p = two_pow(k as nat);
            assert(two_pow(k as nat + 1) == 2 * p);
            assert(y as nat * (2 * p) <= x as nat * p) by (nonlinear_arith)
                requires
                    y == x / 2,
            ;
            assert(y >= 1);
            assert(y as nat * two_pow(k as nat + 1) >= two_pow(k as nat + 1)) by (nonlinear_arith)
                requires
                    y >= 1,
            ;
            if k + 1 >= 120 {
                lemma_two_pow_values();
                lemma_two_pow_grows(120, k as nat + 1);
            }
        }
        x = x / 2;
        k = k + 1;
    }
    assert(two_pow(k as nat) <= n || n == 0) by (nonlinear_arith)
        requires
            x as nat * two_pow(k as nat) <= n,
            n == 0 || x >= 1,
    ;
    k
}

/// `round_half_even(n, unit) * unit` stays below twice `n`.
proof fn lemma_precision_bound(n: nat, unit: nat)
    requires
        unit > 0,
        unit <= n || unit == 1,
    ensures
        round_half_even(n, unit) * unit <= 2 * n,
{
    let q = n / unit;
    vstd::arithmetic::div_mod::lemma_fundamental_div_mod(n as int, unit as int);
    vstd::arithmetic::mul::lemma_mul_is_distributive_add(unit as int, q as int, 1);
    vstd::arithmetic::mul::lemma_mul_is_commutative(unit as int, q as int);
    vstd::arithmetic::mul::lemma_mul_is_commutative(unit as int, q as int + 1);
    if unit == 1 {
        assert(n % 1 == 0);
    }
}

fn keep_precision(n: u128, precision: u32) -> (r: u128)
    requires
        n < 0x100_0000_0000_0000_0000_0000_0000_0000,
        1 <= precision <= 53,
    ensures
        r == to_precision(n as nat, precision as nat),
        r <= 2 * n,
        n >= 1 ==> r >= 1,
{
    let k: u32 = count_excess(n, precision);
    let unit: u128 = pow_of_two(k);
    let m: u128 = round_even(n, unit);
    proof {
        lemma_precision_bound(n as nat, unit as nat);
        if n >= 1 {
            assert(n / unit >= 1) by (nonlinear_arith)
                requires
                    n >= unit,
                    unit >= 1,
            ;
            assert(m * unit >= 1) by (nonlinear_arith)
                requires
                    m >= 1,
                    unit >= 1,
            ;
        }
    }
    m * unit
}

/// The integer nearest to `m * factor / 2^t`, where the product is first rounded to
/// `precision` significant bits: what a floating point multiplication followed by a rounding
/// to an integer, ties away from zero, gives.
pub open spec fn scaled(m: nat, factor: nat, t: nat, precision: nat) -> nat {
    round_half_up(to_precision(m * factor, precision), two_pow(t))
}

fn scale_and_round(m: u64, factor: u64, t: u32, precision: u32) -> (r: u128)
    requires
        m < 0x20_0000_0000_0000,
        factor <= 0xffff_ffff,
        1 <= precision <= 53,
    ensures
        r == scaled(m as nat, factor as nat, t as nat, precision as nat),
{
    proof {
        assert(m * factor < 0x20_0000_0000_0000 * 0x1_0000_0000) by (nonlinear_arith)
            requires
                m < 0x20_0000_0000_0000,
                factor <= 0xffff_ffff,
        ;
        assert(0 <= m * factor) by (nonlinear_arith);
    }
    let product: u128 = m as u128 * factor as u128;
    let kept: u128 = keep_precision(product, precision);
    if t >= 120 {
        proof {
            lemma_two_pow_values();
            lemma_two_pow_grows(120, t as nat);
            vstd::arithmetic::div_mod::lemma_small_mod(kept as nat, two_pow(t as nat));
            vstd::arithmetic::div_mod::lemma_basic_div(kept as int, two_pow(t as nat) as int);
        }
        0
    } else {
        let d: u128 = pow_of_two(t);
        round_up(kept, d)
    }
}

/// Bits of the single precision value 1.0.
pub const F32_ONE: u32 = 0x3f80_0000;

/// Bits of the single precision infinity.
pub const F32_INFINITY: u32 = 0x7f80_0000;

/// Bits of the double precision value 1.0.
pub const F64_ONE: u64 = 0x3ff0_0000_0000_0000;

/// Bits of the double precision infinity.
pub const F64_INFINITY: u64 = 0x7ff0_0000_0000_0000;

/// Bit of the sign of a double precision value.
pub const F64_SIGN: u64 = 0x8000_0000_0000_0000;

/// Significand of a non-negative single precision value: the value is this times `2^-t` with
/// `t` from [`f32_shift`].
pub open spec fn f32_significand(bits: u32) -> nat {
    if bits / 0x80_0000 == 0 {
        bits as nat
    } else {
        (bits % 0x80_0000 + 0x80_0000) as nat
    }
}

/// See [`f32_significand`].
pub open spec fn f32_shift(bits: u32) -> int {
    if bits / 0x80_0000 == 0 {
        149
    } else {
        150 - bits / 0x80_0000
    }
}

/// Significand of a non-negative double precision value: the value is this times `2^-t` with
/// `t` from [`f64_shift`].
pub open spec fn f64_significand(bits: u64) -> nat {
    if bits / 0x10_0000_0000_0000 == 0 {
        bits as nat
    } else {
        (bits % 0x10_0000_0000_0000 + 0x10_0000_0000_0000) as nat
    }
}

/// See [`f64_significand`].
pub open spec fn f64_shift(bits: u64) -> int {
    if bits / 0x10_0000_0000_0000 == 0 {
        1074
    } else {
        1075 - bits / 0x10_0000_0000_0000
    }
}

/// Single precision value in `[0, 1]` as a 16 bit normalized integer; values outside are
/// limited to the range and what is not a number counts as zero.
pub open spec fn unorm16_of_f32(bits: u32) -> nat {
    if bits > F32_INFINITY {
        0
    } else if bits >= F32_ONE {
        65535
    } else {
        scaled(f32_significand(bits), 65535, f32_shift(bits) as nat, 24)
    }
}

/// Rounding `kept / d` stays within a limit.
pub proof fn lemma_round_up_bound(n: nat, d: nat, limit: nat)
    requires
        d > 0,
        n <= limit * d,
    ensures
        round_half_up(n, d) <= limit,
{
    vstd::arithmetic::div_mod::lemma_fundamental_div_mod(n as int, d as int);
    let q = n / d;
    let r = n % d;
    assert(q <= limit) by (nonlinear_arith)
        requires
            n == d * q + r,
            r >= 0,
            d > 0,
            n <= limit * d,
    ;
    if q == limit {
        assert(r == 0) by (nonlinear_arith)
            requires
                n == d * q + r,
                n <= limit * d,
                q == limit,
                r >= 0,
        ;
    }
}

/// A product below `limit` times a power of two does not grow beyond it when it is rounded.
proof fn lemma_precision_below(n: nat, precision: nat, limit: nat, t: nat)
    requires
        precision > 0,
        n <= limit * two_pow(t),
        excess_bits(n, precision) <= t,
    ensures
        to_precision(n, precision) <= limit * two_pow(t),
{
    let e = excess_bits(n, precision);
    let unit = two_pow(e);
    lemma_two_pow_positive(e);
    // `limit * 2^t` is a multiple of the rounding unit.
    let multiple = limit * two_pow((t - e) as nat);
    lemma_two_pow_split((t - e) as nat, e);
    assert(limit * two_pow(t) == multiple * unit) by (nonlinear_arith)
        requires
            two_pow(t) == two_pow((t - e) as nat) * unit,
            multiple == limit * two_pow((t - e) as nat),
    ;
    let q = n / unit;
    let r = n % unit;
    vstd::arithmetic::div_mod::lemma_fundamental_div_mod(n as int, unit as int);
    let m = round_half_even(n, unit);
    assert(q <= multiple) by (nonlinear_arith)
        requires
            n == unit * q + r,
            r >= 0,
            unit > 0,
            n <= multiple * unit,
    ;
    if q == multiple {
        assert(r == 0) by (nonlinear_arith)
            requires
                n == unit * q + r,
                n <= multiple * unit,
                q == multiple,
                r >= 0,
        ;
    }
    assert(m <= multiple);
    assert(m * unit <= multiple * unit) by (nonlinear_arith)
        requires
            m <= multiple,
    ;
}

pub proof fn lemma_two_pow_split(a: nat, b: nat)
    ensures
        two_pow(a + b) == two_pow(a) * two_pow(b),
    decreases a,
{
    if a > 0 {
        lemma_two_pow_split((a - 1) as nat, b);
        assert(two_pow(a + b) == 2 * two_pow((a + b - 1) as nat));
        assert((a + b - 1) as nat == (a - 1) as nat + b);
        vstd::arithmetic::mul::lemma_mul_is_associative(
            2,
            two_pow((a - 1) as nat) as int,
            two_pow(b) as int,
        );
    } else {
        assert(two_pow(0) == 1);
        assert(1 * two_pow(b) == two_pow(b));
    }
}

/// A number of at most `precision + e` bits has at most `e` excess bits.
pub proof fn lemma_excess_bound(n: nat, precision: nat, e: nat)
    requires
        precision > 0,
        n < two_pow(precision + e),
    ensures
        excess_bits(n, precision) <= e,
    decreases e,
{
    if n >= two_pow(precision) {
        if e == 0 {
            assert(false);
        } else {
            assert(two_pow(precision + e) == 2 * two_pow((precision + e - 1) as nat));
            assert((precision + e - 1) as nat == precision + (e - 1) as nat);
            lemma_excess_bound(n / 2, precision, (e - 1) as nat);
        }
    }
}

/// See [`unorm16_of_f32`].
pub fn unorm16_from_f32(bits: u32) -> (r: u16)
    ensures
        r == unorm16_of_f32(bits),
{
    if bits > F32_INFINITY {
        return 0;
    }
    if bits >= F32_ONE {
        return 65535;
    }
    let exponent: u32 = bits / 0x80_0000;
    let m: u64 = if exponent == 0 {
        bits as u64
    } else {
        (bits % 0x80_0000 + 0x80_0000) as u64
    };
    let t: u32 = if exponent == 0 { 149 } else { 150 - exponent };
    let r: u128 = scale_and_round(m, 65535, t, 24);
    proof {
        // The significand is below 2^24 and the shift is at least 24.
        lemma_two_pow_values();
        let n = m as nat * 65535;
        lemma_two_pow_split(24, 16);
        reveal_with_fuel(two_pow, 17);
        assert(two_pow(16) == 0x1_0000);
        assert(n < two_pow(24) * two_pow(16));
        lemma_excess_bound(n, 24, 16);
        lemma_two_pow_grows(24, t as nat);
        assert(n <= 65535 * two_pow(t as nat)) by (nonlinear_arith)
            requires
                n == m as nat * 65535,
                m < 0x100_0000,
                two_pow(t as nat) >= 0x100_0000,
        ;
        lemma_precision_below(n, 24, 65535, t as nat);
        lemma_two_pow_positive(t as nat);
        lemma_round_up_bound(to_precision(n, 24), two_pow(t as nat), 65535);
    }
    r as u16
}

/// Double precision value in `[0, 1]` as an integer in `[0, max]`; values outside are limited
/// to the range and what is not a number counts as zero.
pub open spec fn unorm_of_f64(bits: u64, max: nat) -> nat {
    if bits > F64_INFINITY {
        0
    } else if bits >= F64_ONE {
        max
    } else {
        scaled(f64_significand(bits), max, f64_shift(bits) as nat, 53)
    }
}

fn unorm_from_f64(bits: u64, max: u32) -> (r: u32)
    requires
        max >= 1,
    ensures
        r == unorm_of_f64(bits, max as nat),
{
    if bits > F64_INFINITY {
        return 0;
    }
    if bits >= F64_ONE {
        return max;
    }
    let exponent: u64 = bits / 0x10_0000_0000_0000;
    let m: u64 = if exponent == 0 {
        bits
    } else {
        bits % 0x10_0000_0000_0000 + 0x10_0000_0000_0000
    };
    let t: u32 = if exponent == 0 { 1074 } else { 1075 - exponent as u32 };
    let r: u128 = scale_and_round(m, max as u64, t, 53);
    proof {
        lemma_two_pow_values();
        let n = m as nat * max as nat;
        lemma_two_pow_split(53, 32);
        reveal_with_fuel(two_pow, 33);
        assert(two_pow(16) == 0x1_0000);
        assert(two_pow(32) == 0x1_0000_0000);
        assert(n < two_pow(53) * two_pow(32)) by (nonlinear_arith)
            requires
                n == m as nat * max as nat,
                m < 0x20_0000_0000_0000,
                max <= 0xffff_ffff,
                two_pow(53) == 0x20_0000_0000_0000,
                two_pow(32) == 0x1_0000_0000,
        ;
        lemma_excess_bound(n, 53, 32);
        lemma_two_pow_grows(53, t as nat);
        assert(n <= max as nat * two_pow(t as nat)) by (nonlinear_arith)
            requires
                n == m as nat * max as nat,
                m < 0x20_0000_0000_0000,
                two_pow(t as nat) >= 0x20_0000_0000_0000,
        ;
        lemma_precision_below(n, 53, max as nat, t as nat);
        lemma_two_pow_positive(t as nat);
        lemma_round_up_bound(to_precision(n, 53), two_pow(t as nat), max as nat);
    }
    r as u32
}

/// Double precision value as a 16 bit normalized integer.
pub fn to_unorm16(bits: u64) -> (r: u16)
    ensures
        r == unorm_of_f64(bits, 65535),
{
    let r: u32 = unorm_from_f64(bits, 65535);
    proof {
        lemma_unorm_bound(bits, 65535);
    }
    r as u16
}

/// Double precision value as a 32 bit normalized integer.
pub fn to_unorm32(bits: u64) -> (r: u32)
    ensures
        r == unorm_of_f64(bits, 0xffff_ffff),
{
    unorm_from_f64(bits, 0xffff_ffff)
}

/// A normalized integer does not exceed the maximum of its format.
pub proof fn lemma_unorm_bound(bits: u64, max: nat)
    requires
        1 <= max <= 0xffff_ffff,
    ensures
        unorm_of_f64(bits, max) <= max,
{
    if bits < F64_ONE {
        let m = f64_significand(bits);
        let t = f64_shift(bits) as nat;
        lemma_two_pow_values();
        let n = m * max;
        lemma_two_pow_split(53, 32);
        reveal_with_fuel(two_pow, 33);
        assert(two_pow(16) == 0x1_0000);
        assert(two_pow(32) == 0x1_0000_0000);
        assert(n < two_pow(53) * two_pow(32)) by (nonlinear_arith)
            requires
                n == m * max,
                m < 0x20_0000_0000_0000,
                max <= 0xffff_ffff,
                two_pow(53) == 0x20_0000_0000_0000,
                two_pow(32) == 0x1_0000_0000,
        ;
        lemma_excess_bound(n, 53, 32);
        lemma_two_pow_grows(53, t);
        assert(n <= max * two_pow(t)) by (nonlinear_arith)
            requires
                n == m * max,
                m < 0x20_0000_0000_0000,
                two_pow(t) >= 0x20_0000_0000_0000,
        ;
        lemma_precision_below(n, 53, max, t);
        lemma_two_pow_positive(t);
        lemma_round_up_bound(to_precision(n, 53), two_pow(t), max);
    }
}

/// How often `n` has to be doubled to reach `target`.
pub open spec fn doublings(n: nat, target: nat) -> nat
    decreases (if n >= target { 0int } else { target - n }),
{
    if n == 0 || n >= target {
        0
    } else {
        1 + doublings(2 * n, target)
    }
}

/// Doubles `n` until it reaches `target`.
fn double_up(n: u128, target: u128) -> (r: (u128, u32))
    requires
        0 < n,
        0 < target < 0x400_0000_0000_0000_0000_0000_0000,
        n <= 2 * target,
    ensures
        r.1 == doublings(n as nat, target as nat),
        r.0 == n as nat * two_pow(r.1 as nat),
        target <= r.0 <= 2 * target,
        r.1 <= 108,
{
    let mut x: u128 = n;
    let mut k: u32 = 0;
    proof {
        assert(two_pow(0) == 1);
        assert(x == n as nat * 1);
    }
    while x < target
        invariant
            0 < x <= 2 * target,
            target < 0x400_0000_0000_0000_0000_0000_0000,
            doublings(n as nat, target as nat) == k + doublings(x as nat, target as nat),
            x == n as nat * two_pow(k as nat),
            two_pow(k as nat) <= x,
            0 < n,
            k <= 108,
        decreases (if x >= target { 0int } else { target - x }),
    {
        proof {
            let p = two_pow(k as nat);
            assert(n as nat * (2 * p) == 2 * (n as nat * p)) by (nonlinear_arith);
            if k >= 107 {
                lemma_two_pow_grows(107, k as nat);
                lemma_two_pow_values();
                lemma_two_pow_split(53, 54);
                assert(two_pow(54) == 2 * two_pow(53));
                assert(two_pow(107) == 0x20_0000_0000_0000 * 0x40_0000_0000_0000);
                assert(false);
            }
        }
        x = x * 2;
        k = k + 1;
    }
    (x, k)
}

/// Rounding a quotient between two bounds stays between them.
pub proof fn lemma_round_even_bounds(n: nat, d: nat, low: nat, high: nat)
    requires
        d > 0,
        low * d <= n <= high * d,
    ensures
        low <= round_half_even(n, d) <= high,
{
    vstd::arithmetic::div_mod::lemma_fundamental_div_mod(n as int, d as int);
    let q = n / d;
    let r = n % d;
    assert(low <= q <= high) by (nonlinear_arith)
        requires
            n == d * q + r,
            0 <= r < d,
            low * d <= n <= high * d,
    ;
    if q == high {
        assert(r == 0) by (nonlinear_arith)
            requires
                n == d * q + r,
                n <= high * d,
                q == high,
                r >= 0,
        ;
    }
}

/// Bits of the quotient `a * 2^e / b` in a format with `precision` significant bits, an
/// exponent bias and no leading significand bit stored. Both integers are taken to be exact.
pub open spec fn quotient_bits(a: nat, b: nat, e: int, precision: nat, bias: int) -> int {
    let half = two_pow((precision - 1) as nat);
    let s = doublings(a, b * half);
    (bias + precision - 1 - s + e) * half + round_half_even(a * two_pow(s), b) - half
}

/// Bits of the single precision quotient of two integers that are each rounded to single
/// precision first.
pub open spec fn f32_quotient_of(a: nat, b: nat) -> int {
    if a == 0 {
        0
    } else {
        let ea = excess_bits(a, 24);
        let eb = excess_bits(b, 24);
        quotient_bits(
            round_half_even(a, two_pow(ea)),
            round_half_even(b, two_pow(eb)),
            ea - eb,
            24,
            127,
        )
    }
}

/// Significand and exponent of an integer rounded to single precision.
fn f32_parts(n: u64) -> (r: (u64, u32))
    requires
        n > 0,
    ensures
        r.1 == excess_bits(n as nat, 24),
        r.0 == round_half_even(n as nat, two_pow(r.1 as nat)),
        0 < r.0 <= 0x100_0000,
        r.1 <= 40,
{
    let k: u32 = count_excess(n as u128, 24);
    let unit: u128 = pow_of_two(k);
    let m: u128 = round_even(n as u128, unit);
    proof {
        lemma_two_pow_values();
        lemma_excess_bound(n as nat, 24, 40);
        lemma_significand_bounds(n as nat, 24);
    }
    (m as u64, k)
}

/// What is left after dropping the excess bits has at most `precision` bits, or is the next
/// power of two after rounding up.
pub proof fn lemma_significand_bounds(n: nat, precision: nat)
    requires
        n > 0,
        precision > 0,
    ensures
        0 < round_half_even(n, two_pow(excess_bits(n, precision))) <= two_pow(precision),
{
    lemma_shifted_below(n, precision);
    let e = excess_bits(n, precision);
    lemma_two_pow_positive(e);
    assert(1 * two_pow(e) <= n) by {
        lemma_excess_fits(n, precision);
    }
    lemma_round_even_bounds(n, two_pow(e), 1, two_pow(precision));
}

pub proof fn lemma_shifted_below(n: nat, precision: nat)
    ensures
        n <= two_pow(precision) * two_pow(excess_bits(n, precision)),
    decreases n,
{
    lemma_two_pow_positive(precision);
    if n == 0 || n < two_pow(precision) {
        assert(two_pow(0) == 1);
        assert(two_pow(precision) * 1 == two_pow(precision));
    } else {
        lemma_shifted_strict(n, precision);
    }
}

pub proof fn lemma_shifted_strict(n: nat, precision: nat)
    ensures
        n < two_pow(precision) * two_pow(excess_bits(n, precision)),
    decreases n,
{
    lemma_two_pow_positive(precision);
    if n == 0 || n < two_pow(precision) {
        assert(two_pow(0) == 1);
        assert(two_pow(precision) * 1 == two_pow(precision));
    } else {
        lemma_shifted_strict(n / 2, precision);
        let p = two_pow(precision);
        let e = excess_bits(n / 2, precision);
        let t = two_pow(e);
        assert(two_pow(e + 1) == 2 * t);
        assert(p * (2 * t) == 2 * (p * t)) by (nonlinear_arith);
    }
}

pub proof fn lemma_excess_fits(n: nat, precision: nat)
    requires
        n > 0,
        precision > 0,
    ensures
        two_pow(excess_bits(n, precision)) <= n,
    decreases n,
{
    lemma_two_pow_positive((precision - 1) as nat);
    if n >= two_pow(precision) {
        lemma_excess_fits(n / 2, precision);
    }
}

/// Where bits are dropped, what is kept fills the precision.
pub proof fn lemma_kept_significand(n: nat, precision: nat)
    requires
        precision > 0,
        excess_bits(n, precision) > 0,
    ensures
        round_half_even(n, two_pow(excess_bits(n, precision))) >= two_pow((precision - 1) as nat),
{
    let e = excess_bits(n, precision);
    let unit = two_pow(e);
    lemma_two_pow_positive(e);
    lemma_excess_fills(n, precision);
    let low = two_pow((precision - 1) as nat);
    assert(n / unit >= low) by (nonlinear_arith)
        requires
            n >= low * unit,
            unit > 0,
    ;
}

pub proof fn lemma_excess_fills(n: nat, precision: nat)
    requires
        precision > 0,
        excess_bits(n, precision) > 0,
    ensures
        n >= two_pow((precision - 1) as nat) * two_pow(excess_bits(n, precision)),
    decreases n,
{
    let e = excess_bits(n, precision);
    let low = two_pow((precision - 1) as nat);
    lemma_two_pow_positive((precision - 1) as nat);
    assert(n >= two_pow(precision));
    assert(two_pow(precision) == 2 * low);
    let rest = two_pow((e - 1) as nat);
    assert(two_pow(e) == 2 * rest);
    assert(low * two_pow(e) == low * (2 * rest));
    if e == 1 {
        assert(rest == 1) by {
            assert(two_pow(0) == 1);
        }
        assert(low * (2 * rest) == 2 * low) by (nonlinear_arith)
            requires
                rest == 1,
        ;
    } else {
        lemma_excess_fills(n / 2, precision);
        assert(n >= low * (2 * rest)) by (nonlinear_arith)
            requires
                n >= 2 * (n / 2),
                n / 2 >= low * rest,
        ;
    }
}

/// See [`f32_quotient_of`].
pub fn f32_quotient(a: u64, b: u64) -> (bits: u32)
    requires
        b > 0,
    ensures
        bits == f32_quotient_of(a as nat, b as nat),
        bits <= 0x5f80_0000,
        b == 1 && 64 <= a <= u32::MAX ==> 0x4280_0000 <= bits <= 0x4f80_0000,
{
    if a == 0 {
        return 0;
    }
    let (sa, ea) = f32_parts(a);
    let (sb, eb) = f32_parts(b);
    let target: u128 = sb as u128 * 0x80_0000;
    let (n, s) = double_up(sa as u128, target);
    let m: u128 = round_even(n, sb as u128);
    proof {
        lemma_two_pow_values();
        assert(two_pow((24 - 1) as nat) == 0x80_0000);
        lemma_round_even_bounds(n as nat, sb as nat, 0x80_0000, 0x100_0000);
    }
    proof {
        lemma_two_pow_split(24, 23);
        assert(target <= sa as nat * two_pow(47)) by (nonlinear_arith)
            requires
                sa >= 1,
                target <= 0x100_0000 * 0x80_0000,
                two_pow(47) == 0x100_0000 * 0x80_0000,
        ;
        lemma_few_doublings(sa as nat, target as nat, 47);
        if b == 1 && 64 <= a <= u32::MAX {
            assert(two_pow(0) == 1);
            assert(sb == 1 && eb == 0);
            lemma_two_pow_split(24, 8);
            reveal_with_fuel(two_pow, 18);
            assert(two_pow(8) == 256 && two_pow(17) == 0x2_0000);
            lemma_excess_bound(a as nat, 24, 8);
            assert(sa >= 64) by {
                if ea == 0 {
                    assert(a as nat % 1 == 0 && a as nat / 1 == a as nat);
                } else {
                    lemma_two_pow_positive(ea as nat);
                    lemma_kept_significand(a as nat, 24);
                }
            }
            assert(target <= sa as nat * two_pow(17));
            lemma_few_doublings(sa as nat, target as nat, 17);
            if ea > 0 {
                lemma_kept_significand(a as nat, 24);
                assert(doublings(sa as nat, target as nat) == 0);
            }
        }
    }
    let exponent: u32 = 150 + ea - s - eb;
    exponent * 0x80_0000 + (m as u32 - 0x80_0000)
}

/// A positive number reaches `2^k` after at most `k` doublings.
pub proof fn lemma_few_doublings(n: nat, target: nat, k: nat)
    requires
        n > 0,
        target <= n * two_pow(k),
    ensures
        doublings(n, target) <= k,
    decreases k,
{
    if n < target {
        if k == 0 {
            assert(two_pow(0) == 1);
            assert(n * 1 == n);
        } else {
            let p = two_pow((k - 1) as nat);
            assert(n * (2 * p) == (2 * n) * p) by (nonlinear_arith);
            lemma_few_doublings(2 * n, target, (k - 1) as nat);
        }
    }
}

/// Bits of an integer in single precision.
pub fn f32_from_int(n: u32) -> (bits: u32)
    ensures
        bits == f32_quotient_of(n as nat, 1),
        bits < F32_SIGN,
        n >= 64 ==> F32_64 <= bits < F32_TWO_33,
{
    f32_quotient(n as u64, 1)
}

/// Bits of the double precision quotient of two small integers, which are exact.
pub open spec fn f64_quotient_of(a: nat, b: nat) -> int {
    if a == 0 {
        0
    } else {
        quotient_bits(a, b, 0, 53, 1023)
    }
}

/// See [`f64_quotient_of`].
pub fn f64_quotient(a: u32, b: u32) -> (bits: u64)
    requires
        b > 0,
    ensures
        bits == f64_quotient_of(a as nat, b as nat),
        a > 0 ==> 0x3df0_0000_0000_0000 <= bits <= 0x41f0_0000_0000_0000,
{
    if a == 0 {
        return 0;
    }
    let target: u128 = b as u128 * 0x10_0000_0000_0000;
    let (n, s) = double_up(a as u128, target);
    let m: u128 = round_even(n, b as u128);
    proof {
        lemma_two_pow_values();
        assert(two_pow((53 - 1) as nat) == 0x10_0000_0000_0000);
        lemma_round_even_bounds(n as nat, b as nat, 0x10_0000_0000_0000, 0x20_0000_0000_0000);
        lemma_two_pow_split(64, 20);
        lemma_two_pow_split(12, 8);
        reveal_with_fuel(two_pow, 13);
        assert(two_pow(8) == 256);
        assert(two_pow(12) == 4096);
        assert(two_pow(20) == 0x10_0000);
        assert(target <= a as nat * two_pow(84)) by (nonlinear_arith)
            requires
                a >= 1,
                target == b * 0x10_0000_0000_0000,
                b <= 0xffff_ffff,
                two_pow(84) == 0x1_0000_0000_0000_0000 * 0x10_0000,
        ;
        lemma_few_doublings(a as nat, target as nat, 84);
        lemma_more_doublings(a as nat, target as nat, 20);
    }
    let exponent: u64 = 1075 - s as u64;
    exponent * 0x10_0000_0000_0000 + (m as u64 - 0x10_0000_0000_0000)
}

/// Bits of `n / 2^32` in double precision.
pub fn f64_of_units(n: u64) -> (bits: u64)
    requires
        n < 0x8000_0000_0000_0000,
    ensures
        bits == f64_quotient_of(n as nat, 0x1_0000_0000),
        bits <= 0x41f0_0000_0000_0000,
{
    if n == 0 {
        return 0;
    }
    let unit: u128 = 0x1_0000_0000;
    let target: u128 = 0x10_0000_0000_0000_0000_0000;
    let (x, s) = double_up(n as u128, target);
    let m: u128 = round_even(x, unit);
    proof {
        lemma_two_pow_values();
        assert(two_pow((53 - 1) as nat) == 0x10_0000_0000_0000);
        lemma_round_even_bounds(
            x as nat,
            unit as nat,
            0x10_0000_0000_0000,
            0x20_0000_0000_0000,
        );
        lemma_two_pow_split(64, 20);
        lemma_two_pow_split(12, 8);
        reveal_with_fuel(two_pow, 13);
        assert(two_pow(8) == 256 && two_pow(12) == 4096 && two_pow(20) == 0x10_0000);
        assert(target <= n as nat * two_pow(84)) by (nonlinear_arith)
            requires
                n >= 1,
                target == 0x10_0000_0000_0000_0000_0000,
                two_pow(84) == 0x1_0000_0000_0000_0000 * 0x10_0000,
        ;
        lemma_few_doublings(n as nat, target as nat, 84);
        lemma_more_doublings(n as nat, target as nat, 20);
    }
    let exponent: u64 = 1075 - s as u64;
    exponent * 0x10_0000_0000_0000 + (m as u64 - 0x10_0000_0000_0000)
}

/// A number below `target / 2^k` needs more than `k` doublings.
pub proof fn lemma_more_doublings(n: nat, target: nat, k: nat)
    requires
        n > 0,
        n * two_pow(k) < target,
    ensures
        doublings(n, target) > k,
    decreases k,
{
    lemma_two_pow_positive(k);
    assert(n <= n * two_pow(k)) by (nonlinear_arith)
        requires
            two_pow(k) >= 1,
    ;
    if k > 0 {
        let p = two_pow((k - 1) as nat);
        assert(n * (2 * p) == (2 * n) * p) by (nonlinear_arith);
        lemma_more_doublings(2 * n, target, (k - 1) as nat);
    }
}

/// A number is doubled until it reaches the target, and no further.
pub proof fn lemma_doublings_fit(n: nat, target: nat)
    requires
        n > 0,
    ensures
        n * two_pow(doublings(n, target)) >= target,
        doublings(n, target) > 0 ==> n * two_pow((doublings(n, target) - 1) as nat) < target,
    decreases (if n >= target { 0int } else { target - n }),
{
    assert(two_pow(0) == 1);
    assert(n * 1 == n);
    if n < target {
        lemma_doublings_fit(2 * n, target);
        let d = doublings(2 * n, target);
        assert(two_pow(d + 1) == 2 * two_pow(d));
        assert((2 * n) * two_pow(d) == n * (2 * two_pow(d))) by (nonlinear_arith);
        if d > 0 {
            let p = two_pow((d - 1) as nat);
            assert(two_pow(d) == 2 * p);
            assert((2 * n) * p == n * (2 * p)) by (nonlinear_arith);
        }
    }
}

/// A multiple of `2^-32` with at most 53 significant bits is exact in double precision.
pub proof fn law_units_are_exact(n: nat)
    requires
        0 < n < 0x20_0000_0000_0000,
    ensures
        ({
            let bits = f64_quotient_of(n, 0x1_0000_0000);
            &&& 0 < bits < F64_INFINITY
            &&& f64_shift(bits as u64) > 0
            &&& f64_significand(bits as u64) * 0x1_0000_0000 == n * two_pow(
                f64_shift(bits as u64) as nat,
            )
        }),
{
    let half: nat = 0x10_0000_0000_0000;
    let unit: nat = 0x1_0000_0000;
    let target = unit * half;
    lemma_two_pow_values();
    assert(two_pow((53 - 1) as nat) == half);
    lemma_two_pow_split(64, 20);
    lemma_two_pow_split(20, 12);
    lemma_two_pow_split(12, 8);
    reveal_with_fuel(two_pow, 13);
    assert(two_pow(8) == 256 && two_pow(12) == 4096 && two_pow(20) == 0x10_0000);
    assert(two_pow(32) == unit);
    assert(two_pow(31) == 0x8000_0000);
    assert(n * 0x8000_0000 < target);
    assert(target <= n * two_pow(84)) by (nonlinear_arith)
        requires
            n >= 1,
            target == 0x10_0000_0000_0000_0000_0000,
            two_pow(84) == 0x1_0000_0000_0000_0000 * 0x10_0000,
    ;
    lemma_few_doublings(n, target, 84);
    lemma_more_doublings(n, target, 31);
    lemma_doublings_fit(n, target);
    let s = doublings(n, target);
    let q = n * two_pow((s - 32) as nat);
    lemma_two_pow_split((s - 32) as nat, 32);
    assert(n * two_pow(s) == q * unit) by (nonlinear_arith)
        requires
            two_pow(s) == two_pow((s - 32) as nat) * unit,
            q == n * two_pow((s - 32) as nat),
    ;
    lemma_round_even_bounds(q * unit, unit, q, q);
    assert(two_pow(s) == 2 * two_pow((s - 1) as nat));
    assert(n * two_pow(s) == 2 * (n * two_pow((s - 1) as nat))) by (nonlinear_arith)
        requires
            two_pow(s) == 2 * two_pow((s - 1) as nat),
    ;
    assert(half <= q < 2 * half);
    let bits = f64_quotient_of(n, unit);
    assert(bits == (1075 - s) * half + q - half);
    assert(bits as u64 / 0x10_0000_0000_0000 == 1075 - s);
    assert(bits as u64 % 0x10_0000_0000_0000 == q - half);
}

/// A number divided by itself is exactly one.
pub proof fn law_self_quotient_is_one(a: nat)
    requires
        a > 0,
    ensures
        f32_quotient_of(a, a) == 0x3f80_0000,
{
    let e = excess_bits(a, 24);
    let m = round_half_even(a, two_pow(e));
    lemma_significand_bounds(a, 24);
    lemma_two_pow_values();
    let target = m * 0x80_0000;
    assert(two_pow(23) == 2 * two_pow(22));
    assert(m * two_pow(22) < target) by (nonlinear_arith)
        requires
            m > 0,
            two_pow(22) < 0x80_0000,
            target == m * 0x80_0000,
    ;
    lemma_few_doublings(m, target, 23);
    lemma_more_doublings(m, target, 22);
    lemma_round_even_bounds(target, m, 0x80_0000, 0x80_0000);
    assert(two_pow((24 - 1) as nat) == 0x80_0000);
    assert(doublings(m, target) == 23);
}

/// Bits of what is not a number, in double precision.
pub const F64_NAN: u64 = 0x7ff8_0000_0000_0000;

/// Product of the significands of two values without sign.
pub open spec fn f64_raw_product(a: u64, b: u64) -> nat {
    f64_significand(a) * f64_significand(b)
}

/// Number of low bits of the raw product that the rounded product does not keep: those beyond
/// 53 significant bits, and those below the smallest positive value.
pub open spec fn f64_dropped(a: u64, b: u64) -> int {
    let precise = excess_bits(f64_raw_product(a, b), 53) as int;
    let smallest = f64_shift(a) + f64_shift(b) - 1074;
    if smallest > precise {
        smallest
    } else {
        precise
    }
}

/// Bits of the product of two finite values without sign, rounded to nearest with ties to even.
pub open spec fn f64_finite_product(a: u64, b: u64) -> int {
    let n = f64_raw_product(a, b);
    let drop = f64_dropped(a, b);
    let bits = (drop - f64_shift(a) - f64_shift(b) + 1074) * 0x10_0000_0000_0000 + round_half_even(
        n,
        two_pow(drop as nat),
    );
    if n == 0 {
        0
    } else if bits > F64_INFINITY {
        F64_INFINITY as int
    } else {
        bits
    }
}

/// Bits of the double precision product of two values.
pub open spec fn f64_product_of(x: u64, y: u64) -> int {
    let a = x % F64_SIGN;
    let b = y % F64_SIGN;
    let sign: int = if (x >= F64_SIGN) != (y >= F64_SIGN) { F64_SIGN as int } else { 0 };
    if a > F64_INFINITY || b > F64_INFINITY {
        F64_NAN as int
    } else if a == F64_INFINITY || b == F64_INFINITY {
        if a == 0 || b == 0 {
            F64_NAN as int
        } else {
            sign + F64_INFINITY
        }
    } else {
        sign + f64_finite_product(a, b)
    }
}

/// Significand and shift of a finite value without sign.
fn f64_parts(a: u64) -> (r: (u64, i64))
    requires
        a < F64_INFINITY,
    ensures
        r.0 == f64_significand(a),
        r.1 == f64_shift(a),
        r.0 < 0x20_0000_0000_0000,
        -971 <= r.1 <= 1074,
        r.1 < 1074 ==> r.0 >= 0x10_0000_0000_0000,
{
    let exponent: u64 = a / 0x10_0000_0000_0000;
    if exponent == 0 {
        (a, 1074)
    } else {
        (a % 0x10_0000_0000_0000 + 0x10_0000_0000_0000, 1075 - exponent as i64)
    }
}

fn finite_product(a: u64, b: u64) -> (bits: u64)
    requires
        a < F64_INFINITY,
        b < F64_INFINITY,
    ensures
        bits == f64_finite_product(a, b),
        bits <= F64_INFINITY,
{
    let (ma, ta) = f64_parts(a);
    let (mb, tb) = f64_parts(b);
    proof {
        assert(ma * mb < 0x20_0000_0000_0000 * 0x20_0000_0000_0000) by (nonlinear_arith)
            requires
                ma < 0x20_0000_0000_0000,
                mb < 0x20_0000_0000_0000,
        ;
        assert(ma * mb >= 0) by (nonlinear_arith)
            requires
                ma >= 0,
                mb >= 0,
        ;
    }
    let n: u128 = ma as u128 * mb as u128;
    if n == 0 {
        return 0;
    }
    let k: u32 = count_excess(n, 53);
    proof {
        lemma_two_pow_values();
        lemma_two_pow_split(53, 53);
        lemma_excess_bound(n as nat, 53, 53);
    }
    let t: i64 = ta + tb;
    let below: i64 = t - 1074;
    let drop: i64 = if below > k as i64 { below } else { k as i64 };
    if drop >= 108 {
        proof {
            lemma_two_pow_split(53, 55);
            assert(two_pow(55) == 4 * two_pow(53)) by {
                reveal_with_fuel(two_pow, 3);
            }
            lemma_two_pow_grows(108, drop as nat);
            assert(two_pow(drop as nat) > 2 * n);
            vstd::arithmetic::div_mod::lemma_small_mod(n as nat, two_pow(drop as nat));
            vstd::arithmetic::div_mod::lemma_basic_div(n as int, two_pow(drop as nat) as int);
            assert(0 * 0x10_0000_0000_0000 == 0);
        }
        return 0;
    }
    let unit: u128 = pow_of_two(drop as u32);
    let m: u128 = round_even(n, unit);
    proof {
        lemma_shifted_below(n as nat, 53);
        lemma_two_pow_grows(k as nat, drop as nat);
        let top = two_pow(53);
        assert(n <= top * unit) by (nonlinear_arith)
            requires
                n <= top * two_pow(k as nat),
                two_pow(k as nat) <= unit,
                top >= 0,
        ;
        lemma_round_even_bounds(n as nat, unit as nat, 0, top);
    }
    let exponent: u64 = (drop - below) as u64;
    let bits: u64 = exponent * 0x10_0000_0000_0000 + m as u64;
    if bits > F64_INFINITY {
        F64_INFINITY
    } else {
        bits
    }
}

/// See [`f64_product_of`].
pub fn f64_product(x: u64, y: u64) -> (bits: u64)
    ensures
        bits == f64_product_of(x, y),
{
    let a: u64 = x % F64_SIGN;
    let b: u64 = y % F64_SIGN;
    let sign: u64 = if (x >= F64_SIGN) != (y >= F64_SIGN) { F64_SIGN } else { 0 };
    if a > F64_INFINITY || b > F64_INFINITY {
        F64_NAN
    } else if a == F64_INFINITY || b == F64_INFINITY {
        if a == 0 || b == 0 {
            F64_NAN
        } else {
            sign + F64_INFINITY
        }
    } else {
        sign + finite_product(a, b)
    }
}

/// Number of low bits that the rounded quotient of two values without sign does not keep
/// because they are below the smallest positive value; negative if there is room left.
pub open spec fn f64_ratio_below(a: u64, b: u64) -> int {
    let target = f64_significand(b) * 0x10_0000_0000_0000;
    f64_shift(a) - f64_shift(b) + doublings(f64_significand(a), target) - 1074
}

/// Bits of the quotient of two finite positive values, rounded to nearest with ties to even.
pub open spec fn f64_finite_ratio(a: u64, b: u64) -> int {
    let target = f64_significand(b) * 0x10_0000_0000_0000;
    let n = f64_significand(a) * two_pow(doublings(f64_significand(a), target));
    let below = f64_ratio_below(a, b);
    let drop = if below > 0 {
        below
    } else {
        0
    };
    let bits = (drop - below) * 0x10_0000_0000_0000 + round_half_even(
        n,
        f64_significand(b) * two_pow(drop as nat),
    );
    if bits > F64_INFINITY {
        F64_INFINITY as int
    } else {
        bits
    }
}

/// Bits of the double precision quotient of two values.
pub open spec fn f64_ratio_of(x: u64, y: u64) -> int {
    let a = x % F64_SIGN;
    let b = y % F64_SIGN;
    let sign: int = if (x >= F64_SIGN) != (y >= F64_SIGN) { F64_SIGN as int } else { 0 };
    if a > F64_INFINITY || b > F64_INFINITY || (a == F64_INFINITY && b == F64_INFINITY) || (a == 0
        && b == 0) {
        F64_NAN as int
    } else if a == F64_INFINITY || b == 0 {
        sign + F64_INFINITY
    } else if a == 0 || b == F64_INFINITY {
        sign
    } else {
        sign + f64_finite_ratio(a, b)
    }
}

fn finite_ratio(a: u64, b: u64) -> (bits: u64)
    requires
        0 < a < F64_INFINITY,
        0 < b < F64_INFINITY,
    ensures
        bits == f64_finite_ratio(a, b),
        bits <= F64_INFINITY,
{
    let (ma, ta) = f64_parts(a);
    let (mb, tb) = f64_parts(b);
    let target: u128 = mb as u128 * 0x10_0000_0000_0000;
    let (n, e) = double_up(ma as u128, target);
    let below: i64 = ta - tb + e as i64 - 1074;
    let drop: i64 = if below > 0 { below } else { 0 };
    proof {
        lemma_two_pow_values();
    }
    if drop >= 55 {
        proof {
            lemma_two_pow_grows(55, drop as nat);
            assert(two_pow(55) == 4 * two_pow(53)) by {
                reveal_with_fuel(two_pow, 3);
            }
            let d = mb as nat * two_pow(drop as nat);
            assert(2 * n < d) by (nonlinear_arith)
                requires
                    d == mb as nat * two_pow(drop as nat),
                    two_pow(drop as nat) >= 4 * 0x20_0000_0000_0000,
                    n <= 2 * (mb * 0x10_0000_0000_0000),
                    mb > 0,
            ;
            vstd::arithmetic::div_mod::lemma_small_mod(n as nat, d);
            vstd::arithmetic::div_mod::lemma_basic_div(n as int, d as int);
            assert(0 * 0x10_0000_0000_0000 == 0);
        }
        return 0;
    }
    let step: u128 = pow_of_two(drop as u32);
    proof {
        lemma_two_pow_grows(drop as nat, 54);
        assert(two_pow(54) == 2 * two_pow(53));
        lemma_two_pow_positive(drop as nat);
        assert(0 < mb * step < 0x20_0000_0000_0000 * 0x80_0000_0000_0000) by (nonlinear_arith)
            requires
                0 < mb < 0x20_0000_0000_0000,
                0 < step <= 0x40_0000_0000_0000,
        ;
        assert(n <= 0x20_0000_0000_0000 * (mb * step)) by (nonlinear_arith)
            requires
                n <= 2 * (mb * 0x10_0000_0000_0000),
                step >= 1,
                mb > 0,
        ;
    }
    let unit: u128 = mb as u128 * step;
    let m: u128 = round_even(n, unit);
    proof {
        lemma_round_even_bounds(n as nat, unit as nat, 0, 0x20_0000_0000_0000);
    }
    let exponent: u64 = (drop - below) as u64;
    let bits: u64 = exponent * 0x10_0000_0000_0000 + m as u64;
    if bits > F64_INFINITY {
        F64_INFINITY
    } else {
        bits
    }
}

/// See [`f64_ratio_of`].
pub fn f64_ratio(x: u64, y: u64) -> (bits: u64)
    ensures
        bits == f64_ratio_of(x, y),
{
    let a: u64 = x % F64_SIGN;
    let b: u64 = y % F64_SIGN;
    let sign: u64 = if (x >= F64_SIGN) != (y >= F64_SIGN) { F64_SIGN } else { 0 };
    if a > F64_INFINITY || b > F64_INFINITY || (a == F64_INFINITY && b == F64_INFINITY) || (a == 0
        && b == 0) {
        F64_NAN
    } else if a == F64_INFINITY || b == 0 {
        sign + F64_INFINITY
    } else if a == 0 || b == F64_INFINITY {
        sign
    } else {
        sign + finite_ratio(a, b)
    }
}

/// Largest magnitude of a sign-magnitude S31.32 value.
pub const S31_32_MAX: u64 = 0x7fff_ffff_ffff_ffff;

/// Magnitude of a double precision value, without its sign bit, in units of `2^-32`, rounded
/// to the nearest integer and limited to what the format holds.
pub open spec fn s31_32_magnitude(bits: u64) -> nat {
    if bits > F64_INFINITY {
        0
    } else {
        let t = f64_shift(bits) - 32;
        let exact = if t >= 0 {
            round_half_up(f64_significand(bits), two_pow(t as nat))
        } else {
            f64_significand(bits) * two_pow((-t) as nat)
        };
        if exact > S31_32_MAX {
            S31_32_MAX as nat
        } else {
            exact
        }
    }
}

/// Double precision value in the sign-magnitude S31.32 fixed point format, limited to its
/// range: bit 63 is the sign.
pub open spec fn s31_32_saturated(bits: u64) -> u64 {
    if bits >= F64_SIGN {
        (F64_SIGN + s31_32_magnitude((bits - F64_SIGN) as u64)) as u64
    } else {
        s31_32_magnitude(bits) as u64
    }
}

/// See [`s31_32_saturated`].
pub fn to_s31_32(bits: u64) -> (r: u64)
    ensures
        r == s31_32_saturated(bits),
{
    if bits >= F64_SIGN {
        F64_SIGN + magnitude_s31_32(bits - F64_SIGN)
    } else {
        magnitude_s31_32(bits)
    }
}

fn magnitude_s31_32(bits: u64) -> (r: u64)
    requires
        bits < F64_SIGN,
    ensures
        r == s31_32_magnitude(bits),
        r <= S31_32_MAX,
{
    if bits > F64_INFINITY {
        return 0;
    }
    let exponent: u64 = bits / 0x10_0000_0000_0000;
    let m: u64 = if exponent == 0 {
        bits
    } else {
        bits % 0x10_0000_0000_0000 + 0x10_0000_0000_0000
    };
    if exponent >= 1054 {
        // At least 2^52 * 2^11.
        proof {
            let t = f64_shift(bits) - 32;
            lemma_two_pow_grows(11, (-t) as nat);
            reveal_with_fuel(two_pow, 12);
            assert(two_pow(11) == 2048);
            assert(m as nat * two_pow((-t) as nat) >= 0x10_0000_0000_0000 * 2048)
                by (nonlinear_arith)
                requires
                    m >= 0x10_0000_0000_0000,
                    two_pow((-t) as nat) >= 2048,
            ;
        }
        return S31_32_MAX;
    }
    if exponent > 1043 {
        let unit: u128 = pow_of_two(exponent as u32 - 1043);
        proof {
            lemma_two_pow_grows((exponent - 1043) as nat, 10);
            reveal_with_fuel(two_pow, 12);
            assert(two_pow(10) == 1024);
            assert(m as nat * unit as nat <= 0x20_0000_0000_0000 * 1024) by (nonlinear_arith)
                requires
                    m < 0x20_0000_0000_0000,
                    unit <= 1024,
            ;
            assert((m as nat * (unit as nat)) < 0x8000_0000_0000_0000) by (nonlinear_arith)
                requires
                    m < 0x20_0000_0000_0000,
                    unit <= 1024,
                    unit >= 1,
            ;
        }
        let r: u128 = m as u128 * unit;
        return r as u64;
    }
    let t: u32 = if exponent == 0 { 1042 } else { 1043 - exponent as u32 };
    if t > 120 {
        proof {
            lemma_two_pow_values();
            lemma_two_pow_grows(120, t as nat);
            vstd::arithmetic::div_mod::lemma_small_mod(m as nat, two_pow(t as nat));
            vstd::arithmetic::div_mod::lemma_basic_div(m as int, two_pow(t as nat) as int);
        }
        return 0;
    }
    let d: u128 = pow_of_two(t);
    let r: u128 = round_up(m as u128, d);
    proof {
        assert(m as nat <= m as nat * d as nat) by (nonlinear_arith)
            requires
                d >= 1,
        ;
        lemma_round_up_bound(m as nat, d as nat, m as nat);
    }
    r as u64
}

/// The conversion of a single precision value to half precision: sign, a five bit exponent
/// with bias 15 and ten bits of fraction.
pub open spec fn f16_of_f32(bits: u32) -> int {
    let sign: int = if bits >= 0x8000_0000 { 0x8000 } else { 0 };
    let magnitude = bits % 0x8000_0000;
    let exponent = magnitude / 0x80_0000;
    let fraction = magnitude % 0x80_0000;
    let half_exponent = exponent - 112;
    if exponent == 255 {
        // Infinity, or not a number.
        sign + 0x7c00 + (if fraction != 0 { 1int } else { 0int })
    } else if half_exponent >= 31 {
        sign + 0x7c00
    } else if half_exponent < -10 {
        sign
    } else if half_exponent <= 0 {
        // Subnormal half precision values are truncated.
        sign + (fraction + 0x80_0000) / two_pow((14 - half_exponent) as nat) as int
    } else {
        // The fraction is rounded half up. One that reaches the next power of two is carried
        // into the exponent, and at the top becomes infinity.
        sign + half_exponent * 0x400 + (fraction + 0x1000) / 0x2000
    }
}

/// See [`f16_of_f32`].
pub fn f32_to_f16(bits: u32) -> (r: u16)
    ensures
        r == f16_of_f32(bits),
{
    let sign: u32 = if bits >= 0x8000_0000 { 0x8000 } else { 0 };
    let magnitude: u32 = bits % 0x8000_0000;
    let exponent: u32 = magnitude / 0x80_0000;
    let fraction: u32 = magnitude % 0x80_0000;
    if exponent == 255 {
        return (sign + 0x7c00 + (if fraction != 0 { 1u32 } else { 0u32 })) as u16;
    }
    if exponent >= 143 {
        return (sign + 0x7c00) as u16;
    }
    if exponent < 102 {
        return sign as u16;
    }
    if exponent <= 112 {
        let shift: u32 = 126 - exponent;
        let unit: u128 = pow_of_two(shift);
        proof {
            reveal_with_fuel(two_pow, 15);
            assert(two_pow(14) == 0x4000);
            lemma_two_pow_grows(14, shift as nat);
            lemma_two_pow_grows(shift as nat, 24);
            lemma_two_pow_values();
            assert((fraction + 0x80_0000) / unit as int <= 0x400) by (nonlinear_arith)
                requires
                    fraction < 0x80_0000,
                    unit >= 0x4000,
            ;
            assert((fraction + 0x80_0000) / unit as int >= 0) by (nonlinear_arith)
                requires
                    unit >= 1,
            ;
        }
        let half: u32 = (fraction + 0x80_0000) / unit as u32;
        return (sign + half) as u16;
    }
    let half: u32 = (fraction + 0x1000) / 0x2000;
    (sign + (exponent - 112) * 0x400 + half) as u16
}

/// Where half precision values are normal, the conversion gives the nearest one: the bits of a
/// half precision value, shifted to their place in a single precision value, are at most half a
/// unit of the last place away.
pub proof fn law_half_precision_is_nearest(bits: u32)
    requires
        113 * 0x80_0000 <= bits < 143 * 0x80_0000,
    ensures
        0x400 <= f16_of_f32(bits) <= 0x7c00,
        -0x1000 <= f16_of_f32(bits) * 0x2000 + 112 * 0x80_0000 - bits <= 0x1000,
        f16_of_f32((bits + 0x8000_0000) as u32) == 0x8000 + f16_of_f32(bits),
{
}

/// A chromaticity coordinate in units of `1/50000`, limited to 16 bits.
pub open spec fn cta_units_of(bits: u64) -> nat {
    if bits > F64_INFINITY {
        0
    } else if bits >= 0x4000_0000_0000_0000 {
        65535
    } else {
        let units = scaled(f64_significand(bits), 50000, f64_shift(bits) as nat, 53);
        if units > 65535 {
            65535
        } else {
            units
        }
    }
}

/// See [`cta_units_of`].
pub fn cta_units(bits: u64) -> (r: u16)
    ensures
        r == cta_units_of(bits),
{
    if bits > F64_INFINITY {
        return 0;
    }
    if bits >= 0x4000_0000_0000_0000 {
        return 65535;
    }
    let exponent: u64 = bits / 0x10_0000_0000_0000;
    let m: u64 = if exponent == 0 {
        bits
    } else {
        bits % 0x10_0000_0000_0000 + 0x10_0000_0000_0000
    };
    let t: u32 = if exponent == 0 { 1074 } else { 1075 - exponent as u32 };
    let units: u128 = scale_and_round(m, 50000, t, 53);
    if units > 65535 {
        65535
    } else {
        units as u16
    }
}

/// A significand that is moved up by twelve bits or more does not fit into 64 bits.
pub proof fn lemma_large_product(m: nat, k: nat)
    requires
        m >= 0x10_0000_0000_0000,
        k >= 12,
    ensures
        m * two_pow(k) > u64::MAX,
{
    lemma_two_pow_grows(12, k);
    reveal_with_fuel(two_pow, 13);
    assert(two_pow(12) == 4096);
    assert(m * two_pow(k) >= 0x10_0000_0000_0000 * 4096) by (nonlinear_arith)
        requires
            m >= 0x10_0000_0000_0000,
            two_pow(k) >= 4096,
    ;
}

/// `m * 2^k` for a significand and a small `k`.
pub fn shift_up(m: u64, k: u32) -> (r: u64)
    requires
        m < 0x20_0000_0000_0000,
        k <= 11,
    ensures
        r == m as nat * two_pow(k as nat),
{
    let unit: u128 = pow_of_two(k);
    proof {
        lemma_two_pow_grows(k as nat, 11);
        reveal_with_fuel(two_pow, 12);
        assert(two_pow(11) == 2048);
        assert((m as nat * (unit as nat)) < 0x20_0000_0000_0000 * 2049) by (nonlinear_arith)
            requires
                m < 0x20_0000_0000_0000,
                1 <= unit <= 2048,
        ;
        assert((m as nat * (unit as nat)) <= 0x1f_ffff_ffff_ffff * 2048) by (nonlinear_arith)
            requires
                m <= 0x1f_ffff_ffff_ffff,
                1 <= unit <= 2048,
        ;
    }
    (m as u128 * unit) as u64
}

/// Integer part of `m / 2^t` and its fraction, rounded, in units of `2^-32`.
pub fn split_at_point(m: u64, t: u32) -> (r: (u64, u64))
    requires
        m < 0x20_0000_0000_0000,
        t >= 1,
    ensures
        r.0 == m as nat / two_pow(t as nat),
        r.1 == round_half_up((m as nat % two_pow(t as nat)) * 0x1_0000_0000, two_pow(t as nat)),
        r.1 <= 0x1_0000_0000,
{
    if t >= 110 {
        proof {
            lemma_two_pow_split(64, 46);
            lemma_two_pow_values();
            lemma_two_pow_grows(24, 46);
            lemma_two_pow_grows(110, t as nat);
            assert(two_pow(110) >= 0x1_0000_0000_0000_0000 * 0x100_0000) by (nonlinear_arith)
                requires
                    two_pow(110) == two_pow(64) * two_pow(46),
                    two_pow(64) == 0x1_0000_0000_0000_0000,
                    two_pow(46) >= 0x100_0000,
            ;
            let d = two_pow(t as nat);
            vstd::arithmetic::div_mod::lemma_small_mod(m as nat, d);
            vstd::arithmetic::div_mod::lemma_basic_div(m as int, d as int);
            vstd::arithmetic::div_mod::lemma_small_mod(m as nat * 0x1_0000_0000, d);
            vstd::arithmetic::div_mod::lemma_basic_div(m as int * 0x1_0000_0000, d as int);
        }
        return (0, 0);
    }
    let d: u128 = pow_of_two(t);
    proof {
        lemma_two_pow_values();
        vstd::arithmetic::div_mod::lemma_div_nonincreasing(m as int, d as int);
        vstd::arithmetic::div_mod::lemma_mod_bound(m as int, d as int);
        vstd::arithmetic::div_mod::lemma_mod_decreases(m as nat, d as nat);
    }
    let integer: u128 = m as u128 / d;
    let rest: u128 = m as u128 % d;
    let fraction: u128 = round_up(rest * 0x1_0000_0000, d);
    proof {
        lemma_round_up_bound(rest as nat * 0x1_0000_0000, d as nat, 0x1_0000_0000);
    }
    (integer as u64, fraction as u64)
}

/// A double precision coordinate in 16.16 fixed point: `round(x * 65536)`, ties away from zero,
/// limited to 32 bits. Negative values and values that are not a number give zero.
pub open spec fn fixed_16_16_of(bits: u64) -> nat {
    if bits > F64_INFINITY {
        0
    } else if bits >= 0x40f0_0000_0000_0000 {
        0xffff_ffff
    } else {
        let n = round_half_up(f64_significand(bits) * 65536, two_pow(f64_shift(bits) as nat));
        if n > 0xffff_ffff {
            0xffff_ffff
        } else {
            n
        }
    }
}

/// See [`fixed_16_16_of`].
pub fn fixed_16_16(bits: u64) -> (r: u32)
    ensures
        r == fixed_16_16_of(bits),
{
    if bits > F64_INFINITY {
        return 0;
    }
    if bits >= 0x40f0_0000_0000_0000 {
        return 0xffff_ffff;
    }
    let exponent: u64 = bits / 0x10_0000_0000_0000;
    let m: u64 = if exponent == 0 {
        bits
    } else {
        bits % 0x10_0000_0000_0000 + 0x10_0000_0000_0000
    };
    let t: u32 = if exponent == 0 { 1074 } else { 1075 - exponent as u32 };
    let product: u128 = m as u128 * 65536;
    if t >= 120 {
        proof {
            lemma_two_pow_values();
            lemma_two_pow_grows(120, t as nat);
            vstd::arithmetic::div_mod::lemma_small_mod(product as nat, two_pow(t as nat));
            vstd::arithmetic::div_mod::lemma_basic_div(product as int, two_pow(t as nat) as int);
        }
        return 0;
    }
    let d: u128 = pow_of_two(t);
    let n: u128 = round_up(product, d);
    if n > 0xffff_ffff {
        0xffff_ffff
    } else {
        n as u32
    }
}

/// `round(x * 65535)` of a single precision factor, as an unsigned 64 bit integer. Negative
/// values and values that are not a number give zero, values that are too large the maximum.
pub open spec fn alpha_units_of(bits: u32) -> nat {
    if bits > F32_INFINITY {
        0
    } else {
        let m = f32_significand(bits);
        let t = f32_shift(bits);
        if t >= 0 {
            scaled(m, 65535, t as nat, 24)
        } else {
            let n = to_precision(m * 65535, 24) * two_pow((-t) as nat);
            if n > u64::MAX {
                u64::MAX as nat
            } else {
                n
            }
        }
    }
}

/// See [`alpha_units_of`].
pub fn alpha_units(bits: u32) -> (r: u64)
    ensures
        r == alpha_units_of(bits),
{
    if bits > F32_INFINITY {
        return 0;
    }
    let exponent: u32 = bits / 0x80_0000;
    let m: u64 = if exponent == 0 {
        bits as u64
    } else {
        (bits % 0x80_0000 + 0x80_0000) as u64
    };
    let kept: u128 = keep_precision(m as u128 * 65535, 24);
    if exponent <= 150 {
        let t: u32 = if exponent == 0 { 149 } else { 150 - exponent };
        if t >= 120 {
            proof {
                lemma_two_pow_values();
                lemma_two_pow_grows(120, t as nat);
                vstd::arithmetic::div_mod::lemma_small_mod(kept as nat, two_pow(t as nat));
                vstd::arithmetic::div_mod::lemma_basic_div(kept as int, two_pow(t as nat) as int);
            }
            return 0;
        }
        let d: u128 = pow_of_two(t);
        let n: u128 = round_up(kept, d);
        proof {
            assert(kept as nat <= kept as nat * (d as nat)) by (nonlinear_arith)
                requires
                    d >= 1,
            ;
            lemma_round_up_bound(kept as nat, d as nat, kept as nat);
        }
        return n as u64;
    }
    let k: u32 = exponent - 150;
    proof {
        lemma_two_pow_values();
    }
    if k >= 64 {
        proof {
            lemma_two_pow_grows(64, k as nat);
            assert(kept as nat * two_pow(k as nat) > u64::MAX) by (nonlinear_arith)
                requires
                    kept >= 1,
                    two_pow(k as nat) >= 0x1_0000_0000_0000_0000,
            ;
        }
        return u64::MAX;
    }
    let unit: u128 = pow_of_two(k);
    proof {
        lemma_two_pow_grows(k as nat, 64);
        assert(kept as nat * (unit as nat) < 0x1_0000_0000_0000_0000_0000 * 0x400_0000_0000)
            by (nonlinear_arith)
            requires
                kept < 0x400_0000_0000,
                1 <= unit <= 0x1_0000_0000_0000_0000,
        ;
    }
    let n: u128 = kept * unit;
    if n > u64::MAX as u128 {
        u64::MAX
    } else {
        n as u64
    }
}

/// Bits of the single precision value that is nearest to `n / 2^t`, ties to even. Meant for an
/// `n` of at least 24 bits, or for values below the smallest normal one.
pub open spec fn f32_nearest(n: nat, t: int) -> int {
    let precise = excess_bits(n, 24) as int;
    let below = t - 149;
    let drop = if below > precise { below } else { precise };
    let bits = (drop - below) * 0x80_0000 + round_half_even(n, two_pow(drop as nat));
    if n == 0 {
        0
    } else if bits > F32_INFINITY {
        F32_INFINITY as int
    } else {
        bits
    }
}

fn nearest_f32(n: u128, t: i64) -> (bits: u32)
    requires
        n < 0x1000_0000_0000_0000,
        -2000 <= t <= 2200,
    ensures
        bits == f32_nearest(n as nat, t as int),
        bits <= F32_INFINITY,
{
    if n == 0 {
        return 0;
    }
    let k: u32 = count_excess(n, 24);
    proof {
        lemma_two_pow_values();
        lemma_two_pow_split(24, 40);
        lemma_excess_bound(n as nat, 24, 40);
    }
    let below: i64 = t - 149;
    let drop: i64 = if below > k as i64 { below } else { k as i64 };
    if drop >= 108 {
        proof {
            lemma_two_pow_split(64, 44);
            lemma_two_pow_positive(44);
            lemma_two_pow_grows(64, 108);
            lemma_two_pow_grows(108, drop as nat);
            assert(two_pow(drop as nat) > 2 * n);
            vstd::arithmetic::div_mod::lemma_small_mod(n as nat, two_pow(drop as nat));
            vstd::arithmetic::div_mod::lemma_basic_div(n as int, two_pow(drop as nat) as int);
            assert(0 * 0x80_0000 == 0);
        }
        return 0;
    }
    let unit: u128 = pow_of_two(drop as u32);
    let m: u128 = round_even(n, unit);
    proof {
        lemma_shifted_below(n as nat, 24);
        lemma_two_pow_grows(k as nat, drop as nat);
        let top = two_pow(24);
        assert(n <= top * unit) by (nonlinear_arith)
            requires
                n <= top * two_pow(k as nat),
                two_pow(k as nat) <= unit,
                top >= 0,
        ;
        lemma_round_even_bounds(n as nat, unit as nat, 0, top);
    }
    let exponent: u64 = (drop - below) as u64;
    let bits: u64 = exponent * 0x80_0000 + m as u64;
    if bits > F32_INFINITY as u64 {
        F32_INFINITY
    } else {
        bits as u32
    }
}

/// Sign bit of a single precision value.
pub const F32_SIGN: u32 = 0x8000_0000;

/// Bits of what is not a number, in single precision.
pub const F32_NAN: u32 = 0x7fc0_0000;

/// Bits of the single precision product of two values.
pub open spec fn f32_product_of(x: u32, y: u32) -> int {
    let a = x % F32_SIGN;
    let b = y % F32_SIGN;
    let sign: int = if (x >= F32_SIGN) != (y >= F32_SIGN) { F32_SIGN as int } else { 0 };
    if a > F32_INFINITY || b > F32_INFINITY {
        F32_NAN as int
    } else if a == F32_INFINITY || b == F32_INFINITY {
        if a == 0 || b == 0 {
            F32_NAN as int
        } else {
            sign + F32_INFINITY
        }
    } else {
        sign + f32_nearest(
            f32_significand(a) * f32_significand(b),
            f32_shift(a) + f32_shift(b),
        )
    }
}

fn f32_split(a: u32) -> (r: (u64, i64))
    requires
        a < F32_INFINITY,
    ensures
        r.0 == f32_significand(a),
        r.1 == f32_shift(a),
        r.0 < 0x100_0000,
        -104 <= r.1 <= 149,
{
    let exponent: u32 = a / 0x80_0000;
    if exponent == 0 {
        (a as u64, 149)
    } else {
        ((a % 0x80_0000 + 0x80_0000) as u64, 150 - exponent as i64)
    }
}

/// See [`f32_product_of`].
pub fn f32_product(x: u32, y: u32) -> (bits: u32)
    ensures
        bits == f32_product_of(x, y),
{
    let a: u32 = x % F32_SIGN;
    let b: u32 = y % F32_SIGN;
    let sign: u32 = if (x >= F32_SIGN) != (y >= F32_SIGN) { F32_SIGN } else { 0 };
    if a > F32_INFINITY || b > F32_INFINITY {
        F32_NAN
    } else if a == F32_INFINITY || b == F32_INFINITY {
        if a == 0 || b == 0 {
            F32_NAN
        } else {
            sign + F32_INFINITY
        }
    } else {
        let (ma, ta) = f32_split(a);
        let (mb, tb) = f32_split(b);
        proof {
            assert(ma * mb < 0x100_0000 * 0x100_0000) by (nonlinear_arith)
                requires
                    ma < 0x100_0000,
                    mb < 0x100_0000,
            ;
            assert(ma * mb >= 0) by (nonlinear_arith)
                requires
                    ma >= 0,
                    mb >= 0,
            ;
        }
        sign + nearest_f32(ma as u128 * mb as u128, ta + tb)
    }
}

/// Bits of a double precision value rounded to single precision. What is not a number stays
/// so.
pub open spec fn f32_of_f64(x: u64) -> int {
    let a = x % F64_SIGN;
    let sign: int = if x >= F64_SIGN { F32_SIGN as int } else { 0 };
    if a > F64_INFINITY {
        F32_NAN as int
    } else if a == F64_INFINITY {
        sign + F32_INFINITY
    } else {
        sign + f32_nearest(f64_significand(a), f64_shift(a))
    }
}

/// See [`f32_of_f64`].
pub fn f64_to_f32(x: u64) -> (bits: u32)
    ensures
        bits == f32_of_f64(x),
{
    let a: u64 = x % F64_SIGN;
    let sign: u32 = if x >= F64_SIGN { F32_SIGN } else { 0 };
    if a > F64_INFINITY {
        F32_NAN
    } else if a == F64_INFINITY {
        sign + F32_INFINITY
    } else {
        let (m, t) = f64_parts(a);
        sign + nearest_f32(m as u128, t)
    }
}

/// Bits of the single precision value nearest to a signed integer.
pub open spec fn f32_of_i32(x: int) -> int {
    if x < 0 {
        F32_SIGN + f32_quotient_of((-x) as nat, 1)
    } else {
        f32_quotient_of(x as nat, 1)
    }
}

/// Place of a single precision value in the order of values; both zeros have the same.
pub open spec fn f32_key(bits: u32) -> int {
    if bits >= F32_SIGN {
        F32_SIGN - bits
    } else {
        bits as int
    }
}

/// Not a number.
pub open spec fn f32_is_nan(bits: u32) -> bool {
    bits % F32_SIGN > F32_INFINITY
}

/// `x < y` for single precision values.
pub open spec fn f32_less(x: u32, y: u32) -> bool {
    !f32_is_nan(x) && !f32_is_nan(y) && f32_key(x) < f32_key(y)
}

/// `x <= y` for single precision values.
pub open spec fn f32_at_most(x: u32, y: u32) -> bool {
    !f32_is_nan(x) && !f32_is_nan(y) && f32_key(x) <= f32_key(y)
}

/// `x == y` for single precision values: both zeros are equal, and what is not a number differs
/// from everything.
pub open spec fn f32_equal(x: u32, y: u32) -> bool {
    !f32_is_nan(x) && !f32_is_nan(y) && f32_key(x) == f32_key(y)
}

/// See [`f32_equal`].
pub fn f32_eq(x: u32, y: u32) -> (r: bool)
    ensures
        r == f32_equal(x, y),
{
    x % F32_SIGN <= F32_INFINITY && y % F32_SIGN <= F32_INFINITY && (x == y || (x % F32_SIGN == 0
        && y % F32_SIGN == 0))
}

/// See [`f32_less`].
pub fn f32_lt(x: u32, y: u32) -> (r: bool)
    ensures
        r == f32_less(x, y),
{
    if x % F32_SIGN > F32_INFINITY || y % F32_SIGN > F32_INFINITY {
        return false;
    }
    let a: i64 = if x >= F32_SIGN { F32_SIGN as i64 - x as i64 } else { x as i64 };
    let b: i64 = if y >= F32_SIGN { F32_SIGN as i64 - y as i64 } else { y as i64 };
    a < b
}

/// See [`f32_at_most`].
pub fn f32_le(x: u32, y: u32) -> (r: bool)
    ensures
        r == f32_at_most(x, y),
{
    if x % F32_SIGN > F32_INFINITY || y % F32_SIGN > F32_INFINITY {
        return false;
    }
    let a: i64 = if x >= F32_SIGN { F32_SIGN as i64 - x as i64 } else { x as i64 };
    let b: i64 = if y >= F32_SIGN { F32_SIGN as i64 - y as i64 } else { y as i64 };
    a <= b
}

/// Place of a double precision value in the order of values; both zeros have the same.
pub open spec fn f64_key(bits: u64) -> int {
    if bits >= F64_SIGN {
        F64_SIGN - bits
    } else {
        bits as int
    }
}

/// `x < y` for double precision values.
pub open spec fn f64_less(x: u64, y: u64) -> bool {
    &&& x % F64_SIGN <= F64_INFINITY
    &&& y % F64_SIGN <= F64_INFINITY
    &&& f64_key(x) < f64_key(y)
}

/// `x == y` for double precision values; see [`f32_equal`].
pub open spec fn f64_equal(x: u64, y: u64) -> bool {
    &&& x % F64_SIGN <= F64_INFINITY
    &&& y % F64_SIGN <= F64_INFINITY
    &&& f64_key(x) == f64_key(y)
}

/// See [`f64_equal`].
pub fn f64_eq(x: u64, y: u64) -> (r: bool)
    ensures
        r == f64_equal(x, y),
{
    x % F64_SIGN <= F64_INFINITY && y % F64_SIGN <= F64_INFINITY && (x == y || (x % F64_SIGN == 0
        && y % F64_SIGN == 0))
}

/// See [`f64_less`].
pub fn f64_lt(x: u64, y: u64) -> (r: bool)
    ensures
        r == f64_less(x, y),
{
    if x % F64_SIGN > F64_INFINITY || y % F64_SIGN > F64_INFINITY {
        return false;
    }
    let a: i128 = if x >= F64_SIGN { F64_SIGN as i128 - x as i128 } else { x as i128 };
    let b: i128 = if y >= F64_SIGN { F64_SIGN as i128 - y as i128 } else { y as i128 };
    a < b
}

/// Bits of the double precision value of a signed integer.
pub open spec fn f64_of_i32(x: int) -> int {
    if x < 0 {
        F64_SIGN + f64_quotient_of((-x) as nat, 1)
    } else {
        f64_quotient_of(x as nat, 1)
    }
}

/// See [`f64_of_i32`].
pub fn f64_from_i32(x: i32) -> (bits: u64)
    ensures
        bits == f64_of_i32(x as int),
{
    if x < 0 {
        let size: u32 = (-(x as i64)) as u32;
        F64_SIGN + f64_quotient(size, 1)
    } else {
        f64_quotient(x as u32, 1)
    }
}

/// See [`f32_of_i32`].
pub fn f32_from_i32(x: i32) -> (bits: u32)
    ensures
        bits == f32_of_i32(x as int),
{
    if x < 0 {
        let size: u32 = (-(x as i64)) as u32;
        F32_SIGN + f32_from_int(size)
    } else {
        f32_from_int(x as u32)
    }
}

/// A single precision value of at least 64 in units of `2^-17`; all such values are whole
/// multiples of that.
pub open spec fn f32_fine_units(bits: u32) -> nat {
    f32_significand(bits) * two_pow((17 - f32_shift(bits)) as nat)
}

/// Bits of the single precision value 64.0.
pub const F32_64: u32 = 0x4280_0000;

/// Bits of the single precision value `2^33`.
pub const F32_TWO_33: u32 = 0x5000_0000;

/// `|x - y| < 1` for an `x` between 64 and `2^33`. The difference of two values this close is
/// exact.
pub open spec fn f32_within_one(x: u32, y: u32) -> bool {
    &&& F32_64 <= y < F32_TWO_33
    &&& -0x2_0000 < f32_fine_units(x) - f32_fine_units(y) < 0x2_0000
}

fn fine_units(bits: u32) -> (units: u64)
    requires
        F32_64 <= bits < F32_TWO_33,
    ensures
        units == f32_fine_units(bits),
        units <= 0x4_0000_0000_0000,
{
    let exponent: u32 = bits / 0x80_0000;
    let m: u32 = bits % 0x80_0000 + 0x80_0000;
    let unit: u128 = pow_of_two(exponent - 133);
    proof {
        lemma_two_pow_grows((exponent - 133) as nat, 26);
        assert(two_pow(26) == 0x400_0000) by {
            reveal_with_fuel(two_pow, 27);
        }
        assert(m as nat * (unit as nat) <= 0x100_0000 * 0x400_0000) by (nonlinear_arith)
            requires
                m < 0x100_0000,
                1 <= unit <= 0x400_0000,
        ;
        assert(m as nat * (unit as nat) >= 0) by (nonlinear_arith);
    }
    (m as u128 * unit) as u64
}

/// See [`f32_within_one`].
pub fn f32_near(x: u32, y: u32) -> (r: bool)
    requires
        F32_64 <= x < F32_TWO_33,
    ensures
        r == f32_within_one(x, y),
{
    if y < F32_64 || y >= F32_TWO_33 {
        return false;
    }
    let a: u64 = fine_units(x);
    let b: u64 = fine_units(y);
    if a >= b {
        a - b < 0x2_0000
    } else {
        b - a < 0x2_0000
    }
}

/// The whole part of a single precision value as an unsigned 32 bit integer. Negative values
/// and values that are not a number give zero, values that are too large the maximum.
pub open spec fn f32_whole(bits: u32) -> nat {
    if bits > F32_INFINITY {
        0
    } else if bits >= 0x4f80_0000 {
        0xffff_ffff
    } else {
        let t = f32_shift(bits);
        if t >= 0 {
            f32_significand(bits) / two_pow(t as nat)
        } else {
            f32_significand(bits) * two_pow((-t) as nat)
        }
    }
}

/// See [`f32_whole`].
pub fn f32_to_u32(bits: u32) -> (r: u32)
    ensures
        r == f32_whole(bits),
{
    if bits > F32_INFINITY {
        return 0;
    }
    if bits >= 0x4f80_0000 {
        return 0xffff_ffff;
    }
    let exponent: u32 = bits / 0x80_0000;
    let m: u32 = if exponent == 0 {
        bits
    } else {
        bits % 0x80_0000 + 0x80_0000
    };
    let t: u32 = if exponent == 0 {
        149
    } else if exponent <= 150 {
        150 - exponent
    } else {
        0
    };
    if exponent <= 150 {
        if t >= 120 {
            proof {
                lemma_two_pow_values();
                lemma_two_pow_grows(120, t as nat);
                vstd::arithmetic::div_mod::lemma_basic_div(m as int, two_pow(t as nat) as int);
            }
            return 0;
        }
        let d: u128 = pow_of_two(t);
        proof {
            assert(0 <= m as nat / (d as nat) <= m) by (nonlinear_arith)
                requires
                    d >= 1,
            ;
        }
        (m as u128 / d) as u32
    } else {
        let unit: u128 = pow_of_two(exponent - 150);
        proof {
            lemma_two_pow_grows((exponent - 150) as nat, 8);
            assert(two_pow(8) == 256) by {
                reveal_with_fuel(two_pow, 9);
            }
            assert(0 <= m as nat * (unit as nat) < 0x100_0000 * 256) by (nonlinear_arith)
                requires
                    m < 0x100_0000,
                    1 <= unit <= 256,
            ;
        }
        (m as u128 * unit) as u32
    }
}

} // verus!
