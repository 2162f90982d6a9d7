//! Arithmetic on bit patterns, held against the arithmetic of the machine.

use hdr_backend::softfloat as soft;

/// Values that a generator walks through, with special ones in between.
fn next(state: &mut u64) -> u64 {
    *state ^= *state << 13;
    *state ^= *state >> 7;
    *state ^= *state << 17;
    *state
}

fn same64(bits: u64, expected: f64) -> bool {
    if expected.is_nan() {
        f64::from_bits(bits).is_nan()
    } else {
        bits == expected.to_bits()
    }
}

fn same32(bits: u32, expected: f32) -> bool {
    if expected.is_nan() {
        f32::from_bits(bits).is_nan()
    } else {
        bits == expected.to_bits()
    }
}

fn special64() -> Vec<f64> {
    vec![
        0.0,
        -0.0,
        1.0,
        -1.0,
        f64::MIN_POSITIVE,
        f64::from_bits(1),
        f64::from_bits(0xf_ffff_ffff_ffff),
        f64::MAX,
        f64::INFINITY,
        f64::NEG_INFINITY,
        f64::NAN,
        0.1,
        80.0,
        1e-200,
        1e200,
    ]
}

#[test]
fn double_products_and_quotients() {
    let check = |x: f64, y: f64| {
        assert!(
            same64(soft::f64_product(x.to_bits(), y.to_bits()), x * y),
            "{x} * {y}"
        );
        assert!(same64(soft::f64_ratio(x.to_bits(), y.to_bits()), x / y), "{x} / {y}");
    };
    for x in special64() {
        for y in special64() {
            check(x, y);
        }
    }
    let mut state = 0x1234_5678_9abc_def1;
    for _ in 0..200_000 {
        check(f64::from_bits(next(&mut state)), f64::from_bits(next(&mut state)));
    }
    for _ in 0..100_000 {
        // Close exponents, and results near the smallest values.
        let x = f64::from_bits(next(&mut state) % (0x50 << 52));
        let y = f64::from_bits(next(&mut state) % (0x40 << 52) + (0x3d0 << 52));
        check(x, y);
    }
}

#[test]
fn single_products() {
    let mut state = 0x9876_5432_1fed_cba1;
    for _ in 0..300_000 {
        let x = f32::from_bits(next(&mut state) as u32);
        let y = f32::from_bits(next(&mut state) as u32);
        assert!(same32(soft::f32_product(x.to_bits(), y.to_bits()), x * y), "{x} * {y}");
        assert_eq!(soft::f32_lt(x.to_bits(), y.to_bits()), x < y);
        assert_eq!(soft::f32_le(x.to_bits(), y.to_bits()), x <= y);
        assert_eq!(soft::f32_to_u32(x.to_bits()), x as u32);
    }
}

#[test]
fn integers_and_quotients() {
    let mut state = 0x0f0f_1234_7777_0001;
    for _ in 0..100_000 {
        let a = next(&mut state) >> (next(&mut state) % 60);
        let b = (next(&mut state) >> (next(&mut state) % 60)).max(1);
        assert_eq!(soft::f32_quotient(a, b), (a as f32 / b as f32).to_bits());
        let (c, d) = (a as u32, (b as u32).max(1));
        assert_eq!(soft::f64_quotient(c, d), (f64::from(c) / f64::from(d)).to_bits());
        assert_eq!(soft::f32_from_int(c), (c as f32).to_bits());
        let i = c as i32;
        assert_eq!(soft::f32_from_i32(i), (i as f32).to_bits());
        assert_eq!(soft::f64_from_i32(i), f64::from(i).to_bits());
    }
}

#[test]
fn narrowing_and_comparing() {
    let mut state = 0x5555_1234_8888_0003;
    let mut values = special64();
    for _ in 0..200_000 {
        values.push(f64::from_bits(next(&mut state)));
        values.push(f64::from_bits(next(&mut state) % (0x140 << 52) + (0x360 << 52)));
    }
    for pair in values.windows(2) {
        let (x, y) = (pair[0], pair[1]);
        assert!(same32(soft::f64_to_f32(x.to_bits()), x as f32), "{x}");
        assert_eq!(soft::f64_lt(x.to_bits(), y.to_bits()), x < y);
    }
}

#[test]
fn normalized_integers() {
    let mut state = 0x7777_8888_9999_0005;
    let mut values = special64();
    for _ in 0..100_000 {
        values.push((next(&mut state) >> 11) as f64 / (1u64 << 53) as f64);
        values.push(f64::from_bits(next(&mut state)));
    }
    for v in values {
        assert_eq!(
            soft::to_unorm16(v.to_bits()),
            (v.clamp(0.0, 1.0) * 65535.0).round() as u16,
            "{v}"
        );
        assert_eq!(
            soft::to_unorm32(v.to_bits()),
            (v.clamp(0.0, 1.0) * 4294967295.0).round() as u32,
            "{v}"
        );
        let s = v as f32;
        assert_eq!(
            soft::unorm16_from_f32(s.to_bits()),
            (s.clamp(0.0, 1.0) * 65535.0).round() as u16,
            "{s}"
        );
        assert_eq!(
            soft::alpha_units(s.to_bits()),
            (s * 65535.0).round() as u64,
            "{s}"
        );
    }
}

#[test]
fn rounding_finds_the_nearest() {
    // 2^24 + 1 lies between two single precision values; the even one is taken.
    assert_eq!(soft::f32_from_int(16_777_217), 16_777_216.0f32.to_bits());
    assert_eq!(soft::f32_from_int(16_777_219), 16_777_220.0f32.to_bits());
    assert_eq!(soft::f32_quotient(7, 7), 1.0f32.to_bits());
    assert_eq!(soft::f32_near(203.0f32.to_bits(), 203.5f32.to_bits()), true);
    assert_eq!(soft::f32_near(203.0f32.to_bits(), 205.0f32.to_bits()), false);
}
