use framely::binary32::{divide, from_u32, multiply, round_to_u32, trunc_to_u32, Binary32};

fn value(x: Binary32) -> f64 {
    x.mant as f64 * 2f64.powi(x.exp)
}

fn samples() -> Vec<u32> {
    let mut v: Vec<u32> = (0..=70u32).collect();
    v.extend_from_slice(&[
        255,
        1000,
        4095,
        65535,
        123_456_789,
        16_777_215,
        16_777_216,
        16_777_217,
        16_777_218,
        16_777_219,
        33_554_431,
        33_554_433,
        33_554_435,
        2_147_483_647,
        4_294_967_040,
        4_294_967_167,
        4_294_967_168,
        4_294_967_295,
    ]);
    let mut x: u32 = 7;
    for _ in 0..200 {
        x = x.wrapping_mul(2_654_435_761).wrapping_add(12_345);
        v.push(x);
        v.push(x >> 9);
        v.push(x >> 20);
    }
    v
}

#[test]
fn conversion_matches_single_precision() {
    for v in samples() {
        assert_eq!(value(from_u32(v)), v as f32 as f64, "{}", v);
    }
    // Ties go to the even significand.
    assert_eq!(value(from_u32(16_777_217)), 16_777_216.0);
    assert_eq!(value(from_u32(16_777_219)), 16_777_220.0);
    let one = from_u32(1);
    assert_eq!((one.mant, one.exp), (8_388_608, -23));
    let zero = from_u32(0);
    assert_eq!((zero.mant, zero.exp), (0, 0));
}

#[test]
fn quotient_and_product_match_single_precision() {
    let s = samples();
    for (i, &a) in s.iter().enumerate() {
        for &b in s.iter().skip(i % 7).step_by(5) {
            if b == 0 {
                continue;
            }
            let q = divide(from_u32(a), from_u32(b));
            let fq = a as f32 / b as f32;
            assert_eq!(value(q), fq as f64, "{} / {}", a, b);
            let p = multiply(from_u32(b), q);
            assert_eq!(value(p), (b as f32 * fq) as f64, "{} * ({} / {})", b, a, b);
        }
    }
}

#[test]
fn integer_conversions_match_single_precision() {
    let s = samples();
    for (i, &a) in s.iter().enumerate() {
        for &b in s.iter().skip(i % 3).step_by(7) {
            if b == 0 {
                continue;
            }
            let q = divide(from_u32(a), from_u32(b));
            let fq = a as f32 / b as f32;
            assert_eq!(round_to_u32(q), fq.round() as u32, "round {} / {}", a, b);
            assert_eq!(trunc_to_u32(q), fq as u32, "trunc {} / {}", a, b);
            let big = multiply(q, from_u32(b));
            let fbig = fq * b as f32;
            assert_eq!(round_to_u32(big), fbig.round() as u32);
            assert_eq!(trunc_to_u32(big), fbig as u32);
        }
    }
    // Halves round away from zero; values past u32::MAX saturate.
    let half = divide(from_u32(5), from_u32(2));
    assert_eq!((round_to_u32(half), trunc_to_u32(half)), (3, 2));
    let huge = multiply(from_u32(u32::MAX), from_u32(u32::MAX));
    assert_eq!((round_to_u32(huge), trunc_to_u32(huge)), (u32::MAX, u32::MAX));
}
