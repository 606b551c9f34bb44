use pdf_text::number::{flags, less, nan, to_i64, to_u16, Number};

const SAMPLES: [f32; 22] = [
    0.0,
    -0.0,
    1.0,
    -1.0,
    0.15,
    0.8,
    -0.8,
    0.999_999_94,
    255.9,
    65534.5,
    65535.0,
    65536.0,
    16_777_216.0,
    -16_777_218.0,
    1.0e-40,
    -1.0e-40,
    9.3e18,
    -9.3e18,
    f32::MAX,
    f32::INFINITY,
    f32::NEG_INFINITY,
    f32::NAN,
];

#[test]
fn order_of_bits_is_order_of_numbers() {
    for a in SAMPLES {
        for b in SAMPLES {
            assert_eq!(less(a.to_bits(), b.to_bits()), a < b, "{a} < {b}");
        }
        assert_eq!(nan(a.to_bits()), a.is_nan());
    }
}

#[test]
fn whole_parts_saturate() {
    for a in SAMPLES {
        assert_eq!(to_u16(a.to_bits()), a as u16, "{a} as u16");
        assert_eq!(to_i64(a.to_bits()), a as i64, "{a} as i64");
    }
    for i in 0..2000u32 {
        let a = f32::from_bits(i.wrapping_mul(2_147_483));
        assert_eq!(to_u16(a.to_bits()), a as u16, "{a} as u16");
        assert_eq!(to_i64(a.to_bits()), a as i64, "{a} as i64");
    }
}

#[test]
fn integers_round_to_single_precision() {
    let mut samples: Vec<i64> = vec![0, 1, -1, 2, 34, 16_777_215, 16_777_216, 16_777_217];
    samples.extend([16_777_219, -16_777_217, -16_777_219, 33_554_434, 33_554_435, 33_554_437]);
    samples.extend([i64::MAX, i64::MIN, i64::MIN + 1, i64::MAX - 1, 1 << 40, (1 << 40) + 65_537]);
    for i in 0..2000i64 {
        samples.push(i.wrapping_mul(0x1234_5678_9ABC_DEF1));
        samples.push(i.wrapping_mul(0x9_8765_4321));
    }
    for n in samples {
        assert_eq!(flags(Number::Integer(n)), n as f32 as i64, "{n}");
    }
    assert_eq!(flags(Number::Real((-3.7f32).to_bits())), -3);
}

#[test]
fn small_integers_stay_as_they_are() {
    for n in [-16_777_215i64, -5, 0, 34, 16_777_215] {
        assert_eq!(flags(Number::Integer(n)), n);
    }
}
