use int54::{i54, i54Error, MAX_SAFE_INTEGER, MIN_SAFE_INTEGER};
use std::convert::{TryFrom, TryInto};

#[test]
fn test_rectangle() {
    let i: i54 = 20_usize.try_into().unwrap();
    assert_eq!(i, 20_i32)
}

#[test]
fn boundaries_from_i64() {
    assert_eq!(i54::try_from_i64(9007199254740991).unwrap().as_i64(), 9007199254740991);
    assert_eq!(i54::try_from_i64(9007199254740992), Err(i54Error::ConversionFailed));
    assert_eq!(i54::try_from_i64(-9007199254740991).unwrap().as_i64(), -9007199254740991);
    assert_eq!(i54::try_from_i64(-9007199254740992), Err(i54Error::ConversionFailed));
    assert_eq!(i54::try_from_i64(i64::MAX), Err(i54Error::ConversionFailed));
    assert_eq!(i54::try_from_i64(i64::MIN), Err(i54Error::ConversionFailed));
    assert_eq!(i54::try_from_i64(0).unwrap().as_i64(), 0);
    assert_eq!(MAX_SAFE_INTEGER, 9007199254740991);
    assert_eq!(MIN_SAFE_INTEGER, -9007199254740991);
}

#[test]
fn boundaries_from_f64() {
    let max = i54::try_from_f64_bits(9007199254740991.0_f64.to_bits()).unwrap();
    assert_eq!(max.as_i64(), 9007199254740991);
    let min = i54::try_from_f64_bits((-9007199254740991.0_f64).to_bits()).unwrap();
    assert_eq!(min.as_i64(), -9007199254740991);
    assert_eq!(
        i54::try_from_f64_bits(9007199254740992.0_f64.to_bits()),
        Err(i54Error::ConversionFailed)
    );
    assert_eq!(
        i54::try_from_f64_bits((-9007199254740992.0_f64).to_bits()),
        Err(i54Error::ConversionFailed)
    );
}

#[test]
fn float_exactness() {
    let v = i54::try_from_f64_bits(20.0_f64.to_bits()).unwrap();
    assert_eq!(v, 20_i32);
    assert_eq!(v.as_i64(), 20);
    assert_eq!(i54::try_from_f64_bits(20.5_f64.to_bits()), Err(i54Error::ConversionFailed));
    assert_eq!(i54::try_from_f64_bits(0.5_f64.to_bits()), Err(i54Error::ConversionFailed));
    assert_eq!(i54::try_from_f64_bits((-0.5_f64).to_bits()), Err(i54Error::ConversionFailed));
}

#[test]
fn float_zero_and_negative_zero() {
    assert_eq!(i54::try_from_f64_bits(0.0_f64.to_bits()).unwrap().as_i64(), 0);
    assert_eq!(i54::try_from_f64_bits((-0.0_f64).to_bits()), Err(i54Error::ConversionFailed));
}

#[test]
fn float_special_values_fail() {
    assert_eq!(i54::try_from_f64_bits(f64::NAN.to_bits()), Err(i54Error::ConversionFailed));
    assert_eq!(i54::try_from_f64_bits(f64::INFINITY.to_bits()), Err(i54Error::ConversionFailed));
    assert_eq!(
        i54::try_from_f64_bits(f64::NEG_INFINITY.to_bits()),
        Err(i54Error::ConversionFailed)
    );
    assert_eq!(i54::try_from_f64_bits(1e300_f64.to_bits()), Err(i54Error::ConversionFailed));
}

#[test]
fn float_round_trip_through_bits() {
    let samples: Vec<i64> = vec![
        0,
        1,
        -1,
        2,
        3,
        20,
        -20,
        1023,
        4096,
        123456789,
        -987654321012,
        4503599627370495,
        4503599627370496,
        9007199254740991,
        -9007199254740991,
    ];
    for x in samples {
        let v = i54::try_from_i64(x).unwrap();
        let bits = v.to_f64_bits();
        assert_eq!(bits, (x as f64).to_bits());
        assert_eq!(i54::try_from_f64_bits(bits).unwrap().as_i64(), x);
    }
}

#[test]
fn narrow_source_is_total() {
    assert_eq!(i54::from_i32(i32::MAX).as_i64(), i32::MAX as i64);
    assert_eq!(i54::from_i32(i32::MIN).as_i64(), i32::MIN as i64);
    assert_eq!(i54::from(-7_i32).as_i64(), -7);
}

#[test]
fn conversions_from_wide_integers() {
    assert_eq!(i54::try_from(20_i64).unwrap(), 20_i32);
    assert_eq!(i54::try_from(9007199254740991_usize).unwrap().as_i64(), 9007199254740991);
    assert_eq!(i54::try_from(9007199254740992_usize), Err(i54Error::ConversionFailed));
    assert_eq!(i54::try_from(usize::MAX), Err(i54Error::ConversionFailed));
    assert_eq!(i54::try_from(-9007199254740991_i128).unwrap().as_i128(), -9007199254740991);
    assert_eq!(i54::try_from(-9007199254740992_i128), Err(i54Error::ConversionFailed));
    assert_eq!(i54::try_from(i128::MIN), Err(i54Error::ConversionFailed));
    assert_eq!(i54::try_from(9007199254740991_u128).unwrap().as_i64(), 9007199254740991);
    assert_eq!(i54::try_from(u128::MAX), Err(i54Error::ConversionFailed));
    // A value whose low 64 bits fit must still fail.
    assert_eq!(i54::try_from((1_u128 << 64) + 5), Err(i54Error::ConversionFailed));
    assert_eq!(i54::try_from((1_i128 << 64) + 5), Err(i54Error::ConversionFailed));
}

#[test]
fn round_trip_back_to_source() {
    for x in [0_i64, 1, -1, 42, -9007199254740991, 9007199254740991] {
        assert_eq!(i54::try_from_i64(x).unwrap().as_i64(), x);
    }
    for x in [0_usize, 7, 9007199254740991] {
        assert_eq!(i54::try_from_usize(x).unwrap().as_i64() as usize, x);
    }
    for x in [0_u128, 9007199254740991] {
        assert_eq!(i54::try_from_u128(x).unwrap().as_i128() as u128, x);
    }
    for x in [-5_i128, 9007199254740991] {
        assert_eq!(i54::try_from_i128(x).unwrap().as_i128(), x);
    }
}

#[test]
fn heterogeneous_equality() {
    let a = i54::try_from_usize(20).unwrap();
    let b = i54::try_from_f64_bits(20.0_f64.to_bits()).unwrap();
    let c = i54::from_i32(20);
    assert!(a == 20_i32 && b == 20_i32 && c == 20_i32);
    assert!(a == 20_i64 && a == 20_usize && a == 20_i128 && a == 20_u128);
    assert!(a != 21_i32 && a != 21_i64 && a != 21_usize && a != 21_i128 && a != 21_u128);
    assert!(a == b && b == c);
    assert!(a.equals_f64_bits(20.0_f64.to_bits()));
    assert!(!a.equals_f64_bits(20.5_f64.to_bits()));
    let max = i54::try_from_i64(MAX_SAFE_INTEGER).unwrap();
    assert!(max != i64::MAX);
    assert!(max != 9007199254740992_i64);
    assert!(max != u128::MAX);
    assert!(max != i128::MAX);
    assert!(!max.equals_i64(9007199254740992));
    assert!(!max.equals_f64_bits(f64::NAN.to_bits()));
}

#[test]
fn decimal_string_form() {
    assert_eq!(i54::from_i32(0).to_decimal_string(), "0");
    assert_eq!(i54::from_i32(20).to_decimal_string(), "20");
    assert_eq!(i54::from_i32(-305).to_decimal_string(), "-305");
    assert_eq!(
        i54::try_from_i64(MAX_SAFE_INTEGER).unwrap().to_decimal_string(),
        "9007199254740991"
    );
    assert_eq!(
        i54::try_from_i64(MIN_SAFE_INTEGER).unwrap().to_decimal_string(),
        "-9007199254740991"
    );
}

#[test]
fn decimal_round_trip() {
    for x in [0_i64, 1, -1, 10, -10, 1000000, MAX_SAFE_INTEGER, MIN_SAFE_INTEGER] {
        let v = i54::try_from_i64(x).unwrap();
        let s = v.to_decimal_string();
        assert_eq!(s, x.to_string());
        assert_eq!(i54::parse_decimal(&s).unwrap(), v);
        let w: i54 = s.parse().unwrap();
        assert_eq!(w, v);
    }
}

#[test]
fn decimal_parse_rejects() {
    for s in ["", "-", "+1", "01", "-01", "00", "1a", " 1", "1 ", "١", "--1", "1.0", "1e3"] {
        assert_eq!(i54::parse_decimal(s), Err(i54Error::ConversionFailed), "{}", s);
    }
    assert_eq!(i54::parse_decimal("9007199254740992"), Err(i54Error::ConversionFailed));
    assert_eq!(i54::parse_decimal("-9007199254740992"), Err(i54Error::ConversionFailed));
    assert_eq!(
        i54::parse_decimal("123456789012345678901234567890"),
        Err(i54Error::ConversionFailed)
    );
    assert_eq!(i54::parse_decimal("0").unwrap().as_i64(), 0);
    assert_eq!(i54::parse_decimal("-0").unwrap().as_i64(), 0);
    assert_eq!(i54::parse_decimal("-42").unwrap().as_i64(), -42);
}

#[test]
fn checked_addition() {
    let a = i54::from_i32(20);
    let b = i54::from_i32(-5);
    assert_eq!(a.checked_add(b).unwrap().as_i64(), 15);
    let max = i54::try_from_i64(MAX_SAFE_INTEGER).unwrap();
    let min = i54::try_from_i64(MIN_SAFE_INTEGER).unwrap();
    assert_eq!(max.checked_add(i54::from_i32(1)), Err(i54Error::ConversionFailed));
    assert_eq!(min.checked_add(i54::from_i32(-1)), Err(i54Error::ConversionFailed));
    assert_eq!(max.checked_add(max), Err(i54Error::ConversionFailed));
    assert_eq!(max.checked_add(min).unwrap().as_i64(), 0);
    assert_eq!(max.checked_add(i54::from_i32(0)).unwrap(), max);
}

#[test]
fn add_in_place() {
    let mut a = i54::from_i32(20);
    assert_eq!(a.add_assign(i54::from_i32(22)), Ok(()));
    assert_eq!(a.as_i64(), 42);
    let mut m = i54::try_from_i64(MAX_SAFE_INTEGER).unwrap();
    assert_eq!(m.add_assign(i54::from_i32(1)), Err(i54Error::ConversionFailed));
    assert_eq!(m.as_i64(), MAX_SAFE_INTEGER);
}

#[test]
fn from_str_grammar() {
    let z: i54 = "0".parse().unwrap();
    assert_eq!(z, i54::from(0_i32));
    let lo: i54 = "-9007199254740991".parse().unwrap();
    assert_eq!(lo.as_i64(), -9007199254740991);
    let hi: i54 = "9007199254740991".parse().unwrap();
    assert_eq!(hi.as_i64(), 9007199254740991);
    for s in ["", "-", "007", "+5", "1.0", " 1", "1e3", "9007199254740992", "-9007199254740992"] {
        assert_eq!(s.parse::<i54>(), Err(i54Error::ConversionFailed), "{}", s);
    }
}
