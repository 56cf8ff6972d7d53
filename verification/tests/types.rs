use cerune_lang::types::{ConversionMode, ConversionOverflow, IntegerType, NumericType, RoundingMode};

#[test]
fn i64_has_a_signed_64_bit_range() {
    let ty = IntegerType::I64;

    assert_eq!(ty.name(), "i64");
    assert!(ty.is_signed());
    assert_eq!(ty.bit_width(), 64);
}

#[test]
fn every_integer_name_looks_up_its_type() {
    let all = [
        IntegerType::I8,
        IntegerType::U8,
        IntegerType::I16,
        IntegerType::U16,
        IntegerType::I32,
        IntegerType::U32,
        IntegerType::I64,
        IntegerType::U64,
    ];
    for ty in all {
        assert_eq!(IntegerType::from_name(ty.name()), Some(ty));
    }
    assert_eq!(IntegerType::from_name("i128"), None);
    assert_eq!(IntegerType::from_name(""), None);
}

#[test]
fn ranges_match_the_rust_types() {
    assert_eq!(IntegerType::I8.minimum(), i8::MIN as i128);
    assert_eq!(IntegerType::I8.maximum(), i8::MAX as i128);
    assert_eq!(IntegerType::U8.maximum(), 255);
    assert_eq!(IntegerType::I16.minimum(), -32768);
    assert_eq!(IntegerType::U32.maximum(), u32::MAX as i128);
    assert_eq!(IntegerType::I64.minimum(), i64::MIN as i128);
    assert_eq!(IntegerType::U64.maximum(), u64::MAX as i128);
    assert_eq!(IntegerType::U64.minimum(), 0);
    assert_eq!(IntegerType::U16.bit_width(), 16);
    assert!(!IntegerType::U32.is_signed());
}

#[test]
fn contains_checks_both_bounds() {
    assert!(IntegerType::U8.contains(255));
    assert!(!IntegerType::U8.contains(256));
    assert!(!IntegerType::U8.contains(-1));
    assert!(IntegerType::I8.contains(-128));
    assert!(!IntegerType::I8.contains(-129));
    assert!(IntegerType::U64.contains(u64::MAX as i128));
    assert!(!IntegerType::I64.contains(i64::MAX as i128 + 1));
}

#[test]
fn conversion_names_select_policies() {
    assert_eq!(ConversionMode::from_name("convert"), Some(ConversionMode::Exact));
    assert_eq!(
        ConversionMode::from_name("trunc"),
        Some(ConversionMode::Rounded { rounding: RoundingMode::Truncate, overflow: ConversionOverflow::Checked })
    );
    assert_eq!(
        ConversionMode::from_name("saturating_round_ties_even"),
        Some(ConversionMode::Rounded { rounding: RoundingMode::TiesEven, overflow: ConversionOverflow::Saturating })
    );
    assert_eq!(ConversionMode::from_name("saturating_convert"), None);
    assert_eq!(ConversionMode::from_name("exact"), None);
    assert_eq!(ConversionMode::from_name("saturating_"), None);
    assert_eq!(ConversionMode::from_name("Floor"), None);
}

#[test]
fn conversion_policy_names_round_trip() {
    let roundings = [
        RoundingMode::Truncate,
        RoundingMode::Floor,
        RoundingMode::Ceil,
        RoundingMode::Round,
        RoundingMode::TiesEven,
    ];
    for rounding in roundings {
        for overflow in [ConversionOverflow::Checked, ConversionOverflow::Saturating] {
            let mode = ConversionMode::Rounded { rounding, overflow };
            assert_eq!(ConversionMode::from_name(mode.name()), Some(mode));
            assert_eq!(mode.rounding(), Some(rounding));
            assert_eq!(mode.saturates(), overflow == ConversionOverflow::Saturating);
        }
    }
    assert_eq!(ConversionMode::Exact.name(), "exact");
    assert_eq!(ConversionMode::Exact.rounding(), None);
    assert!(!ConversionMode::Exact.saturates());
    assert_eq!(
        ConversionMode::Rounded { rounding: RoundingMode::Ceil, overflow: ConversionOverflow::Saturating }.name(),
        "saturating_ceil"
    );
}

#[test]
fn numeric_type_names() {
    assert_eq!(NumericType::F32.name(), "f32");
    assert_eq!(NumericType::F64.name(), "f64");
    assert_eq!(NumericType::Integer(IntegerType::U16).name(), "u16");
}
