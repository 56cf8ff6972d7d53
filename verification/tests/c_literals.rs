use cerune_lang::c_literals::integer;
use cerune_lang::types::IntegerType;

#[test]
fn signed_and_small_types_use_int64_constants() {
    assert_eq!(integer(-5, IntegerType::I32), "INT64_C(-5)");
    assert_eq!(integer(0, IntegerType::U8), "INT64_C(0)");
    assert_eq!(integer(255, IntegerType::U8), "INT64_C(255)");
    assert_eq!(integer(9223372036854775807, IntegerType::I64), "INT64_C(9223372036854775807)");
}

#[test]
fn u64_uses_unsigned_constants() {
    assert_eq!(integer(18446744073709551615, IntegerType::U64), "UINT64_C(18446744073709551615)");
    assert_eq!(integer(0, IntegerType::U64), "UINT64_C(0)");
}

#[test]
fn the_smallest_i64_is_written_as_an_expression() {
    assert_eq!(integer(IntegerType::I64.minimum(), IntegerType::I64), "(-INT64_C(9223372036854775807) - INT64_C(1))");
    assert_eq!(integer(-9223372036854775807, IntegerType::I64), "INT64_C(-9223372036854775807)");
}
