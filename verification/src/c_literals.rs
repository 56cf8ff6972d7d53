//! Integer literals in generated C: 64-bit constants written with the
//! `<stdint.h>` macros, so that every value keeps its width.
use vstd::prelude::*;
use crate::text::{digits_value, lemma_signed_decimal_denotes, signed_decimal, signed_decimal_text};
use crate::types::IntegerType;

verus! {

/// The C text of `value` as a constant of the 64-bit type that holds `ty`:
/// `UINT64_C(..)` for `u64`, `INT64_C(..)` otherwise, and the smallest
/// `i64` as an expression, since its magnitude is not an `int64_t` literal.
pub open spec fn c_integer(value: int, ty: IntegerType) -> Seq<char> {
    if ty == IntegerType::U64 {
        "UINT64_C("@ + signed_decimal(value) + ")"@
    } else if value == i64::MIN {
        "(-INT64_C(9223372036854775807) - INT64_C(1))"@
    } else {
        "INT64_C("@ + signed_decimal(value) + ")"@
    }
}

/// Writes `value` as a C constant for an integer of type `ty`.
pub fn integer(value: i128, ty: IntegerType) -> (r: String)
    ensures
        r@ == c_integer(value as int, ty),
{
    if ty == IntegerType::U64 {
        let mut r = String::from_str("UINT64_C(");
        let digits = signed_decimal_text(value);
        r.append(digits.as_str());
        r.append(")");
        r
    } else if value == i64::MIN as i128 {
        String::from_str("(-INT64_C(9223372036854775807) - INT64_C(1))")
    } else {
        let mut r = String::from_str("INT64_C(");
        let digits = signed_decimal_text(value);
        r.append(digits.as_str());
        r.append(")");
        r
    }
}

/// The number that a decimal string with an optional `-` denotes.
pub open spec fn signed_value(s: Seq<char>) -> int {
    if s.len() > 0 && s[0] == '-' {
        -digits_value(s.skip(1))
    } else {
        digits_value(s)
    }
}

/// A constant for `u64` is `UINT64_C` applied to digits that denote the
/// value; one for another type is `INT64_C` applied to such digits, but
/// for the smallest `i64`, which is written as an expression over
/// `INT64_C`.
pub proof fn lemma_c_integer_denotes(value: int, ty: IntegerType)
    ensures
        ty == IntegerType::U64 ==> {
            let t = c_integer(value, ty);
            &&& t.take(9) == "UINT64_C("@
            &&& t.last() == ')'
            &&& signed_value(t.subrange(9, t.len() - 1)) == value
        },
        ty != IntegerType::U64 && value != i64::MIN ==> {
            let t = c_integer(value, ty);
            &&& t.take(8) == "INT64_C("@
            &&& t.last() == ')'
            &&& signed_value(t.subrange(8, t.len() - 1)) == value
        },
        ty != IntegerType::U64 && value == i64::MIN ==> c_integer(value, ty).take(9) == "(-INT64_C"@,
{
    reveal_strlit("UINT64_C(");
    reveal_strlit("INT64_C(");
    reveal_strlit(")");
    reveal_strlit("-");
    reveal_strlit("(-INT64_C");
    reveal_strlit("(-INT64_C(9223372036854775807) - INT64_C(1))");
    lemma_signed_decimal_denotes(value);
    let d = signed_decimal(value);
    if ty == IntegerType::U64 {
        let t = c_integer(value, ty);
        assert(t.take(9) =~= "UINT64_C("@);
        assert(t.subrange(9, t.len() - 1) =~= d);
    } else if value != i64::MIN {
        let t = c_integer(value, ty);
        assert(t.take(8) =~= "INT64_C("@);
        assert(t.subrange(8, t.len() - 1) =~= d);
    } else {
        assert(c_integer(value, ty).take(9) =~= "(-INT64_C"@);
    }
}

} // verus!
