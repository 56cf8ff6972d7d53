//! Cerune's numeric types and conversion policies.
use vstd::prelude::*;
use crate::text::{decimal, same_text, starts_with};
use vstd::arithmetic::power2::{lemma2_to64, lemma2_to64_rest, pow2};

verus! {

/// A Cerune integer type. It fixes the range of values, not the register
/// width or storage that a code generator picks for it.
#[derive(Debug, Clone, Copy, PartialEq, Eq, Structural, PartialOrd, Ord, Hash)]
pub enum IntegerType {
    I8,
    U8,
    I16,
    U16,
    I32,
    U32,
    I64,
    U64,
}

/// The source, diagnostic and IR name of an integer type.
pub open spec fn integer_name(ty: IntegerType) -> Seq<char> {
    match ty {
        IntegerType::I8 => "i8"@,
        IntegerType::U8 => "u8"@,
        IntegerType::I16 => "i16"@,
        IntegerType::U16 => "u16"@,
        IntegerType::I32 => "i32"@,
        IntegerType::U32 => "u32"@,
        IntegerType::I64 => "i64"@,
        IntegerType::U64 => "u64"@,
    }
}

/// The integer type named `name`, trying the types in their declared order.
pub open spec fn integer_named(name: Seq<char>) -> Option<IntegerType> {
    if name == integer_name(IntegerType::I8) {
        Some(IntegerType::I8)
    } else if name == integer_name(IntegerType::U8) {
        Some(IntegerType::U8)
    } else if name == integer_name(IntegerType::I16) {
        Some(IntegerType::I16)
    } else if name == integer_name(IntegerType::U16) {
        Some(IntegerType::U16)
    } else if name == integer_name(IntegerType::I32) {
        Some(IntegerType::I32)
    } else if name == integer_name(IntegerType::U32) {
        Some(IntegerType::U32)
    } else if name == integer_name(IntegerType::I64) {
        Some(IntegerType::I64)
    } else if name == integer_name(IntegerType::U64) {
        Some(IntegerType::U64)
    } else {
        None
    }
}

pub open spec fn spec_is_signed(ty: IntegerType) -> bool {
    match ty {
        IntegerType::I8 | IntegerType::I16 | IntegerType::I32 | IntegerType::I64 => true,
        _ => false,
    }
}

pub open spec fn spec_bit_width(ty: IntegerType) -> u8 {
    match ty {
        IntegerType::I8 | IntegerType::U8 => 8,
        IntegerType::I16 | IntegerType::U16 => 16,
        IntegerType::I32 | IntegerType::U32 => 32,
        IntegerType::I64 | IntegerType::U64 => 64,
    }
}

/// The smallest value of a type: `-2^(w-1)` when signed, else 0.
pub open spec fn spec_minimum(ty: IntegerType) -> int {
    match ty {
        IntegerType::I8 => -0x80,
        IntegerType::I16 => -0x8000,
        IntegerType::I32 => -0x8000_0000,
        IntegerType::I64 => -0x8000_0000_0000_0000,
        _ => 0,
    }
}

/// The largest value of a type: `2^(w-1) - 1` when signed, else `2^w - 1`.
pub open spec fn spec_maximum(ty: IntegerType) -> int {
    match ty {
        IntegerType::I8 => 0x7f,
        IntegerType::U8 => 0xff,
        IntegerType::I16 => 0x7fff,
        IntegerType::U16 => 0xffff,
        IntegerType::I32 => 0x7fff_ffff,
        IntegerType::U32 => 0xffff_ffff,
        IntegerType::I64 => 0x7fff_ffff_ffff_ffff,
        IntegerType::U64 => 0xffff_ffff_ffff_ffff,
    }
}

impl IntegerType {
    /// Looks a type up by its source name.
    pub fn from_name(name: &str) -> (r: Option<Self>)
        ensures
            r == integer_named(name@),
    {
        let order = [
            IntegerType::I8,
            IntegerType::U8,
            IntegerType::I16,
            IntegerType::U16,
            IntegerType::I32,
            IntegerType::U32,
            IntegerType::I64,
            IntegerType::U64,
        ];
        let mut i: usize = 0;
        while i < 8
            invariant
                0 <= i <= 8,
                order@ == seq![
                    IntegerType::I8,
                    IntegerType::U8,
                    IntegerType::I16,
                    IntegerType::U16,
                    IntegerType::I32,
                    IntegerType::U32,
                    IntegerType::I64,
                    IntegerType::U64,
                ],
                forall|j: int| 0 <= j < i ==> integer_name(#[trigger] order@[j]) != name@,
            decreases 8 - i,
        {
            let ty = order[i];
            if same_text(name, ty.name()) {
                return Some(ty);
            }
            i = i + 1;
        }
        None
    }

    /// The name shared by source text, diagnostics and Cerune IR.
    pub fn name(self) -> (r: &'static str)
        ensures
            r@ == integer_name(self),
    {
        match self {
            IntegerType::I8 => "i8",
            IntegerType::U8 => "u8",
            IntegerType::I16 => "i16",
            IntegerType::U16 => "u16",
            IntegerType::I32 => "i32",
            IntegerType::U32 => "u32",
            IntegerType::I64 => "i64",
            IntegerType::U64 => "u64",
        }
    }

    /// Whether the type has negative values.
    pub fn is_signed(self) -> (r: bool)
        ensures
            r == spec_is_signed(self),
    {
        match self {
            IntegerType::I8 | IntegerType::I16 | IntegerType::I32 | IntegerType::I64 => true,
            IntegerType::U8 | IntegerType::U16 | IntegerType::U32 | IntegerType::U64 => false,
        }
    }

    /// The number of bits that fix the range (not a storage size).
    pub fn bit_width(self) -> (r: u8)
        ensures
            r == spec_bit_width(self),
    {
        match self {
            IntegerType::I8 | IntegerType::U8 => 8,
            IntegerType::I16 | IntegerType::U16 => 16,
            IntegerType::I32 | IntegerType::U32 => 32,
            IntegerType::I64 | IntegerType::U64 => 64,
        }
    }

    /// The smallest value of the type.
    pub fn minimum(self) -> (r: i128)
        ensures
            r == spec_minimum(self),
    {
        match self {
            IntegerType::I8 => -128,
            IntegerType::I16 => -32768,
            IntegerType::I32 => -2147483648,
            IntegerType::U8 | IntegerType::U16 | IntegerType::U32 | IntegerType::U64 => 0,
            IntegerType::I64 => -9223372036854775808,
        }
    }

    /// The largest value of the type.
    pub fn maximum(self) -> (r: i128)
        ensures
            r == spec_maximum(self),
    {
        match self {
            IntegerType::I8 => 127,
            IntegerType::U8 => 255,
            IntegerType::I16 => 32767,
            IntegerType::U16 => 65535,
            IntegerType::I32 => 2147483647,
            IntegerType::U32 => 4294967295,
            IntegerType::I64 => 9223372036854775807,
            IntegerType::U64 => 18446744073709551615,
        }
    }

    /// Whether a stored value lies in the type's range.
    pub fn contains(self, value: i128) -> (r: bool)
        ensures
            r == (spec_minimum(self) <= value <= spec_maximum(self)),
    {
        value >= self.minimum() && value <= self.maximum()
    }
}

/// How a rounded conversion picks an integer. Kept independent of the
/// out-of-range policy from the source down to every generator.
#[derive(Debug, Clone, Copy, PartialEq, Eq, Structural, PartialOrd, Ord, Hash)]
pub enum RoundingMode {
    Truncate,
    Floor,
    Ceil,
    Round,
    TiesEven,
}

/// What a rounded conversion does with a result outside the target range.
#[derive(Debug, Clone, Copy, PartialEq, Eq, Structural, PartialOrd, Ord, Hash)]
pub enum ConversionOverflow {
    Checked,
    Saturating,
}

/// A numeric conversion policy.
#[derive(Debug, Clone, Copy, PartialEq, Eq, Structural, PartialOrd, Ord, Hash)]
pub enum ConversionMode {
    Exact,
    Rounded { rounding: RoundingMode, overflow: ConversionOverflow },
}

/// The source name of a rounding mode without a saturation prefix.
pub open spec fn rounding_name(rounding: RoundingMode) -> Seq<char> {
    match rounding {
        RoundingMode::Truncate => "trunc"@,
        RoundingMode::Floor => "floor"@,
        RoundingMode::Ceil => "ceil"@,
        RoundingMode::Round => "round"@,
        RoundingMode::TiesEven => "round_ties_even"@,
    }
}

/// The rounding mode whose name is `name`.
pub open spec fn rounding_named(name: Seq<char>) -> Option<RoundingMode> {
    if name == "trunc"@ {
        Some(RoundingMode::Truncate)
    } else if name == "floor"@ {
        Some(RoundingMode::Floor)
    } else if name == "ceil"@ {
        Some(RoundingMode::Ceil)
    } else if name == "round"@ {
        Some(RoundingMode::Round)
    } else if name == "round_ties_even"@ {
        Some(RoundingMode::TiesEven)
    } else {
        None
    }
}

/// The prefix that selects the saturating policy.
pub open spec fn saturating_prefix() -> Seq<char> {
    "saturating_"@
}

/// The name under which a policy is shown: `exact` for exact conversions,
/// the rounding name, prefixed by `saturating_` when out-of-range values saturate.
pub open spec fn conversion_name(mode: ConversionMode) -> Seq<char> {
    match mode {
        ConversionMode::Exact => "exact"@,
        ConversionMode::Rounded { rounding, overflow: ConversionOverflow::Checked } =>
            rounding_name(rounding),
        ConversionMode::Rounded { rounding, overflow: ConversionOverflow::Saturating } =>
            saturating_prefix() + rounding_name(rounding),
    }
}

/// The policy that a built-in conversion function name selects: `convert`
/// is exact; a rounding name, optionally after `saturating_`, is rounded.
pub open spec fn conversion_named(name: Seq<char>) -> Option<ConversionMode> {
    if name == "convert"@ {
        Some(ConversionMode::Exact)
    } else {
        let prefixed = saturating_prefix().len() <= name.len()
            && name.subrange(0, saturating_prefix().len() as int) == saturating_prefix();
        let rest = if prefixed { name.skip(saturating_prefix().len() as int) } else { name };
        let overflow = if prefixed {
            ConversionOverflow::Saturating
        } else {
            ConversionOverflow::Checked
        };
        match rounding_named(rest) {
            Some(rounding) => Some(ConversionMode::Rounded { rounding, overflow }),
            None => None,
        }
    }
}

pub open spec fn spec_rounding(mode: ConversionMode) -> Option<RoundingMode> {
    match mode {
        ConversionMode::Exact => None,
        ConversionMode::Rounded { rounding, .. } => Some(rounding),
    }
}

pub open spec fn spec_saturates(mode: ConversionMode) -> bool {
    match mode {
        ConversionMode::Rounded { overflow: ConversionOverflow::Saturating, .. } => true,
        _ => false,
    }
}

fn rounding_from_name(name: &str) -> (r: Option<RoundingMode>)
    ensures
        r == rounding_named(name@),
{
    if same_text(name, "trunc") {
        Some(RoundingMode::Truncate)
    } else if same_text(name, "floor") {
        Some(RoundingMode::Floor)
    } else if same_text(name, "ceil") {
        Some(RoundingMode::Ceil)
    } else if same_text(name, "round") {
        Some(RoundingMode::Round)
    } else if same_text(name, "round_ties_even") {
        Some(RoundingMode::TiesEven)
    } else {
        None
    }
}

impl ConversionMode {
    /// The rounding of a rounded conversion; `None` for an exact one.
    pub fn rounding(self) -> (r: Option<RoundingMode>)
        ensures
            r == spec_rounding(self),
    {
        match self {
            ConversionMode::Exact => None,
            ConversionMode::Rounded { rounding, .. } => Some(rounding),
        }
    }

    /// Whether out-of-range results saturate instead of failing.
    pub fn saturates(self) -> (r: bool)
        ensures
            r == spec_saturates(self),
    {
        match self {
            ConversionMode::Rounded { overflow: ConversionOverflow::Saturating, .. } => true,
            _ => false,
        }
    }

    /// The policy of a built-in conversion function, by its name.
    pub fn from_name(name: &str) -> (r: Option<Self>)
        ensures
            r == conversion_named(name@),
    {
        if same_text(name, "convert") {
            return Some(ConversionMode::Exact);
        }
        let prefix = "saturating_";
        let prefixed = starts_with(name, prefix);
        let (rest, overflow) = if prefixed {
            (name.substring_char(prefix.unicode_len(), name.unicode_len()), ConversionOverflow::Saturating)
        } else {
            (name, ConversionOverflow::Checked)
        };
        proof {
            if prefixed {
                assert(rest@ =~= name@.skip(saturating_prefix().len() as int));
            }
        }
        match rounding_from_name(rest) {
            Some(rounding) => Some(ConversionMode::Rounded { rounding, overflow }),
            None => None,
        }
    }

    /// The name under which the policy appears in IR and generated code.
    pub fn name(self) -> (r: &'static str)
        ensures
            r@ == conversion_name(self),
    {
        proof {
            reveal_strlit("saturating_");
            reveal_strlit("trunc");
            reveal_strlit("floor");
            reveal_strlit("ceil");
            reveal_strlit("round");
            reveal_strlit("round_ties_even");
            reveal_strlit("saturating_trunc");
            reveal_strlit("saturating_floor");
            reveal_strlit("saturating_ceil");
            reveal_strlit("saturating_round");
            reveal_strlit("saturating_round_ties_even");
        }
        let r = match self {
            ConversionMode::Exact => "exact",
            ConversionMode::Rounded { rounding, overflow } => {
                match (rounding, self.saturates()) {
                    (RoundingMode::Truncate, false) => "trunc",
                    (RoundingMode::Floor, false) => "floor",
                    (RoundingMode::Ceil, false) => "ceil",
                    (RoundingMode::Round, false) => "round",
                    (RoundingMode::TiesEven, false) => "round_ties_even",
                    (RoundingMode::Truncate, true) => "saturating_trunc",
                    (RoundingMode::Floor, true) => "saturating_floor",
                    (RoundingMode::Ceil, true) => "saturating_ceil",
                    (RoundingMode::Round, true) => "saturating_round",
                    (RoundingMode::TiesEven, true) => "saturating_round_ties_even",
                }
            },
        };
        assert(r@ =~= conversion_name(self));
        r
    }
}

/// A type that numeric conversions work on: no `bool` and no aggregates.
#[derive(Debug, Clone, Copy, PartialEq, Eq, Structural, PartialOrd, Ord, Hash)]
pub enum NumericType {
    Integer(IntegerType),
    F32,
    F64,
}

pub open spec fn numeric_name(ty: NumericType) -> Seq<char> {
    match ty {
        NumericType::Integer(t) => integer_name(t),
        NumericType::F32 => "f32"@,
        NumericType::F64 => "f64"@,
    }
}

impl NumericType {
    /// The source name of the type.
    pub fn name(self) -> (r: &'static str)
        ensures
            r@ == numeric_name(self),
    {
        match self {
            NumericType::Integer(ty) => ty.name(),
            NumericType::F32 => "f32",
            NumericType::F64 => "f64",
        }
    }
}

/// Naming an integer type and looking the name up again gives the type back.
pub proof fn integer_name_round_trip(ty: IntegerType)
    ensures
        integer_named(integer_name(ty)) == Some(ty),
{
    reveal_strlit("i8");
    reveal_strlit("u8");
    reveal_strlit("i16");
    reveal_strlit("u16");
    reveal_strlit("i32");
    reveal_strlit("u32");
    reveal_strlit("i64");
    reveal_strlit("u64");
    assert("i8"@ =~= seq!['i', '8']);
    assert("u8"@ =~= seq!['u', '8']);
    assert("i16"@ =~= seq!['i', '1', '6']);
    assert("u16"@ =~= seq!['u', '1', '6']);
    assert("i32"@ =~= seq!['i', '3', '2']);
    assert("u32"@ =~= seq!['u', '3', '2']);
    assert("i64"@ =~= seq!['i', '6', '4']);
    assert("u64"@ =~= seq!['u', '6', '4']);
}

/// Every type's range is non-empty and includes zero; a type is signed
/// exactly when its minimum is negative.
pub proof fn integer_range_shape(ty: IntegerType)
    ensures
        spec_minimum(ty) <= 0 <= spec_maximum(ty),
        spec_is_signed(ty) <==> spec_minimum(ty) < 0,
        spec_is_signed(ty) ==> spec_minimum(ty) + spec_maximum(ty) == -1,
{
}

/// A rounded policy's name selects that policy again. (The exact policy is
/// shown as `exact` but selected by `convert`.)
pub proof fn conversion_name_round_trip(rounding: RoundingMode, overflow: ConversionOverflow)
    ensures
        conversion_named(conversion_name(ConversionMode::Rounded { rounding, overflow }))
            == Some(ConversionMode::Rounded { rounding, overflow }),
{
    reveal_strlit("saturating_");
    reveal_strlit("trunc");
    reveal_strlit("floor");
    reveal_strlit("ceil");
    reveal_strlit("round");
    reveal_strlit("round_ties_even");
    reveal_strlit("convert");
    assert("saturating_"@ =~= seq!['s', 'a', 't', 'u', 'r', 'a', 't', 'i', 'n', 'g', '_']);
    assert("trunc"@ =~= seq!['t', 'r', 'u', 'n', 'c']);
    assert("floor"@ =~= seq!['f', 'l', 'o', 'o', 'r']);
    assert("ceil"@ =~= seq!['c', 'e', 'i', 'l']);
    assert("round"@ =~= seq!['r', 'o', 'u', 'n', 'd']);
    assert("round_ties_even"@ =~= seq!['r', 'o', 'u', 'n', 'd', '_', 't', 'i', 'e', 's', '_', 'e', 'v', 'e', 'n']);
    assert("convert"@ =~= seq!['c', 'o', 'n', 'v', 'e', 'r', 't']);
    let name = conversion_name(ConversionMode::Rounded { rounding, overflow });
    match overflow {
        ConversionOverflow::Saturating => {
            assert(name.subrange(0, 11) =~= saturating_prefix());
            assert(name.skip(11) =~= rounding_name(rounding));
        },
        ConversionOverflow::Checked => {
            assert(name.len() < 11 || name.subrange(0, 11) != saturating_prefix()) by {
                if name.len() >= 11 {
                    assert(name[0] != saturating_prefix()[0] || name[1] != saturating_prefix()[1]);
                }
            }
        },
    }
}

/// The name of an integer type says what it is: `i` for a signed type and
/// `u` for an unsigned one, then its width in bits; and its range is the
/// two's-complement range of that width, or `0` to `2^w - 1` unsigned.
pub proof fn lemma_integer_name_describes_type(ty: IntegerType)
    ensures
        integer_name(ty) == (if spec_is_signed(ty) { "i"@ } else { "u"@ }) + decimal(spec_bit_width(ty) as nat),
        spec_is_signed(ty) ==> spec_minimum(ty) == -(pow2((spec_bit_width(ty) - 1) as nat) as int)
            && spec_maximum(ty) == pow2((spec_bit_width(ty) - 1) as nat) - 1,
        !spec_is_signed(ty) ==> spec_minimum(ty) == 0 && spec_maximum(ty) == pow2(spec_bit_width(ty) as nat) - 1,
{
    reveal_strlit("i");
    reveal_strlit("u");
    reveal_strlit("i8");
    reveal_strlit("u8");
    reveal_strlit("i16");
    reveal_strlit("u16");
    reveal_strlit("i32");
    reveal_strlit("u32");
    reveal_strlit("i64");
    reveal_strlit("u64");
    lemma2_to64();
    lemma2_to64_rest();
    assert(decimal(8) =~= seq!['8']);
    assert(decimal(1) =~= seq!['1']);
    assert(decimal(3) =~= seq!['3']);
    assert(decimal(6) =~= seq!['6']);
    assert(decimal(16) =~= seq!['1', '6']);
    assert(decimal(32) =~= seq!['3', '2']);
    assert(decimal(64) =~= seq!['6', '4']);
    assert("i"@ + decimal(8) =~= "i8"@);
    assert("u"@ + decimal(8) =~= "u8"@);
    assert("i"@ + decimal(16) =~= "i16"@);
    assert("u"@ + decimal(16) =~= "u16"@);
    assert("i"@ + decimal(32) =~= "i32"@);
    assert("u"@ + decimal(32) =~= "u32"@);
    assert("i"@ + decimal(64) =~= "i64"@);
    assert("u"@ + decimal(64) =~= "u64"@);
}

/// Looking a name up finds only the type of that name.
pub proof fn lemma_integer_named_inverts(name: Seq<char>)
    ensures
        integer_named(name) matches Some(ty) ==> integer_name(ty) == name,
        (exists|ty: IntegerType| integer_name(ty) == name) ==> integer_named(name) is Some,
{
}

/// The number of bits of a floating numeric type.
pub open spec fn numeric_float_bits(ty: NumericType) -> Option<nat> {
    match ty {
        NumericType::F32 => Some(32),
        NumericType::F64 => Some(64),
        NumericType::Integer(_) => None,
    }
}

/// A numeric type is named like an integer type, or as `f` and its width.
pub proof fn lemma_numeric_name_describes_type(ty: NumericType)
    ensures
        ty matches NumericType::Integer(t) ==> numeric_name(ty) == integer_name(t),
        numeric_float_bits(ty) matches Some(bits) ==> numeric_name(ty) == "f"@ + decimal(bits),
{
    reveal_strlit("f");
    reveal_strlit("f32");
    reveal_strlit("f64");
    assert(decimal(3) =~= seq!['3']);
    assert(decimal(6) =~= seq!['6']);
    assert(decimal(32) =~= seq!['3', '2']);
    assert(decimal(64) =~= seq!['6', '4']);
    assert("f"@ + decimal(32) =~= "f32"@);
    assert("f"@ + decimal(64) =~= "f64"@);
}

/// `n / d`, for `d > 0`, rounded toward zero.
pub open spec fn toward_zero(n: int, d: int) -> int {
    if n >= 0 { n / d } else { -((-n) / d) }
}

/// `n / d`, for `d > 0`, rounded down.
pub open spec fn downward(n: int, d: int) -> int {
    n / d
}

/// `n / d`, for `d > 0`, rounded up.
pub open spec fn upward(n: int, d: int) -> int {
    -((-n) / d)
}

/// `n / d`, for `d > 0`, rounded to the nearest integer, a half away from zero.
pub open spec fn nearest_away(n: int, d: int) -> int {
    let q = n / d;
    let r = n % d;
    if 2 * r > d {
        q + 1
    } else if 2 * r < d {
        q
    } else if n >= 0 {
        q + 1
    } else {
        q
    }
}

/// `n / d`, for `d > 0`, rounded to the nearest integer, a half to the even one.
pub open spec fn nearest_even(n: int, d: int) -> int {
    let q = n / d;
    let r = n % d;
    if 2 * r > d {
        q + 1
    } else if 2 * r < d {
        q
    } else if q % 2 == 0 {
        q
    } else {
        q + 1
    }
}

/// The integer that a rounding mode picks for `n / d` (`d > 0`).
pub open spec fn rounds(mode: RoundingMode, n: int, d: int) -> int {
    match mode {
        RoundingMode::Truncate => toward_zero(n, d),
        RoundingMode::Floor => downward(n, d),
        RoundingMode::Ceil => upward(n, d),
        RoundingMode::Round => nearest_away(n, d),
        RoundingMode::TiesEven => nearest_even(n, d),
    }
}

/// What the conversion functions documented under each rounding name
/// give for `n / d` (`d > 0`): `trunc` toward zero, `floor` down, `ceil`
/// up, `round` to nearest with halves away from zero, `round_ties_even`
/// to nearest with halves to even.
pub open spec fn documented_rounding(name: Seq<char>, n: int, d: int) -> Option<int> {
    if name == "trunc"@ {
        Some(toward_zero(n, d))
    } else if name == "floor"@ {
        Some(downward(n, d))
    } else if name == "ceil"@ {
        Some(upward(n, d))
    } else if name == "round"@ {
        Some(nearest_away(n, d))
    } else if name == "round_ties_even"@ {
        Some(nearest_even(n, d))
    } else {
        None
    }
}

/// A rounding name selects a mode exactly when it is documented, and the
/// mode rounds every quotient as the name's documentation says; the name
/// shown for a mode is documented for what the mode does.
pub proof fn lemma_rounding_names_mean_their_rounding(name: Seq<char>, mode: RoundingMode, n: int, d: int)
    requires
        d > 0,
    ensures
        rounding_named(name) is Some <==> documented_rounding(name, n, d) is Some,
        rounding_named(name) matches Some(m) ==> documented_rounding(name, n, d) == Some(rounds(m, n, d)),
        documented_rounding(rounding_name(mode), n, d) == Some(rounds(mode, n, d)),
{
    reveal_strlit("trunc");
    reveal_strlit("floor");
    reveal_strlit("ceil");
    reveal_strlit("round");
    reveal_strlit("round_ties_even");
    assert("trunc"@ =~= seq!['t', 'r', 'u', 'n', 'c']);
    assert("floor"@ =~= seq!['f', 'l', 'o', 'o', 'r']);
    assert("ceil"@ =~= seq!['c', 'e', 'i', 'l']);
    assert("round"@ =~= seq!['r', 'o', 'u', 'n', 'd']);
    assert("round_ties_even"@ =~= seq!['r', 'o', 'u', 'n', 'd', '_', 't', 'i', 'e', 's', '_', 'e', 'v', 'e', 'n']);
}

/// A conversion function name selects the exact policy when it is
/// `convert`; otherwise a rounded policy that saturates exactly when the
/// name starts with `saturating_`, and whose rounding is the one
/// documented for the rest of the name. The name shown for a rounded
/// policy is made the same way.
pub proof fn lemma_conversion_names_mean_their_policy(name: Seq<char>, mode: ConversionMode, n: int, d: int)
    requires
        d > 0,
    ensures
        conversion_named(name) == Some(ConversionMode::Exact) <==> name == "convert"@,
        conversion_named(name) matches Some(ConversionMode::Rounded { rounding, overflow }) ==> {
            let prefixed = saturating_prefix().len() <= name.len() && name.subrange(0, saturating_prefix().len() as int)
                == saturating_prefix();
            let rest = if prefixed { name.skip(saturating_prefix().len() as int) } else { name };
            &&& (overflow == ConversionOverflow::Saturating) == prefixed
            &&& documented_rounding(rest, n, d) == Some(rounds(rounding, n, d))
        },
        mode matches ConversionMode::Rounded { rounding, overflow: ConversionOverflow::Checked } ==> documented_rounding(
            conversion_name(mode),
            n,
            d,
        ) == Some(rounds(rounding, n, d)),
        mode matches ConversionMode::Rounded { rounding, overflow: ConversionOverflow::Saturating } ==> conversion_name(mode)
            == saturating_prefix() + conversion_name(ConversionMode::Rounded { rounding, overflow: ConversionOverflow::Checked }),
{
    reveal_strlit("trunc");
    reveal_strlit("floor");
    reveal_strlit("ceil");
    reveal_strlit("round");
    reveal_strlit("round_ties_even");
    reveal_strlit("convert");
    reveal_strlit("saturating_");
    assert("convert"@ =~= seq!['c', 'o', 'n', 'v', 'e', 'r', 't']);
    assert("saturating_"@ =~= seq!['s', 'a', 't', 'u', 'r', 'a', 't', 'i', 'n', 'g', '_']);
    if name == "convert"@ {
    } else {
        let prefixed = saturating_prefix().len() <= name.len() && name.subrange(0, saturating_prefix().len() as int)
            == saturating_prefix();
        let rest = if prefixed { name.skip(saturating_prefix().len() as int) } else { name };
        lemma_rounding_names_mean_their_rounding(rest, RoundingMode::Truncate, n, d);
    }
    if let ConversionMode::Rounded { rounding, overflow } = mode {
        lemma_rounding_names_mean_their_rounding(rounding_name(rounding), rounding, n, d);
    }
}

} // verus!
