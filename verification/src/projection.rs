//! The projection of a raw value through the profile: the check of an
//! array's length, the date and time, the scale and the offset, and the name
//! that a type gives a number.
use vstd::prelude::*;
use crate::byte_reader::{i16_of, i32_of, i64_of, i8_of};
use crate::error::ProjectionFault;
use crate::fit::{BaseType, lemma_array_model, Value, value_models, ValueModel};
use crate::profile::{FitProfile, lemma_find_type, lemma_find_value, SCALE_ONE};
use crate::record::Scaling;
use crate::text::str_eq;
use crate::time::{date_time_of, unix_seconds};

verus! {

/// Whether a scale and an offset change nothing: the scale is 1.0 and the
/// offset is zero, of either sign.
pub open spec fn is_identity(scale: u64, offset: u64) -> bool {
    scale == SCALE_ONE && (offset == 0 || offset == 0x8000_0000_0000_0000)
}

impl ValueModel {
    /// Whether the value is a single number: of a numeric base type, and
    /// none of the kinds that only the decoder makes.
    pub open spec fn is_number(self) -> bool {
        !(self is Enum || self is String || self is DateTime || self is Bool || self is Array)
    }

    /// Whether the value is a number, or an array of numbers.
    pub open spec fn all_numbers(self) -> bool {
        match self {
            ValueModel::Array(a) => forall|i: int| 0 <= i < a.len() ==> (#[trigger] a[i]).is_number(),
            _ => self.is_number(),
        }
    }

    /// The 64-bit two's complement pattern of an integer value; `None` for
    /// text, floats, arrays and the kinds that only the decoder makes.
    pub open spec fn pattern(self) -> Option<u64> {
        match self {
            ValueModel::Enum(x) => Some(x as u64),
            ValueModel::SInt8(x) => Some(twos(x as int)),
            ValueModel::SInt16(x) => Some(twos(x as int)),
            ValueModel::SInt32(x) => Some(twos(x as int)),
            ValueModel::SInt64(x) => Some(twos(x as int)),
            ValueModel::UInt64z(x) => Some(x),
            _ => self.unsigned(),
        }
    }

    /// The number of a value of the base type `t` that is an unsigned
    /// integer or an `Enum`; `None` for every other value.
    pub open spec fn ordinal(self, t: BaseType) -> Option<u64> {
        if self.pattern() is Some && self.base_type() == t && !t.is_signed() {
            self.pattern()
        } else {
            None
        }
    }
}

impl BaseType {
    /// Whether the type is a signed integer.
    pub open spec fn is_signed(self) -> bool {
        self == BaseType::SInt8 || self == BaseType::SInt16 || self == BaseType::SInt32 || self
            == BaseType::SInt64
    }
}

/// The 64-bit two's complement pattern of an integer.
pub open spec fn twos(n: int) -> u64 {
    if n >= 0 {
        n as u64
    } else {
        (n + 0x1_0000_0000_0000_0000) as u64
    }
}

/// The value of an integer base type with the low bits of a pattern, read
/// as the type reads them; `None` for text and floats.
pub open spec fn wrap_integer(t: BaseType, n: u64) -> Option<ValueModel> {
    match t {
        BaseType::Enum => Some(ValueModel::Enum((n % 0x100) as u8)),
        BaseType::SInt8 => Some(ValueModel::SInt8(i8_of((n % 0x100) as u8))),
        BaseType::UInt8 => Some(ValueModel::UInt8((n % 0x100) as u8)),
        BaseType::SInt16 => Some(ValueModel::SInt16(i16_of((n % 0x1_0000) as u16))),
        BaseType::UInt16 => Some(ValueModel::UInt16((n % 0x1_0000) as u16)),
        BaseType::SInt32 => Some(ValueModel::SInt32(i32_of((n % 0x1_0000_0000) as u32))),
        BaseType::UInt32 => Some(ValueModel::UInt32((n % 0x1_0000_0000) as u32)),
        BaseType::UInt8z => Some(ValueModel::UInt8z((n % 0x100) as u8)),
        BaseType::UInt16z => Some(ValueModel::UInt16z((n % 0x1_0000) as u16)),
        BaseType::UInt32z => Some(ValueModel::UInt32z((n % 0x1_0000_0000) as u32)),
        BaseType::Byte => Some(ValueModel::Byte((n % 0x100) as u8)),
        BaseType::SInt64 => Some(ValueModel::SInt64(i64_of(n))),
        BaseType::UInt64 => Some(ValueModel::UInt64(n)),
        BaseType::UInt64z => Some(ValueModel::UInt64z(n)),
        BaseType::String | BaseType::Float32 | BaseType::Float64 => None,
    }
}

/// A value read as the type of a sub-field: where the two type names stand
/// for different base types and the value is an integer of the first, the
/// integer of the second with the same low bits; else the value itself.
pub open spec fn coerced(p: FitProfile, from: Seq<char>, to: Seq<char>, v: ValueModel) -> ValueModel {
    if from == to {
        v
    } else {
        match (p.spec_base_type_of(from), p.spec_base_type_of(to)) {
            (Some(a), Some(b)) => if a != b && v.base_type() == a && !(v is DateTime) && !(v
                is Bool) && !(v is Array) && v.pattern() is Some && wrap_integer(
                b,
                v.pattern().unwrap(),
            ) is Some {
                wrap_integer(b, v.pattern().unwrap()).unwrap()
            } else {
                v
            },
            _ => v,
        }
    }
}

/// A single value under a named type: the name that the type gives its
/// number as text, or the value itself where the profile has no such type,
/// the value is not of the type's base type, or the type has no name for
/// the number.
pub open spec fn named(p: FitProfile, ty: Seq<char>, v: ValueModel) -> ValueModel {
    match p.spec_find_type(ty) {
        Some(t) => match v.ordinal(p.types@[t].base_type) {
            Some(n) => match p.types@[t].spec_find_value(n) {
                Some(k) => ValueModel::String(p.types@[t].values@[k].name@),
                None => v,
            },
            None => v,
        },
        None => v,
    }
}

/// A value under a named type, element by element where it is an array.
pub open spec fn named_all(p: FitProfile, ty: Seq<char>, v: ValueModel) -> ValueModel {
    match v {
        ValueModel::Array(a) => ValueModel::Array(Seq::new(a.len(), |i: int| named(p, ty, a[i]))),
        _ => named(p, ty, v),
    }
}

/// The projection of a raw value of a field of the type `ty`.
///
/// A value of one of the two messages that describe developer data passes
/// unchanged. An array must be declared, and have the declared length where
/// that is not zero. Text passes unchanged. A date and time must be a
/// `UInt32` and becomes a point in time. Under a numeric base type the value
/// keeps its raw form, with the scale and the offset attached unless they
/// change nothing, and must then be a number or an array of numbers. Under
/// any other type each number gets the name that the type gives it.
pub open spec fn projected(
    p: FitProfile,
    exempt: bool,
    v: ValueModel,
    ty: Seq<char>,
    scale: u64,
    offset: u64,
    array: Option<usize>,
) -> Result<(ValueModel, Option<Scaling>), ProjectionFault> {
    if exempt {
        Ok((v, None))
    } else if v is Array && array is None {
        Err(ProjectionFault::UnexpectedArray)
    } else if v is Array && array.unwrap() != 0 && array.unwrap() != v->Array_0.len() {
        Err(
            ProjectionFault::ArrayLengthMismatch {
                expected: array.unwrap(),
                actual: v->Array_0.len() as usize,
            },
        )
    } else if ty == "string"@ {
        Ok((v, None))
    } else if ty == "date_time"@ {
        match v {
            ValueModel::UInt32(t) => Ok((ValueModel::DateTime(unix_seconds(t)), None)),
            _ => Err(ProjectionFault::NotADateTime),
        }
    } else if BaseType::spec_from_name(ty) matches Some(t) && t.spec_is_numeric() {
        if is_identity(scale, offset) {
            Ok((v, None))
        } else if v.all_numbers() {
            Ok((v, Some(Scaling { scale, offset })))
        } else {
            Err(ProjectionFault::NotNumeric)
        }
    } else {
        Ok((named_all(p, ty, v), None))
    }
}

/// Whether a scale and an offset change nothing.
pub fn scale_is_identity(scale: u64, offset: u64) -> (r: bool)
    ensures
        r == is_identity(scale, offset),
{
    scale == SCALE_ONE && (offset == 0 || offset == 0x8000_0000_0000_0000)
}

fn from_i128(n: i128) -> (r: u64)
    requires
        -0x8000_0000_0000_0000 <= n < 0x8000_0000_0000_0000,
    ensures
        r == twos(n as int),
{
    if n >= 0 {
        n as u64
    } else {
        (n + 0x1_0000_0000_0000_0000) as u64
    }
}

impl Value {
    /// Whether the value is a single number.
    pub fn is_number(&self) -> (r: bool)
        ensures
            r == self@.is_number(),
    {
        match self {
            Value::Enum(_) | Value::String(_) | Value::DateTime(_) | Value::Bool(_) | Value::Array(
                _,
            ) => false,
            _ => true,
        }
    }

    /// Whether the value is a number, or an array of numbers.
    #[verifier::loop_isolation(false)]
    pub fn all_numbers(&self) -> (r: bool)
        ensures
            r == self@.all_numbers(),
    {
        match self {
            Value::Array(a) => {
                proof {
                    lemma_array_model(*a);
                }
                let mut i: usize = 0;
                while i < a.len()
                    invariant
                        i <= a.len(),
                        forall|j: int| 0 <= j < i ==> a[j]@.is_number(),
                    decreases a.len() - i,
                {
                    if !a[i].is_number() {
                        assert(self@->Array_0[i as int] == a[i as int]@);
                        return false;
                    }
                    i += 1;
                }
                assert forall|j: int| 0 <= j < a.len() implies (#[trigger] value_models(
                    a@,
                )[j]).is_number() by {
                    assert(value_models(a@)[j] == a[j]@);
                }
                true
            },
            _ => self.is_number(),
        }
    }

    /// The 64-bit two's complement pattern of an integer value.
    pub fn pattern(&self) -> (r: Option<u64>)
        ensures
            r == self@.pattern(),
    {
        match self {
            Value::Enum(x) => Some(*x as u64),
            Value::SInt8(x) => Some(from_i128(*x as i128)),
            Value::SInt16(x) => Some(from_i128(*x as i128)),
            Value::SInt32(x) => Some(from_i128(*x as i128)),
            Value::SInt64(x) => Some(from_i128(*x as i128)),
            Value::UInt64z(x) => Some(*x),
            _ => self.unsigned(),
        }
    }

    /// The number of a value of the base type `t` that is an unsigned
    /// integer or an `Enum`.
    pub fn ordinal(&self, t: BaseType) -> (r: Option<u64>)
        ensures
            r == self@.ordinal(t),
    {
        match self {
            Value::Array(_) | Value::String(_) | Value::Float32(_) | Value::Float64(_)
            | Value::DateTime(_) | Value::Bool(_) => None,
            Value::SInt8(_) | Value::SInt16(_) | Value::SInt32(_) | Value::SInt64(_) => None,
            _ => {
                if self.base_type() == t {
                    self.pattern()
                } else {
                    None
                }
            },
        }
    }
}

/// The value of an integer base type with the low bits of a pattern.
pub fn integer_value(t: BaseType, n: u64) -> (r: Option<Value>)
    ensures
        match r {
            Some(v) => wrap_integer(t, n) == Some(v@),
            None => wrap_integer(t, n) is None,
        },
{
    let low8 = (n % 0x100) as u8;
    let low16 = (n % 0x1_0000) as u16;
    let low32 = (n % 0x1_0000_0000) as u32;
    match t {
        BaseType::Enum => Some(Value::Enum(low8)),
        BaseType::SInt8 => Some(
            Value::SInt8(
                if low8 < 0x80 {
                    low8 as i8
                } else {
                    (low8 as i16 - 0x100) as i8
                },
            ),
        ),
        BaseType::UInt8 => Some(Value::UInt8(low8)),
        BaseType::SInt16 => Some(
            Value::SInt16(
                if low16 < 0x8000 {
                    low16 as i16
                } else {
                    (low16 as i32 - 0x1_0000) as i16
                },
            ),
        ),
        BaseType::UInt16 => Some(Value::UInt16(low16)),
        BaseType::SInt32 => Some(
            Value::SInt32(
                if low32 < 0x8000_0000 {
                    low32 as i32
                } else {
                    (low32 as i64 - 0x1_0000_0000) as i32
                },
            ),
        ),
        BaseType::UInt32 => Some(Value::UInt32(low32)),
        BaseType::UInt8z => Some(Value::UInt8z(low8)),
        BaseType::UInt16z => Some(Value::UInt16z(low16)),
        BaseType::UInt32z => Some(Value::UInt32z(low32)),
        BaseType::Byte => Some(Value::Byte(low8)),
        BaseType::SInt64 => Some(
            Value::SInt64(
                if n < 0x8000_0000_0000_0000 {
                    n as i64
                } else {
                    (n as i128 - 0x1_0000_0000_0000_0000) as i64
                },
            ),
        ),
        BaseType::UInt64 => Some(Value::UInt64(n)),
        BaseType::UInt64z => Some(Value::UInt64z(n)),
        BaseType::String | BaseType::Float32 | BaseType::Float64 => None,
    }
}

/// A value read as the type of a sub-field.
pub fn coerce(profile: &FitProfile, from: &str, to: &str, value: &Value) -> (r: Value)
    ensures
        r@ == coerced(*profile, from@, to@, value@),
{
    if str_eq(from, to) {
        return value.clone();
    }
    let a = profile.base_type_of(from);
    let b = profile.base_type_of(to);
    match (a, b) {
        (Some(a), Some(b)) => {
            if a == b {
                return value.clone();
            }
            match value {
                Value::DateTime(_) | Value::Bool(_) | Value::Array(_) => value.clone(),
                _ => {
                    if value.base_type() != a {
                        return value.clone();
                    }
                    match value.pattern() {
                        Some(n) => match integer_value(b, n) {
                            Some(v) => v,
                            None => value.clone(),
                        },
                        None => value.clone(),
                    }
                },
            }
        },
        _ => value.clone(),
    }
}

/// A single value under a named type.
pub fn name_value(profile: &FitProfile, ty: &str, value: &Value) -> (r: Value)
    requires
        !(value@ is Array),
    ensures
        r@ == named(*profile, ty@, value@),
{
    match profile.find_type(ty) {
        Some(t) => match value.ordinal(profile.types[t].base_type) {
            Some(n) => match profile.types[t].find_value(n) {
                Some(k) => Value::String(profile.types[t].values[k].name.clone()),
                None => value.clone(),
            },
            None => value.clone(),
        },
        None => value.clone(),
    }
}

/// A value under a named type, element by element where it is an array.
pub fn name_values(profile: &FitProfile, ty: &str, value: &Value) -> (r: Value)
    ensures
        r@ == named_all(*profile, ty@, value@),
{
    match value {
        Value::Array(a) => {
            proof {
                lemma_array_model(*a);
            }
            let mut out: Vec<Value> = Vec::new();
            let mut i: usize = 0;
            while i < a.len()
                invariant
                    i <= a.len(),
                    out.len() == i,
                    forall|j: int| 0 <= j < i ==> out[j]@ == named(*profile, ty@, a[j]@),
                decreases a.len() - i,
            {
                let v = match &a[i] {
                    Value::Array(_) => {
                        assert(a[i as int]@.pattern() is None);
                        a[i].clone()
                    },
                    _ => name_value(profile, ty, &a[i]),
                };
                out.push(v);
                i += 1;
            }
            proof {
                lemma_array_model(out);
                assert(value_models(out@) =~= Seq::new(
                    value_models(a@).len(),
                    |i: int| named(*profile, ty@, value_models(a@)[i]),
                ));
            }
            Value::Array(out)
        },
        _ => name_value(profile, ty, value),
    }
}

/// The projection of a raw value of a field of the type `ty`, as
/// [`projected`] defines it.
pub fn transform_value(
    profile: &FitProfile,
    exempt: bool,
    value: &Value,
    ty: &str,
    scale: u64,
    offset: u64,
    array: Option<usize>,
) -> (r: Result<(Value, Option<Scaling>), ProjectionFault>)
    ensures
        match r {
            Ok((v, s)) => projected(*profile, exempt, value@, ty@, scale, offset, array) == Ok::<
                _,
                ProjectionFault,
            >((v@, s)),
            Err(e) => projected(*profile, exempt, value@, ty@, scale, offset, array) == Err::<
                (ValueModel, Option<Scaling>),
                _,
            >(e),
        },
{
    if exempt {
        return Ok((value.clone(), None));
    }
    if let Value::Array(a) = value {
        proof {
            lemma_array_model(*a);
        }
        match array {
            Some(len) => {
                if len != 0 && len != a.len() {
                    return Err(
                        ProjectionFault::ArrayLengthMismatch { expected: len, actual: a.len() },
                    );
                }
            },
            None => {
                return Err(ProjectionFault::UnexpectedArray);
            },
        }
    }
    if str_eq(ty, "string") {
        Ok((value.clone(), None))
    } else if str_eq(ty, "date_time") {
        match value {
            Value::UInt32(timestamp) => match date_time_of(*timestamp) {
                Some(seconds) => Ok((Value::DateTime(seconds), None)),
                None => Err(ProjectionFault::NotADateTime),
            },
            _ => Err(ProjectionFault::NotADateTime),
        }
    } else {
        let numeric = match BaseType::from_name(ty) {
            Some(t) => t.is_numeric(),
            None => false,
        };
        if numeric {
            if scale_is_identity(scale, offset) {
                Ok((value.clone(), None))
            } else if value.all_numbers() {
                Ok((value.clone(), Some(Scaling { scale, offset })))
            } else {
                Err(ProjectionFault::NotNumeric)
            }
        } else {
            Ok((name_values(profile, ty, value), None))
        }
    }
}

impl FitProfile {
    /// Whether no name that a type gives a number holds a NUL.
    pub open spec fn names_valid(&self) -> bool {
        forall|t: int, k: int|
            0 <= t < self.types@.len() && 0 <= k < self.types@[t].values@.len()
                ==> !(#[trigger] self.types@[t].values@[k]).name@.contains('\0')
    }
}

/// A valid value stays valid under a named type, with a profile whose names
/// are valid.
pub proof fn lemma_named_valid(p: FitProfile, ty: Seq<char>, v: ValueModel)
    requires
        v.is_valid(),
        p.names_valid(),
    ensures
        named(p, ty, v).is_valid(),
{
    if let Some(t) = p.spec_find_type(ty) {
        lemma_find_type(p, ty);
        if let Some(n) = v.ordinal(p.types@[t].base_type) {
            if let Some(k) = p.types@[t].spec_find_value(n) {
                lemma_find_value(p.types@[t], n);
                assert(!p.types@[t].values@[k].name@.contains('\0'));
            }
        }
    }
}

/// The projection keeps validity: the projected value of a valid raw value
/// is valid, with a profile whose names are valid.
pub proof fn lemma_projected_valid(
    p: FitProfile,
    exempt: bool,
    v: ValueModel,
    ty: Seq<char>,
    scale: u64,
    offset: u64,
    array: Option<usize>,
)
    requires
        v.is_valid(),
        p.names_valid(),
    ensures
        projected(p, exempt, v, ty, scale, offset, array) matches Ok(out) ==> out.0.is_valid(),
{
    match v {
        ValueModel::Array(a) => {
            let out = Seq::new(a.len(), |i: int| named(p, ty, a[i]));
            assert forall|i: int| 0 <= i < out.len() implies (#[trigger] out[i]).is_valid() by {
                assert(a[i].is_valid());
                lemma_named_valid(p, ty, a[i]);
            }
            assert(ValueModel::Array(out).is_valid());
        },
        _ => {
            lemma_named_valid(p, ty, v);
        },
    }
}

/// A scale and an offset are attached to a projected value only where they
/// change something, and then to the raw number, or array of raw numbers,
/// as it stands: the physical value is left to be computed as the raw one
/// divided by the scale, less the offset.
pub proof fn lemma_scaling_attached(
    p: FitProfile,
    exempt: bool,
    v: ValueModel,
    ty: Seq<char>,
    scale: u64,
    offset: u64,
    array: Option<usize>,
)
    requires
        projected(p, exempt, v, ty, scale, offset, array) is Ok,
        projected(p, exempt, v, ty, scale, offset, array)->Ok_0.1 is Some,
    ensures
        projected(p, exempt, v, ty, scale, offset, array) == Ok::<_, ProjectionFault>(
            (v, Some(Scaling { scale, offset })),
        ),
        v.all_numbers(),
        !is_identity(scale, offset),
        BaseType::spec_from_name(ty) is Some,
        BaseType::spec_from_name(ty)->Some_0.spec_is_numeric(),
{
}

/// A number of a field of a numeric base type whose scale and offset
/// change something is projected as the raw number with both attached.
pub proof fn lemma_number_scaled(
    p: FitProfile,
    v: ValueModel,
    t: BaseType,
    scale: u64,
    offset: u64,
    array: Option<usize>,
)
    requires
        v.is_number(),
        t.spec_is_numeric(),
        !is_identity(scale, offset),
    ensures
        projected(p, false, v, t.spec_name(), scale, offset, array) == Ok::<_, ProjectionFault>(
            (v, Some(Scaling { scale, offset })),
        ),
{
    lemma_base_type_names(t);
}

/// The name of a base type stands for that type, and is neither `string`,
/// unless the type is, nor `date_time` nor `bool`.
pub proof fn lemma_base_type_names(t: BaseType)
    ensures
        BaseType::spec_from_name(t.spec_name()) == Some(t),
        t.spec_name() == "string"@ <==> t == BaseType::String,
        t.spec_name() != "date_time"@,
        t.spec_name() != "bool"@,
{
    reveal_strlit("enum");
    assert("enum"@.len() == 4);
    assert("enum"@[0] == 'e');
    assert("enum"@[1] == 'n');
    reveal_strlit("sint8");
    assert("sint8"@.len() == 5);
    assert("sint8"@[0] == 's');
    assert("sint8"@[1] == 'i');
    assert("sint8"@[4] == '8');
    reveal_strlit("uint8");
    assert("uint8"@.len() == 5);
    assert("uint8"@[0] == 'u');
    assert("uint8"@[1] == 'i');
    assert("uint8"@[4] == '8');
    reveal_strlit("sint16");
    assert("sint16"@.len() == 6);
    assert("sint16"@[0] == 's');
    assert("sint16"@[1] == 'i');
    assert("sint16"@[4] == '1');
    assert("sint16"@[5] == '6');
    reveal_strlit("uint16");
    assert("uint16"@.len() == 6);
    assert("uint16"@[0] == 'u');
    assert("uint16"@[1] == 'i');
    assert("uint16"@[4] == '1');
    assert("uint16"@[5] == '6');
    reveal_strlit("sint32");
    assert("sint32"@.len() == 6);
    assert("sint32"@[0] == 's');
    assert("sint32"@[1] == 'i');
    assert("sint32"@[4] == '3');
    assert("sint32"@[5] == '2');
    reveal_strlit("uint32");
    assert("uint32"@.len() == 6);
    assert("uint32"@[0] == 'u');
    assert("uint32"@[1] == 'i');
    assert("uint32"@[4] == '3');
    assert("uint32"@[5] == '2');
    reveal_strlit("string");
    assert("string"@.len() == 6);
    assert("string"@[0] == 's');
    assert("string"@[1] == 't');
    assert("string"@[4] == 'n');
    assert("string"@[5] == 'g');
    reveal_strlit("float32");
    assert("float32"@.len() == 7);
    assert("float32"@[0] == 'f');
    assert("float32"@[1] == 'l');
    assert("float32"@[4] == 't');
    assert("float32"@[5] == '3');
    reveal_strlit("float64");
    assert("float64"@.len() == 7);
    assert("float64"@[0] == 'f');
    assert("float64"@[1] == 'l');
    assert("float64"@[4] == 't');
    assert("float64"@[5] == '6');
    reveal_strlit("uint8z");
    assert("uint8z"@.len() == 6);
    assert("uint8z"@[0] == 'u');
    assert("uint8z"@[1] == 'i');
    assert("uint8z"@[4] == '8');
    assert("uint8z"@[5] == 'z');
    reveal_strlit("uint16z");
    assert("uint16z"@.len() == 7);
    assert("uint16z"@[0] == 'u');
    assert("uint16z"@[1] == 'i');
    assert("uint16z"@[4] == '1');
    assert("uint16z"@[5] == '6');
    reveal_strlit("uint32z");
    assert("uint32z"@.len() == 7);
    assert("uint32z"@[0] == 'u');
    assert("uint32z"@[1] == 'i');
    assert("uint32z"@[4] == '3');
    assert("uint32z"@[5] == '2');
    reveal_strlit("byte");
    assert("byte"@.len() == 4);
    assert("byte"@[0] == 'b');
    assert("byte"@[1] == 'y');
    reveal_strlit("sint64");
    assert("sint64"@.len() == 6);
    assert("sint64"@[0] == 's');
    assert("sint64"@[1] == 'i');
    assert("sint64"@[4] == '6');
    assert("sint64"@[5] == '4');
    reveal_strlit("uint64");
    assert("uint64"@.len() == 6);
    assert("uint64"@[0] == 'u');
    assert("uint64"@[1] == 'i');
    assert("uint64"@[4] == '6');
    assert("uint64"@[5] == '4');
    reveal_strlit("uint64z");
    assert("uint64z"@.len() == 7);
    assert("uint64z"@[0] == 'u');
    assert("uint64z"@[1] == 'i');
    assert("uint64z"@[4] == '6');
    assert("uint64z"@[5] == '4');
    reveal_strlit("date_time");
    assert("date_time"@.len() == 9);
    assert("date_time"@[0] == 'd');
    assert("date_time"@[1] == 'a');
    assert("date_time"@[4] == '_');
    assert("date_time"@[5] == 't');
    reveal_strlit("bool");
    assert("bool"@.len() == 4);
    assert("bool"@[0] == 'b');
    assert("bool"@[1] == 'o');
}

} // verus!
