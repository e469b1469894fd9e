//! The base types of the protocol and the values that a field can hold.
use vstd::prelude::*;
use crate::text::{has_nul, str_eq};

verus! {

/// One of the seventeen wire-level primitive types.
#[derive(Debug, Clone, Copy, PartialEq, Eq, Structural, Hash)]
pub enum BaseType {
    Enum,
    SInt8,
    UInt8,
    SInt16,
    UInt16,
    SInt32,
    UInt32,
    String,
    Float32,
    Float64,
    UInt8z,
    UInt16z,
    UInt32z,
    Byte,
    SInt64,
    UInt64,
    UInt64z,
}

impl BaseType {
    /// The number of bytes that one element takes on the wire.
    pub open spec fn spec_size(self) -> u8 {
        match self {
            BaseType::Enum | BaseType::SInt8 | BaseType::UInt8 | BaseType::String
            | BaseType::UInt8z | BaseType::Byte => 1,
            BaseType::SInt16 | BaseType::UInt16 | BaseType::UInt16z => 2,
            BaseType::SInt32 | BaseType::UInt32 | BaseType::Float32 | BaseType::UInt32z => 4,
            BaseType::Float64 | BaseType::SInt64 | BaseType::UInt64 | BaseType::UInt64z => 8,
        }
    }

    /// The bit pattern that marks an absent value: the largest value of a
    /// signed type, all ones for an unsigned type, zero for the `z` variants
    /// and for the terminator of a string.
    pub open spec fn spec_invalid(self) -> u64 {
        match self {
            BaseType::String | BaseType::UInt8z | BaseType::UInt16z | BaseType::UInt32z
            | BaseType::UInt64z => 0,
            BaseType::SInt8 => 0x7F,
            BaseType::SInt16 => 0x7FFF,
            BaseType::SInt32 => 0x7FFF_FFFF,
            BaseType::SInt64 => 0x7FFF_FFFF_FFFF_FFFF,
            BaseType::Enum | BaseType::UInt8 | BaseType::Byte => 0xFF,
            BaseType::UInt16 => 0xFFFF,
            BaseType::UInt32 | BaseType::Float32 => 0xFFFF_FFFF,
            BaseType::UInt64 | BaseType::Float64 => 0xFFFF_FFFF_FFFF_FFFF,
        }
    }

    /// Whether values of the type take part in arithmetic: all but `Enum`
    /// and `String`.
    pub open spec fn spec_is_numeric(self) -> bool {
        self != BaseType::Enum && self != BaseType::String
    }

    /// The byte that names the type in a definition message.
    pub open spec fn spec_tag(self) -> u8 {
        match self {
            BaseType::Enum => 0x00,
            BaseType::SInt8 => 0x01,
            BaseType::UInt8 => 0x02,
            BaseType::SInt16 => 0x83,
            BaseType::UInt16 => 0x84,
            BaseType::SInt32 => 0x85,
            BaseType::UInt32 => 0x86,
            BaseType::String => 0x07,
            BaseType::Float32 => 0x88,
            BaseType::Float64 => 0x89,
            BaseType::UInt8z => 0x0A,
            BaseType::UInt16z => 0x8B,
            BaseType::UInt32z => 0x8C,
            BaseType::Byte => 0x0D,
            BaseType::SInt64 => 0x8E,
            BaseType::UInt64 => 0x8F,
            BaseType::UInt64z => 0x90,
        }
    }

    /// The type that a tag byte names, if any.
    pub open spec fn spec_from_tag(tag: u8) -> Option<BaseType> {
        if tag == 0x00 {
            Some(BaseType::Enum)
        } else if tag == 0x01 {
            Some(BaseType::SInt8)
        } else if tag == 0x02 {
            Some(BaseType::UInt8)
        } else if tag == 0x83 {
            Some(BaseType::SInt16)
        } else if tag == 0x84 {
            Some(BaseType::UInt16)
        } else if tag == 0x85 {
            Some(BaseType::SInt32)
        } else if tag == 0x86 {
            Some(BaseType::UInt32)
        } else if tag == 0x07 {
            Some(BaseType::String)
        } else if tag == 0x88 {
            Some(BaseType::Float32)
        } else if tag == 0x89 {
            Some(BaseType::Float64)
        } else if tag == 0x0A {
            Some(BaseType::UInt8z)
        } else if tag == 0x8B {
            Some(BaseType::UInt16z)
        } else if tag == 0x8C {
            Some(BaseType::UInt32z)
        } else if tag == 0x0D {
            Some(BaseType::Byte)
        } else if tag == 0x8E {
            Some(BaseType::SInt64)
        } else if tag == 0x8F {
            Some(BaseType::UInt64)
        } else if tag == 0x90 {
            Some(BaseType::UInt64z)
        } else {
            None
        }
    }

    /// The lower-case name of the type in the profile.
    pub open spec fn spec_name(self) -> Seq<char> {
        match self {
            BaseType::Enum => "enum"@,
            BaseType::SInt8 => "sint8"@,
            BaseType::UInt8 => "uint8"@,
            BaseType::SInt16 => "sint16"@,
            BaseType::UInt16 => "uint16"@,
            BaseType::SInt32 => "sint32"@,
            BaseType::UInt32 => "uint32"@,
            BaseType::String => "string"@,
            BaseType::Float32 => "float32"@,
            BaseType::Float64 => "float64"@,
            BaseType::UInt8z => "uint8z"@,
            BaseType::UInt16z => "uint16z"@,
            BaseType::UInt32z => "uint32z"@,
            BaseType::Byte => "byte"@,
            BaseType::SInt64 => "sint64"@,
            BaseType::UInt64 => "uint64"@,
            BaseType::UInt64z => "uint64z"@,
        }
    }

    /// The type that a lower-case name stands for, if any.
    pub open spec fn spec_from_name(name: Seq<char>) -> Option<BaseType> {
        if name == "enum"@ {
            Some(BaseType::Enum)
        } else if name == "sint8"@ {
            Some(BaseType::SInt8)
        } else if name == "uint8"@ {
            Some(BaseType::UInt8)
        } else if name == "sint16"@ {
            Some(BaseType::SInt16)
        } else if name == "uint16"@ {
            Some(BaseType::UInt16)
        } else if name == "sint32"@ {
            Some(BaseType::SInt32)
        } else if name == "uint32"@ {
            Some(BaseType::UInt32)
        } else if name == "string"@ {
            Some(BaseType::String)
        } else if name == "float32"@ {
            Some(BaseType::Float32)
        } else if name == "float64"@ {
            Some(BaseType::Float64)
        } else if name == "uint8z"@ {
            Some(BaseType::UInt8z)
        } else if name == "uint16z"@ {
            Some(BaseType::UInt16z)
        } else if name == "uint32z"@ {
            Some(BaseType::UInt32z)
        } else if name == "byte"@ {
            Some(BaseType::Byte)
        } else if name == "sint64"@ {
            Some(BaseType::SInt64)
        } else if name == "uint64"@ {
            Some(BaseType::UInt64)
        } else if name == "uint64z"@ {
            Some(BaseType::UInt64z)
        } else {
            None
        }
    }

    /// Whether values of the type are integers: all but text and floats.
    pub open spec fn spec_is_integer(self) -> bool {
        self != BaseType::String && self != BaseType::Float32 && self != BaseType::Float64
    }

    /// The number of bytes that one element takes on the wire.
    pub fn size(&self) -> (r: u8)
        ensures
            r == self.spec_size(),
            r == 1 || r == 2 || r == 4 || r == 8,
    {
        match self {
            BaseType::Enum => 1,
            BaseType::SInt8 => 1,
            BaseType::UInt8 => 1,
            BaseType::SInt16 => 2,
            BaseType::UInt16 => 2,
            BaseType::SInt32 => 4,
            BaseType::UInt32 => 4,
            BaseType::String => 1,
            BaseType::Float32 => 4,
            BaseType::Float64 => 8,
            BaseType::UInt8z => 1,
            BaseType::UInt16z => 2,
            BaseType::UInt32z => 4,
            BaseType::Byte => 1,
            BaseType::SInt64 => 8,
            BaseType::UInt64 => 8,
            BaseType::UInt64z => 8,
        }
    }

    /// The bit pattern that marks an absent value.
    pub fn invalid(&self) -> (r: u64)
        ensures
            r == self.spec_invalid(),
    {
        match self {
            BaseType::Enum => 0xFF,
            BaseType::SInt8 => 0x7F,
            BaseType::UInt8 => 0xFF,
            BaseType::SInt16 => 0x7FFF,
            BaseType::UInt16 => 0xFFFF,
            BaseType::SInt32 => 0x7FFF_FFFF,
            BaseType::UInt32 => 0xFFFF_FFFF,
            BaseType::String => 0x00,
            BaseType::Float32 => 0xFFFF_FFFF,
            BaseType::Float64 => 0xFFFF_FFFF_FFFF_FFFF,
            BaseType::UInt8z => 0x00,
            BaseType::UInt16z => 0x0000,
            BaseType::UInt32z => 0x0000_0000,
            BaseType::Byte => 0xFF,
            BaseType::SInt64 => 0x7FFF_FFFF_FFFF_FFFF,
            BaseType::UInt64 => 0xFFFF_FFFF_FFFF_FFFF,
            BaseType::UInt64z => 0x0000_0000_0000_0000,
        }
    }

    /// Whether values of the type take part in arithmetic.
    pub fn is_numeric(&self) -> (r: bool)
        ensures
            r == self.spec_is_numeric(),
    {
        match self {
            BaseType::Enum | BaseType::String => false,
            _ => true,
        }
    }

    /// The byte that names the type in a definition message.
    pub fn tag(&self) -> (r: u8)
        ensures
            r == self.spec_tag(),
            BaseType::spec_from_tag(r) == Some(*self),
    {
        match self {
            BaseType::Enum => 0x00,
            BaseType::SInt8 => 0x01,
            BaseType::UInt8 => 0x02,
            BaseType::SInt16 => 0x83,
            BaseType::UInt16 => 0x84,
            BaseType::SInt32 => 0x85,
            BaseType::UInt32 => 0x86,
            BaseType::String => 0x07,
            BaseType::Float32 => 0x88,
            BaseType::Float64 => 0x89,
            BaseType::UInt8z => 0x0A,
            BaseType::UInt16z => 0x8B,
            BaseType::UInt32z => 0x8C,
            BaseType::Byte => 0x0D,
            BaseType::SInt64 => 0x8E,
            BaseType::UInt64 => 0x8F,
            BaseType::UInt64z => 0x90,
        }
    }

    /// The type that a tag byte names; `None` for a byte that names none.
    pub fn from_tag(tag: u8) -> (r: Option<BaseType>)
        ensures
            r == BaseType::spec_from_tag(tag),
            r matches Some(t) ==> t.spec_tag() == tag,
            r is None ==> forall|t: BaseType| t.spec_tag() != tag,
    {
        let r = match tag {
            0x00 => Some(BaseType::Enum),
            0x01 => Some(BaseType::SInt8),
            0x02 => Some(BaseType::UInt8),
            0x83 => Some(BaseType::SInt16),
            0x84 => Some(BaseType::UInt16),
            0x85 => Some(BaseType::SInt32),
            0x86 => Some(BaseType::UInt32),
            0x07 => Some(BaseType::String),
            0x88 => Some(BaseType::Float32),
            0x89 => Some(BaseType::Float64),
            0x0A => Some(BaseType::UInt8z),
            0x8B => Some(BaseType::UInt16z),
            0x8C => Some(BaseType::UInt32z),
            0x0D => Some(BaseType::Byte),
            0x8E => Some(BaseType::SInt64),
            0x8F => Some(BaseType::UInt64),
            0x90 => Some(BaseType::UInt64z),
            _ => None,
        };
        r
    }

    /// The type that a lower-case name stands for; `None` for any other
    /// text.
    pub fn from_name(name: &str) -> (r: Option<BaseType>)
        ensures
            r == BaseType::spec_from_name(name@),
    {
        if str_eq(name, "enum") {
            Some(BaseType::Enum)
        } else if str_eq(name, "sint8") {
            Some(BaseType::SInt8)
        } else if str_eq(name, "uint8") {
            Some(BaseType::UInt8)
        } else if str_eq(name, "sint16") {
            Some(BaseType::SInt16)
        } else if str_eq(name, "uint16") {
            Some(BaseType::UInt16)
        } else if str_eq(name, "sint32") {
            Some(BaseType::SInt32)
        } else if str_eq(name, "uint32") {
            Some(BaseType::UInt32)
        } else if str_eq(name, "string") {
            Some(BaseType::String)
        } else if str_eq(name, "float32") {
            Some(BaseType::Float32)
        } else if str_eq(name, "float64") {
            Some(BaseType::Float64)
        } else if str_eq(name, "uint8z") {
            Some(BaseType::UInt8z)
        } else if str_eq(name, "uint16z") {
            Some(BaseType::UInt16z)
        } else if str_eq(name, "uint32z") {
            Some(BaseType::UInt32z)
        } else if str_eq(name, "byte") {
            Some(BaseType::Byte)
        } else if str_eq(name, "sint64") {
            Some(BaseType::SInt64)
        } else if str_eq(name, "uint64") {
            Some(BaseType::UInt64)
        } else if str_eq(name, "uint64z") {
            Some(BaseType::UInt64z)
        } else {
            None
        }
    }

    /// Whether values of the type are integers: all but text and floats.
    pub fn is_integer(&self) -> (r: bool)
        ensures
            r == self.spec_is_integer(),
    {
        match self {
            BaseType::String | BaseType::Float32 | BaseType::Float64 => false,
            _ => true,
        }
    }

    /// The lower-case name of the type in the profile.
    pub fn name(&self) -> (r: &'static str)
        ensures
            r@ == self.spec_name(),
    {
        match self {
            BaseType::Enum => "enum",
            BaseType::SInt8 => "sint8",
            BaseType::UInt8 => "uint8",
            BaseType::SInt16 => "sint16",
            BaseType::UInt16 => "uint16",
            BaseType::SInt32 => "sint32",
            BaseType::UInt32 => "uint32",
            BaseType::String => "string",
            BaseType::Float32 => "float32",
            BaseType::Float64 => "float64",
            BaseType::UInt8z => "uint8z",
            BaseType::UInt16z => "uint16z",
            BaseType::UInt32z => "uint32z",
            BaseType::Byte => "byte",
            BaseType::SInt64 => "sint64",
            BaseType::UInt64 => "uint64",
            BaseType::UInt64z => "uint64z",
        }
    }
}

/// A value of a field: one of the base types, or one of the three kinds that
/// only the decoder makes.
///
/// `Float32` and `Float64` hold the IEEE 754 bit pattern of the number, and
/// `DateTime` holds seconds since the UNIX epoch.
#[derive(Debug, PartialEq)]
pub enum Value {
    Enum(u8),
    SInt8(i8),
    UInt8(u8),
    SInt16(i16),
    UInt16(u16),
    SInt32(i32),
    UInt32(u32),
    String(String),
    Float32(u32),
    Float64(u64),
    UInt8z(u8),
    UInt16z(u16),
    UInt32z(u32),
    Byte(u8),
    SInt64(i64),
    UInt64(u64),
    UInt64z(u64),
    DateTime(i64),
    Bool(bool),
    Array(Vec<Value>),
}

/// The mathematical model of a [`Value`]: text is a sequence of characters
/// and an array is a sequence of models.
pub enum ValueModel {
    Enum(u8),
    SInt8(i8),
    UInt8(u8),
    SInt16(i16),
    UInt16(u16),
    SInt32(i32),
    UInt32(u32),
    String(Seq<char>),
    Float32(u32),
    Float64(u64),
    UInt8z(u8),
    UInt16z(u16),
    UInt32z(u32),
    Byte(u8),
    SInt64(i64),
    UInt64(u64),
    UInt64z(u64),
    DateTime(i64),
    Bool(bool),
    Array(Seq<ValueModel>),
}

/// The model of a value.
pub open spec fn value_model(v: Value) -> ValueModel
    decreases v,
{
    match v {
        Value::Enum(x) => ValueModel::Enum(x),
        Value::SInt8(x) => ValueModel::SInt8(x),
        Value::UInt8(x) => ValueModel::UInt8(x),
        Value::SInt16(x) => ValueModel::SInt16(x),
        Value::UInt16(x) => ValueModel::UInt16(x),
        Value::SInt32(x) => ValueModel::SInt32(x),
        Value::UInt32(x) => ValueModel::UInt32(x),
        Value::String(x) => ValueModel::String(x@),
        Value::Float32(x) => ValueModel::Float32(x),
        Value::Float64(x) => ValueModel::Float64(x),
        Value::UInt8z(x) => ValueModel::UInt8z(x),
        Value::UInt16z(x) => ValueModel::UInt16z(x),
        Value::UInt32z(x) => ValueModel::UInt32z(x),
        Value::Byte(x) => ValueModel::Byte(x),
        Value::SInt64(x) => ValueModel::SInt64(x),
        Value::UInt64(x) => ValueModel::UInt64(x),
        Value::UInt64z(x) => ValueModel::UInt64z(x),
        Value::DateTime(x) => ValueModel::DateTime(x),
        Value::Bool(x) => ValueModel::Bool(x),
        Value::Array(a) => ValueModel::Array(
            Seq::new(
                a.len() as nat,
                |i: int|
                    if 0 <= i < a.len() {
                        value_model(a[i])
                    } else {
                        ValueModel::Bool(false)
                    },
            ),
        ),
    }
}

/// The models of the values of a vector, in order.
pub open spec fn value_models(a: Seq<Value>) -> Seq<ValueModel> {
    Seq::new(a.len(), |i: int| value_model(a[i]))
}

impl View for Value {
    type V = ValueModel;

    open spec fn view(&self) -> ValueModel {
        value_model(*self)
    }
}

/// The model of an array is the sequence of the models of its elements.
pub proof fn lemma_array_model(a: Vec<Value>)
    ensures
        Value::Array(a)@ == ValueModel::Array(value_models(a@)),
{
    assert(Value::Array(a)@->Array_0 =~= value_models(a@));
}

/// Whether a binary32 bit pattern stands for a finite number: its exponent
/// is not all ones.
pub open spec fn f32_is_finite(bits: u32) -> bool {
    (bits / 0x80_0000) % 0x100 != 0xFF
}

/// Whether a binary64 bit pattern stands for a finite number: its exponent
/// is not all ones.
pub open spec fn f64_is_finite(bits: u64) -> bool {
    (bits / 0x10_0000_0000_0000) % 0x800 != 0x7FF
}

impl ValueModel {
    /// Whether the value is no array.
    pub open spec fn is_scalar(self) -> bool {
        !(self is Array)
    }

    /// The base type of the value; `DateTime` counts as `UInt32`, `Bool` as
    /// `Byte`, and an array has the type of its first element.
    pub open spec fn base_type(self) -> BaseType
        decreases self,
    {
        match self {
            ValueModel::Enum(_) => BaseType::Enum,
            ValueModel::SInt8(_) => BaseType::SInt8,
            ValueModel::UInt8(_) => BaseType::UInt8,
            ValueModel::SInt16(_) => BaseType::SInt16,
            ValueModel::UInt16(_) => BaseType::UInt16,
            ValueModel::SInt32(_) => BaseType::SInt32,
            ValueModel::UInt32(_) => BaseType::UInt32,
            ValueModel::String(_) => BaseType::String,
            ValueModel::Float32(_) => BaseType::Float32,
            ValueModel::Float64(_) => BaseType::Float64,
            ValueModel::UInt8z(_) => BaseType::UInt8z,
            ValueModel::UInt16z(_) => BaseType::UInt16z,
            ValueModel::UInt32z(_) => BaseType::UInt32z,
            ValueModel::Byte(_) => BaseType::Byte,
            ValueModel::SInt64(_) => BaseType::SInt64,
            ValueModel::UInt64(_) => BaseType::UInt64,
            ValueModel::UInt64z(_) => BaseType::UInt64z,
            ValueModel::DateTime(_) => BaseType::UInt32,
            ValueModel::Bool(_) => BaseType::Byte,
            ValueModel::Array(a) => if a.len() > 0 {
                a[0].base_type()
            } else {
                BaseType::Byte
            },
        }
    }

    /// Whether a base type can be read off the value: it is a scalar, or an
    /// array whose first element has one.
    pub open spec fn has_base_type(self) -> bool
        decreases self,
    {
        match self {
            ValueModel::Array(a) => a.len() > 0 && a[0].has_base_type(),
            _ => true,
        }
    }

    /// Whether the value is present: a scalar differs from the invalid marker
    /// of its type, text holds no NUL, a float is finite, and an array is not
    /// empty and holds valid elements only.
    pub open spec fn is_valid(self) -> bool
        decreases self,
    {
        match self {
            ValueModel::Enum(x) => x != 0xFF,
            ValueModel::SInt8(x) => x != 0x7F,
            ValueModel::UInt8(x) => x != 0xFF,
            ValueModel::SInt16(x) => x != 0x7FFF,
            ValueModel::UInt16(x) => x != 0xFFFF,
            ValueModel::SInt32(x) => x != 0x7FFF_FFFF,
            ValueModel::UInt32(x) => x != 0xFFFF_FFFF,
            ValueModel::String(x) => !x.contains('\0'),
            ValueModel::Float32(x) => f32_is_finite(x),
            ValueModel::Float64(x) => f64_is_finite(x),
            ValueModel::UInt8z(x) => x != 0,
            ValueModel::UInt16z(x) => x != 0,
            ValueModel::UInt32z(x) => x != 0,
            ValueModel::Byte(x) => x != 0xFF,
            ValueModel::SInt64(x) => x != 0x7FFF_FFFF_FFFF_FFFF,
            ValueModel::UInt64(x) => x != 0xFFFF_FFFF_FFFF_FFFF,
            ValueModel::UInt64z(x) => x != 0,
            ValueModel::DateTime(_) => true,
            ValueModel::Bool(_) => true,
            ValueModel::Array(a) => a.len() > 0 && forall|i: int|
                0 <= i < a.len() ==> (#[trigger] a[i]).is_valid(),
        }
    }

    /// The number that an unsigned integer value holds; `None` for every
    /// other kind of value.
    pub open spec fn unsigned(self) -> Option<u64> {
        match self {
            ValueModel::UInt8(x) => Some(x as u64),
            ValueModel::UInt16(x) => Some(x as u64),
            ValueModel::UInt32(x) => Some(x as u64),
            ValueModel::UInt64(x) => Some(x),
            ValueModel::UInt8z(x) => Some(x as u64),
            ValueModel::UInt16z(x) => Some(x as u64),
            ValueModel::UInt32z(x) => Some(x as u64),
            ValueModel::Byte(x) => Some(x as u64),
            _ => None,
        }
    }
}

impl Clone for Value {
    #[verifier::loop_isolation(false)]
    fn clone(&self) -> (r: Value)
        ensures
            r@ == self@,
        decreases self,
    {
        match self {
            Value::Enum(x) => Value::Enum(*x),
            Value::SInt8(x) => Value::SInt8(*x),
            Value::UInt8(x) => Value::UInt8(*x),
            Value::SInt16(x) => Value::SInt16(*x),
            Value::UInt16(x) => Value::UInt16(*x),
            Value::SInt32(x) => Value::SInt32(*x),
            Value::UInt32(x) => Value::UInt32(*x),
            Value::String(x) => Value::String(x.clone()),
            Value::Float32(x) => Value::Float32(*x),
            Value::Float64(x) => Value::Float64(*x),
            Value::UInt8z(x) => Value::UInt8z(*x),
            Value::UInt16z(x) => Value::UInt16z(*x),
            Value::UInt32z(x) => Value::UInt32z(*x),
            Value::Byte(x) => Value::Byte(*x),
            Value::SInt64(x) => Value::SInt64(*x),
            Value::UInt64(x) => Value::UInt64(*x),
            Value::UInt64z(x) => Value::UInt64z(*x),
            Value::DateTime(x) => Value::DateTime(*x),
            Value::Bool(x) => Value::Bool(*x),
            Value::Array(a) => {
                let mut out: Vec<Value> = Vec::new();
                let mut i: usize = 0;
                while i < a.len()
                    invariant
                        i <= a.len(),
                        out.len() == i,
                        forall|j: int| 0 <= j < i ==> out[j]@ == a[j]@,
                    decreases a.len() - i,
                {
                    out.push(a[i].clone());
                    i += 1;
                }
                proof {
                    lemma_array_model(*a);
                    lemma_array_model(out);
                    assert(value_models(out@) =~= value_models(a@));
                }
                Value::Array(out)
            },
        }
    }
}

impl Value {
    /// Whether the value is present, as [`ValueModel::is_valid`] defines it.
    #[verifier::loop_isolation(false)]
    pub fn is_valid(&self) -> (r: bool)
        ensures
            r == self@.is_valid(),
        decreases self,
    {
        match self {
            Value::Enum(x) => *x != 0xFF,
            Value::SInt8(x) => *x != 0x7F,
            Value::UInt8(x) => *x != 0xFF,
            Value::SInt16(x) => *x != 0x7FFF,
            Value::UInt16(x) => *x != 0xFFFF,
            Value::SInt32(x) => *x != 0x7FFF_FFFF,
            Value::UInt32(x) => *x != 0xFFFF_FFFF,
            Value::String(x) => !has_nul(x.as_str()),
            Value::Float32(x) => (*x / 0x80_0000) % 0x100 != 0xFF,
            Value::Float64(x) => (*x / 0x10_0000_0000_0000) % 0x800 != 0x7FF,
            Value::UInt8z(x) => *x != 0,
            Value::UInt16z(x) => *x != 0,
            Value::UInt32z(x) => *x != 0,
            Value::Byte(x) => *x != 0xFF,
            Value::SInt64(x) => *x != 0x7FFF_FFFF_FFFF_FFFF,
            Value::UInt64(x) => *x != 0xFFFF_FFFF_FFFF_FFFF,
            Value::UInt64z(x) => *x != 0,
            Value::DateTime(_) => true,
            Value::Bool(_) => true,
            Value::Array(a) => {
                proof {
                    lemma_array_model(*a);
                }
                if a.len() == 0 {
                    return false;
                }
                let mut i: usize = 0;
                while i < a.len()
                    invariant
                        i <= a.len(),
                        forall|j: int| 0 <= j < i ==> a[j]@.is_valid(),
                    decreases a.len() - i,
                {
                    if !a[i].is_valid() {
                        assert(value_models(a@)[i as int] == a[i as int]@);
                        return false;
                    }
                    i += 1;
                }
                assert forall|j: int| 0 <= j < a.len() implies (#[trigger] value_models(
                    a@,
                )[j]).is_valid() by {
                    assert(value_models(a@)[j] == a[j]@);
                }
                true
            },
        }
    }

    /// The number that an unsigned integer value holds; `None` for every
    /// other kind of value.
    pub fn unsigned(&self) -> (r: Option<u64>)
        ensures
            r == self@.unsigned(),
    {
        match self {
            Value::UInt8(v) => Some(*v as u64),
            Value::UInt16(v) => Some(*v as u64),
            Value::UInt32(v) => Some(*v as u64),
            Value::UInt64(v) => Some(*v),
            Value::UInt8z(v) => Some(*v as u64),
            Value::UInt16z(v) => Some(*v as u64),
            Value::UInt32z(v) => Some(*v as u64),
            Value::Byte(v) => Some(*v as u64),
            _ => None,
        }
    }

    /// The number that an unsigned integer value holds, where it fits the
    /// machine word; an error for every other value.
    pub fn try_as_usize(&self) -> (r: Result<usize, &'static str>)
        ensures
            r is Ok <==> (self@.unsigned() matches Some(n) && n <= usize::MAX),
            r matches Ok(n) ==> self@.unsigned() == Some(n as u64),
    {
        match self.unsigned() {
            Some(n) => {
                if n <= usize::MAX as u64 {
                    Ok(n as usize)
                } else {
                    Err("Cannot be converted to 'usize' type.")
                }
            },
            None => Err("Cannot be converted to 'usize' type."),
        }
    }

    /// The base type of the value; `DateTime` counts as `UInt32`, `Bool` as
    /// `Byte`, and an array has the type of its first element.
    pub fn base_type(&self) -> (r: BaseType)
        requires
            self@.has_base_type(),
        ensures
            r == self@.base_type(),
        decreases self,
    {
        match self {
            Value::Enum(_) => BaseType::Enum,
            Value::SInt8(_) => BaseType::SInt8,
            Value::UInt8(_) => BaseType::UInt8,
            Value::SInt16(_) => BaseType::SInt16,
            Value::UInt16(_) => BaseType::UInt16,
            Value::SInt32(_) => BaseType::SInt32,
            Value::UInt32(_) => BaseType::UInt32,
            Value::String(_) => BaseType::String,
            Value::Float32(_) => BaseType::Float32,
            Value::Float64(_) => BaseType::Float64,
            Value::UInt8z(_) => BaseType::UInt8z,
            Value::UInt16z(_) => BaseType::UInt16z,
            Value::UInt32z(_) => BaseType::UInt32z,
            Value::Byte(_) => BaseType::Byte,
            Value::SInt64(_) => BaseType::SInt64,
            Value::UInt64(_) => BaseType::UInt64,
            Value::UInt64z(_) => BaseType::UInt64z,
            Value::DateTime(_) => BaseType::UInt32,
            Value::Bool(_) => BaseType::Byte,
            Value::Array(a) => {
                proof {
                    lemma_array_model(*a);
                    assert(value_models(a@)[0] == a[0]@);
                }
                a[0].base_type()
            },
        }
    }

    /// The lower-case name of the value's base type.
    pub fn to_base_type_str(&self) -> (r: &'static str)
        requires
            self@.has_base_type(),
        ensures
            r@ == self@.base_type().spec_name(),
    {
        self.base_type().name()
    }
}

} // verus!
