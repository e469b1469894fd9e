use fit::fit::{BaseType, Value};

const ALL: [BaseType; 17] = [
    BaseType::Enum,
    BaseType::SInt8,
    BaseType::UInt8,
    BaseType::SInt16,
    BaseType::UInt16,
    BaseType::SInt32,
    BaseType::UInt32,
    BaseType::String,
    BaseType::Float32,
    BaseType::Float64,
    BaseType::UInt8z,
    BaseType::UInt16z,
    BaseType::UInt32z,
    BaseType::Byte,
    BaseType::SInt64,
    BaseType::UInt64,
    BaseType::UInt64z,
];

#[test]
fn fit_it_works() {
    println!("{:?}", Value::UInt32(55));
    assert_eq!(format!("{:?}", Value::UInt32(55)), "UInt32(55)");
}

#[test]
fn base_type_sizes() {
    let sizes: [u8; 17] = [1, 1, 1, 2, 2, 4, 4, 1, 4, 8, 1, 2, 4, 1, 8, 8, 8];
    for (t, size) in ALL.iter().zip(sizes) {
        assert_eq!(t.size(), size);
    }
}

#[test]
fn base_type_tags() {
    let tags: [u8; 17] = [
        0x00, 0x01, 0x02, 0x83, 0x84, 0x85, 0x86, 0x07, 0x88, 0x89, 0x0A, 0x8B, 0x8C, 0x0D, 0x8E,
        0x8F, 0x90,
    ];
    for (t, tag) in ALL.iter().zip(tags) {
        assert_eq!(t.tag(), tag);
        assert_eq!(BaseType::from_tag(tag), Some(*t));
    }
    let mut known = 0;
    for tag in 0..=255u8 {
        if BaseType::from_tag(tag).is_some() {
            known += 1;
        }
    }
    assert_eq!(known, 17);
    assert_eq!(BaseType::from_tag(0x03), None);
    assert_eq!(BaseType::from_tag(0x87), None);
}

#[test]
fn base_type_invalid_markers() {
    assert_eq!(BaseType::Enum.invalid(), 0xFF);
    assert_eq!(BaseType::SInt8.invalid(), 0x7F);
    assert_eq!(BaseType::UInt8.invalid(), 0xFF);
    assert_eq!(BaseType::SInt16.invalid(), 0x7FFF);
    assert_eq!(BaseType::UInt16.invalid(), 0xFFFF);
    assert_eq!(BaseType::SInt32.invalid(), 0x7FFF_FFFF);
    assert_eq!(BaseType::UInt32.invalid(), 0xFFFF_FFFF);
    assert_eq!(BaseType::String.invalid(), 0);
    assert_eq!(BaseType::Float32.invalid(), 0xFFFF_FFFF);
    assert_eq!(BaseType::Float64.invalid(), 0xFFFF_FFFF_FFFF_FFFF);
    assert_eq!(BaseType::UInt8z.invalid(), 0);
    assert_eq!(BaseType::UInt16z.invalid(), 0);
    assert_eq!(BaseType::UInt32z.invalid(), 0);
    assert_eq!(BaseType::Byte.invalid(), 0xFF);
    assert_eq!(BaseType::SInt64.invalid(), 0x7FFF_FFFF_FFFF_FFFF);
    assert_eq!(BaseType::UInt64.invalid(), 0xFFFF_FFFF_FFFF_FFFF);
    assert_eq!(BaseType::UInt64z.invalid(), 0);
}

#[test]
fn base_type_numeric() {
    for t in ALL {
        let expected = !matches!(t, BaseType::Enum | BaseType::String);
        assert_eq!(t.is_numeric(), expected);
    }
}

#[test]
fn base_type_names() {
    let names = [
        "enum", "sint8", "uint8", "sint16", "uint16", "sint32", "uint32", "string", "float32",
        "float64", "uint8z", "uint16z", "uint32z", "byte", "sint64", "uint64", "uint64z",
    ];
    for (t, name) in ALL.iter().zip(names) {
        assert_eq!(t.name(), name);
        assert_eq!(BaseType::from_name(name), Some(*t));
    }
    assert_eq!(BaseType::from_name("bool"), None);
    assert_eq!(BaseType::from_name("UINT8"), None);
    assert_eq!(BaseType::from_name(""), None);
}

#[test]
fn scalar_validity() {
    assert!(Value::Enum(0).is_valid());
    assert!(!Value::Enum(0xFF).is_valid());
    assert!(Value::SInt8(-1).is_valid());
    assert!(!Value::SInt8(0x7F).is_valid());
    assert!(!Value::UInt8(0xFF).is_valid());
    assert!(!Value::SInt16(0x7FFF).is_valid());
    assert!(!Value::UInt16(0xFFFF).is_valid());
    assert!(Value::UInt16(0xFFFE).is_valid());
    assert!(!Value::SInt32(0x7FFF_FFFF).is_valid());
    assert!(!Value::UInt32(0xFFFF_FFFF).is_valid());
    assert!(!Value::UInt8z(0).is_valid());
    assert!(Value::UInt8z(0xFF).is_valid());
    assert!(!Value::UInt16z(0).is_valid());
    assert!(!Value::UInt32z(0).is_valid());
    assert!(!Value::Byte(0xFF).is_valid());
    assert!(!Value::SInt64(i64::MAX).is_valid());
    assert!(Value::SInt64(i64::MIN).is_valid());
    assert!(!Value::UInt64(u64::MAX).is_valid());
    assert!(!Value::UInt64z(0).is_valid());
    assert!(Value::DateTime(0).is_valid());
    assert!(Value::Bool(false).is_valid());
}

#[test]
fn text_validity() {
    assert!(Value::String(String::from("garmin")).is_valid());
    assert!(Value::String(String::new()).is_valid());
    assert!(!Value::String(String::from("gar\0min")).is_valid());
    assert!(Value::String(String::from("gr\u{fc}n")).is_valid());
}

#[test]
fn float_validity() {
    let floats = [0.0f32, -0.0, 1.5, f32::MAX, f32::MIN_POSITIVE, f32::INFINITY, f32::NEG_INFINITY, f32::NAN];
    for f in floats {
        assert_eq!(Value::Float32(f.to_bits()).is_valid(), f.is_finite());
    }
    assert!(!Value::Float32(0xFFFF_FFFF).is_valid());
    let doubles = [0.0f64, -0.0, 127.0, f64::MAX, f64::MIN_POSITIVE, f64::INFINITY, f64::NEG_INFINITY, f64::NAN];
    for f in doubles {
        assert_eq!(Value::Float64(f.to_bits()).is_valid(), f.is_finite());
    }
    assert!(!Value::Float64(0xFFFF_FFFF_FFFF_FFFF).is_valid());
}

#[test]
fn array_validity() {
    assert!(!Value::Array(vec![]).is_valid());
    assert!(Value::Array(vec![Value::UInt8(1), Value::UInt8(2)]).is_valid());
    assert!(!Value::Array(vec![Value::UInt8(1), Value::UInt8(0xFF)]).is_valid());
    assert!(!Value::Array(vec![Value::Array(vec![])]).is_valid());
}

#[test]
fn unsigned_numbers() {
    assert_eq!(Value::UInt8(7).try_as_usize(), Ok(7));
    assert_eq!(Value::UInt16(0xFFFF).try_as_usize(), Ok(0xFFFF));
    assert_eq!(Value::UInt32(0xFFFF_FFFF).try_as_usize(), Ok(0xFFFF_FFFF));
    assert_eq!(Value::UInt8z(9).try_as_usize(), Ok(9));
    assert_eq!(Value::UInt16z(9).try_as_usize(), Ok(9));
    assert_eq!(Value::UInt32z(9).try_as_usize(), Ok(9));
    assert_eq!(Value::Byte(0xAB).try_as_usize(), Ok(0xAB));
    assert_eq!(Value::UInt64(1 << 40).unsigned(), Some(1 << 40));
    assert!(Value::Enum(1).try_as_usize().is_err());
    assert!(Value::SInt8(1).try_as_usize().is_err());
    assert!(Value::UInt64z(1).try_as_usize().is_err());
    assert!(Value::Float32(0).try_as_usize().is_err());
    assert!(Value::String(String::from("1")).try_as_usize().is_err());
    assert!(Value::Array(vec![Value::UInt8(1)]).try_as_usize().is_err());
    assert_eq!(Value::DateTime(5).unsigned(), None);
}

#[test]
fn base_type_of_values() {
    assert_eq!(Value::Enum(1).to_base_type_str(), "enum");
    assert_eq!(Value::Float64(0).to_base_type_str(), "float64");
    assert_eq!(Value::String(String::new()).to_base_type_str(), "string");
    assert_eq!(Value::DateTime(0).to_base_type_str(), "uint32");
    assert_eq!(Value::Bool(true).to_base_type_str(), "byte");
    assert_eq!(Value::Array(vec![Value::SInt16(1), Value::SInt16(2)]).to_base_type_str(), "sint16");
    assert_eq!(Value::UInt8z(3).base_type(), BaseType::UInt8z);
    assert_eq!(Value::Array(vec![Value::Byte(1)]).base_type(), BaseType::Byte);
}

#[test]
fn clone_keeps_the_value() {
    let value = Value::Array(vec![
        Value::String(String::from("a")),
        Value::Array(vec![Value::SInt64(-5), Value::Float32(7)]),
        Value::DateTime(1_631_065_600),
    ]);
    assert_eq!(value.clone(), value);
}
