use fit::error::{ErrorKind, ProjectionFault};
use fit::fit::{BaseType, Value};
use fit::framing::{decode_field_value, field_text, message_header};
use fit::message::{
    insert_data_field, insert_developer_field, Architecture, DataField, DeveloperField,
    FitMessageType,
};
use fit::profile::{FitProfile, Type, TypeValue};
use fit::projection::{coerce, integer_value, name_values, scale_is_identity, transform_value};
use fit::record::{Field, Messages, Record, Scaling};
use fit::session::{byte_as_f32, update_time_offset, Session};
use fit::time::date_time_of;

fn a_type(name: &str, base_type: BaseType, values: &[(&str, u64)]) -> Type {
    Type {
        name: name.to_string(),
        base_type,
        values: values.iter().map(|(n, v)| TypeValue { name: n.to_string(), value: *v }).collect(),
    }
}

fn profile() -> FitProfile {
    FitProfile {
        messages: Vec::new(),
        types: vec![
            a_type("file", BaseType::Enum, &[("device", 1), ("activity", 4), ("again", 4)]),
            a_type("manufacturer", BaseType::UInt16, &[("garmin", 1)]),
            a_type("file", BaseType::UInt8, &[("shadowed", 1)]),
            a_type("message_index", BaseType::UInt16, &[]),
            a_type("signed", BaseType::SInt8, &[("one", 1)]),
        ],
    }
}

const ONE: u64 = 0x3FF0_0000_0000_0000;

#[test]
fn bytes_as_floats() {
    for b in 0..=255u8 {
        assert_eq!(byte_as_f32(b), (b as f32).to_bits());
    }
}

#[test]
fn integers_wrap_into_their_type() {
    assert_eq!(integer_value(BaseType::UInt8, 0x1FF), Some(Value::UInt8(0xFF)));
    assert_eq!(integer_value(BaseType::Enum, 0x104), Some(Value::Enum(4)));
    assert_eq!(integer_value(BaseType::Byte, 0x104), Some(Value::Byte(4)));
    assert_eq!(integer_value(BaseType::UInt8z, 7), Some(Value::UInt8z(7)));
    assert_eq!(integer_value(BaseType::SInt8, 0xFF), Some(Value::SInt8(-1)));
    assert_eq!(integer_value(BaseType::SInt8, 0x7F), Some(Value::SInt8(127)));
    assert_eq!(integer_value(BaseType::SInt8, 0x80), Some(Value::SInt8(-128)));
    assert_eq!(integer_value(BaseType::UInt16, 0x1_2345), Some(Value::UInt16(0x2345)));
    assert_eq!(integer_value(BaseType::UInt16z, 0x1_2345), Some(Value::UInt16z(0x2345)));
    assert_eq!(integer_value(BaseType::SInt16, 0x8000), Some(Value::SInt16(i16::MIN)));
    assert_eq!(integer_value(BaseType::UInt32, (1 << 32) + 5), Some(Value::UInt32(5)));
    assert_eq!(integer_value(BaseType::UInt32z, (1 << 32) + 5), Some(Value::UInt32z(5)));
    assert_eq!(integer_value(BaseType::SInt32, 0xFFFF_FFFF), Some(Value::SInt32(-1)));
    assert_eq!(integer_value(BaseType::SInt64, u64::MAX), Some(Value::SInt64(-1)));
    assert_eq!(integer_value(BaseType::SInt64, 1 << 63), Some(Value::SInt64(i64::MIN)));
    assert_eq!(integer_value(BaseType::UInt64, u64::MAX), Some(Value::UInt64(u64::MAX)));
    assert_eq!(integer_value(BaseType::UInt64z, 9), Some(Value::UInt64z(9)));
    assert_eq!(integer_value(BaseType::String, 9), None);
    assert_eq!(integer_value(BaseType::Float32, 9), None);
    assert_eq!(integer_value(BaseType::Float64, 9), None);
    for n in [0u64, 1, 127, 128, 255, 256, 0x7FFF, 0x8000, 0xFFFF_FFFF, u64::MAX] {
        assert_eq!(integer_value(BaseType::SInt8, n), Some(Value::SInt8(n as i8)));
        assert_eq!(integer_value(BaseType::SInt16, n), Some(Value::SInt16(n as i16)));
        assert_eq!(integer_value(BaseType::SInt32, n), Some(Value::SInt32(n as i32)));
        assert_eq!(integer_value(BaseType::SInt64, n), Some(Value::SInt64(n as i64)));
        assert_eq!(integer_value(BaseType::UInt16, n), Some(Value::UInt16(n as u16)));
    }
}

#[test]
fn patterns_of_integers() {
    assert_eq!(Value::SInt8(-1).pattern(), Some(u64::MAX));
    assert_eq!(Value::SInt16(-2).pattern(), Some(u64::MAX - 1));
    assert_eq!(Value::SInt32(i32::MIN).pattern(), Some(i32::MIN as i64 as u64));
    assert_eq!(Value::SInt64(i64::MIN).pattern(), Some(1 << 63));
    assert_eq!(Value::Enum(7).pattern(), Some(7));
    assert_eq!(Value::UInt64z(7).pattern(), Some(7));
    assert_eq!(Value::UInt16(7).pattern(), Some(7));
    assert_eq!(Value::Float32(7).pattern(), None);
    assert_eq!(Value::String(String::new()).pattern(), None);
    assert_eq!(Value::DateTime(7).pattern(), None);
    assert_eq!(Value::Array(vec![Value::UInt8(1)]).pattern(), None);
    assert_eq!(Value::Enum(7).ordinal(BaseType::Enum), Some(7));
    assert_eq!(Value::Enum(7).ordinal(BaseType::UInt8), None);
    assert_eq!(Value::UInt16(7).ordinal(BaseType::UInt16), Some(7));
    assert_eq!(Value::SInt8(7).ordinal(BaseType::SInt8), None);
    assert_eq!(Value::DateTime(7).ordinal(BaseType::UInt32), None);
    assert_eq!(Value::Bool(true).ordinal(BaseType::Byte), None);
}

#[test]
fn values_take_the_type_of_a_sub_field() {
    let p = profile();
    assert_eq!(coerce(&p, "uint32", "uint32", &Value::UInt32(300)), Value::UInt32(300));
    assert_eq!(coerce(&p, "uint32", "uint8", &Value::UInt32(300)), Value::UInt8(44));
    assert_eq!(coerce(&p, "uint32", "file", &Value::UInt32(4)), Value::Enum(4));
    assert_eq!(coerce(&p, "uint32", "manufacturer", &Value::UInt32(0x1_0001)), Value::UInt16(1));
    assert_eq!(coerce(&p, "manufacturer", "uint16", &Value::UInt16(5)), Value::UInt16(5));
    assert_eq!(coerce(&p, "sint8", "uint32", &Value::SInt8(-1)), Value::UInt32(u32::MAX));
    assert_eq!(coerce(&p, "uint32", "sint8", &Value::UInt32(255)), Value::SInt8(-1));
    assert_eq!(coerce(&p, "uint32", "uint8", &Value::UInt16(300)), Value::UInt16(300));
    assert_eq!(coerce(&p, "uint32", "float32", &Value::UInt32(3)), Value::UInt32(3));
    assert_eq!(coerce(&p, "uint32", "string", &Value::UInt32(3)), Value::UInt32(3));
    assert_eq!(coerce(&p, "uint32", "bool", &Value::UInt32(3)), Value::UInt32(3));
    assert_eq!(coerce(&p, "uint32", "nothing", &Value::UInt32(3)), Value::UInt32(3));
    assert_eq!(coerce(&p, "nothing", "uint8", &Value::UInt32(3)), Value::UInt32(3));
    assert_eq!(
        coerce(&p, "uint32", "uint8", &Value::Array(vec![Value::UInt32(300)])),
        Value::Array(vec![Value::UInt32(300)])
    );
    assert_eq!(coerce(&p, "uint32", "uint8", &Value::DateTime(300)), Value::DateTime(300));
}

#[test]
fn numbers_get_the_names_of_a_type() {
    let p = profile();
    let named = |s: &str| Value::String(s.to_string());
    assert_eq!(name_values(&p, "file", &Value::Enum(4)), named("activity"));
    assert_eq!(name_values(&p, "file", &Value::Enum(1)), named("device"));
    assert_eq!(name_values(&p, "file", &Value::Enum(9)), Value::Enum(9));
    assert_eq!(name_values(&p, "file", &Value::UInt8(1)), Value::UInt8(1));
    assert_eq!(name_values(&p, "manufacturer", &Value::UInt16(1)), named("garmin"));
    assert_eq!(name_values(&p, "manufacturer", &Value::UInt16z(1)), Value::UInt16z(1));
    assert_eq!(name_values(&p, "message_index", &Value::UInt16(1)), Value::UInt16(1));
    assert_eq!(name_values(&p, "signed", &Value::SInt8(1)), Value::SInt8(1));
    assert_eq!(name_values(&p, "nothing", &Value::Enum(4)), Value::Enum(4));
    assert_eq!(
        name_values(&p, "file", &Value::Array(vec![Value::Enum(4), Value::Enum(9), Value::Byte(4)])),
        Value::Array(vec![named("activity"), Value::Enum(9), Value::Byte(4)])
    );
}

#[test]
fn identity_of_scale_and_offset() {
    assert!(scale_is_identity(1.0f64.to_bits(), 0.0f64.to_bits()));
    assert!(scale_is_identity(1.0f64.to_bits(), (-0.0f64).to_bits()));
    assert!(!scale_is_identity(1.0f64.to_bits(), 1.0f64.to_bits()));
    assert!(!scale_is_identity(2.0f64.to_bits(), 0.0f64.to_bits()));
    assert!(!scale_is_identity(0, 0));
    assert_eq!(ONE, 1.0f64.to_bits());
}

#[test]
fn projection_of_values() {
    let p = profile();
    let five = 5.0f64.to_bits();
    let raw = Value::UInt16(3135);
    assert_eq!(
        transform_value(&p, false, &raw, "uint16", five, 0, None),
        Ok((Value::UInt16(3135), Some(Scaling { scale: five, offset: 0 })))
    );
    assert_eq!(
        transform_value(&p, true, &raw, "uint16", five, 0, None),
        Ok((Value::UInt16(3135), None))
    );
    assert_eq!(
        transform_value(&p, false, &raw, "uint16", ONE, 0, None),
        Ok((Value::UInt16(3135), None))
    );
    assert_eq!(
        transform_value(&p, false, &raw, "uint16", ONE, five, None),
        Ok((Value::UInt16(3135), Some(Scaling { scale: ONE, offset: five })))
    );
    assert_eq!(
        transform_value(&p, false, &Value::Enum(1), "uint16", five, 0, None),
        Err(ProjectionFault::NotNumeric)
    );
    assert_eq!(
        transform_value(&p, false, &Value::Enum(1), "uint16", ONE, 0, None),
        Ok((Value::Enum(1), None))
    );
    assert_eq!(
        transform_value(&p, false, &Value::Enum(1), "enum", five, 0, None),
        Ok((Value::Enum(1), None))
    );
    assert_eq!(
        transform_value(&p, false, &Value::Enum(1), "bool", five, 0, None),
        Ok((Value::Enum(1), None))
    );
    assert_eq!(
        transform_value(&p, false, &Value::Enum(4), "file", five, 0, None),
        Ok((Value::String("activity".to_string()), None))
    );
    assert_eq!(
        transform_value(&p, false, &Value::UInt32(7), "date_time", five, 0, None),
        Ok((Value::DateTime(631_065_607), None))
    );
    assert_eq!(
        transform_value(&p, false, &Value::UInt32(u32::MAX), "date_time", ONE, 0, None),
        Ok((Value::DateTime(631_065_600 + u32::MAX as i64), None))
    );
    assert_eq!(
        transform_value(&p, false, &Value::UInt32z(7), "date_time", ONE, 0, None),
        Err(ProjectionFault::NotADateTime)
    );
    assert_eq!(
        transform_value(&p, false, &Value::UInt32(7), "string", five, 0, None),
        Ok((Value::UInt32(7), None))
    );
    let array = Value::Array(vec![Value::UInt8(1), Value::UInt8(2)]);
    assert_eq!(
        transform_value(&p, false, &array, "uint8", five, 0, None),
        Err(ProjectionFault::UnexpectedArray)
    );
    assert_eq!(
        transform_value(&p, false, &array, "uint8", five, 0, Some(3)),
        Err(ProjectionFault::ArrayLengthMismatch { expected: 3, actual: 2 })
    );
    assert_eq!(
        transform_value(&p, false, &array, "uint8", five, 0, Some(2)),
        Ok((array.clone(), Some(Scaling { scale: five, offset: 0 })))
    );
    assert_eq!(
        transform_value(&p, false, &array, "uint8", five, 0, Some(0)),
        Ok((array.clone(), Some(Scaling { scale: five, offset: 0 })))
    );
    assert_eq!(
        transform_value(&p, true, &array, "uint8", five, 0, None),
        Ok((array.clone(), None))
    );
    assert_eq!(
        transform_value(&p, false, &array, "string", five, 0, None),
        Err(ProjectionFault::UnexpectedArray)
    );
}

#[test]
fn dates_from_the_epoch_of_the_format() {
    assert_eq!(date_time_of(0), Some(631_065_600));
    assert_eq!(date_time_of(1_000_000_000), Some(1_631_065_600));
    assert_eq!(date_time_of(u32::MAX), Some(631_065_600 + 0xFFFF_FFFF));
}

#[test]
fn headers_of_messages() {
    for byte in 0..=255u8 {
        let header = message_header(byte);
        if byte & 0x80 == 0x80 {
            assert_eq!(header.message_type, FitMessageType::Data);
            assert_eq!(header.local_message_number, (byte >> 5) & 0x03);
            assert_eq!(header.time_offset, Some(byte & 0x1F));
            assert!(!header.contains_developer_data);
        } else if byte & 0x40 == 0x40 {
            assert_eq!(header.message_type, FitMessageType::Definition);
            assert_eq!(header.local_message_number, byte & 0x0F);
            assert_eq!(header.time_offset, None);
            assert_eq!(header.contains_developer_data, byte & 0x20 == 0x20);
        } else {
            assert_eq!(header.message_type, FitMessageType::Data);
            assert_eq!(header.local_message_number, byte & 0x0F);
            assert_eq!(header.time_offset, None);
            assert!(!header.contains_developer_data);
        }
    }
}

#[test]
fn architectures() {
    assert_eq!(Architecture::from_byte(0), Architecture::LittleEndian);
    assert_eq!(Architecture::from_byte(1), Architecture::BigEndian);
    assert_eq!(Architecture::from_byte(2), Architecture::LittleEndian);
    assert!(Architecture::BigEndian.is_big_endian());
    assert!(!Architecture::LittleEndian.is_big_endian());
}

#[test]
fn timestamps_from_offsets() {
    let mut reference = None;
    assert_eq!(update_time_offset(&mut reference, 3), Err(ErrorKind::MissingTimestampRef));
    assert_eq!(reference, None);
    let mut reference = Some(1000);
    assert_eq!(update_time_offset(&mut reference, 3), Ok(1027));
    assert_eq!(reference, Some(1027));
    assert_eq!(update_time_offset(&mut reference, 3), Ok(1027));
    assert_eq!(update_time_offset(&mut reference, 31), Ok(1055));
    assert_eq!(update_time_offset(&mut reference, 0), Ok(1056));
    let mut reference = Some(0xFFFF_FFFF);
    assert_eq!(update_time_offset(&mut reference, 30), Ok(30));
    for previous in [0u32, 31, 32, 1000, 0xFFFF_FFE0, 0xFFFF_FFFF] {
        for offset in 0..32u8 {
            let mut reference = Some(previous);
            let next = update_time_offset(&mut reference, offset).unwrap();
            assert_eq!(next & 0x1F, offset as u32);
            assert!(next.wrapping_sub(previous) < 32);
        }
    }
}

#[test]
fn values_of_every_base_type() {
    let bytes = [0x01u8, 0x02, 0x03, 0x04, 0x05, 0x06, 0x07, 0x08];
    let le = |t, n: usize| decode_field_value(&bytes[..n], t, false, false);
    let be = |t, n: usize| decode_field_value(&bytes[..n], t, true, false);
    assert_eq!(le(BaseType::Enum, 1), Ok(Value::Enum(1)));
    assert_eq!(le(BaseType::SInt8, 1), Ok(Value::SInt8(1)));
    assert_eq!(le(BaseType::UInt8, 1), Ok(Value::UInt8(1)));
    assert_eq!(le(BaseType::UInt8z, 1), Ok(Value::UInt8z(1)));
    assert_eq!(le(BaseType::Byte, 1), Ok(Value::Byte(1)));
    assert_eq!(le(BaseType::SInt16, 2), Ok(Value::SInt16(0x0201)));
    assert_eq!(be(BaseType::SInt16, 2), Ok(Value::SInt16(0x0102)));
    assert_eq!(le(BaseType::UInt16, 2), Ok(Value::UInt16(0x0201)));
    assert_eq!(be(BaseType::UInt16z, 2), Ok(Value::UInt16z(0x0102)));
    assert_eq!(le(BaseType::SInt32, 4), Ok(Value::SInt32(0x04030201)));
    assert_eq!(be(BaseType::UInt32, 4), Ok(Value::UInt32(0x01020304)));
    assert_eq!(le(BaseType::UInt32z, 4), Ok(Value::UInt32z(0x04030201)));
    assert_eq!(le(BaseType::Float32, 4), Ok(Value::Float32(0x04030201)));
    assert_eq!(be(BaseType::Float64, 8), Ok(Value::Float64(0x0102030405060708)));
    assert_eq!(le(BaseType::SInt64, 8), Ok(Value::SInt64(0x0807060504030201)));
    assert_eq!(be(BaseType::UInt64, 8), Ok(Value::UInt64(0x0102030405060708)));
    assert_eq!(le(BaseType::UInt64z, 8), Ok(Value::UInt64z(0x0807060504030201)));
    assert_eq!(le(BaseType::String, 3), Ok(Value::String("\u{1}\u{2}\u{3}".to_string())));
    assert_eq!(
        le(BaseType::UInt16, 4),
        Ok(Value::Array(vec![Value::UInt16(0x0201), Value::UInt16(0x0403)]))
    );
    assert_eq!(
        be(BaseType::UInt16, 4),
        Ok(Value::Array(vec![Value::UInt16(0x0102), Value::UInt16(0x0304)]))
    );
    assert_eq!(
        decode_field_value(&bytes[..1], BaseType::UInt8, false, true),
        Ok(Value::Array(vec![Value::UInt8(1)]))
    );
    assert_eq!(
        le(BaseType::UInt32, 6),
        Err(ErrorKind::SizeMismatch { field_size: 6, base_type_size: 4 })
    );
    assert_eq!(
        decode_field_value(&[0xFF, 0x7F], BaseType::SInt16, false, false),
        Err(ErrorKind::InvalidFieldValue {
            base_type: BaseType::SInt16,
            invalid: 0x7FFF,
            value: Value::SInt16(0x7FFF)
        })
    );
    assert_eq!(
        decode_field_value(&[1, 0xFF], BaseType::UInt8, false, false),
        Err(ErrorKind::InvalidFieldValue {
            base_type: BaseType::UInt8,
            invalid: 0xFF,
            value: Value::Array(vec![Value::UInt8(1), Value::UInt8(0xFF)])
        })
    );
    assert_eq!(
        decode_field_value(&[], BaseType::UInt8, false, false),
        Err(ErrorKind::InvalidFieldValue {
            base_type: BaseType::UInt8,
            invalid: 0xFF,
            value: Value::Array(vec![])
        })
    );
    assert_eq!(field_text(b"ab\0cd"), "ab");
    assert_eq!(field_text(b""), "");
    assert_eq!(field_text(b"\xF0\x9F"), "\u{FFFD}");
}

fn a_field(name: &str, value: Value) -> Field {
    Field { name: name.to_string(), value, units: String::new(), is_subfield: false, scaling: None }
}

#[test]
fn a_record_holds_each_name_once() {
    let mut record = Record::new();
    assert_eq!(record.len(), 0);
    record.insert(a_field("a", Value::UInt8(1)));
    record.insert(a_field("b", Value::UInt8(2)));
    record.insert(a_field("a", Value::UInt8(3)));
    assert_eq!(record.len(), 2);
    assert_eq!(record.value("a"), Some(&Value::UInt8(3)));
    assert_eq!(record.value("b"), Some(&Value::UInt8(2)));
    assert_eq!(record.value("c"), None);
    assert_eq!(record.find("b"), Some(1));
    assert_eq!(record.get("a").map(|f| f.name.as_str()), Some("a"));
    assert!(record.contains_key("a"));
    assert!(!record.contains_key("A"));
    assert_eq!(record.clone(), record);
}

#[test]
fn records_go_under_their_message_name() {
    let mut messages = Messages::new();
    let mut first = Record::new();
    first.insert(a_field("a", Value::UInt8(1)));
    messages.push("record".to_string(), first.clone());
    messages.push("event".to_string(), Record::new());
    messages.push("record".to_string(), Record::new());
    assert_eq!(messages.len(), 2);
    assert_eq!(messages.get("record").map(|r| r.len()), Some(2));
    assert_eq!(messages.get("record").map(|r| &r[0]), Some(&first));
    assert_eq!(messages.get("event").map(|r| r.len()), Some(1));
    assert_eq!(messages.get("lap").map(|r| r.len()), None);
    assert_eq!(messages.find("event"), Some(1));
    assert_eq!(messages.entries[0].name, "record");
}

#[test]
fn a_data_message_holds_each_field_once() {
    let mut fields = Vec::new();
    insert_data_field(&mut fields, DataField { field_definition_number: 3, value: Value::UInt8(1) });
    insert_data_field(&mut fields, DataField { field_definition_number: 4, value: Value::UInt8(2) });
    insert_data_field(&mut fields, DataField { field_definition_number: 3, value: Value::UInt8(9) });
    assert_eq!(fields.len(), 2);
    assert_eq!(fields[0], DataField { field_definition_number: 3, value: Value::UInt8(9) });
    let mut developer = Vec::new();
    for (index, number, value) in [(0u8, 1u8, 10u8), (1, 1, 11), (0, 2, 12), (0, 1, 13)] {
        insert_developer_field(
            &mut developer,
            DeveloperField {
                developer_data_index: index,
                field_number: number,
                value: Value::Byte(value),
            },
        );
    }
    let values: Vec<&Value> = developer.iter().map(|f| &f.value).collect();
    assert_eq!(values, [&Value::Byte(13), &Value::Byte(11), &Value::Byte(12)]);
}

#[test]
fn a_session_starts_with_nothing() {
    let session = Session::new();
    assert!(session.definitions.is_empty());
    assert!(session.developer_definitions.is_empty());
    assert!(session.developer_data.is_empty());
    assert_eq!(session.timestamp_ref, None);
    assert!(session.errors.is_empty());
}

#[test]
fn the_profile_finds_by_name_and_number() {
    let p = profile();
    assert_eq!(p.find_type("file"), Some(0));
    assert_eq!(p.find_type("files"), None);
    assert_eq!(p.types[0].find_value(4), Some(1));
    assert_eq!(p.types[0].find_name("again"), Some(2));
    assert_eq!(p.types[0].find_name("never"), None);
    assert_eq!(p.name_of("file", 4).map(|s| s.as_str()), Some("activity"));
    assert_eq!(p.name_of("file", 5), None);
    assert_eq!(p.base_type_of("uint8z"), Some(BaseType::UInt8z));
    assert_eq!(p.base_type_of("manufacturer"), Some(BaseType::UInt16));
    assert_eq!(p.base_type_of("bool"), None);
    assert!(FitProfile::is_base_type("bool"));
    assert!(FitProfile::is_base_type("sint64"));
    assert!(!FitProfile::is_base_type("file"));
    assert_eq!(p.resolve(0), Err(ErrorKind::GlobalDefinitionMessageNotFound(0)));
    assert!(!p.declares_array(0, 0));
}
