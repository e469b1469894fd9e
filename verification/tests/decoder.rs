use fit::decoder::Decoder;
use fit::error::{ErrorKind, ProjectionFault};
use fit::fit::{BaseType, Value};
use fit::profile::{
    Component, FitProfile, Message, MessageField, NestedMessageField, Type, TypeValue,
};
use fit::record::{Field, Messages, Record, Scaling};

fn text(s: &str) -> String {
    String::from(s)
}

fn named(name: &str, value: u64) -> TypeValue {
    TypeValue { name: text(name), value }
}

fn a_type(name: &str, base_type: BaseType, values: &[(&str, u64)]) -> Type {
    Type {
        name: text(name),
        base_type,
        values: values.iter().map(|(n, v)| named(n, *v)).collect(),
    }
}

fn field(field_no: u8, name: &str, ty: &str) -> MessageField {
    MessageField {
        field_no,
        field_name: text(name),
        field_type: text(ty),
        array: None,
        components: Vec::new(),
        scale: 1.0f64.to_bits(),
        offset: 0.0f64.to_bits(),
        units: String::new(),
        accumulate: false,
        sub_fields: Vec::new(),
    }
}

fn scaled(field_no: u8, name: &str, ty: &str, scale: f64, offset: f64, units: &str) -> MessageField {
    MessageField {
        scale: scale.to_bits(),
        offset: offset.to_bits(),
        units: text(units),
        ..field(field_no, name, ty)
    }
}

fn component(bits: u8, name: &str, ty: &str, scale: f64, offset: f64, units: &str) -> Component {
    Component {
        bits,
        field_name: text(name),
        field_type: text(ty),
        array: None,
        scale: scale.to_bits(),
        offset: offset.to_bits(),
        units: text(units),
        accumulate: false,
    }
}

fn sub_field(name: &str, ty: &str, scale: f64, units: &str, ref_name: &str, ref_value: &str) -> NestedMessageField {
    NestedMessageField {
        field_name: text(name),
        field_type: text(ty),
        array: None,
        components: Vec::new(),
        scale: scale.to_bits(),
        offset: 0.0f64.to_bits(),
        units: text(units),
        ref_field_name: text(ref_name),
        ref_field_value: text(ref_value),
    }
}

fn message(name: &str, fields: Vec<MessageField>) -> Message {
    Message { name: text(name), fields }
}

fn types() -> Vec<Type> {
    vec![
        a_type(
            "mesg_num",
            BaseType::UInt16,
            &[
                ("file_id", 0),
                ("record", 20),
                ("event", 21),
                ("workout_step", 27),
                ("monitoring", 55),
                ("hr", 132),
                ("field_description", 206),
                ("developer_data_id", 207),
                ("pad", 105),
                ("ghost_mesg", 106),
            ],
        ),
        a_type(
            "file",
            BaseType::Enum,
            &[("device", 1), ("settings", 2), ("sport", 3), ("activity", 4), ("workout", 5)],
        ),
        a_type(
            "manufacturer",
            BaseType::UInt16,
            &[("garmin", 1), ("suunto", 23), ("development", 255)],
        ),
        a_type(
            "event",
            BaseType::Enum,
            &[
                ("timer", 0),
                ("workout", 3),
                ("rear_gear_change", 42),
                ("front_gear_change", 43),
                ("rider_position_change", 44),
            ],
        ),
        a_type("event_type", BaseType::Enum, &[("start", 0), ("stop", 1), ("marker", 3)]),
        a_type(
            "rider_position_type",
            BaseType::Enum,
            &[("seated", 0), ("standing", 1), ("transition_to_seated", 2)],
        ),
        a_type(
            "activity_type",
            BaseType::Enum,
            &[
                ("generic", 0),
                ("running", 1),
                ("cycling", 2),
                ("transition", 3),
                ("fitness_equipment", 4),
                ("swimming", 5),
                ("walking", 6),
                ("sedentary", 8),
            ],
        ),
        a_type(
            "wkt_step_duration",
            BaseType::Enum,
            &[("time", 0), ("distance", 1), ("hr_less_than", 2), ("open", 5)],
        ),
        a_type(
            "fit_base_type",
            BaseType::UInt8,
            &[
                ("enum", 0),
                ("sint8", 1),
                ("uint8", 2),
                ("sint16", 131),
                ("uint16", 132),
                ("sint32", 133),
                ("uint32", 134),
                ("string", 7),
                ("float32", 136),
                ("float64", 137),
                ("uint8z", 10),
                ("uint16z", 139),
                ("uint32z", 140),
                ("byte", 13),
                ("sint64", 142),
                ("uint64", 143),
                ("uint64z", 144),
            ],
        ),
        a_type("fit_base_unit", BaseType::UInt16, &[("other", 0), ("kilogram", 1), ("pound", 2)]),
        a_type("date_time", BaseType::UInt32, &[("min", 0x1000_0000)]),
        a_type("message_index", BaseType::UInt16, &[]),
    ]
}

fn gear_components() -> Vec<Component> {
    vec![
        component(8, "rear_gear_num", "uint8z", 1.0, 0.0, ""),
        component(8, "rear_gear", "uint8z", 1.0, 0.0, ""),
        component(8, "front_gear_num", "uint8z", 1.0, 0.0, ""),
        component(8, "front_gear", "uint8z", 1.0, 0.0, ""),
    ]
}

fn messages() -> Vec<Message> {
    vec![
        message(
            "file_id",
            vec![
                field(0, "type", "file"),
                field(1, "manufacturer", "manufacturer"),
                field(2, "product", "uint16"),
                field(3, "serial_number", "uint32z"),
                field(4, "time_created", "date_time"),
                field(5, "number", "uint16"),
                field(8, "product_name", "string"),
            ],
        ),
        message(
            "record",
            vec![
                field(253, "timestamp", "date_time"),
                MessageField {
                    components: vec![component(16, "enhanced_altitude", "uint32", 5.0, 500.0, "m")],
                    ..scaled(2, "altitude", "uint16", 5.0, 500.0, "m")
                },
                field(3, "heart_rate", "uint8"),
                scaled(5, "distance", "uint32", 100.0, 0.0, "m"),
                MessageField {
                    components: vec![component(16, "enhanced_speed", "uint32", 1000.0, 0.0, "m/s")],
                    ..scaled(6, "speed", "uint16", 1000.0, 0.0, "m/s")
                },
                MessageField {
                    array: Some(3),
                    components: vec![
                        component(12, "speed", "uint16", 100.0, 0.0, "m/s"),
                        Component {
                            accumulate: true,
                            ..component(12, "distance", "uint32", 16.0, 0.0, "m")
                        },
                    ],
                    ..field(8, "compressed_speed_distance", "byte")
                },
                scaled(13, "temperature", "sint8", 1.0, 0.0, "C"),
                MessageField {
                    array: Some(0),
                    ..scaled(69, "left_power_phase", "uint8", 0.7111111, 0.0, "degrees")
                },
                MessageField {
                    array: Some(2),
                    ..scaled(70, "left_power_phase_peak", "uint8", 0.7111111, 0.0, "degrees")
                },
                scaled(73, "enhanced_speed", "uint32", 1000.0, 0.0, "m/s"),
                scaled(78, "enhanced_altitude", "uint32", 5.0, 500.0, "m"),
                scaled(90, "performance_condition", "float32", 2.0, 1.0, ""),
            ],
        ),
        message(
            "event",
            vec![
                field(253, "timestamp", "date_time"),
                field(0, "event", "event"),
                field(1, "event_type", "event_type"),
                MessageField {
                    components: vec![component(16, "data", "uint32", 1.0, 0.0, "")],
                    ..field(2, "data16", "uint16")
                },
                MessageField {
                    sub_fields: vec![
                        sub_field("timer_trigger", "uint8", 1.0, "", "event", "timer"),
                        NestedMessageField {
                            components: gear_components(),
                            ..sub_field("gear_change_data", "uint32", 1.0, "", "event", "front_gear_change")
                        },
                        NestedMessageField {
                            components: gear_components(),
                            ..sub_field("gear_change_data", "uint32", 1.0, "", "event", "rear_gear_change")
                        },
                        sub_field(
                            "rider_position",
                            "rider_position_type",
                            1.0,
                            "",
                            "event",
                            "rider_position_change",
                        ),
                        sub_field("ghost", "uint32", 1.0, "", "missing_field", "timer"),
                        sub_field("phantom", "uint32", 1.0, "", "event", "missing_value"),
                    ],
                    ..field(3, "data", "uint32")
                },
                field(9, "front_gear_num", "uint8z"),
                field(10, "front_gear", "uint8z"),
                field(11, "rear_gear_num", "uint8z"),
                field(12, "rear_gear", "uint8z"),
            ],
        ),
        message(
            "workout_step",
            vec![
                field(254, "message_index", "message_index"),
                field(1, "duration_type", "wkt_step_duration"),
                MessageField {
                    sub_fields: vec![
                        sub_field("duration_time", "uint32", 1000.0, "s", "duration_type", "time"),
                        sub_field("duration_distance", "uint32", 100.0, "m", "duration_type", "distance"),
                    ],
                    ..field(2, "duration_value", "uint32")
                },
            ],
        ),
        message(
            "monitoring",
            vec![
                field(5, "activity_type", "activity_type"),
                MessageField {
                    components: vec![
                        component(5, "activity_type", "activity_type", 1.0, 0.0, ""),
                        component(3, "intensity", "uint8", 1.0, 0.0, ""),
                    ],
                    ..field(24, "current_activity_type_intensity", "byte")
                },
                field(28, "intensity", "uint8"),
            ],
        ),
        message(
            "hr",
            vec![
                MessageField {
                    array: Some(0),
                    accumulate: true,
                    ..scaled(9, "event_timestamp", "uint32", 1024.0, 0.0, "s")
                },
                MessageField {
                    array: Some(0),
                    components: (0..10)
                        .map(|_| Component {
                            array: Some(0),
                            accumulate: true,
                            ..component(12, "event_timestamp", "uint32", 1024.0, 0.0, "s")
                        })
                        .collect(),
                    ..field(10, "event_timestamp_12", "byte")
                },
            ],
        ),
        message(
            "pad",
            vec![
                MessageField {
                    accumulate: true,
                    components: vec![
                        component(8, "low", "uint16", 1.0, 0.0, ""),
                        component(8, "high", "uint16", 1.0, 0.0, ""),
                    ],
                    ..field(1, "packed", "uint16")
                },
                MessageField {
                    components: vec![component(65, "wide", "uint32", 1.0, 0.0, "")],
                    ..field(2, "too_wide", "uint32")
                },
                MessageField {
                    components: vec![component(8, "odd", "no_such_type", 1.0, 0.0, "")],
                    ..field(3, "untyped", "uint32")
                },
                MessageField {
                    components: vec![component(8, "word", "string", 1.0, 0.0, "")],
                    ..field(4, "texted", "uint32")
                },
            ],
        ),
        message(
            "field_description",
            vec![
                field(0, "developer_data_index", "uint8"),
                field(1, "field_definition_number", "uint8"),
                field(2, "fit_base_type_id", "fit_base_type"),
                MessageField { array: Some(0), ..field(3, "field_name", "string") },
                MessageField { array: Some(0), ..field(8, "units", "string") },
                field(13, "fit_base_unit_id", "fit_base_unit"),
                field(14, "native_mesg_num", "mesg_num"),
                field(15, "native_field_num", "uint8"),
            ],
        ),
        message(
            "developer_data_id",
            vec![
                MessageField { array: Some(0), ..field(0, "developer_id", "byte") },
                MessageField { array: Some(0), ..field(1, "application_id", "byte") },
                field(2, "manufacturer_id", "manufacturer"),
                field(3, "developer_data_index", "uint8"),
                field(4, "application_version", "uint32"),
            ],
        ),
    ]
}

fn profile() -> FitProfile {
    FitProfile { messages: messages(), types: types() }
}

/// The check value, one bit at a time.
fn check_value(bytes: &[u8]) -> u16 {
    let mut crc: u16 = 0;
    for byte in bytes {
        crc ^= *byte as u16;
        for _ in 0..8 {
            crc = if crc & 1 == 1 { (crc >> 1) ^ 0xA001 } else { crc >> 1 };
        }
    }
    crc
}

/// A file with a 14-byte header around the bytes of some messages.
fn fit_file(records: &[u8]) -> Vec<u8> {
    let mut file = vec![0x0E, 0x20, 0x8B, 0x08];
    file.extend_from_slice(&(records.len() as u32).to_le_bytes());
    file.extend_from_slice(b".FIT");
    let header_crc = check_value(&file);
    file.extend_from_slice(&header_crc.to_le_bytes());
    file.extend_from_slice(records);
    let crc = check_value(&file);
    file.extend_from_slice(&crc.to_le_bytes());
    file
}

/// A file with a 12-byte header around the bytes of some messages.
fn short_header_file(records: &[u8]) -> Vec<u8> {
    let mut file = vec![0x0C, 0x10, 0x64, 0x00];
    file.extend_from_slice(&(records.len() as u32).to_le_bytes());
    file.extend_from_slice(b".FIT");
    file.extend_from_slice(records);
    let crc = check_value(&file);
    file.extend_from_slice(&crc.to_le_bytes());
    file
}

/// A definition message.
fn definition(local: u8, big_endian: bool, global: u16, fields: &[(u8, u8, u8)]) -> Vec<u8> {
    let mut bytes = vec![0x40 | local, 0x00, big_endian as u8];
    if big_endian {
        bytes.extend_from_slice(&global.to_be_bytes());
    } else {
        bytes.extend_from_slice(&global.to_le_bytes());
    }
    bytes.push(fields.len() as u8);
    for (number, size, tag) in fields {
        bytes.extend_from_slice(&[*number, *size, *tag]);
    }
    bytes
}

/// A definition message with developer fields.
fn developer_definition(local: u8, global: u16, fields: &[(u8, u8, u8)], developer: &[(u8, u8, u8)]) -> Vec<u8> {
    let mut bytes = definition(local, false, global, fields);
    bytes[0] |= 0x20;
    bytes.push(developer.len() as u8);
    for (number, size, index) in developer {
        bytes.extend_from_slice(&[*number, *size, *index]);
    }
    bytes
}

/// A data message.
fn data(local: u8, fields: &[u8]) -> Vec<u8> {
    let mut bytes = vec![local];
    bytes.extend_from_slice(fields);
    bytes
}

/// A data message with a compressed timestamp.
fn compressed(local: u8, offset: u8, fields: &[u8]) -> Vec<u8> {
    let mut bytes = vec![0x80 | (local << 5) | offset];
    bytes.extend_from_slice(fields);
    bytes
}

fn join(parts: &[Vec<u8>]) -> Vec<u8> {
    parts.concat()
}

const FILE_ID_LAYOUT: [(u8, u8, u8); 5] =
    [(0, 1, 0x00), (1, 2, 0x84), (2, 2, 0x84), (3, 4, 0x8C), (4, 4, 0x86)];

/// The messages of a file whose only record is a `file_id`.
fn file_id_records(file_type: u8, serial: u32, created: u32) -> Vec<u8> {
    let mut fields = vec![file_type, 0x01, 0x00, 0x00, 0x00];
    fields.extend_from_slice(&serial.to_le_bytes());
    fields.extend_from_slice(&created.to_le_bytes());
    join(&[definition(0, false, 0, &FILE_ID_LAYOUT), data(0, &fields)])
}

/// A file with one `file_id` message: an activity, made by `garmin`, at the
/// second 1_000_000_000 of the format's epoch.
fn fit_file_short() -> Vec<u8> {
    fit_file(&file_id_records(4, 0x3B9A_CA00, 1_000_000_000))
}

fn decode(bytes: &[u8]) -> Result<(Vec<ErrorKind>, Messages), ErrorKind> {
    Decoder::new(bytes).decode(&profile())
}

fn decode_records(records: &[u8]) -> (Vec<ErrorKind>, Messages) {
    decode(&fit_file(records)).unwrap()
}

/// The physical value of a number: the raw one divided by the scale, less
/// the offset.
fn physical_number(raw: &Value, scaling: Option<Scaling>) -> f64 {
    let raw = match raw {
        Value::SInt8(v) => *v as f64,
        Value::UInt8(v) | Value::UInt8z(v) | Value::Byte(v) => *v as f64,
        Value::SInt16(v) => *v as f64,
        Value::UInt16(v) | Value::UInt16z(v) => *v as f64,
        Value::SInt32(v) => *v as f64,
        Value::UInt32(v) | Value::UInt32z(v) => *v as f64,
        Value::SInt64(v) => *v as f64,
        Value::UInt64(v) | Value::UInt64z(v) => *v as f64,
        Value::Float32(v) => f32::from_bits(*v) as f64,
        Value::Float64(v) => f64::from_bits(*v),
        other => panic!("no number: {:?}", other),
    };
    match scaling {
        Some(s) => {
            let scale = f64::from_bits(s.scale);
            let offset = f64::from_bits(s.offset);
            let divided = if scale == 1.0 { raw } else { raw / scale };
            if offset == 0.0 {
                divided
            } else {
                divided - offset
            }
        }
        None => raw,
    }
}

/// The physical values of a field.
fn physical(field: &Field) -> Vec<f64> {
    match &field.value {
        Value::Array(items) => items.iter().map(|v| physical_number(v, field.scaling)).collect(),
        v => vec![physical_number(v, field.scaling)],
    }
}

fn records<'a>(messages: &'a Messages, name: &str) -> &'a Vec<Record> {
    messages.get(name).unwrap()
}

#[test]
fn minimal_valid_file() {
    let file = fit_file(&[]);
    assert_eq!(file.len(), 16);
    assert!(Decoder::is_fit(&file));
    let mut decoder = Decoder::new(&file);
    assert!(decoder.check_integrity());
    let (errors, messages) = decoder.decode(&profile()).unwrap();
    assert!(errors.is_empty());
    assert_eq!(messages.len(), 0);
}

#[test]
fn empty_input_decodes_to_nothing() {
    let (errors, messages) = decode(&[]).unwrap();
    assert!(errors.is_empty());
    assert_eq!(messages.len(), 0);
    let (errors, messages) = decode(&[0x0E]).unwrap();
    assert!(errors.is_empty());
    assert_eq!(messages.len(), 0);
}

#[test]
fn single_file_id_message() {
    let (errors, messages) = decode(&fit_file_short()).unwrap();
    assert!(errors.is_empty());
    assert_eq!(messages.len(), 1);
    let file_id = &records(&messages, "file_id")[0];
    assert_eq!(file_id.value("type"), Some(&Value::String(text("activity"))));
    assert_eq!(file_id.value("manufacturer"), Some(&Value::String(text("garmin"))));
    assert_eq!(file_id.value("product"), Some(&Value::UInt16(0)));
    assert_eq!(file_id.value("serial_number"), Some(&Value::UInt32z(0x3B9A_CA00)));
    assert_eq!(file_id.value("time_created"), Some(&Value::DateTime(1_631_065_600)));
    assert_eq!(file_id.len(), 5);
    let names: Vec<&str> = file_id.fields.iter().map(|f| f.name.as_str()).collect();
    assert_eq!(names, ["type", "manufacturer", "product", "serial_number", "time_created"]);
}

#[test]
fn not_is_fit_file() {
    assert_eq!(
        Decoder::new(&[
            0x0E, 0x10, 0xD9, 0x07, 0x00, 0x00, 0x00, 0x00, 0xFF, 0xFF, 0xFF, 0xFF, 0x91, 0x33,
            0x00, 0x00
        ])
        .decode(&profile()),
        Err(ErrorKind::InvalidFitFile)
    )
}

#[test]
fn decoder_fit_file_have_1_message() {
    let file = fit_file_short();
    let mut decoder = Decoder::new(&file);
    assert!(decoder.check_integrity());
    assert_eq!(
        decoder
            .decode(&profile())
            .ok()
            .and_then(|(_, it)| it.get("file_id").map(|it| it.len())),
        Some(1)
    )
}

#[test]
fn have_2_message() {
    let chained = join(&[fit_file_short(), fit_file_short()]);
    let mut decoder = Decoder::new(&chained);
    let result = decoder.decode(&profile());
    assert!(result.is_ok());
    let (_, messages) = result.unwrap();
    assert_eq!(messages.get("file_id").map(|it| it.len()), Some(2))
}

#[test]
fn date_time_should_be_date() {
    let file = fit_file_short();
    let mut decoder = Decoder::new(&file);
    let (_, messages) = decoder.decode(&profile()).unwrap();
    assert_eq!(messages.get("file_id").map(|it| it.len()), Some(1));
    assert_eq!(
        messages.get("file_id").and_then(|it| it[0].value("time_created")),
        Some(&Value::DateTime(1000000000 + 631065600))
    )
}

#[test]
fn should_converted() {
    let file = fit_file_short();
    let mut decoder = Decoder::new(&file);
    let (_, messages) = decoder.decode(&profile()).unwrap();
    assert_eq!(messages.get("file_id").map(|it| it.len()), Some(1));
    assert_eq!(
        messages.get("file_id").and_then(|it| it[0].value("type")),
        Some(&Value::String(String::from("activity")))
    )
}

#[test]
fn chained_dissimilar_files() {
    let first = fit_file(&file_id_records(4, 111, 1_000_000_000));
    let second = short_header_file(&join(&[
        definition(0, false, 0, &[(0, 1, 0x00), (3, 4, 0x8C)]),
        data(0, &[5, 222, 0, 0, 0]),
    ]));
    assert_ne!(first.len(), second.len());
    let (errors, messages) = decode(&join(&[first, second])).unwrap();
    assert!(errors.is_empty());
    let file_ids = records(&messages, "file_id");
    assert_eq!(file_ids.len(), 2);
    assert_eq!(file_ids[0].value("serial_number"), Some(&Value::UInt32z(111)));
    assert_eq!(file_ids[0].value("type"), Some(&Value::String(text("activity"))));
    assert_eq!(file_ids[1].value("serial_number"), Some(&Value::UInt32z(222)));
    assert_eq!(file_ids[1].value("type"), Some(&Value::String(text("workout"))));
}

#[test]
fn chained_identical_files() {
    let one = fit_file(&join(&[
        definition(0, false, 0, &FILE_ID_LAYOUT),
        data(0, &[4, 1, 0, 0xFF, 0xFF, 5, 0, 0, 0, 0, 0xCA, 0x9A, 0x3B]),
        definition(1, false, 20, &[(253, 4, 0x86), (3, 1, 0x02)]),
        data(1, &[10, 0, 0, 0, 90]),
        data(1, &[11, 0, 0, 0, 0xFF]),
    ]));
    let (one_errors, one_messages) = decode(&one).unwrap();
    assert_eq!(one_errors.len(), 2);
    assert_eq!(records(&one_messages, "file_id").len(), 1);
    assert_eq!(records(&one_messages, "record").len(), 2);
    for n in 1..5usize {
        let mut chained = Vec::new();
        for _ in 0..n {
            chained.extend_from_slice(&one);
        }
        let (errors, messages) = decode(&chained).unwrap();
        assert_eq!(messages.len(), 2);
        assert_eq!(records(&messages, "file_id").len(), n);
        assert_eq!(records(&messages, "record").len(), 2 * n);
        assert_eq!(errors.len(), 2 * n);
        for (i, e) in errors.iter().enumerate() {
            assert_eq!(e, &one_errors[i % 2]);
        }
        for (i, r) in records(&messages, "record").iter().enumerate() {
            assert_eq!(r, &records(&one_messages, "record")[i % 2]);
        }
    }
}

#[test]
fn definitions_outlive_a_file() {
    let first = fit_file(&file_id_records(4, 111, 1_000_000_000));
    let mut fields = vec![1u8, 0x17, 0x00, 0x09, 0x00];
    fields.extend_from_slice(&333u32.to_le_bytes());
    fields.extend_from_slice(&5u32.to_le_bytes());
    let second = fit_file(&data(0, &fields));
    let (errors, messages) = decode(&join(&[first, second])).unwrap();
    assert!(errors.is_empty());
    let file_ids = records(&messages, "file_id");
    assert_eq!(file_ids.len(), 2);
    assert_eq!(file_ids[1].value("type"), Some(&Value::String(text("device"))));
    assert_eq!(file_ids[1].value("manufacturer"), Some(&Value::String(text("suunto"))));
    assert_eq!(file_ids[1].value("product"), Some(&Value::UInt16(9)));
    assert_eq!(file_ids[1].value("time_created"), Some(&Value::DateTime(631_065_605)));
}

#[test]
fn a_definition_replaces_the_one_before() {
    let (errors, messages) = decode_records(&join(&[
        definition(0, false, 0, &FILE_ID_LAYOUT),
        definition(0, false, 0, &[(0, 1, 0x00)]),
        data(0, &[2]),
        definition(0, true, 20, &[(3, 1, 0x02), (5, 4, 0x86)]),
        data(0, &[77, 0, 0, 1, 0]),
    ]));
    assert!(errors.is_empty());
    assert_eq!(records(&messages, "file_id")[0].len(), 1);
    assert_eq!(records(&messages, "file_id")[0].value("type"), Some(&Value::String(text("settings"))));
    let record = &records(&messages, "record")[0];
    assert_eq!(record.value("heart_rate"), Some(&Value::UInt8(77)));
    assert_eq!(physical(record.get("distance").unwrap()), [2.56]);
}

#[test]
fn altitude_scale_and_offset() {
    let layout = [(253, 4, 0x86), (2, 2, 0x84)];
    let (errors, messages) = decode_records(&join(&[
        definition(1, false, 20, &layout),
        data(1, &[0xE8, 3, 0, 0, 0xC4, 0x09]),
        data(1, &[0xE9, 3, 0, 0, 0x3F, 0x0C]),
    ]));
    assert!(errors.is_empty());
    let records = records(&messages, "record");
    let altitude = records[0].get("altitude").unwrap();
    assert_eq!(altitude.value, Value::UInt16(2500));
    assert_eq!(
        altitude.scaling,
        Some(Scaling { scale: 5.0f64.to_bits(), offset: 500.0f64.to_bits() })
    );
    assert_eq!(altitude.units, "m");
    assert!(!altitude.is_subfield);
    assert_eq!(physical(altitude), [0.0]);
    assert_eq!(records[1].get("altitude").unwrap().value, Value::UInt16(3135));
    assert_eq!(physical(records[1].get("altitude").unwrap()), [127.0]);
    assert_eq!(records[0].value("timestamp"), Some(&Value::DateTime(631_066_600)));
}

#[test]
fn component_expansion_it_works() {
    let layout = [(2, 2, 0x84), (6, 2, 0x84)];
    let (errors, messages) = decode_records(&join(&[
        definition(1, false, 20, &layout),
        data(1, &[0x3F, 0x0C, 0x10, 0x27]),
        data(1, &[0x00, 0x00, 0x01, 0x00]),
    ]));
    assert_eq!(errors.len(), 0);
    let records = records(&messages, "record");
    for record in records {
        assert_eq!(
            physical(record.get("enhanced_altitude").unwrap()),
            physical(record.get("altitude").unwrap())
        );
        assert_eq!(
            physical(record.get("enhanced_speed").unwrap()),
            physical(record.get("speed").unwrap())
        );
        assert_eq!(record.len(), 4);
    }
    assert_eq!(records[0].value("enhanced_altitude"), Some(&Value::UInt32(3135)));
    assert_eq!(physical(records[0].get("enhanced_speed").unwrap()), [10.0]);
    assert_eq!(physical(records[1].get("enhanced_altitude").unwrap()), [-500.0]);
    assert_eq!(physical(records[1].get("speed").unwrap()), [0.001]);
}

#[test]
fn should_be_applied_to_arrays() {
    let (errors, messages) = decode_records(&join(&[
        definition(1, false, 20, &[(69, 2, 0x02), (70, 2, 0x02)]),
        data(1, &[240, 142, 54, 74]),
    ]));
    assert!(errors.is_empty());
    let record = &records(&messages, "record")[0];
    assert_eq!(
        record.value("left_power_phase"),
        Some(&Value::Array(vec![Value::UInt8(240), Value::UInt8(142)]))
    );
    assert_eq!(
        physical(record.get("left_power_phase").unwrap()),
        [337.5000052734376, 199.68750312011724]
    );
    assert_eq!(
        physical(record.get("left_power_phase_peak").unwrap()),
        [75.93750118652346, 104.0625016259766]
    );
    assert_eq!(record.get("left_power_phase").unwrap().units, "degrees");
}

#[test]
fn a_declared_array_of_one_stays_an_array() {
    let (errors, messages) = decode_records(&join(&[
        definition(1, false, 20, &[(69, 1, 0x02), (3, 1, 0x02)]),
        data(1, &[240, 60]),
    ]));
    assert!(errors.is_empty());
    let record = &records(&messages, "record")[0];
    assert_eq!(record.value("left_power_phase"), Some(&Value::Array(vec![Value::UInt8(240)])));
    assert_eq!(record.value("heart_rate"), Some(&Value::UInt8(60)));
}

#[test]
fn floats_keep_their_bits() {
    let mut fields = 3.5f32.to_le_bytes().to_vec();
    fields.push(20);
    let (errors, messages) = decode_records(&join(&[
        definition(1, false, 20, &[(90, 4, 0x88), (13, 1, 0x01)]),
        data(1, &fields),
        definition(1, true, 20, &[(90, 4, 0x88)]),
        data(1, &3.5f32.to_be_bytes()),
        data(1, &f32::INFINITY.to_be_bytes()),
    ]));
    assert_eq!(errors.len(), 1);
    let records = records(&messages, "record");
    assert_eq!(records.len(), 3);
    let condition = records[0].get("performance_condition").unwrap();
    assert_eq!(condition.value, Value::Float32(3.5f32.to_bits()));
    assert_eq!(physical(condition), [0.75]);
    assert_eq!(records[0].get("temperature").unwrap().scaling, None);
    assert_eq!(records[0].value("temperature"), Some(&Value::SInt8(20)));
    assert_eq!(records[1], Record { fields: vec![records[0].fields[0].clone()] });
    assert_eq!(records[2].len(), 0);
}

#[test]
fn compressed_timestamp_reconstruction() {
    let (errors, messages) = decode_records(&join(&[
        definition(1, false, 20, &[(253, 4, 0x86), (3, 1, 0x02)]),
        data(1, &[0xE8, 3, 0, 0, 100]),
        definition(2, false, 20, &[(3, 1, 0x02)]),
        compressed(2, 3, &[101]),
        compressed(2, 4, &[102]),
        compressed(2, 4, &[103]),
        compressed(2, 3, &[104]),
    ]));
    assert!(errors.is_empty());
    let records = records(&messages, "record");
    assert_eq!(records.len(), 5);
    assert_eq!(records[0].value("timestamp"), Some(&Value::DateTime(1000 + 631_065_600)));
    assert_eq!(records[1].value("timestamp"), Some(&Value::DateTime(1027 + 631_065_600)));
    assert_eq!(records[1].value("heart_rate"), Some(&Value::UInt8(101)));
    assert_eq!(records[2].value("timestamp"), Some(&Value::DateTime(1028 + 631_065_600)));
    assert_eq!(records[3].value("timestamp"), Some(&Value::DateTime(1028 + 631_065_600)));
    assert_eq!(records[4].value("timestamp"), Some(&Value::DateTime(1059 + 631_065_600)));
    let stamp = records[1].get("timestamp").unwrap();
    assert_eq!(stamp.units, "");
    assert_eq!(stamp.scaling, None);
    assert!(!stamp.is_subfield);
}

#[test]
fn compressed_timestamp_without_reference() {
    let (errors, messages) = decode_records(&join(&[
        definition(2, false, 20, &[(3, 1, 0x02)]),
        compressed(2, 3, &[101]),
    ]));
    assert_eq!(errors, [ErrorKind::MissingTimestampRef]);
    let records = records(&messages, "record");
    assert_eq!(records.len(), 1);
    assert_eq!(records[0].value("timestamp"), None);
    assert_eq!(records[0].value("heart_rate"), Some(&Value::UInt8(101)));
}

#[test]
fn compressed_timestamp_wraps_at_the_top() {
    let (errors, messages) = decode_records(&join(&[
        definition(1, false, 20, &[(253, 4, 0x86)]),
        data(1, &[0xFE, 0xFF, 0xFF, 0xFF]),
        definition(2, false, 20, &[(3, 1, 0x02)]),
        compressed(2, 1, &[101]),
    ]));
    assert!(errors.is_empty());
    let records = records(&messages, "record");
    assert_eq!(records[0].value("timestamp"), Some(&Value::DateTime(0xFFFF_FFFE + 631_065_600)));
    assert_eq!(records[1].value("timestamp"), Some(&Value::DateTime(1 + 631_065_600)));
}

fn event_records(event: u8, data_value: u32) -> Vec<u8> {
    let mut fields = vec![0xE8, 3, 0, 0, event, 3];
    fields.extend_from_slice(&data_value.to_le_bytes());
    join(&[
        definition(3, false, 21, &[(253, 4, 0x86), (0, 1, 0x00), (1, 1, 0x00), (3, 4, 0x86)]),
        data(3, &fields),
    ])
}

#[test]
fn sub_field_and_component_expansion_it_works() {
    let (errors, messages) = decode_records(&event_records(42, 0x0302_0100));
    assert!(errors.is_empty());
    let event = &records(&messages, "event")[0];
    assert_eq!(event.value("gear_change_data"), Some(&Value::UInt32(0x0302_0100)));
    assert_eq!(event.value("data"), Some(&Value::UInt32(0x0302_0100)));
    assert_eq!(event.value("front_gear_num"), Some(&Value::UInt8z(2)));
    assert_eq!(event.value("front_gear"), Some(&Value::UInt8z(3)));
    assert_eq!(event.value("rear_gear_num"), Some(&Value::UInt8z(0)));
    assert_eq!(event.value("rear_gear"), Some(&Value::UInt8z(1)));
    assert_eq!(event.value("event"), Some(&Value::String(text("rear_gear_change"))));
    assert_eq!(event.value("event_type"), Some(&Value::String(text("marker"))));
    assert!(event.get("gear_change_data").unwrap().is_subfield);
    assert!(!event.get("data").unwrap().is_subfield);
    assert!(!event.get("rear_gear").unwrap().is_subfield);
    let names: Vec<&str> = event.fields.iter().map(|f| f.name.as_str()).collect();
    assert_eq!(
        names,
        [
            "timestamp",
            "event",
            "event_type",
            "data",
            "gear_change_data",
            "rear_gear_num",
            "rear_gear",
            "front_gear_num",
            "front_gear"
        ]
    );
}

#[test]
fn sub_field_expansion_it_works() {
    let mut parts = Vec::new();
    for event in [42u8, 43, 0, 44, 42, 3] {
        parts.push(event_records(event, 0x0101_0101));
    }
    let (_, messages) = decode_records(&join(&parts));
    assert_eq!(
        messages
            .get("event")
            .map(|it| it.iter().filter(|it| it.contains_key("gear_change_data")).count()),
        Some(3)
    )
}

#[test]
fn test_sub_field_type_to_string_conversion() {
    let (errors, messages) = decode_records(&join(&[
        event_records(44, 1),
        event_records(44, 0),
        event_records(44, 9),
        event_records(42, 1),
    ]));
    assert!(errors.is_empty());
    let events = records(&messages, "event");
    assert_eq!(events[0].value("rider_position"), Some(&Value::String(text("standing"))));
    assert_eq!(events[1].value("rider_position"), Some(&Value::String(text("seated"))));
    assert_eq!(events[2].value("rider_position"), Some(&Value::Enum(9)));
    assert_eq!(events[3].value("rider_position"), None);
    assert!(events[0].get("rider_position").unwrap().is_subfield);
    assert_eq!(events[0].value("data"), Some(&Value::UInt32(1)));
}

#[test]
fn at_most_one_sub_field_per_reference() {
    let sub_fields = ["timer_trigger", "gear_change_data", "rider_position", "ghost", "phantom"];
    for event in 0..255u8 {
        let (errors, messages) = decode_records(&event_records(event, 5));
        assert!(errors.is_empty());
        let record = &records(&messages, "event")[0];
        let emitted: Vec<&str> =
            sub_fields.iter().copied().filter(|name| record.contains_key(name)).collect();
        let expected: Vec<&str> = match event {
            0 => vec!["timer_trigger"],
            42 | 43 => vec!["gear_change_data"],
            44 => vec!["rider_position"],
            _ => vec![],
        };
        assert_eq!(emitted, expected);
        assert_eq!(record.value("data"), Some(&Value::UInt32(5)));
        if expected.is_empty() {
            assert_eq!(record.len(), 4);
        }
    }
}

#[test]
fn a_sub_field_takes_the_type_of_its_own() {
    let (errors, messages) = decode_records(&event_records(0, 0x0001_02FF));
    assert!(errors.is_empty());
    let record = &records(&messages, "event")[0];
    assert_eq!(record.value("timer_trigger"), Some(&Value::UInt8(0xFF)));
    assert_eq!(record.value("data"), Some(&Value::UInt32(0x0001_02FF)));
}

fn workout_steps(big_endian: bool) -> Vec<u8> {
    let mut parts =
        vec![definition(4, big_endian, 27, &[(254, 2, 0x84), (1, 1, 0x00), (2, 4, 0x86)])];
    let steps: [(u8, u32); 6] =
        [(1, 400_000), (0, 60_000), (1, 80_000), (1, 20_000), (5, 7), (1, 100_000)];
    for (index, (kind, value)) in steps.iter().enumerate() {
        let mut fields = Vec::new();
        if big_endian {
            fields.extend_from_slice(&(index as u16).to_be_bytes());
            fields.push(*kind);
            fields.extend_from_slice(&value.to_be_bytes());
        } else {
            fields.extend_from_slice(&(index as u16).to_le_bytes());
            fields.push(*kind);
            fields.extend_from_slice(&value.to_le_bytes());
        }
        parts.push(data(4, &fields));
    }
    fit_file(&join(&parts))
}

#[test]
fn test_sub_fields_scale_offset() {
    let repeats = [workout_steps(false), workout_steps(true)];
    for repeat in repeats {
        let mut decoder = Decoder::new(&repeat);
        let (errors, messages) = decoder.decode(&profile()).unwrap();
        assert_eq!(errors.len(), 0);
        let distances: [f64; 4] = [4000.0, 800.0, 200.0, 1000.0];
        let steps: Vec<&Record> = messages
            .get("workout_step")
            .map(|it| it.iter().filter(|it| it.contains_key("duration_distance")).collect::<Vec<_>>())
            .unwrap();
        assert_eq!(steps.len(), 4);
        for (idx, workout_step) in steps.iter().enumerate() {
            assert_eq!(physical(workout_step.get("duration_distance").unwrap()), [distances[idx]]);
            assert_eq!(workout_step.get("duration_distance").unwrap().units, "m");
        }
        let all = records(&messages, "workout_step");
        assert_eq!(physical(all[1].get("duration_time").unwrap()), [60.0]);
        assert_eq!(all[1].value("duration_type"), Some(&Value::String(text("time"))));
        assert_eq!(all[4].len(), 3);
        assert_eq!(all[4].value("duration_value"), Some(&Value::UInt32(7)));
        assert_eq!(all[3].value("message_index"), Some(&Value::UInt16(3)));
    }
}

#[test]
fn test_expansion_with_enum_components() {
    let file = fit_file(&join(&[
        definition(0, false, 55, &[(24, 1, 0x0D)]),
        data(0, &[0x68]),
        data(0, &[0x00]),
        data(0, &[0xDE]),
        data(0, &[0xFF]),
    ]));
    let mut decoder = Decoder::new(&file);
    let (_, messages) = decoder.decode(&profile()).unwrap();
    let monitoring = messages.get("monitoring").unwrap();
    assert_eq!(
        monitoring[0].value("activity_type"),
        Some(&Value::String(String::from("sedentary")))
    );
    assert_eq!(monitoring[0].value("intensity"), Some(&Value::UInt8(3)));

    assert_eq!(monitoring[1].value("activity_type"), Some(&Value::String(String::from("generic"))));
    assert_eq!(monitoring[1].value("intensity"), Some(&Value::UInt8(0)));

    assert_eq!(monitoring[2].value("activity_type"), Some(&Value::Enum(30)));
    assert_eq!(monitoring[2].value("intensity"), Some(&Value::UInt8(6)));

    assert_eq!(monitoring[3].value("activity_type"), None);
    assert_eq!(monitoring[3].value("intensity"), None);
}

fn pack12(values: &[u16]) -> Vec<u8> {
    let mut bits: Vec<bool> = Vec::new();
    for v in values {
        for i in 0..12 {
            bits.push((v >> i) & 1 == 1);
        }
    }
    bits.chunks(8)
        .map(|chunk| chunk.iter().enumerate().fold(0u8, |byte, (i, bit)| byte | ((*bit as u8) << i)))
        .collect()
}

#[test]
fn test_hr_msg_event_timestamp12_expansion() {
    let stamps: [u16; 10] = [0x001, 0x400, 0x800, 0x7FE, 0x000, 0x123, 0xABC, 0x7FF, 0x555, 0xAAA];
    let packed = pack12(&stamps);
    assert_eq!(packed.len(), 15);
    assert!(!packed.contains(&0xFF));
    let (errors, messages) = decode_records(&join(&[
        definition(0, false, 132, &[(10, 15, 0x0D)]),
        data(0, &packed),
    ]));
    assert!(errors.is_empty());
    let hr = &records(&messages, "hr")[0];
    let event_timestamp = hr.get("event_timestamp").unwrap();
    let expected: Vec<f64> = stamps.iter().map(|s| *s as f64 / 1024.0).collect();
    assert_eq!(physical(event_timestamp), expected);
    assert_eq!(
        event_timestamp.value,
        Value::Array(stamps.iter().map(|s| Value::UInt32(*s as u32)).collect())
    );
    assert_eq!(event_timestamp.units, "s");
}

#[test]
fn a_group_takes_the_bits_that_are_there() {
    let stamps: [u16; 4] = [0x001, 0x400, 0x800, 0x7FF];
    let packed = pack12(&stamps);
    assert_eq!(packed.len(), 6);
    assert!(!packed.contains(&0xFF));
    let (errors, messages) = decode_records(&join(&[
        definition(0, false, 132, &[(10, 6, 0x0D)]),
        data(0, &packed),
        definition(0, false, 132, &[(10, 1, 0x0D)]),
        data(0, &[0x77]),
    ]));
    assert!(errors.is_empty());
    let hr = records(&messages, "hr");
    assert_eq!(
        physical(hr[0].get("event_timestamp").unwrap()),
        [1.0 / 1024.0, 1.0, 2.0, 2047.0 / 1024.0]
    );
    assert_eq!(hr[1].value("event_timestamp"), Some(&Value::Array(vec![])));
    assert_eq!(hr[1].value("event_timestamp_12"), Some(&Value::Array(vec![Value::Byte(0x77)])));
}

#[test]
fn components_of_a_field_that_accumulates() {
    let (errors, messages) = decode_records(&join(&[
        definition(0, false, 105, &[(1, 2, 0x84)]),
        data(0, &[0x34, 0x12]),
        data(0, &[0x01, 0x00]),
    ]));
    assert!(errors.is_empty());
    let pads = records(&messages, "pad");
    assert_eq!(pads[0].value("packed"), Some(&Value::UInt16(0x1234)));
    assert_eq!(pads[0].value("low"), Some(&Value::UInt16(0x1234)));
    assert_eq!(pads[0].value("high"), Some(&Value::UInt16(0x1312)));
    assert_eq!(pads[1].value("low"), Some(&Value::UInt16(1)));
    assert_eq!(pads[1].value("high"), Some(&Value::UInt16(0x100)));
}

#[test]
fn components_without_a_counter_pass_unchanged() {
    let (errors, messages) = decode_records(&join(&[
        definition(0, false, 20, &[(8, 3, 0x0D), (5, 4, 0x86)]),
        data(0, &[0x21, 0x43, 0x65, 100, 0, 0, 0]),
        data(0, &[0x22, 0x43, 0x65, 200, 0, 0, 0]),
    ]));
    assert!(errors.is_empty());
    let records = records(&messages, "record");
    assert_eq!(records[0].value("speed"), Some(&Value::UInt16(0x321)));
    assert_eq!(physical(records[0].get("speed").unwrap()), [8.01]);
    assert_eq!(records[0].value("distance"), Some(&Value::UInt32(100)));
    assert_eq!(physical(records[0].get("distance").unwrap()), [1.0]);
    assert_eq!(records[1].value("speed"), Some(&Value::UInt16(0x322)));
    let names: Vec<&str> = records[0].fields.iter().map(|f| f.name.as_str()).collect();
    assert_eq!(names, ["compressed_speed_distance", "speed", "distance"]);
}

#[test]
fn the_end_of_the_data_comes_from_the_header() {
    let mut file = fit_file(&file_id_records(4, 111, 1_000_000_000));
    file.push(0x00);
    let (errors, messages) = decode(&file).unwrap();
    assert!(errors.is_empty());
    assert_eq!(records(&messages, "file_id").len(), 1);
    file.push(0x00);
    assert_eq!(decode(&file), Err(ErrorKind::InvalidFitFile));
}

#[test]
fn is_fit_checks_the_header_only() {
    let file = fit_file_short();
    assert!(Decoder::is_fit(&file));
    assert!(Decoder::is_fit(&file[..16]));
    assert!(!Decoder::is_fit(&file[..15]));
    assert!(!Decoder::is_fit(&[]));
    let short = short_header_file(&[]);
    assert_eq!(short.len(), 14);
    assert!(Decoder::is_fit(&short));
    assert!(!Decoder::is_fit(&short[..13]));
    let mut other = file.clone();
    other[0] = 13;
    assert!(!Decoder::is_fit(&other));
    for at in 8..12 {
        let mut other = file.clone();
        other[at] ^= 0x20;
        assert!(!Decoder::is_fit(&other));
    }
    let mut broken = file.clone();
    broken[20] ^= 0xFF;
    assert!(Decoder::is_fit(&broken));
}

#[test]
fn check_integrity_checks_both_check_values() {
    let file = fit_file_short();
    assert!(Decoder::new(&file).check_integrity());
    for at in 0..file.len() {
        let mut broken = file.clone();
        broken[at] ^= 0x01;
        assert!(!Decoder::new(&broken).check_integrity(), "byte {}", at);
    }
    assert!(!Decoder::new(&file[..file.len() - 1]).check_integrity());
    assert!(!Decoder::new(&file[..11]).check_integrity());
    assert!(!Decoder::new(&[]).check_integrity());
    let mut longer = file.clone();
    longer.extend_from_slice(&[1, 2, 3]);
    assert!(Decoder::new(&longer).check_integrity());
}

#[test]
fn check_integrity_passes_over_a_header_check_value_of_zero() {
    let mut file = fit_file_short();
    file[12] = 0;
    file[13] = 0;
    let end = file.len() - 2;
    let crc = check_value(&file[..end]);
    file[end..].copy_from_slice(&crc.to_le_bytes());
    assert!(Decoder::new(&file).check_integrity());
    assert!(Decoder::new(&short_header_file(&file_id_records(4, 1, 1))).check_integrity());
}

#[test]
fn check_integrity_leaves_the_decoder_alone() {
    let file = fit_file_short();
    let mut decoder = Decoder::new(&file);
    decoder.decode(&profile()).unwrap();
    let at = decoder.reader.offset();
    assert!(decoder.check_integrity());
    assert_eq!(decoder.reader.offset(), at);
}

#[test]
fn a_wrong_check_value_ends_the_decoding() {
    let mut file = fit_file_short();
    let last = file.len() - 1;
    file[last] ^= 0x80;
    assert_eq!(decode(&file), Err(ErrorKind::InvalidCRC));
    let mut file = fit_file_short();
    file[30] ^= 0x01;
    assert!(decode(&file).is_err());
}

#[test]
fn missing_bytes_end_the_decoding() {
    let file = fit_file(&[0x40, 0, 0, 0, 0, 5, 0, 1, 0]);
    assert_eq!(file.len(), 25);
    assert_eq!(
        decode(&file),
        Err(ErrorKind::OutOfBoundsRead { offset: 20, requested_len: 15, remaining_len: 5 })
    );
    let mut cut = fit_file_short();
    cut.truncate(40);
    assert_eq!(
        decode(&cut),
        Err(ErrorKind::OutOfBoundsRead { offset: 39, requested_len: 2, remaining_len: 1 })
    );
    let mut cut = fit_file_short();
    assert_eq!(cut.len(), 51);
    cut.truncate(50);
    assert_eq!(
        decode(&cut),
        Err(ErrorKind::OutOfBoundsRead { offset: 49, requested_len: 2, remaining_len: 1 })
    );
}

#[test]
fn a_data_message_needs_its_definition() {
    assert_eq!(
        decode(&fit_file(&data(3, &[1, 2, 3]))),
        Err(ErrorKind::LocalDefinitionMessageNotFound(3))
    );
    assert_eq!(
        decode(&fit_file(&join(&[definition(1, false, 0, &[(0, 1, 0x00)]), compressed(2, 1, &[4])]))),
        Err(ErrorKind::LocalDefinitionMessageNotFound(2))
    );
}

#[test]
fn an_unknown_base_type_ends_the_decoding() {
    assert_eq!(
        decode(&fit_file(&definition(0, false, 0, &[(0, 1, 0x00), (1, 2, 0x03), (2, 2, 0x99)]))),
        Err(ErrorKind::BaseTypeMismatch { tag: 0x03 })
    );
}

#[test]
fn an_unknown_message_ends_the_decoding() {
    assert_eq!(
        decode(&fit_file(&join(&[definition(0, false, 999, &[(0, 1, 0x00)]), data(0, &[1])]))),
        Err(ErrorKind::GlobalDefinitionMessageNotFound(999))
    );
    assert_eq!(
        decode(&fit_file(&join(&[definition(0, false, 106, &[(0, 1, 0x00)]), data(0, &[1])]))),
        Err(ErrorKind::UnknownMessage(text("ghost_mesg")))
    );
    let (errors, messages) = decode_records(&definition(0, false, 999, &[(0, 1, 0x00)]));
    assert!(errors.is_empty());
    assert_eq!(messages.len(), 0);
}

#[test]
fn an_invalid_value_is_recorded_and_left_out() {
    let (errors, messages) = decode_records(&join(&[
        definition(0, false, 0, &FILE_ID_LAYOUT),
        data(0, &[4, 1, 0, 0xFF, 0xFF, 0, 0, 0, 0, 0, 0xCA, 0x9A, 0x3B]),
    ]));
    assert_eq!(
        errors,
        [
            ErrorKind::DecodeFieldFailed {
                message_no: 0,
                field_no: 2,
                reason: Box::new(ErrorKind::InvalidFieldValue {
                    base_type: BaseType::UInt16,
                    invalid: 0xFFFF,
                    value: Value::UInt16(0xFFFF),
                }),
            },
            ErrorKind::DecodeFieldFailed {
                message_no: 0,
                field_no: 3,
                reason: Box::new(ErrorKind::InvalidFieldValue {
                    base_type: BaseType::UInt32z,
                    invalid: 0,
                    value: Value::UInt32z(0),
                }),
            },
        ]
    );
    let file_id = &records(&messages, "file_id")[0];
    assert_eq!(file_id.len(), 3);
    assert_eq!(file_id.value("product"), None);
    assert_eq!(file_id.value("time_created"), Some(&Value::DateTime(1_631_065_600)));
    for field in &file_id.fields {
        assert!(field.value.is_valid());
    }
}

#[test]
fn a_size_that_does_not_fit_is_recorded_and_read_past() {
    let (errors, messages) = decode_records(&join(&[
        definition(0, false, 0, &[(0, 1, 0x00), (2, 3, 0x84), (3, 4, 0x8C)]),
        data(0, &[4, 9, 9, 9, 7, 0, 0, 0]),
    ]));
    assert_eq!(
        errors,
        [ErrorKind::DecodeFieldFailed {
            message_no: 0,
            field_no: 2,
            reason: Box::new(ErrorKind::SizeMismatch { field_size: 3, base_type_size: 2 }),
        }]
    );
    let file_id = &records(&messages, "file_id")[0];
    assert_eq!(file_id.value("type"), Some(&Value::String(text("activity"))));
    assert_eq!(file_id.value("serial_number"), Some(&Value::UInt32z(7)));
}

#[test]
fn an_empty_field_is_an_invalid_array() {
    let (errors, messages) = decode_records(&join(&[
        definition(0, false, 0, &[(0, 0, 0x00), (8, 0, 0x07)]),
        data(0, &[]),
    ]));
    assert_eq!(errors.len(), 2);
    assert_eq!(
        errors[0],
        ErrorKind::DecodeFieldFailed {
            message_no: 0,
            field_no: 0,
            reason: Box::new(ErrorKind::InvalidFieldValue {
                base_type: BaseType::Enum,
                invalid: 0xFF,
                value: Value::Array(vec![]),
            }),
        }
    );
    assert_eq!(records(&messages, "file_id")[0].len(), 0);
}

#[test]
fn text_ends_at_the_first_nul() {
    let (errors, messages) = decode_records(&join(&[
        definition(0, false, 0, &[(8, 8, 0x07), (0, 1, 0x00)]),
        data(0, b"edge\0530\x04"),
        data(0, b"\0\0\0\0\0\0\0\0\x04"),
        data(0, b"gr\xC3\xBCn\xFF\0\0\x04"),
    ]));
    assert!(errors.is_empty());
    let file_ids = records(&messages, "file_id");
    assert_eq!(file_ids[0].value("product_name"), Some(&Value::String(text("edge"))));
    assert_eq!(file_ids[0].value("type"), Some(&Value::String(text("activity"))));
    assert_eq!(file_ids[1].value("product_name"), Some(&Value::String(String::new())));
    assert_eq!(file_ids[2].value("product_name"), Some(&Value::String(text("gr\u{fc}n\u{FFFD}"))));
}

fn failed(message: &str, field_no: u8, reason: ProjectionFault) -> ErrorKind {
    ErrorKind::DecodeMessageFailed { message: text(message), reason, field_no }
}

#[test]
fn projection_faults_are_recorded() {
    let (errors, messages) = decode_records(&join(&[
        definition(0, false, 0, &[(77, 1, 0x02), (4, 2, 0x84), (2, 4, 0x84), (0, 1, 0x00)]),
        data(0, &[1, 2, 0, 3, 0, 4, 0, 4]),
    ]));
    assert_eq!(
        errors,
        [
            failed("file_id", 77, ProjectionFault::UnknownField),
            failed("file_id", 4, ProjectionFault::NotADateTime),
            failed("file_id", 2, ProjectionFault::UnexpectedArray),
        ]
    );
    let file_id = &records(&messages, "file_id")[0];
    assert_eq!(file_id.len(), 1);
    assert_eq!(file_id.value("type"), Some(&Value::String(text("activity"))));
}

#[test]
fn array_and_number_faults_are_recorded() {
    let (errors, messages) = decode_records(&join(&[
        definition(0, false, 20, &[(70, 3, 0x02), (2, 2, 0x07), (69, 3, 0x00), (3, 1, 0x02)]),
        data(0, &[1, 2, 3, b'h', b'i', 1, 2, 3, 60]),
    ]));
    assert_eq!(
        errors,
        [
            failed("record", 70, ProjectionFault::ArrayLengthMismatch { expected: 2, actual: 3 }),
            failed("record", 2, ProjectionFault::NotNumeric),
            failed("record", 69, ProjectionFault::NotNumeric),
        ]
    );
    assert_eq!(records(&messages, "record")[0].len(), 1);
}

#[test]
fn component_faults_are_recorded() {
    let (errors, messages) = decode_records(&join(&[
        definition(0, false, 20, &[(2, 2, 0x83)]),
        data(0, &[1, 0]),
        definition(0, false, 20, &[(2, 1, 0x02)]),
        data(0, &[1]),
        definition(0, false, 105, &[(2, 4, 0x86), (3, 4, 0x86), (4, 4, 0x86)]),
        data(0, &[1, 0, 0, 0, 2, 0, 0, 0, 3, 0, 0, 0]),
    ]));
    assert_eq!(
        errors,
        [
            failed("record", 2, ProjectionFault::NotUnsigned),
            failed("record", 2, ProjectionFault::OutOfBits),
            failed("pad", 2, ProjectionFault::BadComponent),
            failed("pad", 3, ProjectionFault::BadComponent),
            failed("pad", 4, ProjectionFault::BadComponent),
        ]
    );
    let records_ = records(&messages, "record");
    assert_eq!(records_[0].value("altitude"), Some(&Value::SInt16(1)));
    assert_eq!(records_[0].len(), 1);
    assert_eq!(records_[1].value("altitude"), Some(&Value::UInt8(1)));
    assert_eq!(records(&messages, "pad")[0].len(), 3);
}

fn developer_file(base_type: u8, extra: &[Vec<u8>]) -> Vec<u8> {
    let mut parts = vec![
        definition(0, false, 207, &[(3, 1, 0x02), (2, 2, 0x84), (4, 4, 0x86), (1, 2, 0x0D)]),
        data(0, &[0, 1, 0, 110, 0, 0, 0, 7, 8]),
        definition(1, false, 206, &[(0, 1, 0x02), (1, 1, 0x02), (2, 1, 0x02), (3, 8, 0x07), (8, 4, 0x07)]),
        data(1, &join(&[vec![0, 5, base_type], b"doughnut".to_vec(), b"cnt\0".to_vec()])),
    ];
    parts.extend_from_slice(extra);
    fit_file(&join(&parts))
}

#[test]
fn read_developer_data() {
    let file = developer_file(
        2,
        &[
            developer_definition(2, 20, &[(3, 1, 0x02)], &[(5, 1, 0)]),
            data(2, &[140, 3]),
            data(2, &[141, 4]),
        ],
    );
    let profile = profile();
    let mut decoder = Decoder::new(&file);
    let (errors, messages) = decoder.decode(&profile).unwrap();
    assert_eq!(errors.len(), 0);
    assert_eq!(messages.get("record").map(|it| it.len()), Some(2));
    let id = &records(&messages, "developer_data_id")[0];
    assert_eq!(id.value("manufacturer_id"), Some(&Value::String(text("garmin"))));
    assert_eq!(id.value("developer_data_index"), Some(&Value::UInt8(0)));
    assert_eq!(id.value("application_version"), Some(&Value::UInt32(110)));
    assert_eq!(
        id.value("application_id"),
        Some(&Value::Array(vec![Value::Byte(7), Value::Byte(8)]))
    );
    let description = &records(&messages, "field_description")[0];
    assert_eq!(description.value("fit_base_type_id"), Some(&Value::String(text("uint8"))));
    assert_eq!(
        description.value("field_name"),
        Some(&Value::Array(vec![Value::String(text("doughnut"))]))
    );
    assert_eq!(description.value("field_definition_number"), Some(&Value::UInt8(5)));
    let definitions = &decoder.session.developer_definitions;
    assert_eq!(definitions.len(), 1);
    assert_eq!(definitions[&0].developer_data_index, 0);
    assert_eq!(definitions[&0].application_version, Some(110));
    assert_eq!(definitions[&0].manufacturer_id, Some(Value::String(text("garmin"))));
    assert_eq!(definitions[&0].developer_id, None);
    assert_eq!(definitions[&0].field_map.len(), 1);
    assert_eq!(definitions[&0].field_map[&5].field_definition_number, 5);
    assert_eq!(&definitions[&0].field_map[&5].attributes, description);
    let stored = &decoder.session.developer_data;
    assert_eq!(stored.len(), 1);
    assert_eq!(stored[0].message, "record");
    assert_eq!(stored[0].fields.len(), 1);
    assert_eq!(stored[0].fields[0].field_definition_number, 5);
    assert_eq!(stored[0].fields[0].value, Value::UInt8(4));
    assert_eq!(records(&messages, "record")[1].value("heart_rate"), Some(&Value::UInt8(141)));
}

#[test]
fn developer_values_take_the_described_type() {
    for (base_type, expected) in [
        (136u8, Value::Float32(3.0f32.to_bits())),
        (13, Value::Byte(3)),
        (2, Value::UInt8(3)),
        (200, Value::Byte(3)),
    ] {
        let file = developer_file(
            base_type,
            &[developer_definition(2, 20, &[(3, 1, 0x02)], &[(5, 1, 0)]), data(2, &[140, 3])],
        );
        let mut decoder = Decoder::new(&file);
        let (errors, _) = decoder.decode(&profile()).unwrap();
        assert!(errors.is_empty());
        assert_eq!(decoder.session.developer_data[0].fields[0].value, expected);
    }
    let file = developer_file(
        2,
        &[developer_definition(2, 20, &[(3, 1, 0x02)], &[(5, 2, 0)]), data(2, &[140, 3, 4])],
    );
    let mut decoder = Decoder::new(&file);
    decoder.decode(&profile()).unwrap();
    assert_eq!(decoder.session.developer_data[0].fields[0].value, Value::UInt8(0));
}

#[test]
fn missing_developer_definitions_are_recorded() {
    let file = developer_file(
        2,
        &[
            developer_definition(2, 20, &[(3, 1, 0x02)], &[(5, 1, 1), (6, 1, 0), (5, 1, 0), (7, 1, 0), (8, 3, 0)]),
            data(2, &[140, 1, 2, 3, 0xFF, 9, 9]),
        ],
    );
    assert_eq!(file.len(), 114);
    let mut decoder = Decoder::new(&file);
    let result = decoder.decode(&profile());
    assert_eq!(
        result,
        Err(ErrorKind::OutOfBoundsRead { offset: 113, requested_len: 2, remaining_len: 1 })
    );
    let file = developer_file(
        2,
        &[
            developer_definition(2, 20, &[(3, 1, 0x02)], &[(5, 1, 1), (6, 1, 0), (5, 1, 0), (7, 1, 0)]),
            data(2, &[140, 1, 2, 3, 0xFF]),
        ],
    );
    let mut decoder = Decoder::new(&file);
    let (errors, _) = decoder.decode(&profile()).unwrap();
    assert_eq!(
        errors,
        [
            ErrorKind::DecodeDeveloperFieldFailed {
                message_no: 20,
                data_index: 0,
                reason: Box::new(ErrorKind::InvalidFieldValue {
                    base_type: BaseType::Byte,
                    invalid: 0xFF,
                    value: Value::Byte(0xFF),
                }),
            },
            ErrorKind::MissingDeveloperDataDef { developer_data_index: 1 },
            ErrorKind::MissingDeveloperFieldDescription { developer_data_index: 0, field_no: 6 },
        ]
    );
    assert_eq!(decoder.session.developer_data[0].fields[0].value, Value::UInt8(3));
}

#[test]
fn a_field_description_needs_its_four_fields() {
    let layouts: [(&[(u8, u8, u8)], &str); 4] = [
        (&[(1, 1, 0x02), (2, 1, 0x02), (3, 1, 0x07)], "developer_data_index"),
        (&[(0, 1, 0x02), (2, 1, 0x02), (3, 1, 0x07)], "field_definition_number"),
        (&[(0, 1, 0x02), (1, 1, 0x02), (3, 1, 0x07)], "fit_base_type_id"),
        (&[(0, 1, 0x02), (1, 1, 0x02), (2, 1, 0x02)], "field_name"),
    ];
    for (layout, name) in layouts {
        let file = fit_file(&join(&[definition(1, false, 206, layout), data(1, &[1, 2, b'x'])]));
        assert_eq!(decode(&file), Err(ErrorKind::InvalidDeveloperField { name: text(name) }));
    }
    let file = fit_file(&join(&[
        definition(1, false, 206, &[(0, 1, 0x00), (1, 1, 0x02), (2, 1, 0x02), (3, 1, 0x07)]),
        data(1, &[1, 2, 2, b'x']),
    ]));
    assert_eq!(
        decode(&file),
        Err(ErrorKind::InvalidDeveloperField { name: text("developer_data_index") })
    );
    let file = fit_file(&join(&[definition(0, false, 207, &[(2, 2, 0x84)]), data(0, &[1, 0])]));
    assert_eq!(
        decode(&file),
        Err(ErrorKind::InvalidDeveloperField { name: text("developer_data_index") })
    );
}

#[test]
fn a_description_without_a_definition_is_not_kept() {
    let file = fit_file(&join(&[
        definition(1, false, 206, &[(0, 1, 0x02), (1, 1, 0x02), (2, 1, 0x02), (3, 1, 0x07)]),
        data(1, &[1, 2, 2, b'x']),
    ]));
    let mut decoder = Decoder::new(&file);
    let (errors, messages) = decoder.decode(&profile()).unwrap();
    assert!(errors.is_empty());
    assert_eq!(records(&messages, "field_description").len(), 1);
    assert!(decoder.session.developer_definitions.is_empty());
}

#[test]
fn every_emitted_field_value_is_valid() {
    let file = fit_file(&join(&[
        definition(0, false, 0, &FILE_ID_LAYOUT),
        data(0, &[0xFF, 0xFF, 0xFF, 1, 0, 0, 0, 0, 0, 0xFF, 0xFF, 0xFF, 0xFF]),
        data(0, &[4, 1, 0, 2, 0, 3, 0, 0, 0, 4, 0, 0, 0]),
        definition(1, false, 20, &[(253, 4, 0x86), (3, 1, 0x02), (69, 2, 0x02), (13, 1, 0x01)]),
        data(1, &[1, 0, 0, 0, 0xFF, 1, 0xFF, 0x7F]),
        data(1, &[2, 0, 0, 0, 60, 1, 2, 0x7E]),
    ]));
    let (errors, messages) = decode(&file).unwrap();
    assert_eq!(errors.len(), 7);
    for entry in &messages.entries {
        for record in &entry.records {
            for field in &record.fields {
                assert!(field.value.is_valid(), "{:?}", field);
            }
        }
    }
    assert_eq!(records(&messages, "file_id")[0].len(), 1);
    assert_eq!(records(&messages, "record")[1].len(), 4);
}

#[test]
fn errors_have_kinds() {
    assert_eq!(ErrorKind::InvalidFitFile.kind(), "InvalidFitFile");
    assert_eq!(ErrorKind::InvalidCRC.kind(), "InvalidCRC");
    assert_eq!(
        ErrorKind::OutOfBoundsRead { offset: 0, requested_len: 1, remaining_len: 0 }.kind(),
        "OutOfBoundsRead"
    );
    assert_eq!(ErrorKind::ByteConversionError { source_len: 3 }.kind(), "ByteConversionError");
    assert_eq!(ErrorKind::InvalidMessageHeader.kind(), "InvalidMessageHeader");
    assert_eq!(
        ErrorKind::InvalidFieldValue { base_type: BaseType::Byte, invalid: 255, value: Value::Byte(255) }
            .kind(),
        "InvalidFieldValue"
    );
    assert_eq!(
        ErrorKind::DecodeFieldFailed {
            message_no: 0,
            field_no: 0,
            reason: Box::new(ErrorKind::SizeMismatch { field_size: 3, base_type_size: 2 })
        }
        .kind(),
        "DecodeFieldFailed"
    );
    assert_eq!(
        ErrorKind::DecodeDeveloperFieldFailed {
            message_no: 0,
            data_index: 0,
            reason: Box::new(ErrorKind::InvalidCRC)
        }
        .kind(),
        "DecodeDeveloperFieldFailed"
    );
    assert_eq!(ErrorKind::SizeMismatch { field_size: 3, base_type_size: 2 }.kind(), "SizeMismatch");
    assert_eq!(
        ErrorKind::LocalDefinitionMessageNotFound(1).kind(),
        "LocalDefinitionMessageNotFound"
    );
    assert_eq!(
        ErrorKind::GlobalDefinitionMessageNotFound(1).kind(),
        "GlobalDefinitionMessageNotFound"
    );
    assert_eq!(ErrorKind::UnknownMessage(text("x")).kind(), "UnknownMessage");
    assert_eq!(ErrorKind::InvalidDeveloperField { name: text("x") }.kind(), "InvalidDeveloperField");
    assert_eq!(failed("x", 1, ProjectionFault::UnknownField).kind(), "DecodeMessageFailed");
    assert_eq!(ErrorKind::BaseTypeMismatch { tag: 3 }.kind(), "BaseTypeMismatch");
    assert_eq!(ErrorKind::MissingTimestampRef.kind(), "MissingTimestampRef");
    assert_eq!(ErrorKind::InvalidTimestamp { timestamp: 1 }.kind(), "InvalidTimestamp");
    assert_eq!(
        ErrorKind::MissingDeveloperDataDef { developer_data_index: 1 }.kind(),
        "MissingDeveloperDataDef"
    );
    assert_eq!(
        ErrorKind::MissingDeveloperFieldDescription { developer_data_index: 1, field_no: 2 }.kind(),
        "MissingDeveloperFieldDescription"
    );
    assert!(ErrorKind::InvalidCRC.is_fatal());
    assert!(ErrorKind::UnknownMessage(text("x")).is_fatal());
    assert!(!ErrorKind::MissingTimestampRef.is_fatal());
    assert!(!failed("x", 1, ProjectionFault::NotNumeric).is_fatal());
    assert!(!ErrorKind::SizeMismatch { field_size: 3, base_type_size: 2 }.is_fatal());
}

#[test]
fn decoding_again_starts_at_the_first_byte() {
    let file = fit_file(&join(&[
        definition(2, false, 20, &[(3, 1, 0x02)]),
        compressed(2, 3, &[101]),
        definition(1, false, 20, &[(253, 4, 0x86)]),
        data(1, &[0xE8, 3, 0, 0]),
    ]));
    let profile = profile();
    let mut decoder = Decoder::new(&file);
    let (errors, messages) = decoder.decode(&profile).unwrap();
    assert_eq!(errors, [ErrorKind::MissingTimestampRef]);
    assert_eq!(records(&messages, "record").len(), 2);
    assert_eq!(records(&messages, "record")[0].value("timestamp"), None);
    let (again, same) = decoder.decode(&profile).unwrap();
    assert_eq!(again, errors);
    assert_eq!(same, messages);
}

#[test]
fn each_decoding_starts_with_a_fresh_state() {
    let file = fit_file(&join(&[definition(0, false, 20, &[]), compressed(0, 3, &[])]));
    assert_eq!(file.len(), 23);
    let profile = profile();
    let mut decoder = Decoder::new(&file);
    for _ in 0..3 {
        let (errors, messages) = decoder.decode(&profile).unwrap();
        assert_eq!(errors, [ErrorKind::MissingTimestampRef]);
        assert_eq!(records(&messages, "record").len(), 1);
        assert_eq!(records(&messages, "record")[0].len(), 0);
    }
}

#[test]
fn chained_files_share_the_state_of_one_decoding() {
    let first = fit_file(&join(&[
        definition(1, false, 20, &[(253, 4, 0x86)]),
        data(1, &[0xE8, 3, 0, 0]),
        definition(2, false, 20, &[(3, 1, 0x02)]),
    ]));
    let second = fit_file(&compressed(2, 3, &[101]));
    let (errors, messages) = decode(&join(&[first, second])).unwrap();
    assert!(errors.is_empty());
    assert_eq!(
        records(&messages, "record")[1].value("timestamp"),
        Some(&Value::DateTime(1027 + 631_065_600))
    );
}

#[test]
fn should_be_applied() {
    let (_, messages) = decode_records(&join(&[
        definition(1, false, 20, &[(2, 2, 0x84)]),
        data(1, &3135u16.to_le_bytes()),
    ]));
    assert_eq!(
        messages.get("record").and_then(|it| it[0].get("altitude")).map(physical),
        Some(vec![127.0])
    )
}

fn sample_file() -> Vec<u8> {
    let mut event = vec![0xE8, 3, 0, 0, 42, 3];
    event.extend_from_slice(&0x0302_0100u32.to_le_bytes());
    fit_file(&join(&[
        definition(0, false, 0, &FILE_ID_LAYOUT),
        data(0, &[4, 1, 0, 2, 0, 3, 0, 0, 0, 0, 0xCA, 0x9A, 0x3B]),
        definition(0, false, 207, &[(3, 1, 0x02), (2, 2, 0x84), (4, 4, 0x86)]),
        data(0, &[0, 1, 0, 110, 0, 0, 0]),
        definition(1, false, 206, &[(0, 1, 0x02), (1, 1, 0x02), (2, 1, 0x02), (3, 4, 0x07)]),
        data(1, &[0, 5, 2, b'a', b'b', b'c', 0]),
        developer_definition(
            2,
            20,
            &[(253, 4, 0x86), (2, 2, 0x84), (8, 3, 0x0D), (69, 2, 0x02)],
            &[(5, 1, 0)],
        ),
        data(2, &[1, 0, 0, 0, 0xC4, 0x09, 0x21, 0x43, 0x65, 240, 142, 7]),
        compressed(2, 3, &[1, 0, 0, 0, 0xC4, 0x09, 0x21, 0x43, 0x65, 240, 142, 7]),
        definition(3, true, 21, &[(253, 4, 0x86), (0, 1, 0x00), (1, 1, 0x00), (3, 4, 0x86)]),
        data(3, &event),
        definition(4, false, 132, &[(10, 15, 0x0D)]),
        data(4, &pack12(&[1, 2, 3, 4, 5, 6, 7, 8, 9, 10])),
        definition(5, false, 105, &[(1, 2, 0x84)]),
        data(5, &[0x34, 0x12]),
    ]))
}

#[test]
fn a_sample_of_every_kind_decodes() {
    let (errors, messages) = decode(&sample_file()).unwrap();
    assert!(errors.is_empty(), "{:?}", errors);
    assert_eq!(messages.len(), 7);
}

#[test]
fn damaged_files_end_in_a_result() {
    let file = sample_file();
    let profile = profile();
    let mut x: u32 = 2024;
    let mut next = || {
        x = x.wrapping_mul(1_664_525).wrapping_add(1_013_904_223);
        (x >> 8) as usize
    };
    let mut decoded_some = 0;
    for _ in 0..3000 {
        let mut damaged = file.clone();
        for _ in 0..1 + next() % 3 {
            let at = next() % damaged.len();
            damaged[at] = next() as u8;
        }
        if next() % 4 == 0 {
            let keep = next() % (damaged.len() + 1);
            damaged.truncate(keep);
        }
        let end = damaged.len().saturating_sub(2).min(
            14 + u32::from_le_bytes([
                *damaged.get(4).unwrap_or(&0),
                *damaged.get(5).unwrap_or(&0),
                *damaged.get(6).unwrap_or(&0),
                *damaged.get(7).unwrap_or(&0),
            ]) as usize,
        );
        if end >= 14 && end + 2 <= damaged.len() {
            let crc = check_value(&damaged[..end]);
            damaged[end..end + 2].copy_from_slice(&crc.to_le_bytes());
        }
        let mut decoder = Decoder::new(&damaged);
        decoder.check_integrity();
        if let Ok((_, messages)) = decoder.decode(&profile) {
            decoded_some += 1;
            for entry in &messages.entries {
                for record in &entry.records {
                    for field in &record.fields {
                        assert!(
                            field.value.is_valid() || derived(&profile, &entry.name, &field.name),
                            "{:?}",
                            field
                        );
                    }
                }
            }
        }
    }
    assert!(decoded_some > 0);
}

/// Whether the profile gives a sub-field or a component of a message the
/// name.
fn derived(profile: &FitProfile, message: &str, name: &str) -> bool {
    profile.messages.iter().filter(|m| m.name == message).any(|m| {
        m.fields.iter().any(|f| {
            f.components.iter().any(|c| c.field_name == name)
                || f.sub_fields.iter().any(|sub| {
                    sub.field_name == name || sub.components.iter().any(|c| c.field_name == name)
                })
        })
    })
}

#[test]
fn invalid_values_stand_under_derived_names() {
    let profile = profile();
    let (_, messages) = decode_records(&event_records(42, 0x0302_0100));
    let mut invalid = 0;
    for entry in &messages.entries {
        for record in &entry.records {
            for field in &record.fields {
                if !field.value.is_valid() {
                    invalid += 1;
                    assert!(derived(&profile, &entry.name, &field.name), "{:?}", field);
                }
            }
        }
    }
    assert_eq!(records(&messages, "event")[0].value("rear_gear_num"), Some(&Value::UInt8z(0)));
    assert_eq!(invalid, 1);
}

#[test]
fn a_message_without_a_definition_leaves_the_state() {
    let file = fit_file(&join(&[
        definition(1, false, 20, &[(253, 4, 0x86), (3, 1, 0x02)]),
        data(1, &[0xE8, 3, 0, 0, 0xFF]),
        data(2, &[1, 2, 3]),
    ]));
    let profile = profile();
    let mut decoder = Decoder::new(&file);
    decoder.reader.offset = 14;
    assert_eq!(decoder.decode_next_record(&profile), Ok(None));
    assert!(matches!(decoder.decode_next_record(&profile), Ok(Some(_))));
    let at = decoder.reader.offset;
    let errors = decoder.session.errors.clone();
    assert_eq!(errors.len(), 1);
    assert_eq!(decoder.session.timestamp_ref, Some(1000));
    assert_eq!(
        decoder.decode_next_record(&profile),
        Err(ErrorKind::LocalDefinitionMessageNotFound(2))
    );
    assert_eq!(decoder.reader.offset, at + 1);
    assert_eq!(decoder.session.errors, errors);
    assert_eq!(decoder.session.timestamp_ref, Some(1000));
}

#[test]
fn a_failed_decoding_keeps_the_errors_recorded_before() {
    let file = fit_file(&join(&[
        definition(1, false, 20, &[(3, 1, 0x02)]),
        data(1, &[0xFF]),
        data(2, &[1, 2, 3]),
    ]));
    let profile = profile();
    let mut decoder = Decoder::new(&file);
    assert_eq!(decoder.decode(&profile), Err(ErrorKind::LocalDefinitionMessageNotFound(2)));
    assert_eq!(decoder.session.errors.len(), 1);
    assert_eq!(decoder.session.errors[0].kind(), "DecodeFieldFailed");
    assert_eq!(decoder.reader.offset, 14 + 9 + 2 + 1);
    assert_eq!(decoder.decode(&profile), Err(ErrorKind::LocalDefinitionMessageNotFound(2)));
    assert_eq!(decoder.session.errors.len(), 1);
}

#[test]
fn chained_fit_file_have_1_message() {
    let second = short_header_file(&join(&[
        definition(1, false, 20, &[(253, 4, 0x86), (3, 1, 0x02)]),
        data(1, &[0xE8, 3, 0, 0, 120]),
    ]));
    let chained = join(&[fit_file_short(), second]);
    let mut decoder = Decoder::new(&chained);
    let result = decoder.decode(&profile());
    assert!(result.is_ok());
    let (_, messages) = result.unwrap();
    assert_eq!(messages.get("file_id").map(|it| it.len()), Some(1))
}

#[test]
fn a_later_copy_may_record_another_error_in_place_of_one() {
    let file = fit_file(&join(&[
        developer_definition(2, 20, &[(3, 1, 0x02)], &[(5, 1, 0)]),
        data(2, &[120, 7]),
        definition(0, false, 207, &[(3, 1, 0x02), (2, 2, 0x84), (4, 4, 0x86)]),
        data(0, &[0, 1, 0, 110, 0, 0, 0]),
    ]));
    let (errors, messages) = decode(&file).unwrap();
    assert_eq!(errors, [ErrorKind::MissingDeveloperDataDef { developer_data_index: 0 }]);
    assert_eq!(records(&messages, "record").len(), 1);
    let (errors, messages) = decode(&join(&[file.clone(), file])).unwrap();
    assert_eq!(
        errors,
        [
            ErrorKind::MissingDeveloperDataDef { developer_data_index: 0 },
            ErrorKind::MissingDeveloperFieldDescription { developer_data_index: 0, field_no: 5 },
        ]
    );
    assert_eq!(records(&messages, "record").len(), 2);
    assert_eq!(records(&messages, "developer_data_id").len(), 2);
}

#[test]
fn the_records_of_a_first_file_come_first() {
    let first = fit_file(&join(&[
        file_id_records(4, 111, 1_000_000_000),
        definition(1, false, 20, &[(253, 4, 0x86), (3, 1, 0x02)]),
        data(1, &[0xE8, 3, 0, 0, 120]),
    ]));
    let second = short_header_file(&join(&[
        file_id_records(1, 222, 1_000_000_001),
        definition(1, false, 20, &[(3, 1, 0x02)]),
        data(1, &[0xFF]),
        data(1, &[121]),
    ]));
    let (errors1, alone1) = decode(&first).unwrap();
    let (errors2, alone2) = decode(&second).unwrap();
    let (errors, both) = decode(&join(&[first, second])).unwrap();
    assert_eq!(errors.len(), errors1.len() + errors2.len());
    assert_eq!(&errors[..errors1.len()], &errors1[..]);
    for name in ["file_id", "record"] {
        let (one, two, all) = (records(&alone1, name), records(&alone2, name), records(&both, name));
        assert_eq!(all.len(), one.len() + two.len());
        assert_eq!(&all[..one.len()], &one[..]);
        assert_eq!(&all[one.len()..], &two[..]);
    }
}

#[test]
fn copies_without_errors_repeat_their_records() {
    let file = fit_file(&join(&[
        file_id_records(4, 111, 1_000_000_000),
        definition(1, false, 20, &[(253, 4, 0x86), (3, 1, 0x02)]),
        data(1, &[0xE8, 3, 0, 0, 120]),
        data(1, &[0xE9, 3, 0, 0, 121]),
    ]));
    let (errors, single) = decode(&file).unwrap();
    assert!(errors.is_empty());
    let (errors, all) = decode(&join(&[file.clone(), file.clone(), file])).unwrap();
    assert!(errors.is_empty());
    assert_eq!(all.len(), single.len());
    for name in ["file_id", "record"] {
        let one = records(&single, name);
        let three = records(&all, name);
        assert_eq!(three.len(), 3 * one.len());
        for (i, record) in three.iter().enumerate() {
            assert_eq!(record, &one[i % one.len()]);
        }
    }
}

#[test]
fn missing_bytes_leave_the_errors_of_the_fields_read() {
    let mut bytes = fit_file(&[]);
    bytes.truncate(14);
    bytes.extend_from_slice(&definition(1, false, 20, &[(3, 1, 0x02), (253, 4, 0x86)]));
    bytes.extend_from_slice(&[0x01, 0xFF, 0xE8]);
    let profile = profile();
    let mut decoder = Decoder::new(&bytes);
    decoder.reader.offset = 14;
    assert_eq!(decoder.decode_next_record(&profile), Ok(None));
    let at = decoder.reader.offset;
    assert_eq!(
        decoder.decode_next_record(&profile),
        Err(ErrorKind::OutOfBoundsRead { offset: at + 2, requested_len: 4, remaining_len: 1 })
    );
    assert_eq!(decoder.reader.offset, at + 2);
    assert_eq!(decoder.session.errors.len(), 1);
    assert_eq!(decoder.session.errors[0].kind(), "DecodeFieldFailed");
    assert_eq!(decoder.session.timestamp_ref, None);
}

#[test]
fn a_wrong_check_value_leaves_the_position_after_it() {
    let mut file = fit_file(&file_id_records(4, 111, 1_000_000_000));
    let last = file.len() - 1;
    file[last] ^= 0x55;
    let profile = profile();
    let mut decoder = Decoder::new(&file);
    assert_eq!(decoder.decode(&profile), Err(ErrorKind::InvalidCRC));
    assert_eq!(decoder.reader.offset, file.len());
    assert!(decoder.session.errors.is_empty());
}
