use fit::fit::BaseType;
use fit::profile::{Component, FitProfile, Message, MessageField, NestedMessageField, Type};
use fit::sheet::{
    parse_array_size, process_messages, process_profile, process_types, Cell, CellKind, Piece,
    SheetError,
};

fn pieces(text: &str) -> Vec<Piece> {
    text.split(',')
        .map(|p| {
            let p = p.trim();
            Piece { text: p.to_string(), number: p.parse::<f64>().ok().map(f64::to_bits) }
        })
        .collect()
}

fn empty() -> Cell {
    Cell { kind: CellKind::Empty, text: String::new(), number: 0, pieces: pieces("") }
}

fn text(s: &str) -> Cell {
    if s.is_empty() {
        return empty();
    }
    Cell { kind: CellKind::Text, text: s.to_string(), number: 0, pieces: pieces(s) }
}

fn float(v: f64) -> Cell {
    let shown = v.to_string();
    Cell { kind: CellKind::Float, number: v.to_bits(), pieces: pieces(&shown), text: shown }
}

fn row(cells: &[Cell]) -> Vec<Cell> {
    let mut row = cells.to_vec();
    while row.len() < 14 {
        row.push(empty());
    }
    row
}

fn header() -> Vec<Cell> {
    row(&[text("Name"), text("Number"), text("Field"), text("Type")])
}

fn types_sheet() -> Vec<Vec<Cell>> {
    vec![
        header(),
        row(&[text("file"), text("enum")]),
        row(&[empty(), empty(), text("device"), float(1.0), text("Read only")]),
        row(&[empty(), empty(), text("activity"), float(4.0)]),
        row(&[text("mesg_num"), text("uint16")]),
        row(&[empty(), empty(), text("file_id"), float(0.0)]),
        row(&[empty(), empty(), text("mfg_range_min"), text("0xFF00")]),
        row(&[text("message_index"), text("uint16")]),
    ]
}

fn field_row(cells: &[(usize, Cell)]) -> Vec<Cell> {
    let mut out = row(&[]);
    for (at, cell) in cells {
        out[*at] = cell.clone();
    }
    out
}

fn messages_sheet() -> Vec<Vec<Cell>> {
    vec![
        header(),
        field_row(&[(0, text("record")), (13, text("a record"))]),
        field_row(&[(3, text("COMMON"))]),
        field_row(&[
            (1, float(2.0)),
            (2, text("altitude")),
            (3, text("uint16")),
            (5, text("enhanced_altitude")),
            (6, float(5.0)),
            (7, float(500.0)),
            (8, text("m")),
            (9, float(16.0)),
        ]),
        field_row(&[
            (1, float(8.0)),
            (2, text("compressed_speed_distance")),
            (3, text("byte")),
            (4, text("[3]")),
            (5, text("speed, distance")),
            (6, text("100,\n16")),
            (8, text("m/s,\nm")),
            (9, text("12,12")),
            (10, text("0,1")),
        ]),
        field_row(&[
            (1, float(5.0)),
            (2, text("distance")),
            (3, text("uint32")),
            (6, float(100.0)),
            (8, text("m")),
        ]),
        field_row(&[(1, float(6.0)), (2, text("speed")), (3, text("uint16")), (6, float(1000.0))]),
        field_row(&[
            (1, float(78.0)),
            (2, text("enhanced_altitude")),
            (3, text("uint32")),
            (6, float(5.0)),
            (7, float(500.0)),
        ]),
        field_row(&[
            (1, float(69.0)),
            (2, text("left_power_phase")),
            (3, text("uint8")),
            (4, text("[N]")),
            (6, float(0.7111111)),
            (8, text("degrees")),
        ]),
        field_row(&[(0, text("event"))]),
        field_row(&[(1, float(0.0)), (2, text("event")), (3, text("event"))]),
        field_row(&[(1, float(3.0)), (2, text("data")), (3, text("uint32"))]),
        field_row(&[
            (2, text("gear_change_data")),
            (3, text("uint32")),
            (5, text("rear_gear_num,rear_gear")),
            (9, text("8,8")),
            (11, text("event,event")),
            (12, text("front_gear_change,rear_gear_change")),
        ]),
        field_row(&[
            (2, text("rider_position")),
            (3, text("rider_position_type")),
            (11, text("event")),
            (12, text("rider_position_change")),
        ]),
        field_row(&[(1, float(11.0)), (2, text("rear_gear_num")), (3, text("uint8z"))]),
        field_row(&[(1, float(12.0)), (2, text("rear_gear")), (3, text("uint8z"))]),
    ]
}

#[test]
fn array_sizes() {
    assert_eq!(parse_array_size("[N]"), Some(0));
    assert_eq!(parse_array_size("[3]"), Some(3));
    assert_eq!(parse_array_size(" [12] "), Some(12));
    assert_eq!(parse_array_size("[[4]]"), Some(4));
    assert_eq!(parse_array_size("[+4]"), Some(4));
    assert_eq!(parse_array_size("[]"), None);
    assert_eq!(parse_array_size("["), None);
    assert_eq!(parse_array_size("]"), None);
    assert_eq!(parse_array_size("3"), None);
    assert_eq!(parse_array_size("[n]"), None);
    assert_eq!(parse_array_size("[ 3]"), None);
    assert_eq!(parse_array_size("[-1]"), None);
    assert_eq!(parse_array_size("[3"), None);
    assert_eq!(parse_array_size(""), None);
    assert_eq!(parse_array_size("   "), None);
    assert_eq!(parse_array_size("[99999999999999999999999]"), None);
}

#[test]
fn types_of_a_sheet() {
    let types = process_types(&types_sheet()).unwrap();
    assert_eq!(types.len(), 3);
    assert_eq!(types[0].name, "file");
    assert_eq!(types[0].base_type, BaseType::Enum);
    let values: Vec<(&str, u64)> =
        types[0].values.iter().map(|v| (v.name.as_str(), v.value)).collect();
    assert_eq!(values, [("device", 1), ("activity", 4)]);
    assert_eq!(types[1].name, "mesg_num");
    assert_eq!(types[1].base_type, BaseType::UInt16);
    assert_eq!(types[1].values[1].name, "mfg_range_min");
    assert_eq!(types[1].values[1].value, 0xFF00);
    assert_eq!(types[2].name, "message_index");
    assert!(types[2].values.is_empty());
    assert!(process_types(&vec![]).unwrap().is_empty());
    assert!(process_types(&vec![row(&[text("junk"), text("junk")])]).unwrap().is_empty());
}

fn types_error(rows: Vec<Vec<Cell>>) -> SheetError {
    let mut sheet = vec![header()];
    sheet.extend(rows);
    process_types(&sheet).map(|it| it.len()).unwrap_err()
}

#[test]
fn faults_of_a_sheet_of_types() {
    assert_eq!(
        types_error(vec![row(&[text("file"), text("enumeration")])]),
        SheetError::UnknownBaseType { row: 1 }
    );
    assert_eq!(
        types_error(vec![row(&[empty(), empty(), text("device"), float(1.0)])]),
        SheetError::RowWithoutType { row: 1 }
    );
    assert_eq!(
        types_error(vec![
            row(&[text("file"), text("enum")]),
            row(&[empty(), empty(), empty(), float(1.0)])
        ]),
        SheetError::ValueNameMissing { row: 2 }
    );
    assert_eq!(
        types_error(vec![
            row(&[text("file"), text("enum")]),
            row(&[empty(), empty(), text("device"), float(1.5)])
        ]),
        SheetError::BadValue { row: 2 }
    );
    assert_eq!(
        types_error(vec![row(&[text("file"), text("enum")]), vec![]]),
        SheetError::ValueNameMissing { row: 2 }
    );
}

fn component(
    bits: u8,
    name: &str,
    ty: &str,
    array: Option<usize>,
    scale: f64,
    offset: f64,
    units: &str,
    accumulate: bool,
) -> Component {
    Component {
        bits,
        field_name: name.to_string(),
        field_type: ty.to_string(),
        array,
        scale: scale.to_bits(),
        offset: offset.to_bits(),
        units: units.to_string(),
        accumulate,
    }
}

fn same_component(a: &Component, b: &Component) -> bool {
    a.bits == b.bits
        && a.field_name == b.field_name
        && a.field_type == b.field_type
        && a.array == b.array
        && a.scale == b.scale
        && a.offset == b.offset
        && a.units == b.units
        && a.accumulate == b.accumulate
}

fn field<'a>(message: &'a Message, name: &str) -> &'a MessageField {
    message.fields.iter().find(|f| f.field_name == name).unwrap()
}

#[test]
fn messages_of_a_sheet() {
    let messages = process_messages(&messages_sheet()).unwrap();
    assert_eq!(messages.len(), 2);
    let record = &messages[0];
    assert_eq!(record.name, "record");
    let names: Vec<&str> = record.fields.iter().map(|f| f.field_name.as_str()).collect();
    assert_eq!(
        names,
        [
            "altitude",
            "compressed_speed_distance",
            "distance",
            "speed",
            "enhanced_altitude",
            "left_power_phase"
        ]
    );
    let altitude = field(record, "altitude");
    assert_eq!(altitude.field_no, 2);
    assert_eq!(altitude.field_type, "uint16");
    assert_eq!(altitude.array, None);
    assert_eq!(altitude.scale, 5.0f64.to_bits());
    assert_eq!(altitude.offset, 500.0f64.to_bits());
    assert_eq!(altitude.units, "m");
    assert!(!altitude.accumulate);
    assert_eq!(altitude.components.len(), 1);
    assert!(same_component(
        &altitude.components[0],
        &component(16, "enhanced_altitude", "uint32", None, 5.0, 500.0, "m", false)
    ));
    let packed = field(record, "compressed_speed_distance");
    assert_eq!(packed.array, Some(3));
    assert_eq!(packed.scale, 1.0f64.to_bits());
    assert_eq!(packed.components.len(), 2);
    assert!(same_component(
        &packed.components[0],
        &component(12, "speed", "uint16", None, 100.0, 0.0, "m/s", false)
    ));
    assert!(same_component(
        &packed.components[1],
        &component(12, "distance", "uint32", None, 16.0, 0.0, "m", true)
    ));
    assert!(field(record, "distance").accumulate);
    assert!(!field(record, "speed").accumulate);
    let phase = field(record, "left_power_phase");
    assert_eq!(phase.array, Some(0));
    assert_eq!(phase.scale, 0.7111111f64.to_bits());
    assert_eq!(phase.field_no, 69);

    let event = &messages[1];
    assert_eq!(event.fields.len(), 4);
    let data = field(event, "data");
    let subs: Vec<(&str, &str, &str, &str)> = data
        .sub_fields
        .iter()
        .map(|s: &NestedMessageField| {
            (
                s.field_name.as_str(),
                s.field_type.as_str(),
                s.ref_field_name.as_str(),
                s.ref_field_value.as_str(),
            )
        })
        .collect();
    assert_eq!(
        subs,
        [
            ("gear_change_data", "uint32", "event", "front_gear_change"),
            ("gear_change_data", "uint32", "event", "rear_gear_change"),
            ("rider_position", "rider_position_type", "event", "rider_position_change"),
        ]
    );
    for sub in &data.sub_fields[..2] {
        assert_eq!(sub.components.len(), 2);
        assert!(same_component(
            &sub.components[0],
            &component(8, "rear_gear_num", "uint8z", None, 1.0, 0.0, "", false)
        ));
        assert!(same_component(
            &sub.components[1],
            &component(8, "rear_gear", "uint8z", None, 1.0, 0.0, "", false)
        ));
    }
    assert!(data.sub_fields[2].components.is_empty());
    assert!(data.components.is_empty());
}

fn messages_error(rows: Vec<Vec<Cell>>) -> SheetError {
    let mut sheet = vec![header()];
    sheet.extend(rows);
    process_messages(&sheet).map(|it| it.len()).unwrap_err()
}

#[test]
fn faults_of_a_sheet_of_messages() {
    let a_field = field_row(&[(1, float(0.0)), (2, text("event")), (3, text("event"))]);
    assert_eq!(messages_error(vec![a_field.clone()]), SheetError::RowWithoutMessage { row: 1 });
    assert_eq!(
        messages_error(vec![
            field_row(&[(0, text("event"))]),
            field_row(&[(1, float(256.0)), (2, text("event"))])
        ]),
        SheetError::BadFieldNumber { row: 2 }
    );
    assert_eq!(
        messages_error(vec![
            field_row(&[(0, text("event"))]),
            field_row(&[(1, text("one")), (2, text("event"))])
        ]),
        SheetError::BadFieldNumber { row: 2 }
    );
    assert_eq!(
        messages_error(vec![
            field_row(&[(0, text("event"))]),
            field_row(&[(2, text("sub")), (11, text("event")), (12, text("timer"))])
        ]),
        SheetError::SubFieldWithoutField { row: 2 }
    );
    assert_eq!(
        messages_error(vec![
            field_row(&[(0, text("event"))]),
            a_field.clone(),
            field_row(&[(2, text("sub")), (12, text("timer"))])
        ]),
        SheetError::MissingReference { row: 3 }
    );
    assert_eq!(
        messages_error(vec![
            field_row(&[(0, text("event"))]),
            a_field.clone(),
            field_row(&[(2, text("sub")), (11, text("event")), (12, float(1.0))])
        ]),
        SheetError::MissingReference { row: 3 }
    );
    assert_eq!(
        messages_error(vec![
            field_row(&[(0, text("event"))]),
            field_row(&[(1, float(2.0)), (2, text("data16")), (5, text("data")), (9, text("x"))])
        ]),
        SheetError::BadBits { row: 2 }
    );
    assert_eq!(
        messages_error(vec![
            field_row(&[(0, text("event"))]),
            field_row(&[(1, float(2.0)), (2, text("data16")), (5, text("a,b")), (9, float(16.0))])
        ]),
        SheetError::BadBits { row: 2 }
    );
    assert_eq!(
        messages_error(vec![
            field_row(&[(0, text("first"))]),
            a_field.clone(),
            field_row(&[(0, text("event"))]),
            field_row(&[(1, float(2.0)), (2, text("data16")), (5, text("data")), (9, float(16.0))])
        ]),
        SheetError::UnknownComponent { message: 1 }
    );
}

#[test]
fn a_component_links_to_the_last_field_of_its_name() {
    let messages = process_messages(&vec![
        header(),
        field_row(&[(0, text("m"))]),
        field_row(&[(1, float(1.0)), (2, text("x")), (3, text("uint8"))]),
        field_row(&[
            (1, float(2.0)),
            (2, text("y")),
            (3, text("uint16")),
            (5, text("x")),
            (9, float(8.0)),
            (10, float(1.0)),
        ]),
        field_row(&[(1, float(3.0)), (2, text("x")), (3, text("uint32")), (4, text("[2]"))]),
    ])
    .unwrap();
    let y = field(&messages[0], "y");
    assert!(same_component(
        &y.components[0],
        &component(8, "x", "uint32", Some(2), 1.0, 0.0, "", true)
    ));
    assert!(messages[0].fields[0].accumulate);
    assert!(messages[0].fields[2].accumulate);
    assert!(!y.accumulate);
}

#[test]
fn a_profile_of_two_sheets() {
    let profile: FitProfile = process_profile(&types_sheet(), &messages_sheet()).unwrap();
    assert_eq!(profile.types.len(), 3);
    assert_eq!(profile.messages.len(), 2);
    let types: Vec<&Type> = profile.types.iter().collect();
    assert_eq!(types[1].values[0].name, "file_id");
    assert_eq!(profile.find_message("event"), Some(1));
    assert_eq!(profile.find_type("mesg_num"), Some(1));
    assert_eq!(profile.resolve(0).map_err(|e| e.kind()), Err("UnknownMessage"));
    assert_eq!(
        process_profile(&vec![header(), row(&[text("a"), text("b")])], &messages_sheet())
            .map(|p| p.types.len()),
        Err(SheetError::UnknownBaseType { row: 1 })
    );
    assert_eq!(
        process_profile(&types_sheet(), &vec![header(), row(&[empty(), float(1.0), text("x")])])
            .map(|p| p.types.len()),
        Err(SheetError::RowWithoutMessage { row: 1 })
    );
}
