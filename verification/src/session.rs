//! The state of a decoding and the decoding of one data message: the
//! projection of its fields, its developer fields, its compressed
//! timestamp, and the registration of developer data.
use vstd::prelude::*;
use vstd::string::StringExecFns;
use std::collections::HashMap;
use crate::accumulator::{AccumulatedField, Accumulator};
use crate::developer::{
    definition_models, definitions_describe, definitions_find, definitions_insert, describe_field,
    DescriptionModel, descriptions_find, developer_data_models, developer_data_put, DeveloperData,
    DeveloperDataModel, DeveloperFieldDescription, DeveloperValuesModel, find_definition,
    find_description, FitDeveloperDataDefinition, insert_definition, optional_model,
    put_developer_data,
};
use crate::error::{error_models, errors_kept, ErrorKind, ErrorModel};
use crate::expansion::{decode_field, DecodeArgsModel, Expansion, field_decoded, MessageDecodeArgs};
use crate::fit::{Value, ValueModel};
use crate::framing::lemma_error_models_push;
use crate::message::{
    DataField, DataFieldModel, DataMessageModel, DefinitionModel, developer_field_models,
    DeveloperField, DeveloperFieldModel, FitDataMessage, FitDefinitionMessage,
};
use crate::profile::{FitProfile, Message};
use crate::projection::{name_values, named_all};
use crate::record::{Field, FieldModel, is_named, Record, record_find, record_insert, record_value};
use crate::search::{lemma_first_from, lemma_first_update};
use crate::text::str_eq;
use crate::time::{date_time_of, unix_seconds};

verus! {

broadcast use vstd::std_specs::hash::group_hash_axioms;

/// The mathematical model of the state of a decoding.
pub struct SessionModel {
    /// The definition message of each local message number for which one
    /// came.
    pub definitions: Map<u8, DefinitionModel>,
    pub developer_definitions: Map<u8, DeveloperDataModel>,
    pub developer_data: Seq<DeveloperValuesModel>,
    pub timestamp_ref: Option<u32>,
    pub counters: Map<u32, AccumulatedField>,
    pub errors: Seq<ErrorModel>,
}

/// The state of a decoding: what the messages read so far have left
/// behind.
pub struct Session {
    pub definitions: HashMap<u8, FitDefinitionMessage>,
    pub developer_definitions: HashMap<u8, FitDeveloperDataDefinition>,
    pub developer_data: Vec<DeveloperData>,
    pub timestamp_ref: Option<u32>,
    pub accumulator: Accumulator,
    pub errors: Vec<ErrorKind>,
}

/// The models of the table of definition messages: under each local
/// message number the model of its definition.
pub open spec fn table_models(t: Map<u8, FitDefinitionMessage>) -> Map<u8, DefinitionModel> {
    Map::new(|local: u8| t.contains_key(local), |local: u8| t[local]@)
}

impl View for Session {
    type V = SessionModel;

    open spec fn view(&self) -> SessionModel {
        SessionModel {
            definitions: table_models(self.definitions@),
            developer_definitions: definition_models(self.developer_definitions@),
            developer_data: developer_data_models(self.developer_data@),
            timestamp_ref: self.timestamp_ref,
            counters: self.accumulator@,
            errors: error_models(self.errors@),
        }
    }
}

/// The state at the start of a decoding: no local message number has a
/// definition, and there is nothing else.
pub open spec fn fresh_session() -> SessionModel {
    SessionModel {
        definitions: Map::empty(),
        developer_definitions: Map::empty(),
        developer_data: Seq::empty(),
        timestamp_ref: None,
        counters: Map::empty(),
        errors: Seq::empty(),
    }
}

/// What the projection of the fields of a message works on.
pub struct Projection {
    pub record: Seq<FieldModel>,
    pub counters: Map<u32, AccumulatedField>,
    pub errors: Seq<ErrorModel>,
    pub timestamp_ref: Option<u32>,
}

/// The arguments of the decoding of the `k`-th field of a message.
pub open spec fn args_of(exempt: bool, msg: DataMessageModel, k: int) -> DecodeArgsModel {
    DecodeArgsModel {
        exempt,
        msg_no: msg.global_message_number,
        field_no: msg.fields[k].field_definition_number,
        value: msg.fields[k].value,
        fields: msg.fields,
    }
}

/// The projection of the `k`-th field of a message. A fault of the
/// decoding is recorded with the name of the message and the number of the
/// field. The field with the number 253 is the timestamp: its value, where
/// it is an unsigned integer, becomes the reference for compressed
/// timestamps.
pub open spec fn projection_step(
    p: FitProfile,
    m: Message,
    name: Seq<char>,
    exempt: bool,
    msg: DataMessageModel,
    k: int,
    s: Projection,
) -> Projection {
    let e = field_decoded(
        p,
        m,
        args_of(exempt, msg, k),
        Expansion { record: s.record, counters: s.counters, fault: None },
    );
    Projection {
        record: e.record,
        counters: e.counters,
        errors: match e.fault {
            Some(reason) => s.errors.push(
                ErrorModel::DecodeMessageFailed {
                    message: name,
                    reason,
                    field_no: msg.fields[k].field_definition_number,
                },
            ),
            None => s.errors,
        },
        timestamp_ref: if msg.fields[k].field_definition_number == 253
            && msg.fields[k].value.unsigned() is Some {
            Some((msg.fields[k].value.unsigned().unwrap() % 0x1_0000_0000) as u32)
        } else {
            s.timestamp_ref
        },
    }
}

/// The projection of the fields of a message from the `k`-th on.
pub open spec fn projected_from(
    p: FitProfile,
    m: Message,
    name: Seq<char>,
    exempt: bool,
    msg: DataMessageModel,
    k: int,
    s: Projection,
) -> Projection
    decreases msg.fields.len() - k,
{
    if k < 0 || k >= msg.fields.len() {
        s
    } else {
        projected_from(p, m, name, exempt, msg, k + 1, projection_step(p, m, name, exempt, msg, k, s))
    }
}

/// The binary32 bit pattern of a whole number below 256.
pub open spec fn f32_of_byte(b: u8) -> u32 {
    if b >= 128 {
        (134 * 0x80_0000 + (b - 128) * 0x1_0000) as u32
    } else if b >= 64 {
        (133 * 0x80_0000 + (b - 64) * 0x2_0000) as u32
    } else if b >= 32 {
        (132 * 0x80_0000 + (b - 32) * 0x4_0000) as u32
    } else if b >= 16 {
        (131 * 0x80_0000 + (b - 16) * 0x8_0000) as u32
    } else if b >= 8 {
        (130 * 0x80_0000 + (b - 8) * 0x10_0000) as u32
    } else if b >= 4 {
        (129 * 0x80_0000 + (b - 4) * 0x20_0000) as u32
    } else if b >= 2 {
        (128 * 0x80_0000 + (b - 2) * 0x40_0000) as u32
    } else if b >= 1 {
        (127 * 0x80_0000) as u32
    } else {
        0
    }
}

/// The value of a developer field under its description: the byte that the
/// raw value holds, or zero where it is no single byte, as the base type
/// that the description names: `uint8`, `float32`, or else a byte.
pub open spec fn developer_value(d: DescriptionModel, v: ValueModel) -> ValueModel {
    let byte = match v {
        ValueModel::Byte(b) => b,
        _ => 0u8,
    };
    match record_value(d.attributes, "fit_base_type_id"@) {
        Some(ValueModel::String(t)) => if t == "uint8"@ {
            ValueModel::UInt8(byte)
        } else if t == "float32"@ {
            ValueModel::Float32(f32_of_byte(byte))
        } else {
            ValueModel::Byte(byte)
        },
        _ => ValueModel::Byte(byte),
    }
}

/// What the developer fields of a message work on.
pub struct DeveloperState {
    pub data: Seq<DeveloperValuesModel>,
    pub errors: Seq<ErrorModel>,
}

/// One developer field of a message: its value goes under the name of the
/// message, and a missing definition or description is recorded.
pub open spec fn developer_step(
    defs: Map<u8, DeveloperDataModel>,
    name: Seq<char>,
    f: DeveloperFieldModel,
    s: DeveloperState,
) -> DeveloperState {
    match definitions_find(defs, f.developer_data_index) {
        Some(d) => match descriptions_find(defs[d].field_map, f.field_number) {
            Some(k) => DeveloperState {
                data: developer_data_put(
                    s.data,
                    name,
                    DataFieldModel {
                        field_definition_number: f.field_number,
                        value: developer_value(defs[d].field_map[k], f.value),
                    },
                ),
                ..s
            },
            None => DeveloperState {
                errors: s.errors.push(
                    ErrorModel::MissingDeveloperFieldDescription {
                        developer_data_index: f.developer_data_index,
                        field_no: f.field_number,
                    },
                ),
                ..s
            },
        },
        None => DeveloperState {
            errors: s.errors.push(
                ErrorModel::MissingDeveloperDataDef { developer_data_index: f.developer_data_index },
            ),
            ..s
        },
    }
}

/// The developer fields of a message from the `k`-th on.
pub open spec fn developer_from(
    defs: Map<u8, DeveloperDataModel>,
    name: Seq<char>,
    fields: Seq<DeveloperFieldModel>,
    k: int,
    s: DeveloperState,
) -> DeveloperState
    decreases fields.len() - k,
{
    if k < 0 || k >= fields.len() {
        s
    } else {
        developer_from(defs, name, fields, k + 1, developer_step(defs, name, fields[k], s))
    }
}

/// The timestamp that a five-bit offset stands for after `previous`: the
/// next point in time whose low five bits are the offset.
pub open spec fn next_timestamp(previous: u32, offset: u8) -> u32 {
    ((previous - previous % 32 + offset + (if offset >= previous % 32 {
        0int
    } else {
        32int
    })) % 0x1_0000_0000) as u32
}

/// The field that a compressed timestamp gives.
pub open spec fn timestamp_field(timestamp: u32) -> FieldModel {
    FieldModel {
        name: "timestamp"@,
        value: ValueModel::DateTime(unix_seconds(timestamp)),
        units: ""@,
        is_subfield: false,
        scaling: None,
    }
}

/// The compressed timestamp of a message, if its header had one: the
/// reference moves on to the timestamp and the record gets it as the field
/// `timestamp`. Without a reference it is recorded as an error.
pub open spec fn timestamp_applied(time_offset: Option<u8>, s: Projection) -> Projection {
    match time_offset {
        Some(offset) => match s.timestamp_ref {
            Some(previous) => Projection {
                timestamp_ref: Some(next_timestamp(previous, offset)),
                record: record_insert(s.record, timestamp_field(next_timestamp(previous, offset))),
                ..s
            },
            None => Projection { errors: s.errors.push(ErrorModel::MissingTimestampRef), ..s },
        },
        None => s,
    }
}

/// The record with the value of one field under a named type.
pub open spec fn record_named(
    p: FitProfile,
    record: Seq<FieldModel>,
    field: Seq<char>,
    ty: Seq<char>,
) -> Seq<FieldModel> {
    match record_find(record, field) {
        Some(i) => record.update(
            i,
            FieldModel { value: named_all(p, ty, record[i].value), ..record[i] },
        ),
        None => record,
    }
}

/// The byte that a field of a record holds as a `UInt8`.
pub open spec fn record_byte(record: Seq<FieldModel>, name: Seq<char>) -> Option<u8> {
    match record_value(record, name) {
        Some(ValueModel::UInt8(b)) => Some(b),
        _ => None,
    }
}

/// The definition that the record of a message registers for a developer
/// data index: the identifiers and the version that the record holds, and
/// no descriptions yet.
pub open spec fn definition_of(record: Seq<FieldModel>, index: u8) -> DeveloperDataModel {
    DeveloperDataModel {
        developer_id: record_value(record, "developer_id"@),
        application_id: record_value(record, "application_id"@),
        manufacturer_id: record_value(record, "manufacturer_id"@),
        developer_data_index: index,
        application_version: match record_value(record, "application_version"@) {
            Some(ValueModel::UInt32(v)) => Some(v),
            _ => None,
        },
        field_map: Map::empty(),
    }
}

/// The record of a message that registers a developer data index, and the
/// definitions with the one that it registers. The record must hold the
/// index.
pub open spec fn definition_registered(
    p: FitProfile,
    record: Seq<FieldModel>,
    defs: Map<u8, DeveloperDataModel>,
) -> Result<(Seq<FieldModel>, Map<u8, DeveloperDataModel>), ErrorModel> {
    let r = record_named(p, record, "manufacturer_id"@, "manufacturer"@);
    match record_byte(r, "developer_data_index"@) {
        Some(index) => Ok((r, definitions_insert(defs, definition_of(r, index)))),
        None => Err(ErrorModel::InvalidDeveloperField { name: "developer_data_index"@ }),
    }
}

/// The record of a field description with its three numbers under their
/// named types.
pub open spec fn description_named(p: FitProfile, record: Seq<FieldModel>) -> Seq<FieldModel> {
    record_named(
        p,
        record_named(
            p,
            record_named(p, record, "fit_base_type_id"@, "fit_base_type"@),
            "fit_base_unit_id"@,
            "fit_base_unit"@,
        ),
        "native_mesg_num"@,
        "mesg_num"@,
    )
}

/// The first of the four fields that a field description must have and
/// that a record lacks.
pub open spec fn missing_description_field(record: Seq<FieldModel>) -> Option<Seq<char>> {
    if record_find(record, "developer_data_index"@) is None {
        Some("developer_data_index"@)
    } else if record_find(record, "field_definition_number"@) is None {
        Some("field_definition_number"@)
    } else if record_find(record, "fit_base_type_id"@) is None {
        Some("fit_base_type_id"@)
    } else if record_find(record, "field_name"@) is None {
        Some("field_name"@)
    } else {
        None
    }
}

/// The record of a message that describes a developer field, and the
/// definitions with the description. The record must hold the four fields
/// that a description needs, the index and the field number as `UInt8`.
pub open spec fn description_registered(
    p: FitProfile,
    record: Seq<FieldModel>,
    defs: Map<u8, DeveloperDataModel>,
) -> Result<(Seq<FieldModel>, Map<u8, DeveloperDataModel>), ErrorModel> {
    match missing_description_field(record) {
        Some(name) => Err(ErrorModel::InvalidDeveloperField { name }),
        None => {
            let r = description_named(p, record);
            match record_byte(r, "developer_data_index"@) {
                Some(index) => match record_byte(r, "field_definition_number"@) {
                    Some(number) => Ok(
                        (
                            r,
                            definitions_describe(
                                defs,
                                index,
                                DescriptionModel { field_definition_number: number, attributes: r },
                            ),
                        ),
                    ),
                    None => Err(
                        ErrorModel::InvalidDeveloperField { name: "field_definition_number"@ },
                    ),
                },
                None => Err(ErrorModel::InvalidDeveloperField { name: "developer_data_index"@ }),
            }
        },
    }
}

#[verifier::opaque]
/// The decoding of a data message: the state after it, the name of the
/// message, and its record.
///
/// The message must be known to the profile. Its fields are projected in
/// order, then its developer fields are stored, then its compressed
/// timestamp is applied. The two messages that describe developer data
/// register what they describe.
pub open spec fn message_decoded(p: FitProfile, s: SessionModel, msg: DataMessageModel) -> Result<
    (SessionModel, Seq<char>, Seq<FieldModel>),
    ErrorModel,
> {
    match p.spec_resolve(msg.global_message_number) {
        Err(e) => Err(e),
        Ok(m) => {
            let name = p.messages@[m].name@;
            let exempt = name == "developer_data_id"@ || name == "field_description"@;
            let fields = projected_from(
                p,
                p.messages@[m],
                name,
                exempt,
                msg,
                0,
                Projection {
                    record: Seq::empty(),
                    counters: s.counters,
                    errors: s.errors,
                    timestamp_ref: s.timestamp_ref,
                },
            );
            let developer = developer_from(
                s.developer_definitions,
                name,
                msg.developer_fields,
                0,
                DeveloperState { data: s.developer_data, errors: fields.errors },
            );
            let timed = timestamp_applied(
                msg.time_offset,
                Projection { errors: developer.errors, ..fields },
            );
            let registered = if name == "developer_data_id"@ {
                definition_registered(p, timed.record, s.developer_definitions)
            } else if name == "field_description"@ {
                description_registered(p, timed.record, s.developer_definitions)
            } else {
                Ok((timed.record, s.developer_definitions))
            };
            match registered {
                Err(e) => Err(e),
                Ok((record, developer_definitions)) => Ok(
                    (
                        SessionModel {
                            definitions: s.definitions,
                            developer_definitions,
                            developer_data: developer.data,
                            timestamp_ref: timed.timestamp_ref,
                            counters: timed.counters,
                            errors: timed.errors,
                        },
                        name,
                        record,
                    ),
                ),
            }
        },
    }
}

/// The state that a data message leaves where its decoding fails. A
/// message that the profile does not know leaves the state as it was. A
/// message whose registration of developer data fails leaves what its
/// fields, its developer fields and its timestamp made of the state, and
/// the definitions of developer data as they were.
pub open spec fn message_failed(p: FitProfile, s: SessionModel, msg: DataMessageModel) -> SessionModel {
    match p.spec_resolve(msg.global_message_number) {
        Err(_) => s,
        Ok(m) => {
            let name = p.messages@[m].name@;
            let exempt = name == "developer_data_id"@ || name == "field_description"@;
            let fields = projected_from(
                p,
                p.messages@[m],
                name,
                exempt,
                msg,
                0,
                Projection {
                    record: Seq::empty(),
                    counters: s.counters,
                    errors: s.errors,
                    timestamp_ref: s.timestamp_ref,
                },
            );
            let developer = developer_from(
                s.developer_definitions,
                name,
                msg.developer_fields,
                0,
                DeveloperState { data: s.developer_data, errors: fields.errors },
            );
            let timed = timestamp_applied(
                msg.time_offset,
                Projection { errors: developer.errors, ..fields },
            );
            SessionModel {
                definitions: s.definitions,
                developer_definitions: s.developer_definitions,
                developer_data: developer.data,
                timestamp_ref: timed.timestamp_ref,
                counters: timed.counters,
                errors: timed.errors,
            }
        },
    }
}

impl Session {
    /// The state at the start of a decoding.
    pub fn new() -> (r: Session)
        ensures
            r@ == fresh_session(),
    {
        let r = Session {
            definitions: HashMap::new(),
            developer_definitions: HashMap::new(),
            developer_data: Vec::new(),
            timestamp_ref: None,
            accumulator: Accumulator::new(),
            errors: Vec::new(),
        };
        proof {
            assert(r@.definitions =~= fresh_session().definitions);
            assert(r@.developer_definitions =~= fresh_session().developer_definitions);
            assert(r@.developer_data =~= fresh_session().developer_data);
            assert(r@.errors =~= fresh_session().errors);
        }
        r
    }
}

/// The binary32 bit pattern of a whole number below 256.
pub fn byte_as_f32(b: u8) -> (r: u32)
    ensures
        r == f32_of_byte(b),
{
    let b = b as u32;
    if b >= 128 {
        134 * 0x80_0000 + (b - 128) * 0x1_0000
    } else if b >= 64 {
        133 * 0x80_0000 + (b - 64) * 0x2_0000
    } else if b >= 32 {
        132 * 0x80_0000 + (b - 32) * 0x4_0000
    } else if b >= 16 {
        131 * 0x80_0000 + (b - 16) * 0x8_0000
    } else if b >= 8 {
        130 * 0x80_0000 + (b - 8) * 0x10_0000
    } else if b >= 4 {
        129 * 0x80_0000 + (b - 4) * 0x20_0000
    } else if b >= 2 {
        128 * 0x80_0000 + (b - 2) * 0x40_0000
    } else if b >= 1 {
        127 * 0x80_0000
    } else {
        0
    }
}

/// The value of a developer field under its description.
pub fn developer_field_value(description: &DeveloperFieldDescription, value: &Value) -> (r: Value)
    ensures
        r@ == developer_value(description@, value@),
{
    let byte = match value {
        Value::Byte(b) => *b,
        _ => 0u8,
    };
    match description.attributes.value("fit_base_type_id") {
        Some(Value::String(t)) => {
            if str_eq(t.as_str(), "uint8") {
                Value::UInt8(byte)
            } else if str_eq(t.as_str(), "float32") {
                Value::Float32(byte_as_f32(byte))
            } else {
                Value::Byte(byte)
            }
        },
        _ => Value::Byte(byte),
    }
}

/// What the projection of the fields of a message works on.
pub open spec fn projection_of(
    record: &Record,
    accumulator: &Accumulator,
    errors: &Vec<ErrorKind>,
    timestamp_ref: Option<u32>,
) -> Projection {
    Projection {
        record: record@,
        counters: accumulator@,
        errors: error_models(errors@),
        timestamp_ref,
    }
}

/// Projects the fields of a message into a record, in order.
pub fn project_fields(
    profile: &FitProfile,
    message: &Message,
    exempt: bool,
    msg: &FitDataMessage,
    record: &mut Record,
    accumulator: &mut Accumulator,
    errors: &mut Vec<ErrorKind>,
    timestamp_ref: &mut Option<u32>,
)
    ensures
        projection_of(final(record), final(accumulator), final(errors), *final(timestamp_ref))
            == projected_from(
            *profile,
            *message,
            message.name@,
            exempt,
            msg@,
            0,
            projection_of(old(record), old(accumulator), old(errors), *old(timestamp_ref)),
        ),
{
    let ghost goal = projected_from(
        *profile,
        *message,
        message.name@,
        exempt,
        msg@,
        0,
        projection_of(record, accumulator, errors, *timestamp_ref),
    );
    let mut k: usize = 0;
    while k < msg.fields.len()
        invariant
            k <= msg.fields.len(),
            goal == projected_from(
                *profile,
                *message,
                message.name@,
                exempt,
                msg@,
                k as int,
                projection_of(record, accumulator, errors, *timestamp_ref),
            ),
        decreases msg.fields.len() - k,
    {
        let field = &msg.fields[k];
        let args = MessageDecodeArgs {
            exempt,
            msg_no: msg.global_message_number,
            field_no: field.field_definition_number,
            value: &field.value,
            fields: &msg.fields,
        };
        proof {
            assert(msg@.fields[k as int] == msg.fields[k as int]@);
            assert(args@ == args_of(exempt, msg@, k as int));
        }
        let ghost before = errors@;
        match decode_field(profile, message, &args, record, accumulator) {
            Ok(()) => {},
            Err(reason) => {
                let e = ErrorKind::DecodeMessageFailed {
                    message: message.name.clone(),
                    reason,
                    field_no: field.field_definition_number,
                };
                errors.push(e);
                proof {
                    lemma_error_models_push(before, e);
                }
            },
        }
        if field.field_definition_number == 253 {
            match field.value.unsigned() {
                Some(n) => {
                    *timestamp_ref = Some((n % 0x1_0000_0000) as u32);
                },
                None => {},
            }
        }
        k += 1;
    }
}

/// What the developer fields of a message work on.
pub open spec fn developer_state(data: &Vec<DeveloperData>, errors: &Vec<ErrorKind>) -> DeveloperState {
    DeveloperState { data: developer_data_models(data@), errors: error_models(errors@) }
}

/// Stores the developer fields of a message, in order, under its name.
pub fn store_developer_fields(
    defs: &HashMap<u8, FitDeveloperDataDefinition>,
    name: &String,
    fields: &Vec<DeveloperField>,
    data: &mut Vec<DeveloperData>,
    errors: &mut Vec<ErrorKind>,
)
    ensures
        developer_state(final(data), final(errors)) == developer_from(
            definition_models(defs@),
            name@,
            developer_field_models(fields@),
            0,
            developer_state(old(data), old(errors)),
        ),
{
    let ghost goal = developer_from(
        definition_models(defs@),
        name@,
        developer_field_models(fields@),
        0,
        developer_state(data, errors),
    );
    let mut k: usize = 0;
    while k < fields.len()
        invariant
            k <= fields.len(),
            goal == developer_from(
                definition_models(defs@),
                name@,
                developer_field_models(fields@),
                k as int,
                developer_state(data, errors),
            ),
        decreases fields.len() - k,
    {
        let f = &fields[k];
        let ghost before = errors@;
        proof {
            assert(developer_field_models(fields@)[k as int] == f@);
        }
        match find_definition(defs, f.developer_data_index) {
            Some(d) => {
                match find_description(&d.field_map, f.field_number) {
                    Some(description) => {
                        let value = developer_field_value(description, &f.value);
                        put_developer_data(
                            data,
                            name,
                            DataField { field_definition_number: f.field_number, value },
                        );
                    },
                    None => {
                        let e = ErrorKind::MissingDeveloperFieldDescription {
                            developer_data_index: f.developer_data_index,
                            field_no: f.field_number,
                        };
                        errors.push(e);
                        proof {
                            lemma_error_models_push(before, e);
                        }
                    },
                }
            },
            None => {
                let e = ErrorKind::MissingDeveloperDataDef {
                    developer_data_index: f.developer_data_index,
                };
                errors.push(e);
                proof {
                    lemma_error_models_push(before, e);
                }
            },
        }
        k += 1;
    }
}

/// Moves the timestamp reference on by a five-bit offset and returns the
/// new timestamp; fails where there is no reference.
pub fn update_time_offset(timestamp_ref: &mut Option<u32>, offset: u8) -> (r: Result<u32, ErrorKind>)
    ensures
        match *old(timestamp_ref) {
            Some(previous) => r == Ok::<u32, ErrorKind>(next_timestamp(previous, offset))
                && *final(timestamp_ref) == Some(next_timestamp(previous, offset)),
            None => r matches Err(e) && e@ == ErrorModel::MissingTimestampRef
                && *final(timestamp_ref) == None::<u32>,
        },
{
    let previous = match *timestamp_ref {
        Some(previous) => previous,
        None => {
            return Err(ErrorKind::MissingTimestampRef);
        },
    };
    let low = previous % 32;
    let base = (previous - low) as u64 + offset as u64;
    let sum = if offset as u32 >= low {
        base
    } else {
        base + 32
    };
    let next = (sum % 0x1_0000_0000) as u32;
    *timestamp_ref = Some(next);
    Ok(next)
}

/// Applies the compressed timestamp of a message, if its header had one.
pub fn apply_timestamp(
    time_offset: Option<u8>,
    record: &mut Record,
    errors: &mut Vec<ErrorKind>,
    timestamp_ref: &mut Option<u32>,
)
    ensures
        timestamp_applied(
            time_offset,
            Projection {
                record: old(record)@,
                counters: Map::empty(),
                errors: error_models(old(errors)@),
                timestamp_ref: *old(timestamp_ref),
            },
        ) == (Projection {
            record: final(record)@,
            counters: Map::empty(),
            errors: error_models(final(errors)@),
            timestamp_ref: *final(timestamp_ref),
        }),
{
    let offset = match time_offset {
        Some(offset) => offset,
        None => {
            return ;
        },
    };
    let ghost before = errors@;
    match update_time_offset(timestamp_ref, offset) {
        Ok(timestamp) => match date_time_of(timestamp) {
            Some(seconds) => {
                let field = Field {
                    name: String::from_str("timestamp"),
                    value: Value::DateTime(seconds),
                    units: String::from_str(""),
                    is_subfield: false,
                    scaling: None,
                };
                assert(field@ == timestamp_field(timestamp));
                record.insert(field);
            },
            None => {
                errors.push(ErrorKind::InvalidTimestamp { timestamp });
            },
        },
        Err(e) => {
            errors.push(e);
            proof {
                lemma_error_models_push(before, e);
            }
        },
    }
}

/// Puts the value of one field of a record under a named type.
pub fn rename_values(profile: &FitProfile, record: &mut Record, field: &str, ty: &str)
    ensures
        final(record)@ == record_named(*profile, old(record)@, field@, ty@),
{
    match record.find(field) {
        Some(i) => {
            let ghost before = record@;
            assert(before[i as int] == record.fields[i as int]@);
            let value = name_values(profile, ty, &record.fields[i].value);
            record.fields[i].value = value;
            assert(record@ =~= before.update(
                i as int,
                FieldModel { value: named_all(*profile, ty@, before[i as int].value), ..before[i as int] },
            ));
        },
        None => {},
    }
}

/// The byte that a field of a record holds as a `UInt8`.
pub fn byte_field(record: &Record, name: &str) -> (r: Option<u8>)
    ensures
        r == record_byte(record@, name@),
{
    match record.value(name) {
        Some(Value::UInt8(b)) => Some(*b),
        _ => None,
    }
}

/// A copy of the value of a field of a record.
pub fn value_copy(record: &Record, name: &str) -> (r: Option<Value>)
    ensures
        optional_model(r) == record_value(record@, name@),
{
    match record.value(name) {
        Some(v) => Some(v.clone()),
        None => None,
    }
}

/// Registers the developer data index of a message that declares one.
pub fn register_definition(
    profile: &FitProfile,
    record: &mut Record,
    defs: &mut HashMap<u8, FitDeveloperDataDefinition>,
) -> (r: Result<(), ErrorKind>)
    ensures
        match r {
            Ok(()) => definition_registered(
                *profile,
                old(record)@,
                definition_models(old(defs)@),
            ) == Ok::<_, ErrorModel>((final(record)@, definition_models(final(defs)@))),
            Err(e) => definition_registered(
                *profile,
                old(record)@,
                definition_models(old(defs)@),
            ) == Err::<(Seq<FieldModel>, Map<u8, DeveloperDataModel>), _>(e@),
        },
        r matches Err(e) ==> e@ is InvalidDeveloperField && final(defs)@ == old(defs)@,
{
    rename_values(profile, record, "manufacturer_id", "manufacturer");
    let index = match byte_field(record, "developer_data_index") {
        Some(index) => index,
        None => {
            return Err(
                ErrorKind::InvalidDeveloperField { name: String::from_str("developer_data_index") },
            );
        },
    };
    let application_version = match record.value("application_version") {
        Some(Value::UInt32(v)) => Some(*v),
        _ => None,
    };
    let definition = FitDeveloperDataDefinition {
        developer_id: value_copy(record, "developer_id"),
        application_id: value_copy(record, "application_id"),
        manufacturer_id: value_copy(record, "manufacturer_id"),
        developer_data_index: index,
        application_version,
        field_map: HashMap::new(),
    };
    assert(definition@.field_map =~= Map::empty());
    insert_definition(defs, definition);
    Ok(())
}

/// The first of the four fields that a field description must have and
/// that a record lacks.
pub fn missing_field(record: &Record) -> (r: Option<&'static str>)
    ensures
        match r {
            Some(name) => missing_description_field(record@) == Some(name@),
            None => missing_description_field(record@) is None,
        },
{
    if !record.contains_key("developer_data_index") {
        Some("developer_data_index")
    } else if !record.contains_key("field_definition_number") {
        Some("field_definition_number")
    } else if !record.contains_key("fit_base_type_id") {
        Some("fit_base_type_id")
    } else if !record.contains_key("field_name") {
        Some("field_name")
    } else {
        None
    }
}

/// Registers the description of a developer field.
pub fn register_description(
    profile: &FitProfile,
    record: &mut Record,
    defs: &mut HashMap<u8, FitDeveloperDataDefinition>,
) -> (r: Result<(), ErrorKind>)
    ensures
        match r {
            Ok(()) => description_registered(
                *profile,
                old(record)@,
                definition_models(old(defs)@),
            ) == Ok::<_, ErrorModel>((final(record)@, definition_models(final(defs)@))),
            Err(e) => description_registered(
                *profile,
                old(record)@,
                definition_models(old(defs)@),
            ) == Err::<(Seq<FieldModel>, Map<u8, DeveloperDataModel>), _>(e@),
        },
        r matches Err(e) ==> e@ is InvalidDeveloperField && final(defs)@ == old(defs)@,
{
    match missing_field(record) {
        Some(name) => {
            return Err(ErrorKind::InvalidDeveloperField { name: String::from_str(name) });
        },
        None => {},
    }
    rename_values(profile, record, "fit_base_type_id", "fit_base_type");
    rename_values(profile, record, "fit_base_unit_id", "fit_base_unit");
    rename_values(profile, record, "native_mesg_num", "mesg_num");
    let index = match byte_field(record, "developer_data_index") {
        Some(index) => index,
        None => {
            return Err(
                ErrorKind::InvalidDeveloperField { name: String::from_str("developer_data_index") },
            );
        },
    };
    let number = match byte_field(record, "field_definition_number") {
        Some(number) => number,
        None => {
            return Err(
                ErrorKind::InvalidDeveloperField {
                    name: String::from_str("field_definition_number"),
                },
            );
        },
    };
    describe_field(
        defs,
        index,
        DeveloperFieldDescription { field_definition_number: number, attributes: record.clone() },
    );
    Ok(())
}

impl Session {
    /// Decodes a data message, as [`message_decoded`] defines it, and
    /// returns the name of the message and its record. Where it fails, the
    /// state is what [`message_failed`] defines.
    pub fn decode_message(&mut self, profile: &FitProfile, msg: &FitDataMessage) -> (r: Result<
        (String, Record),
        ErrorKind,
    >)
        ensures
            match r {
                Ok((name, record)) => message_decoded(*profile, old(self)@, msg@) == Ok::<
                    _,
                    ErrorModel,
                >((final(self)@, name@, record@)),
                Err(e) => message_decoded(*profile, old(self)@, msg@) == Err::<
                    (SessionModel, Seq<char>, Seq<FieldModel>),
                    _,
                >(e@) && final(self)@ == message_failed(*profile, old(self)@, msg@) && (e@
                    is GlobalDefinitionMessageNotFound || e@ is UnknownMessage || e@
                    is InvalidDeveloperField),
            },
    {
        reveal(message_decoded);
        let m = profile.resolve(msg.global_message_number)?;
        let message = &profile.messages[m];
        let is_definition = str_eq(message.name.as_str(), "developer_data_id");
        let is_description = str_eq(message.name.as_str(), "field_description");
        let mut record = Record::new();
        project_fields(
            profile,
            message,
            is_definition || is_description,
            msg,
            &mut record,
            &mut self.accumulator,
            &mut self.errors,
            &mut self.timestamp_ref,
        );
        store_developer_fields(
            &self.developer_definitions,
            &message.name,
            &msg.developer_fields,
            &mut self.developer_data,
            &mut self.errors,
        );
        apply_timestamp(msg.time_offset, &mut record, &mut self.errors, &mut self.timestamp_ref);
        if is_definition {
            register_definition(profile, &mut record, &mut self.developer_definitions)?;
        } else if is_description {
            register_description(profile, &mut record, &mut self.developer_definitions)?;
        }
        Ok((message.name.clone(), record))
    }
}

/// A field put under a named type leaves the fields of other names where
/// and what they were.
pub proof fn lemma_named_other(
    p: FitProfile,
    record: Seq<FieldModel>,
    field: Seq<char>,
    ty: Seq<char>,
    name: Seq<char>,
)
    requires
        field != name,
    ensures
        record_find(record_named(p, record, field, ty), name) == record_find(record, name),
        record_value(record_named(p, record, field, ty), name) == record_value(record, name),
{
    lemma_first_from(record, is_named(field), 0);
    lemma_first_from(record, is_named(name), 0);
    if let Some(i) = record_find(record, field) {
        lemma_first_update(
            record,
            is_named(name),
            i,
            FieldModel { value: named_all(p, ty, record[i].value), ..record[i] },
        );
    }
}

/// The names of the fields that the registration of developer data reads
/// differ from one another as far as it matters, and from `timestamp`.
pub proof fn lemma_registration_names()
    ensures
        "timestamp"@ != "developer_data_index"@,
        "timestamp"@ != "field_definition_number"@,
        "timestamp"@ != "fit_base_type_id"@,
        "timestamp"@ != "field_name"@,
        "manufacturer_id"@ != "developer_data_index"@,
        "fit_base_type_id"@ != "developer_data_index"@,
        "fit_base_unit_id"@ != "developer_data_index"@,
        "native_mesg_num"@ != "developer_data_index"@,
        "fit_base_type_id"@ != "field_definition_number"@,
        "fit_base_unit_id"@ != "field_definition_number"@,
        "native_mesg_num"@ != "field_definition_number"@,
{
    reveal_strlit("timestamp");
    reveal_strlit("developer_data_index");
    reveal_strlit("field_definition_number");
    reveal_strlit("fit_base_type_id");
    reveal_strlit("field_name");
    reveal_strlit("manufacturer_id");
    reveal_strlit("fit_base_unit_id");
    reveal_strlit("native_mesg_num");
    assert("timestamp"@.len() == 9);
    assert("developer_data_index"@.len() == 20);
    assert("field_definition_number"@.len() == 23);
    assert("fit_base_type_id"@.len() == 16);
    assert("field_name"@.len() == 10);
    assert("manufacturer_id"@.len() == 15);
    assert("fit_base_unit_id"@.len() == 16);
    assert("native_mesg_num"@.len() == 15);
}

/// The projection of the fields of a message keeps the errors recorded
/// before it.
pub proof fn lemma_projection_keeps_errors(
    p: FitProfile,
    m: Message,
    name: Seq<char>,
    exempt: bool,
    msg: DataMessageModel,
    k: int,
    s: Projection,
)
    requires
        0 <= k,
    ensures
        errors_kept(s.errors, projected_from(p, m, name, exempt, msg, k, s).errors),
    decreases msg.fields.len() - k,
{
    if k < msg.fields.len() {
        let next = projection_step(p, m, name, exempt, msg, k, s);
        assert(errors_kept(s.errors, next.errors));
        lemma_projection_keeps_errors(p, m, name, exempt, msg, k + 1, next);
    }
}

/// The developer fields of a message keep the errors recorded before them.
pub proof fn lemma_developer_keeps_errors(
    defs: Map<u8, DeveloperDataModel>,
    name: Seq<char>,
    fields: Seq<DeveloperFieldModel>,
    k: int,
    s: DeveloperState,
)
    requires
        0 <= k,
    ensures
        errors_kept(s.errors, developer_from(defs, name, fields, k, s).errors),
    decreases fields.len() - k,
{
    if k < fields.len() {
        let next = developer_step(defs, name, fields[k], s);
        assert(errors_kept(s.errors, next.errors));
        lemma_developer_keeps_errors(defs, name, fields, k + 1, next);
    }
}

/// A data message keeps the errors recorded before it: where it is
/// decoded, and where its decoding fails, which then leaves the definitions
/// as they were.
pub proof fn lemma_message_failed(p: FitProfile, s: SessionModel, msg: DataMessageModel)
    ensures
        message_failed(p, s, msg).definitions == s.definitions,
        message_failed(p, s, msg).developer_definitions == s.developer_definitions,
        errors_kept(s.errors, message_failed(p, s, msg).errors),
        message_decoded(p, s, msg) matches Ok(r) ==> errors_kept(s.errors, r.0.errors),
{
    reveal(message_decoded);
    if let Ok(m) = p.spec_resolve(msg.global_message_number) {
        let name = p.messages@[m].name@;
        let exempt = name == "developer_data_id"@ || name == "field_description"@;
        let start = Projection {
            record: Seq::empty(),
            counters: s.counters,
            errors: s.errors,
            timestamp_ref: s.timestamp_ref,
        };
        lemma_projection_keeps_errors(p, p.messages@[m], name, exempt, msg, 0, start);
        let fields = projected_from(p, p.messages@[m], name, exempt, msg, 0, start);
        let before = DeveloperState { data: s.developer_data, errors: fields.errors };
        lemma_developer_keeps_errors(s.developer_definitions, name, msg.developer_fields, 0, before);
        let developer = developer_from(s.developer_definitions, name, msg.developer_fields, 0, before);
        let timed = timestamp_applied(
            msg.time_offset,
            Projection { errors: developer.errors, ..fields },
        );
        assert(errors_kept(developer.errors, timed.errors));
    }
}

} // verus!
