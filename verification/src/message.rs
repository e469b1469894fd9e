//! The messages of a file as they stand on the wire: the headers, the
//! definition messages that lay out the records, and the data messages that
//! fill them.
use vstd::prelude::*;
use crate::fit::{BaseType, Value, ValueModel};
use crate::search::{first_from, first_index};

verus! {

/// The preamble of a file. `data_type` holds the four bytes that name the
/// format, the first the lowest, and `header_crc` is zero where the header
/// has none.
#[derive(Debug, Clone, Copy, PartialEq, Eq, Structural)]
pub struct FitFileHeader {
    pub header_size: u32,
    pub protocol_version: u8,
    pub profile_version: u16,
    pub data_size: u32,
    pub data_type: u32,
    pub header_crc: u16,
}

/// The byte order of the numbers of a message.
#[derive(Debug, Clone, Copy, PartialEq, Eq, Structural)]
pub enum Architecture {
    LittleEndian,
    BigEndian,
}

impl Architecture {
    /// Whether the high byte comes first.
    pub open spec fn spec_is_big_endian(self) -> bool {
        self == Architecture::BigEndian
    }

    /// The byte order that an architecture byte names: big endian for 1,
    /// little endian for any other.
    pub open spec fn spec_from_byte(value: u8) -> Architecture {
        if value == 0x01 {
            Architecture::BigEndian
        } else {
            Architecture::LittleEndian
        }
    }

    /// Whether the high byte comes first.
    pub fn is_big_endian(&self) -> (r: bool)
        ensures
            r == self.spec_is_big_endian(),
    {
        match self {
            Architecture::BigEndian => true,
            Architecture::LittleEndian => false,
        }
    }

    /// The byte order that an architecture byte names.
    pub fn from_byte(value: u8) -> (r: Architecture)
        ensures
            r == Architecture::spec_from_byte(value),
    {
        if value == 0x01 {
            Architecture::BigEndian
        } else {
            Architecture::LittleEndian
        }
    }
}

/// Whether a message lays out records or fills one.
#[derive(Debug, Clone, Copy, PartialEq, Eq, Structural)]
pub enum FitMessageType {
    Data,
    Definition,
}

/// The one-byte header of a message.
#[derive(Debug, Clone, Copy, PartialEq, Eq, Structural)]
pub struct FitMessageHeader {
    pub contains_developer_data: bool,
    pub local_message_number: u8,
    pub message_type: FitMessageType,
    pub time_offset: Option<u8>,
}

/// The layout of one field of a record.
#[derive(Debug, Clone, Copy, PartialEq, Eq, Structural)]
pub struct FieldDefinition {
    pub field_definition_number: u8,
    pub size: u8,
    pub base_type: BaseType,
}

/// The layout of one developer field of a record.
#[derive(Debug, Clone, Copy, PartialEq, Eq, Structural)]
pub struct DeveloperFieldDefinition {
    pub field_number: u8,
    pub size: u8,
    pub developer_data_index: u8,
}

/// A definition message: the layout of the records of one local message
/// number.
#[derive(Debug, PartialEq)]
pub struct FitDefinitionMessage {
    pub architecture: Architecture,
    pub local_message_number: u8,
    pub global_message_number: u16,
    pub field_definitions: Vec<FieldDefinition>,
    pub developer_field_definitions: Vec<DeveloperFieldDefinition>,
}

/// The mathematical model of a [`FitDefinitionMessage`].
pub struct DefinitionModel {
    pub architecture: Architecture,
    pub local_message_number: u8,
    pub global_message_number: u16,
    pub field_definitions: Seq<FieldDefinition>,
    pub developer_field_definitions: Seq<DeveloperFieldDefinition>,
}

impl View for FitDefinitionMessage {
    type V = DefinitionModel;

    open spec fn view(&self) -> DefinitionModel {
        DefinitionModel {
            architecture: self.architecture,
            local_message_number: self.local_message_number,
            global_message_number: self.global_message_number,
            field_definitions: self.field_definitions@,
            developer_field_definitions: self.developer_field_definitions@,
        }
    }
}

/// A field of a data message: its definition number and its raw value.
#[derive(Debug, PartialEq)]
pub struct DataField {
    pub field_definition_number: u8,
    pub value: Value,
}

/// The mathematical model of a [`DataField`].
pub struct DataFieldModel {
    pub field_definition_number: u8,
    pub value: ValueModel,
}

impl View for DataField {
    type V = DataFieldModel;

    open spec fn view(&self) -> DataFieldModel {
        DataFieldModel { field_definition_number: self.field_definition_number, value: self.value@ }
    }
}

/// The models of a sequence of data fields, in order.
pub open spec fn data_field_models(fields: Seq<DataField>) -> Seq<DataFieldModel> {
    Seq::new(fields.len(), |i: int| fields[i]@)
}

/// The index of the field with a definition number.
pub open spec fn fields_find(fields: Seq<DataFieldModel>, number: u8) -> Option<int> {
    first_index(fields, |f: DataFieldModel| f.field_definition_number == number)
}

/// The value of the field with a definition number.
pub open spec fn fields_get(fields: Seq<DataFieldModel>, number: u8) -> Option<ValueModel> {
    match fields_find(fields, number) {
        Some(i) => Some(fields[i].value),
        None => None,
    }
}

/// The fields with one more: it takes the place of the field of the same
/// number, and comes last where there is none.
pub open spec fn fields_insert(fields: Seq<DataFieldModel>, field: DataFieldModel) -> Seq<
    DataFieldModel,
> {
    match fields_find(fields, field.field_definition_number) {
        Some(i) => fields.update(i, field),
        None => fields.push(field),
    }
}

/// The index of the field with a definition number.
pub fn find_data_field(fields: &Vec<DataField>, number: u8) -> (r: Option<usize>)
    ensures
        match r {
            Some(i) => fields_find(data_field_models(fields@), number) == Some(i as int) && i
                < fields@.len(),
            None => fields_find(data_field_models(fields@), number) is None,
        },
{
    let ghost pred = |f: DataFieldModel| f.field_definition_number == number;
    let ghost models = data_field_models(fields@);
    let mut i: usize = 0;
    while i < fields.len()
        invariant
            i <= fields.len(),
            models == data_field_models(fields@),
            pred == (|f: DataFieldModel| f.field_definition_number == number),
            first_from(models, pred, 0) == first_from(models, pred, i as int),
        decreases fields.len() - i,
    {
        assert(models[i as int] == fields[i as int]@);
        if fields[i].field_definition_number == number {
            return Some(i);
        }
        i += 1;
    }
    None
}

/// Puts a field among the fields of a data message: in the place of the
/// field of the same number, or last where there is none.
pub fn insert_data_field(fields: &mut Vec<DataField>, field: DataField)
    ensures
        data_field_models(final(fields)@) == fields_insert(data_field_models(old(fields)@), field@),
{
    match find_data_field(fields, field.field_definition_number) {
        Some(i) => {
            fields.set(i, field);
            assert(data_field_models(fields@) =~= data_field_models(old(fields)@).update(
                i as int,
                field@,
            ));
        },
        None => {
            fields.push(field);
            assert(data_field_models(fields@) =~= data_field_models(old(fields)@).push(field@));
        },
    }
}

/// A developer field of a data message.
#[derive(Debug, PartialEq)]
pub struct DeveloperField {
    pub developer_data_index: u8,
    pub field_number: u8,
    pub value: Value,
}

/// The mathematical model of a [`DeveloperField`].
pub struct DeveloperFieldModel {
    pub developer_data_index: u8,
    pub field_number: u8,
    pub value: ValueModel,
}

impl View for DeveloperField {
    type V = DeveloperFieldModel;

    open spec fn view(&self) -> DeveloperFieldModel {
        DeveloperFieldModel {
            developer_data_index: self.developer_data_index,
            field_number: self.field_number,
            value: self.value@,
        }
    }
}

/// The models of a sequence of developer fields, in order.
pub open spec fn developer_field_models(fields: Seq<DeveloperField>) -> Seq<DeveloperFieldModel> {
    Seq::new(fields.len(), |i: int| fields[i]@)
}

/// The index of the developer field with an index and a number.
pub open spec fn developer_fields_find(
    fields: Seq<DeveloperFieldModel>,
    index: u8,
    number: u8,
) -> Option<int> {
    first_index(
        fields,
        |f: DeveloperFieldModel| f.developer_data_index == index && f.field_number == number,
    )
}

/// The developer fields with one more: it takes the place of the field of
/// the same index and number, and comes last where there is none.
pub open spec fn developer_fields_insert(
    fields: Seq<DeveloperFieldModel>,
    field: DeveloperFieldModel,
) -> Seq<DeveloperFieldModel> {
    match developer_fields_find(fields, field.developer_data_index, field.field_number) {
        Some(i) => fields.update(i, field),
        None => fields.push(field),
    }
}

/// Puts a developer field among those of a data message: in the place of
/// the field of the same index and number, or last where there is none.
pub fn insert_developer_field(fields: &mut Vec<DeveloperField>, field: DeveloperField)
    ensures
        developer_field_models(final(fields)@) == developer_fields_insert(
            developer_field_models(old(fields)@),
            field@,
        ),
{
    let ghost models = developer_field_models(fields@);
    let ghost pred = |f: DeveloperFieldModel|
        f.developer_data_index == field.developer_data_index && f.field_number
            == field.field_number;
    let mut found: Option<usize> = None;
    let mut i: usize = 0;
    while i < fields.len() && found.is_none()
        invariant
            i <= fields.len(),
            models == developer_field_models(fields@),
            fields@ == old(fields)@,
            pred == (|f: DeveloperFieldModel|
                f.developer_data_index == field.developer_data_index && f.field_number
                    == field.field_number),
            match found {
                Some(k) => first_from(models, pred, 0) == Some(k as int) && k < fields.len(),
                None => first_from(models, pred, 0) == first_from(models, pred, i as int),
            },
        decreases fields.len() - i + (if found is None { 1int } else { 0int }),
    {
        assert(models[i as int] == fields[i as int]@);
        if fields[i].developer_data_index == field.developer_data_index && fields[i].field_number
            == field.field_number {
            found = Some(i);
        } else {
            i += 1;
        }
    }
    match found {
        Some(k) => {
            fields.set(k, field);
            assert(developer_field_models(fields@) =~= models.update(k as int, field@));
        },
        None => {
            fields.push(field);
            assert(developer_field_models(fields@) =~= models.push(field@));
        },
    }
}

/// A data message: the raw values of one record.
///
/// The fields and the developer fields stand in the order of the
/// definition message, each number once. The decoding walks them in that
/// order, so that the counters, the record and the order of the errors are
/// determined by the bytes of the input.
#[derive(Debug, PartialEq)]
pub struct FitDataMessage {
    pub global_message_number: u16,
    pub time_offset: Option<u8>,
    pub fields: Vec<DataField>,
    pub developer_fields: Vec<DeveloperField>,
}

/// The mathematical model of a [`FitDataMessage`].
pub struct DataMessageModel {
    pub global_message_number: u16,
    pub time_offset: Option<u8>,
    pub fields: Seq<DataFieldModel>,
    pub developer_fields: Seq<DeveloperFieldModel>,
}

impl View for FitDataMessage {
    type V = DataMessageModel;

    open spec fn view(&self) -> DataMessageModel {
        DataMessageModel {
            global_message_number: self.global_message_number,
            time_offset: self.time_offset,
            fields: data_field_models(self.fields@),
            developer_fields: developer_field_models(self.developer_fields@),
        }
    }
}

/// A message of either kind.
#[derive(Debug, PartialEq)]
pub enum FitMessage {
    Data(FitDataMessage),
    Definition(FitDefinitionMessage),
}

} // verus!
