//! The reading of a file's framing: the file header, the message headers,
//! the definition messages and the raw values of the data messages.
use vstd::prelude::*;
use crate::byte_reader::{
    ByteReader, failure_of, get_u16, get_u32, get_u64, i16_of, i32_of, i64_of, i8_of, to_i16,
    to_i32, to_i64, to_i8, u16_at, u32_at, u64_at,
};
use crate::error::{error_models, errors_kept, ErrorKind, ErrorModel};
use crate::fit::{BaseType, lemma_array_model, Value, value_models, ValueModel};
use crate::message::{
    Architecture, data_field_models, DataField, DataFieldModel, DataMessageModel, DefinitionModel,
    developer_field_models, developer_fields_insert, DeveloperField, DeveloperFieldDefinition,
    DeveloperFieldModel, FieldDefinition, fields_insert, FitDataMessage, FitDefinitionMessage,
    FitFileHeader, FitMessageHeader, FitMessageType, insert_data_field, insert_developer_field,
};
use crate::profile::FitProfile;
use crate::search::{first_from, first_index, lemma_first_from};
use crate::text::{lemma_decoded_without_nul, string_from_utf8_lossy, utf8_lossy};

verus! {

/// Whether `n` bytes can be read at `at`.
pub open spec fn readable(bytes: Seq<u8>, at: int, n: int) -> bool {
    at + n <= bytes.len()
}

/// The error of a read of `n` bytes at `at` that are not there.
pub open spec fn out_of_bounds(bytes: Seq<u8>, at: int, n: int) -> ErrorModel {
    ErrorModel::OutOfBoundsRead {
        offset: at as usize,
        requested_len: n as usize,
        remaining_len: (if at <= bytes.len() {
            bytes.len() - at
        } else {
            0
        }) as usize,
    }
}

/// The file header at `at` and the position after it: twelve bytes, and the
/// two of the header's check value where the header says that it has
/// fourteen.
pub open spec fn file_header_at(bytes: Seq<u8>, at: int) -> Result<(FitFileHeader, int), ErrorModel> {
    if !readable(bytes, at, 12) {
        Err(out_of_bounds(bytes, at, 12))
    } else {
        let header = FitFileHeader {
            header_size: bytes[at] as u32,
            protocol_version: bytes[at + 1],
            profile_version: u16_at(bytes, at + 2, false),
            data_size: u32_at(bytes, at + 4, false),
            data_type: u32_at(bytes, at + 8, false),
            header_crc: 0,
        };
        if bytes[at] != 0x0E {
            Ok((header, at + 12))
        } else if !readable(bytes, at + 12, 2) {
            Err(out_of_bounds(bytes, at + 12, 2))
        } else {
            Ok((FitFileHeader { header_crc: u16_at(bytes, at + 12, false), ..header }, at + 14))
        }
    }
}

/// The header that a byte stands for. With the top bit set it is the header
/// of a data message with a compressed timestamp: two bits of local message
/// number and five of time offset. Else the next bit tells a definition
/// message from a data message, the third flags developer data in a
/// definition, and the low four bits are the local message number.
pub open spec fn message_header_of(byte: u8) -> FitMessageHeader {
    if byte >= 0x80 {
        FitMessageHeader {
            contains_developer_data: false,
            local_message_number: (byte / 0x20) % 4,
            message_type: FitMessageType::Data,
            time_offset: Some(byte % 0x20),
        }
    } else if byte >= 0x40 {
        FitMessageHeader {
            contains_developer_data: (byte / 0x20) % 2 == 1,
            local_message_number: byte % 0x10,
            message_type: FitMessageType::Definition,
            time_offset: None,
        }
    } else {
        FitMessageHeader {
            contains_developer_data: false,
            local_message_number: byte % 0x10,
            message_type: FitMessageType::Data,
            time_offset: None,
        }
    }
}

/// The tags of `n` field definitions of three bytes each.
pub open spec fn tags_of(chunk: Seq<u8>, n: int) -> Seq<u8> {
    Seq::new(n as nat, |k: int| chunk[3 * k + 2])
}

/// The `n` field definitions that a chunk of three bytes each holds: a
/// number, a size and the tag of a base type. The first tag that names no
/// base type is an error.
pub open spec fn field_definitions_of(chunk: Seq<u8>, n: int) -> Result<
    Seq<FieldDefinition>,
    ErrorModel,
> {
    match first_index(tags_of(chunk, n), |t: u8| BaseType::spec_from_tag(t) is None) {
        Some(k) => Err(ErrorModel::BaseTypeMismatch { tag: chunk[3 * k + 2] }),
        None => Ok(
            Seq::new(
                n as nat,
                |k: int|
                    FieldDefinition {
                        field_definition_number: chunk[3 * k],
                        size: chunk[3 * k + 1],
                        base_type: BaseType::spec_from_tag(chunk[3 * k + 2]).unwrap(),
                    },
            ),
        ),
    }
}

/// The `n` developer field definitions that a chunk of three bytes each
/// holds: a number, a size and a developer data index.
pub open spec fn developer_definitions_of(chunk: Seq<u8>, n: int) -> Seq<DeveloperFieldDefinition> {
    Seq::new(
        n as nat,
        |k: int|
            DeveloperFieldDefinition {
                field_number: chunk[3 * k],
                size: chunk[3 * k + 1],
                developer_data_index: chunk[3 * k + 2],
            },
    )
}

/// The definition message at `at`, after its header, and the position after
/// it: a reserved byte, the architecture, the global message number in that
/// byte order, the number of fields and the fields, and the same for the
/// developer fields where the header flags them.
pub open spec fn definition_at(bytes: Seq<u8>, at: int, header: FitMessageHeader) -> Result<
    (DefinitionModel, int),
    ErrorModel,
> {
    if !readable(bytes, at, 5) {
        Err(out_of_bounds(bytes, at, 5))
    } else {
        let architecture = Architecture::spec_from_byte(bytes[at + 1]);
        let n = bytes[at + 4] as int;
        let fields_end = at + 5 + 3 * n;
        if !readable(bytes, at + 5, 3 * n) {
            Err(out_of_bounds(bytes, at + 5, 3 * n))
        } else {
            match field_definitions_of(bytes.subrange(at + 5, fields_end), n) {
                Err(e) => Err(e),
                Ok(field_definitions) => {
                    let message = DefinitionModel {
                        architecture,
                        local_message_number: header.local_message_number,
                        global_message_number: u16_at(
                            bytes,
                            at + 2,
                            architecture.spec_is_big_endian(),
                        ),
                        field_definitions,
                        developer_field_definitions: Seq::empty(),
                    };
                    if !header.contains_developer_data {
                        Ok((message, fields_end))
                    } else if !readable(bytes, fields_end, 1) {
                        Err(out_of_bounds(bytes, fields_end, 1))
                    } else {
                        let m = bytes[fields_end] as int;
                        if !readable(bytes, fields_end + 1, 3 * m) {
                            Err(out_of_bounds(bytes, fields_end + 1, 3 * m))
                        } else {
                            Ok(
                                (
                                    DefinitionModel {
                                        developer_field_definitions: developer_definitions_of(
                                            bytes.subrange(
                                                fields_end + 1,
                                                fields_end + 1 + 3 * m,
                                            ),
                                            m,
                                        ),
                                        ..message
                                    },
                                    fields_end + 1 + 3 * m,
                                ),
                            )
                        }
                    }
                },
            }
        }
    }
}

/// The element of a numeric base type at `at`.
pub open spec fn scalar_at(chunk: Seq<u8>, at: int, t: BaseType, big_endian: bool) -> ValueModel {
    match t {
        BaseType::Enum => ValueModel::Enum(chunk[at]),
        BaseType::SInt8 => ValueModel::SInt8(i8_of(chunk[at])),
        BaseType::UInt8 => ValueModel::UInt8(chunk[at]),
        BaseType::SInt16 => ValueModel::SInt16(i16_of(u16_at(chunk, at, big_endian))),
        BaseType::UInt16 => ValueModel::UInt16(u16_at(chunk, at, big_endian)),
        BaseType::SInt32 => ValueModel::SInt32(i32_of(u32_at(chunk, at, big_endian))),
        BaseType::UInt32 => ValueModel::UInt32(u32_at(chunk, at, big_endian)),
        BaseType::String => ValueModel::String(text_of(chunk)),
        BaseType::Float32 => ValueModel::Float32(u32_at(chunk, at, big_endian)),
        BaseType::Float64 => ValueModel::Float64(u64_at(chunk, at, big_endian)),
        BaseType::UInt8z => ValueModel::UInt8z(chunk[at]),
        BaseType::UInt16z => ValueModel::UInt16z(u16_at(chunk, at, big_endian)),
        BaseType::UInt32z => ValueModel::UInt32z(u32_at(chunk, at, big_endian)),
        BaseType::Byte => ValueModel::Byte(chunk[at]),
        BaseType::SInt64 => ValueModel::SInt64(i64_of(u64_at(chunk, at, big_endian))),
        BaseType::UInt64 => ValueModel::UInt64(u64_at(chunk, at, big_endian)),
        BaseType::UInt64z => ValueModel::UInt64z(u64_at(chunk, at, big_endian)),
    }
}

/// Where the reading of the definition message at `at` ends: after the
/// message where it is whole, and else after the last part of it that was
/// read whole.
pub open spec fn definition_stopped(bytes: Seq<u8>, at: int, header: FitMessageHeader) -> int {
    if !readable(bytes, at, 5) {
        at
    } else {
        let n = bytes[at + 4] as int;
        let fields_end = at + 5 + 3 * n;
        if !readable(bytes, at + 5, 3 * n) {
            at + 5
        } else if field_definitions_of(bytes.subrange(at + 5, fields_end), n) is Err
            || !header.contains_developer_data || !readable(bytes, fields_end, 1) {
            fields_end
        } else if !readable(bytes, fields_end + 1, 3 * bytes[fields_end]) {
            fields_end + 1
        } else {
            fields_end + 1 + 3 * bytes[fields_end]
        }
    }
}

/// The bytes of a text field up to its first NUL.
pub open spec fn text_bytes(chunk: Seq<u8>) -> Seq<u8> {
    match first_index(chunk, |b: u8| b == 0) {
        Some(i) => chunk.take(i),
        None => chunk,
    }
}

/// The text of a text field: its bytes up to the first NUL, decoded.
pub open spec fn text_of(chunk: Seq<u8>) -> Seq<char> {
    utf8_lossy(text_bytes(chunk))
}

/// Whether bytes are well-formed UTF-8.
pub open spec fn well_formed(bytes: Seq<u8>) -> bool {
    vstd::utf8::valid_utf8(bytes)
}

/// The text that well-formed bytes encode.
pub open spec fn decoding_of(bytes: Seq<u8>) -> Seq<char> {
    vstd::utf8::decode_utf8(bytes)
}

/// What the reading of a text field learns of its text: where the field
/// has bytes and those up to the first NUL are well-formed, the text is the
/// one that they encode, and holds no NUL, so that it is valid.
pub open spec fn text_decoded(chunk: Seq<u8>, t: BaseType) -> bool {
    t == BaseType::String && chunk.len() > 0 && well_formed(text_bytes(chunk)) ==> text_of(chunk)
        == decoding_of(text_bytes(chunk)) && !text_of(chunk).contains('\0')
}

/// The elements that the bytes of a field hold: one text, or as many
/// numbers as their size gives.
pub open spec fn elements_of(chunk: Seq<u8>, t: BaseType, big_endian: bool) -> Seq<ValueModel> {
    if t == BaseType::String {
        if chunk.len() == 0 {
            Seq::empty()
        } else {
            seq![ValueModel::String(text_of(chunk))]
        }
    } else {
        Seq::new(
            chunk.len() / (t.spec_size() as nat),
            |i: int| scalar_at(chunk, i * t.spec_size(), t, big_endian),
        )
    }
}

/// The value that the bytes of a field hold. Their number must be a
/// multiple of the size of the base type. A single element is the value
/// itself unless the profile declares an array; else the value is the array
/// of the elements. A value that is not valid is an error.
pub open spec fn field_value_of(chunk: Seq<u8>, t: BaseType, big_endian: bool, is_array: bool) -> Result<
    ValueModel,
    ErrorModel,
> {
    if chunk.len() % (t.spec_size() as nat) != 0 {
        Err(
            ErrorModel::SizeMismatch {
                field_size: chunk.len() as usize,
                base_type_size: t.spec_size(),
            },
        )
    } else {
        let elements = elements_of(chunk, t, big_endian);
        let value = if elements.len() == 1 && !is_array {
            elements[0]
        } else {
            ValueModel::Array(elements)
        };
        if value.is_valid() {
            Ok(value)
        } else {
            Err(ErrorModel::InvalidFieldValue { base_type: t, invalid: t.spec_invalid(), value })
        }
    }
}

/// The state of the reading of a data message: the position, the fields
/// and developer fields read, and the errors recorded.
pub struct DataRead {
    pub at: int,
    pub fields: Seq<DataFieldModel>,
    pub developer_fields: Seq<DeveloperFieldModel>,
    pub errors: Seq<ErrorModel>,
}

/// The reading of the fields of a data message from the `k`-th on. Each
/// takes the bytes of its size. A value that cannot be had is recorded as
/// an error and the field is left out; only missing bytes end the reading.
pub open spec fn data_fields_from(
    p: FitProfile,
    bytes: Seq<u8>,
    def: DefinitionModel,
    k: int,
    s: DataRead,
) -> Result<DataRead, ErrorModel>
    decreases def.field_definitions.len() - k,
{
    if k < 0 || k >= def.field_definitions.len() {
        Ok(s)
    } else {
        let d = def.field_definitions[k];
        if !readable(bytes, s.at, d.size as int) {
            Err(out_of_bounds(bytes, s.at, d.size as int))
        } else {
            match field_value_of(
                bytes.subrange(s.at, s.at + d.size),
                d.base_type,
                def.architecture.spec_is_big_endian(),
                p.spec_declares_array(def.global_message_number, d.field_definition_number),
            ) {
                Ok(value) => data_fields_from(
                    p,
                    bytes,
                    def,
                    k + 1,
                    DataRead {
                        at: s.at + d.size,
                        fields: fields_insert(
                            s.fields,
                            DataFieldModel {
                                field_definition_number: d.field_definition_number,
                                value,
                            },
                        ),
                        ..s
                    },
                ),
                Err(e) => data_fields_from(
                    p,
                    bytes,
                    def,
                    k + 1,
                    DataRead {
                        at: s.at + d.size,
                        errors: s.errors.push(
                            ErrorModel::DecodeFieldFailed {
                                message_no: def.global_message_number,
                                field_no: d.field_definition_number,
                                reason: Box::new(e),
                            },
                        ),
                        ..s
                    },
                ),
            }
        }
    }
}

/// The reading of the developer fields of a data message from the `k`-th
/// on, each as bytes.
pub open spec fn developer_fields_from(
    bytes: Seq<u8>,
    def: DefinitionModel,
    k: int,
    s: DataRead,
) -> Result<DataRead, ErrorModel>
    decreases def.developer_field_definitions.len() - k,
{
    if k < 0 || k >= def.developer_field_definitions.len() {
        Ok(s)
    } else {
        let d = def.developer_field_definitions[k];
        if !readable(bytes, s.at, d.size as int) {
            Err(out_of_bounds(bytes, s.at, d.size as int))
        } else {
            match field_value_of(
                bytes.subrange(s.at, s.at + d.size),
                BaseType::Byte,
                def.architecture.spec_is_big_endian(),
                false,
            ) {
                Ok(value) => developer_fields_from(
                    bytes,
                    def,
                    k + 1,
                    DataRead {
                        at: s.at + d.size,
                        developer_fields: developer_fields_insert(
                            s.developer_fields,
                            DeveloperFieldModel {
                                developer_data_index: d.developer_data_index,
                                field_number: d.field_number,
                                value,
                            },
                        ),
                        ..s
                    },
                ),
                Err(e) => developer_fields_from(
                    bytes,
                    def,
                    k + 1,
                    DataRead {
                        at: s.at + d.size,
                        errors: s.errors.push(
                            ErrorModel::DecodeDeveloperFieldFailed {
                                message_no: def.global_message_number,
                                data_index: d.developer_data_index,
                                reason: Box::new(e),
                            },
                        ),
                        ..s
                    },
                ),
            }
        }
    }
}

/// Where the reading of the fields of a data message from the `k`-th on
/// ends: after the last field, or before the first whose bytes are
/// missing.
pub open spec fn data_fields_stopped(
    p: FitProfile,
    bytes: Seq<u8>,
    def: DefinitionModel,
    k: int,
    s: DataRead,
) -> DataRead
    decreases def.field_definitions.len() - k,
{
    if k < 0 || k >= def.field_definitions.len() {
        s
    } else {
        let d = def.field_definitions[k];
        if !readable(bytes, s.at, d.size as int) {
            s
        } else {
            match field_value_of(
                bytes.subrange(s.at, s.at + d.size),
                d.base_type,
                def.architecture.spec_is_big_endian(),
                p.spec_declares_array(def.global_message_number, d.field_definition_number),
            ) {
                Ok(value) => data_fields_stopped(
                    p,
                    bytes,
                    def,
                    k + 1,
                    DataRead {
                        at: s.at + d.size,
                        fields: fields_insert(
                            s.fields,
                            DataFieldModel {
                                field_definition_number: d.field_definition_number,
                                value,
                            },
                        ),
                        ..s
                    },
                ),
                Err(e) => data_fields_stopped(
                    p,
                    bytes,
                    def,
                    k + 1,
                    DataRead {
                        at: s.at + d.size,
                        errors: s.errors.push(
                            ErrorModel::DecodeFieldFailed {
                                message_no: def.global_message_number,
                                field_no: d.field_definition_number,
                                reason: Box::new(e),
                            },
                        ),
                        ..s
                    },
                ),
            }
        }
    }
}

/// Where the reading of the developer fields of a data message from the
/// `k`-th on ends: after the last field, or before the first whose bytes
/// are missing.
pub open spec fn developer_fields_stopped(
    bytes: Seq<u8>,
    def: DefinitionModel,
    k: int,
    s: DataRead,
) -> DataRead
    decreases def.developer_field_definitions.len() - k,
{
    if k < 0 || k >= def.developer_field_definitions.len() {
        s
    } else {
        let d = def.developer_field_definitions[k];
        if !readable(bytes, s.at, d.size as int) {
            s
        } else {
            match field_value_of(
                bytes.subrange(s.at, s.at + d.size),
                BaseType::Byte,
                def.architecture.spec_is_big_endian(),
                false,
            ) {
                Ok(value) => developer_fields_stopped(
                    bytes,
                    def,
                    k + 1,
                    DataRead {
                        at: s.at + d.size,
                        developer_fields: developer_fields_insert(
                            s.developer_fields,
                            DeveloperFieldModel {
                                developer_data_index: d.developer_data_index,
                                field_number: d.field_number,
                                value,
                            },
                        ),
                        ..s
                    },
                ),
                Err(e) => developer_fields_stopped(
                    bytes,
                    def,
                    k + 1,
                    DataRead {
                        at: s.at + d.size,
                        errors: s.errors.push(
                            ErrorModel::DecodeDeveloperFieldFailed {
                                message_no: def.global_message_number,
                                data_index: d.developer_data_index,
                                reason: Box::new(e),
                            },
                        ),
                        ..s
                    },
                ),
            }
        }
    }
}

/// Where the reading of the data message at `at` ends, with the errors
/// recorded up to there: after the message, or before the first field or
/// developer field whose bytes are missing.
pub open spec fn data_message_stopped(
    p: FitProfile,
    bytes: Seq<u8>,
    at: int,
    def: DefinitionModel,
    errors: Seq<ErrorModel>,
) -> DataRead {
    let start = DataRead { at, fields: Seq::empty(), developer_fields: Seq::empty(), errors };
    match data_fields_from(p, bytes, def, 0, start) {
        Err(_) => data_fields_stopped(p, bytes, def, 0, start),
        Ok(s) => developer_fields_stopped(bytes, def, 0, s),
    }
}

/// The data message at `at`, after its header: the fields, then the
/// developer fields. The result holds the message, the position after it,
/// and the errors so far with those of the message.
pub open spec fn data_message_at(
    p: FitProfile,
    bytes: Seq<u8>,
    at: int,
    def: DefinitionModel,
    header: FitMessageHeader,
    errors: Seq<ErrorModel>,
) -> Result<(DataMessageModel, int, Seq<ErrorModel>), ErrorModel> {
    match data_fields_from(
        p,
        bytes,
        def,
        0,
        DataRead { at, fields: Seq::empty(), developer_fields: Seq::empty(), errors },
    ) {
        Err(e) => Err(e),
        Ok(s) => match developer_fields_from(bytes, def, 0, s) {
            Err(e) => Err(e),
            Ok(s) => Ok(
                (
                    DataMessageModel {
                        global_message_number: def.global_message_number,
                        time_offset: header.time_offset,
                        fields: s.fields,
                        developer_fields: s.developer_fields,
                    },
                    s.at,
                    s.errors,
                ),
            ),
        },
    }
}

/// Reads the file header at the position of the reader. Only missing
/// bytes make it fail, and the reader then stays where the last read left
/// it.
pub fn read_file_header(reader: &mut ByteReader) -> (r: Result<FitFileHeader, ErrorKind>)
    ensures
        final(reader).bytes == old(reader).bytes,
        old(reader).offset <= final(reader).offset,
        r matches Err(e) ==> e@ is OutOfBoundsRead,
        match r {
            Ok(h) => file_header_at(old(reader).bytes@, old(reader).offset as int) == Ok::<
                _,
                ErrorModel,
            >((h, final(reader).offset as int)),
            Err(e) => file_header_at(old(reader).bytes@, old(reader).offset as int) == Err::<
                (FitFileHeader, int),
                _,
            >(e@),
        },
{
    let chunk = reader.read_bytes(12)?;
    let header_size = chunk[0];
    let ghost at = old(reader).offset as int;
    let ghost bytes = reader.bytes@;
    assert(chunk@ =~= bytes.subrange(at, at + 12));
    let header_crc = if header_size == 0x0E {
        reader.read_next_u16(false)?
    } else {
        0
    };
    Ok(
        FitFileHeader {
            header_size: header_size as u32,
            protocol_version: chunk[1],
            profile_version: get_u16(chunk, 2, false),
            data_size: get_u32(chunk, 4, false),
            data_type: get_u32(chunk, 8, false),
            header_crc,
        },
    )
}

/// The header that a byte stands for.
pub fn message_header(byte: u8) -> (r: FitMessageHeader)
    ensures
        r == message_header_of(byte),
        r.local_message_number < 16,
{
    if byte >= 0x80 {
        FitMessageHeader {
            contains_developer_data: false,
            local_message_number: (byte / 0x20) % 4,
            message_type: FitMessageType::Data,
            time_offset: Some(byte % 0x20),
        }
    } else if byte >= 0x40 {
        FitMessageHeader {
            contains_developer_data: (byte / 0x20) % 2 == 1,
            local_message_number: byte % 0x10,
            message_type: FitMessageType::Definition,
            time_offset: None,
        }
    } else {
        FitMessageHeader {
            contains_developer_data: false,
            local_message_number: byte % 0x10,
            message_type: FitMessageType::Data,
            time_offset: None,
        }
    }
}

/// Reads the one-byte header of a message.
pub fn read_message_header(reader: &mut ByteReader) -> (r: Result<FitMessageHeader, ErrorKind>)
    ensures
        old(reader).read_moves(1, final(reader), failure_of(r)),
        r matches Ok(h) ==> h == message_header_of(old(reader).bytes@[old(reader).offset as int]),
{
    let byte = reader.read_next_u8()?;
    Ok(message_header(byte))
}

/// The field definitions that a chunk holds.
pub fn field_definitions(chunk: &[u8], n: usize) -> (r: Result<Vec<FieldDefinition>, ErrorKind>)
    requires
        chunk@.len() == 3 * n,
    ensures
        match r {
            Ok(defs) => field_definitions_of(chunk@, n as int) == Ok::<_, ErrorModel>(defs@),
            Err(e) => field_definitions_of(chunk@, n as int) == Err::<Seq<FieldDefinition>, _>(e@),
        },
{
    let _ = chunk.len();
    let mut defs: Vec<FieldDefinition> = Vec::new();
    let ghost pred = |t: u8| BaseType::spec_from_tag(t) is None;
    let ghost tags = tags_of(chunk@, n as int);
    let mut k: usize = 0;
    while k < n
        invariant
            k <= n,
            chunk@.len() == 3 * n,
            3 * n <= usize::MAX,
            defs.len() == k,
            tags == tags_of(chunk@, n as int),
            pred == (|t: u8| BaseType::spec_from_tag(t) is None),
            first_from(tags, pred, 0) == first_from(tags, pred, k as int),
            forall|j: int|
                0 <= j < k ==> defs[j] == (FieldDefinition {
                    field_definition_number: chunk@[3 * j],
                    size: chunk@[3 * j + 1],
                    base_type: BaseType::spec_from_tag(chunk@[3 * j + 2]).unwrap(),
                }),
        decreases n - k,
    {
        assert(tags[k as int] == chunk@[3 * k + 2]);
        let base_type = match BaseType::from_tag(chunk[3 * k + 2]) {
            Some(t) => t,
            None => {
                return Err(ErrorKind::BaseTypeMismatch { tag: chunk[3 * k + 2] });
            },
        };
        defs.push(
            FieldDefinition {
                field_definition_number: chunk[3 * k],
                size: chunk[3 * k + 1],
                base_type,
            },
        );
        k += 1;
    }
    assert(defs@ =~= field_definitions_of(chunk@, n as int)->Ok_0);
    Ok(defs)
}

/// The developer field definitions that a chunk holds.
pub fn developer_definitions(chunk: &[u8], n: usize) -> (r: Vec<DeveloperFieldDefinition>)
    requires
        chunk@.len() == 3 * n,
    ensures
        r@ == developer_definitions_of(chunk@, n as int),
{
    let _ = chunk.len();
    let mut defs: Vec<DeveloperFieldDefinition> = Vec::new();
    let mut k: usize = 0;
    while k < n
        invariant
            k <= n,
            chunk@.len() == 3 * n,
            3 * n <= usize::MAX,
            defs.len() == k,
            forall|j: int|
                0 <= j < k ==> defs[j] == (DeveloperFieldDefinition {
                    field_number: chunk@[3 * j],
                    size: chunk@[3 * j + 1],
                    developer_data_index: chunk@[3 * j + 2],
                }),
        decreases n - k,
    {
        defs.push(
            DeveloperFieldDefinition {
                field_number: chunk[3 * k],
                size: chunk[3 * k + 1],
                developer_data_index: chunk[3 * k + 2],
            },
        );
        k += 1;
    }
    assert(defs@ =~= developer_definitions_of(chunk@, n as int));
    defs
}

/// Reads a definition message, after its header. It fails where bytes are
/// missing or a tag is that of no base type, and the reader then stays
/// where the last read left it, as [`definition_stopped`] says.
pub fn read_definition_message(reader: &mut ByteReader, header: &FitMessageHeader) -> (r: Result<
    FitDefinitionMessage,
    ErrorKind,
>)
    ensures
        final(reader).bytes == old(reader).bytes,
        old(reader).offset <= final(reader).offset,
        r is Ok ==> final(reader).offset <= final(reader).bytes@.len(),
        r matches Err(e) ==> e@ is OutOfBoundsRead || e@ is BaseTypeMismatch,
        final(reader).offset == definition_stopped(
            old(reader).bytes@,
            old(reader).offset as int,
            *header,
        ),
        match r {
            Ok(m) => definition_at(old(reader).bytes@, old(reader).offset as int, *header) == Ok::<
                _,
                ErrorModel,
            >((m@, final(reader).offset as int)),
            Err(e) => definition_at(old(reader).bytes@, old(reader).offset as int, *header)
                == Err::<(DefinitionModel, int), _>(e@),
        },
{
    let ghost bytes = reader.bytes@;
    let ghost at = old(reader).offset as int;
    let fixed = reader.read_bytes(5)?;
    assert(fixed@ =~= bytes.subrange(at, at + 5));
    let architecture = Architecture::from_byte(fixed[1]);
    let global_message_number = get_u16(fixed, 2, architecture.is_big_endian());
    let n = fixed[4] as usize;
    let chunk = reader.read_bytes(3 * n)?;
    let field_definitions = field_definitions(chunk, n)?;
    let developer_field_definitions = if header.contains_developer_data {
        let m = reader.read_next_u8()? as usize;
        let chunk = reader.read_bytes(3 * m)?;
        developer_definitions(chunk, m)
    } else {
        Vec::new()
    };
    Ok(
        FitDefinitionMessage {
            architecture,
            local_message_number: header.local_message_number,
            global_message_number,
            field_definitions,
            developer_field_definitions,
        },
    )
}

/// The element of a numeric base type at `at` of a chunk.
fn scalar(chunk: &[u8], at: usize, t: BaseType, big_endian: bool) -> (r: Value)
    requires
        t != BaseType::String,
        at + t.spec_size() <= chunk@.len(),
    ensures
        r@ == scalar_at(chunk@, at as int, t, big_endian),
        !(r@ is Array),
{
    match t {
        BaseType::Enum => Value::Enum(chunk[at]),
        BaseType::SInt8 => Value::SInt8(to_i8(chunk[at])),
        BaseType::UInt8 => Value::UInt8(chunk[at]),
        BaseType::SInt16 => Value::SInt16(to_i16(get_u16(chunk, at, big_endian))),
        BaseType::UInt16 => Value::UInt16(get_u16(chunk, at, big_endian)),
        BaseType::SInt32 => Value::SInt32(to_i32(get_u32(chunk, at, big_endian))),
        BaseType::UInt32 => Value::UInt32(get_u32(chunk, at, big_endian)),
        BaseType::String => Value::Byte(0),
        BaseType::Float32 => Value::Float32(get_u32(chunk, at, big_endian)),
        BaseType::Float64 => Value::Float64(get_u64(chunk, at, big_endian)),
        BaseType::UInt8z => Value::UInt8z(chunk[at]),
        BaseType::UInt16z => Value::UInt16z(get_u16(chunk, at, big_endian)),
        BaseType::UInt32z => Value::UInt32z(get_u32(chunk, at, big_endian)),
        BaseType::Byte => Value::Byte(chunk[at]),
        BaseType::SInt64 => Value::SInt64(to_i64(get_u64(chunk, at, big_endian))),
        BaseType::UInt64 => Value::UInt64(get_u64(chunk, at, big_endian)),
        BaseType::UInt64z => Value::UInt64z(get_u64(chunk, at, big_endian)),
    }
}

/// The text of a text field: its bytes up to the first NUL, decoded.
/// Well-formed bytes give the text that they encode, which holds no NUL.
pub fn field_text(chunk: &[u8]) -> (r: String)
    ensures
        r@ == text_of(chunk@),
        well_formed(text_bytes(chunk@)) ==> r@ == decoding_of(text_bytes(chunk@)) && !r@.contains(
            '\0',
        ),
{
    let ghost pred = |b: u8| b == 0;
    let mut i: usize = 0;
    while i < chunk.len()
        invariant
            i <= chunk.len(),
            pred == (|b: u8| b == 0),
            first_from(chunk@, pred, 0) == first_from(chunk@, pred, i as int),
            forall|j: int| 0 <= j < i ==> chunk@[j] != 0,
        ensures
            i <= chunk.len(),
            text_bytes(chunk@) == chunk@.subrange(0, i as int),
            forall|j: int| 0 <= j < i ==> chunk@[j] != 0,
        decreases chunk.len() - i,
    {
        if chunk[i] == 0 {
            assert(chunk@.take(i as int) =~= chunk@.subrange(0, i as int));
            break ;
        }
        i += 1;
    }
    assert(chunk@.subrange(0, chunk@.len() as int) =~= chunk@);
    proof {
        if well_formed(text_bytes(chunk@)) {
            lemma_decoded_without_nul(text_bytes(chunk@));
        }
    }
    string_from_utf8_lossy(vstd::slice::slice_subrange(chunk, 0, i))
}

/// The elements that the bytes of a field hold.
fn elements(chunk: &[u8], t: BaseType, big_endian: bool) -> (r: Vec<Value>)
    requires
        chunk@.len() % (t.spec_size() as nat) == 0,
    ensures
        value_models(r@) == elements_of(chunk@, t, big_endian),
        text_decoded(chunk@, t),
{
    let mut values: Vec<Value> = Vec::new();
    if t == BaseType::String {
        if chunk.len() > 0 {
            values.push(Value::String(field_text(chunk)));
        }
        assert(value_models(values@) =~= elements_of(chunk@, t, big_endian));
        return values;
    }
    let width = t.size() as usize;
    let count = chunk.len() / width;
    let mut i: usize = 0;
    while i < count
        invariant
            i <= count,
            t != BaseType::String,
            width == t.spec_size(),
            width > 0,
            count == chunk@.len() / (width as nat),
            chunk@.len() % (width as nat) == 0,
            chunk@.len() <= usize::MAX,
            values.len() == i,
            forall|j: int|
                0 <= j < i ==> values[j]@ == scalar_at(chunk@, j * width, t, big_endian),
        decreases count - i,
    {
        assert(i * width + width <= chunk@.len()) by (nonlinear_arith)
            requires
                i < count,
                count == chunk@.len() / (width as nat),
                chunk@.len() % (width as nat) == 0,
                width > 0,
        ;
        values.push(scalar(chunk, i * width, t, big_endian));
        i += 1;
    }
    assert(value_models(values@) =~= elements_of(chunk@, t, big_endian));
    values
}

/// The value that the bytes of a field hold, as [`field_value_of`] defines
/// it.
pub fn decode_field_value(chunk: &[u8], t: BaseType, big_endian: bool, is_array: bool) -> (r: Result<
    Value,
    ErrorKind,
>)
    ensures
        match r {
            Ok(v) => field_value_of(chunk@, t, big_endian, is_array) == Ok::<_, ErrorModel>(v@),
            Err(e) => field_value_of(chunk@, t, big_endian, is_array) == Err::<ValueModel, _>(e@),
        },
        r matches Ok(v) ==> v@.is_valid(),
        text_decoded(chunk@, t),
{
    if chunk.len() % (t.size() as usize) != 0 {
        return Err(ErrorKind::SizeMismatch { field_size: chunk.len(), base_type_size: t.size() });
    }
    let mut values = elements(chunk, t, big_endian);
    let ghost models = value_models(values@);
    let value = if values.len() == 1 && !is_array {
        assert(models[0] == values[0]@);
        values.swap_remove(0)
    } else {
        proof {
            lemma_array_model(values);
        }
        Value::Array(values)
    };
    if !value.is_valid() {
        Err(ErrorKind::InvalidFieldValue { value, base_type: t, invalid: t.invalid() })
    } else {
        Ok(value)
    }
}

/// Reads the value of a field of `size` bytes. Only missing bytes leave the
/// reader where it was.
pub fn read_field_value(
    reader: &mut ByteReader,
    size: usize,
    t: BaseType,
    big_endian: bool,
    is_array: bool,
) -> (r: Result<Value, ErrorKind>)
    ensures
        final(reader).bytes == old(reader).bytes,
        if old(reader).can_read(size as int) {
            &&& final(reader).offset == old(reader).offset + size
            &&& match r {
                Ok(v) => field_value_of(
                    old(reader).bytes@.subrange(
                        old(reader).offset as int,
                        old(reader).offset + size,
                    ),
                    t,
                    big_endian,
                    is_array,
                ) == Ok::<_, ErrorModel>(v@),
                Err(e) => field_value_of(
                    old(reader).bytes@.subrange(
                        old(reader).offset as int,
                        old(reader).offset + size,
                    ),
                    t,
                    big_endian,
                    is_array,
                ) == Err::<ValueModel, _>(e@),
            }
        } else {
            &&& final(reader).offset == old(reader).offset
            &&& r matches Err(e)
            &&& e@ == old(reader).out_of_bounds(size)
        },
        old(reader).can_read(size as int) ==> text_decoded(
            old(reader).bytes@.subrange(old(reader).offset as int, old(reader).offset + size),
            t,
        ),
{
    let chunk = reader.read_bytes(size)?;
    decode_field_value(chunk, t, big_endian, is_array)
}

/// The models of a vector of errors with one more.
pub proof fn lemma_error_models_push(errors: Seq<ErrorKind>, e: ErrorKind)
    ensures
        error_models(errors.push(e)) == error_models(errors).push(e@),
{
    assert(error_models(errors.push(e)) =~= error_models(errors).push(e@));
}

/// The state of the reading of a data message.
pub open spec fn data_read(
    at: int,
    fields: Seq<DataField>,
    developer_fields: Seq<DeveloperField>,
    errors: Seq<ErrorKind>,
) -> DataRead {
    DataRead {
        at,
        fields: data_field_models(fields),
        developer_fields: developer_field_models(developer_fields),
        errors: error_models(errors),
    }
}

/// Reads a data message, after its header, as [`data_message_at`] defines
/// it, and records the errors of its fields. Only missing bytes make it
/// fail; the reader and the errors are then left as
/// [`data_message_stopped`] says.
#[verifier::loop_isolation(false)]
pub fn read_data_message(
    profile: &FitProfile,
    reader: &mut ByteReader,
    def: &FitDefinitionMessage,
    header: &FitMessageHeader,
    errors: &mut Vec<ErrorKind>,
) -> (r: Result<FitDataMessage, ErrorKind>)
    ensures
        final(reader).bytes == old(reader).bytes,
        old(reader).offset <= final(reader).offset,
        r is Ok && old(reader).offset <= old(reader).bytes@.len() ==> final(reader).offset
            <= final(reader).bytes@.len(),
        errors_kept(error_models(old(errors)@), error_models(final(errors)@)),
        r matches Err(e) ==> e@ is OutOfBoundsRead,
        final(reader).offset == data_message_stopped(
            *profile,
            old(reader).bytes@,
            old(reader).offset as int,
            def@,
            error_models(old(errors)@),
        ).at,
        error_models(final(errors)@) == data_message_stopped(
            *profile,
            old(reader).bytes@,
            old(reader).offset as int,
            def@,
            error_models(old(errors)@),
        ).errors,
        match r {
            Ok(m) => data_message_at(
                *profile,
                old(reader).bytes@,
                old(reader).offset as int,
                def@,
                *header,
                error_models(old(errors)@),
            ) == Ok::<_, ErrorModel>(
                (m@, final(reader).offset as int, error_models(final(errors)@)),
            ),
            Err(e) => data_message_at(
                *profile,
                old(reader).bytes@,
                old(reader).offset as int,
                def@,
                *header,
                error_models(old(errors)@),
            ) == Err::<(DataMessageModel, int, Seq<ErrorModel>), _>(e@),
        },
{
    let ghost bytes = reader.bytes@;
    let mut fields: Vec<DataField> = Vec::new();
    let mut developer_fields: Vec<DeveloperField> = Vec::new();
    let big_endian = def.architecture.is_big_endian();
    let ghost start = data_read(reader.offset as int, fields@, developer_fields@, errors@);
    let ghost goal = data_fields_from(*profile, bytes, def@, 0, start);
    let ghost stop = data_fields_stopped(*profile, bytes, def@, 0, start);
    assert(start.fields =~= Seq::empty());
    assert(start.developer_fields =~= Seq::empty());
    let mut k: usize = 0;
    while k < def.field_definitions.len()
        invariant
            k <= def.field_definitions.len(),
            reader.bytes@ == bytes,
            reader.bytes == old(reader).bytes,
            old(reader).offset <= reader.offset,
            old(reader).offset <= bytes.len() ==> reader.offset <= bytes.len(),
            errors_kept(error_models(old(errors)@), error_models(errors@)),
            developer_fields@.len() == 0,
            stop.at == data_fields_stopped(
                *profile,
                bytes,
                def@,
                k as int,
                data_read(reader.offset as int, fields@, developer_fields@, errors@),
            ).at,
            stop.errors == data_fields_stopped(
                *profile,
                bytes,
                def@,
                k as int,
                data_read(reader.offset as int, fields@, developer_fields@, errors@),
            ).errors,
            goal == data_fields_from(
                *profile,
                bytes,
                def@,
                k as int,
                data_read(reader.offset as int, fields@, developer_fields@, errors@),
            ),
        decreases def.field_definitions.len() - k,
    {
        let d = &def.field_definitions[k];
        let is_array = profile.declares_array(def.global_message_number, d.field_definition_number);
        let ghost before = errors@;
        match read_field_value(reader, d.size as usize, d.base_type, big_endian, is_array) {
            Ok(value) => {
                insert_data_field(
                    &mut fields,
                    DataField { field_definition_number: d.field_definition_number, value },
                );
            },
            Err(e) => {
                if let ErrorKind::OutOfBoundsRead { .. } = e {
                    return Err(e);
                }
                let wrapped = ErrorKind::DecodeFieldFailed {
                    message_no: def.global_message_number,
                    field_no: d.field_definition_number,
                    reason: Box::new(e),
                };
                errors.push(wrapped);
                proof {
                    lemma_error_models_push(before, wrapped);
                }
            },
        }
        k += 1;
    }
    let ghost middle = data_read(reader.offset as int, fields@, developer_fields@, errors@);
    let ghost goal2 = developer_fields_from(bytes, def@, 0, middle);
    let ghost stop2 = developer_fields_stopped(bytes, def@, 0, middle);
    let mut k: usize = 0;
    while k < def.developer_field_definitions.len()
        invariant
            k <= def.developer_field_definitions.len(),
            reader.bytes@ == bytes,
            reader.bytes == old(reader).bytes,
            old(reader).offset <= reader.offset,
            old(reader).offset <= bytes.len() ==> reader.offset <= bytes.len(),
            errors_kept(error_models(old(errors)@), error_models(errors@)),
            stop2.at == developer_fields_stopped(
                bytes,
                def@,
                k as int,
                data_read(reader.offset as int, fields@, developer_fields@, errors@),
            ).at,
            stop2.errors == developer_fields_stopped(
                bytes,
                def@,
                k as int,
                data_read(reader.offset as int, fields@, developer_fields@, errors@),
            ).errors,
            goal2 == developer_fields_from(
                bytes,
                def@,
                k as int,
                data_read(reader.offset as int, fields@, developer_fields@, errors@),
            ),
        decreases def.developer_field_definitions.len() - k,
    {
        let d = &def.developer_field_definitions[k];
        let ghost before = errors@;
        match read_field_value(reader, d.size as usize, BaseType::Byte, big_endian, false) {
            Ok(value) => {
                insert_developer_field(
                    &mut developer_fields,
                    DeveloperField {
                        developer_data_index: d.developer_data_index,
                        field_number: d.field_number,
                        value,
                    },
                );
            },
            Err(e) => {
                if let ErrorKind::OutOfBoundsRead { .. } = e {
                    return Err(e);
                }
                let wrapped = ErrorKind::DecodeDeveloperFieldFailed {
                    message_no: def.global_message_number,
                    data_index: d.developer_data_index,
                    reason: Box::new(e),
                };
                errors.push(wrapped);
                proof {
                    lemma_error_models_push(before, wrapped);
                }
            },
        }
        k += 1;
    }
    Ok(
        FitDataMessage {
            fields,
            developer_fields,
            global_message_number: def.global_message_number,
            time_offset: header.time_offset,
        },
    )
}

/// Whether every field holds a valid value.
pub open spec fn fields_valid(fields: Seq<DataFieldModel>) -> bool {
    forall|i: int| 0 <= i < fields.len() ==> (#[trigger] fields[i]).value.is_valid()
}

/// Whether every developer field holds a valid value.
pub open spec fn developer_fields_valid(fields: Seq<DeveloperFieldModel>) -> bool {
    forall|i: int| 0 <= i < fields.len() ==> (#[trigger] fields[i]).value.is_valid()
}

/// Valid fields stay valid with one more valid field.
pub proof fn lemma_fields_insert_valid(fields: Seq<DataFieldModel>, field: DataFieldModel)
    requires
        fields_valid(fields),
        field.value.is_valid(),
    ensures
        fields_valid(fields_insert(fields, field)),
{
    lemma_first_from(
        fields,
        |f: DataFieldModel| f.field_definition_number == field.field_definition_number,
        0,
    );
}

/// The reading of fields keeps them valid: a value that is not valid is
/// never put among them.
pub proof fn lemma_data_fields_valid(
    p: FitProfile,
    bytes: Seq<u8>,
    def: DefinitionModel,
    k: int,
    s: DataRead,
)
    requires
        0 <= k,
        fields_valid(s.fields),
    ensures
        data_fields_from(p, bytes, def, k, s) matches Ok(r) ==> fields_valid(r.fields)
            && r.developer_fields == s.developer_fields,
    decreases def.field_definitions.len() - k,
{
    if k < def.field_definitions.len() {
        let d = def.field_definitions[k];
        if readable(bytes, s.at, d.size as int) {
            let value = field_value_of(
                bytes.subrange(s.at, s.at + d.size),
                d.base_type,
                def.architecture.spec_is_big_endian(),
                p.spec_declares_array(def.global_message_number, d.field_definition_number),
            );
            match value {
                Ok(v) => {
                    let field = DataFieldModel {
                        field_definition_number: d.field_definition_number,
                        value: v,
                    };
                    lemma_fields_insert_valid(s.fields, field);
                    lemma_data_fields_valid(
                        p,
                        bytes,
                        def,
                        k + 1,
                        DataRead {
                            at: s.at + d.size,
                            fields: fields_insert(s.fields, field),
                            ..s
                        },
                    );
                },
                Err(e) => {
                    lemma_data_fields_valid(
                        p,
                        bytes,
                        def,
                        k + 1,
                        DataRead {
                            at: s.at + d.size,
                            errors: s.errors.push(
                                ErrorModel::DecodeFieldFailed {
                                    message_no: def.global_message_number,
                                    field_no: d.field_definition_number,
                                    reason: Box::new(e),
                                },
                            ),
                            ..s
                        },
                    );
                },
            }
        }
    }
}

/// The reading of developer fields keeps them valid.
pub proof fn lemma_developer_fields_valid(bytes: Seq<u8>, def: DefinitionModel, k: int, s: DataRead)
    requires
        0 <= k,
        developer_fields_valid(s.developer_fields),
    ensures
        developer_fields_from(bytes, def, k, s) matches Ok(r) ==> developer_fields_valid(
            r.developer_fields,
        ) && r.fields == s.fields,
    decreases def.developer_field_definitions.len() - k,
{
    if k < def.developer_field_definitions.len() {
        let d = def.developer_field_definitions[k];
        if readable(bytes, s.at, d.size as int) {
            let value = field_value_of(
                bytes.subrange(s.at, s.at + d.size),
                BaseType::Byte,
                def.architecture.spec_is_big_endian(),
                false,
            );
            match value {
                Ok(v) => {
                    let field = DeveloperFieldModel {
                        developer_data_index: d.developer_data_index,
                        field_number: d.field_number,
                        value: v,
                    };
                    lemma_first_from(
                        s.developer_fields,
                        |f: DeveloperFieldModel|
                            f.developer_data_index == field.developer_data_index && f.field_number
                                == field.field_number,
                        0,
                    );
                    lemma_developer_fields_valid(
                        bytes,
                        def,
                        k + 1,
                        DataRead {
                            at: s.at + d.size,
                            developer_fields: developer_fields_insert(s.developer_fields, field),
                            ..s
                        },
                    );
                },
                Err(e) => {
                    lemma_developer_fields_valid(
                        bytes,
                        def,
                        k + 1,
                        DataRead {
                            at: s.at + d.size,
                            errors: s.errors.push(
                                ErrorModel::DecodeDeveloperFieldFailed {
                                    message_no: def.global_message_number,
                                    data_index: d.developer_data_index,
                                    reason: Box::new(e),
                                },
                            ),
                            ..s
                        },
                    );
                },
            }
        }
    }
}

/// Every raw value of a data message is valid: what is not valid is
/// recorded as an error and left out before the message is decoded.
pub proof fn lemma_data_message_valid(
    p: FitProfile,
    bytes: Seq<u8>,
    at: int,
    def: DefinitionModel,
    header: FitMessageHeader,
    errors: Seq<ErrorModel>,
)
    ensures
        data_message_at(p, bytes, at, def, header, errors) matches Ok(r) ==> fields_valid(
            r.0.fields,
        ) && developer_fields_valid(r.0.developer_fields),
{
    let start = DataRead { at, fields: Seq::empty(), developer_fields: Seq::empty(), errors };
    lemma_data_fields_valid(p, bytes, def, 0, start);
    if let Ok(s) = data_fields_from(p, bytes, def, 0, start) {
        lemma_developer_fields_valid(bytes, def, 0, s);
    }
}

/// The reading of the fields of a data message fails only for missing
/// bytes.
pub proof fn lemma_fields_failure(
    p: FitProfile,
    bytes: Seq<u8>,
    def: DefinitionModel,
    k: int,
    s: DataRead,
)
    requires
        0 <= k,
    ensures
        data_fields_from(p, bytes, def, k, s) matches Err(e) ==> e is OutOfBoundsRead,
    decreases def.field_definitions.len() - k,
{
    if k < def.field_definitions.len() {
        let d = def.field_definitions[k];
        if readable(bytes, s.at, d.size as int) {
            match field_value_of(
                bytes.subrange(s.at, s.at + d.size),
                d.base_type,
                def.architecture.spec_is_big_endian(),
                p.spec_declares_array(def.global_message_number, d.field_definition_number),
            ) {
                Ok(value) => lemma_fields_failure(
                    p,
                    bytes,
                    def,
                    k + 1,
                    DataRead {
                        at: s.at + d.size,
                        fields: fields_insert(
                            s.fields,
                            DataFieldModel {
                                field_definition_number: d.field_definition_number,
                                value,
                            },
                        ),
                        ..s
                    },
                ),
                Err(e) => lemma_fields_failure(
                    p,
                    bytes,
                    def,
                    k + 1,
                    DataRead {
                        at: s.at + d.size,
                        errors: s.errors.push(
                            ErrorModel::DecodeFieldFailed {
                                message_no: def.global_message_number,
                                field_no: d.field_definition_number,
                                reason: Box::new(e),
                            },
                        ),
                        ..s
                    },
                ),
            }
        }
    }
}

/// The reading of the developer fields of a data message fails only for
/// missing bytes.
pub proof fn lemma_developer_fields_failure(bytes: Seq<u8>, def: DefinitionModel, k: int, s: DataRead)
    requires
        0 <= k,
    ensures
        developer_fields_from(bytes, def, k, s) matches Err(e) ==> e is OutOfBoundsRead,
    decreases def.developer_field_definitions.len() - k,
{
    if k < def.developer_field_definitions.len() {
        let d = def.developer_field_definitions[k];
        if readable(bytes, s.at, d.size as int) {
            match field_value_of(
                bytes.subrange(s.at, s.at + d.size),
                BaseType::Byte,
                def.architecture.spec_is_big_endian(),
                false,
            ) {
                Ok(value) => lemma_developer_fields_failure(
                    bytes,
                    def,
                    k + 1,
                    DataRead {
                        at: s.at + d.size,
                        developer_fields: developer_fields_insert(
                            s.developer_fields,
                            DeveloperFieldModel {
                                developer_data_index: d.developer_data_index,
                                field_number: d.field_number,
                                value,
                            },
                        ),
                        ..s
                    },
                ),
                Err(e) => lemma_developer_fields_failure(
                    bytes,
                    def,
                    k + 1,
                    DataRead {
                        at: s.at + d.size,
                        errors: s.errors.push(
                            ErrorModel::DecodeDeveloperFieldFailed {
                                message_no: def.global_message_number,
                                data_index: d.developer_data_index,
                                reason: Box::new(e),
                            },
                        ),
                        ..s
                    },
                ),
            }
        }
    }
}

/// The reading of a data message fails only for missing bytes.
pub proof fn lemma_data_message_failure(
    p: FitProfile,
    bytes: Seq<u8>,
    at: int,
    def: DefinitionModel,
    header: FitMessageHeader,
    errors: Seq<ErrorModel>,
)
    ensures
        data_message_at(p, bytes, at, def, header, errors) matches Err(e) ==> e is OutOfBoundsRead,
{
    let start = DataRead { at, fields: Seq::empty(), developer_fields: Seq::empty(), errors };
    lemma_fields_failure(p, bytes, def, 0, start);
    if let Ok(s) = data_fields_from(p, bytes, def, 0, start) {
        lemma_developer_fields_failure(bytes, def, 0, s);
    }
}

/// The reading of the fields of a data message keeps the errors recorded
/// before it.
pub proof fn lemma_fields_keep_errors(
    p: FitProfile,
    bytes: Seq<u8>,
    def: DefinitionModel,
    k: int,
    s: DataRead,
)
    requires
        0 <= k,
    ensures
        data_fields_from(p, bytes, def, k, s) matches Ok(r) ==> errors_kept(s.errors, r.errors),
    decreases def.field_definitions.len() - k,
{
    if k < def.field_definitions.len() {
        let d = def.field_definitions[k];
        if readable(bytes, s.at, d.size as int) {
            let next = match field_value_of(
                bytes.subrange(s.at, s.at + d.size),
                d.base_type,
                def.architecture.spec_is_big_endian(),
                p.spec_declares_array(def.global_message_number, d.field_definition_number),
            ) {
                Ok(value) => DataRead {
                    at: s.at + d.size,
                    fields: fields_insert(
                        s.fields,
                        DataFieldModel { field_definition_number: d.field_definition_number, value },
                    ),
                    ..s
                },
                Err(e) => DataRead {
                    at: s.at + d.size,
                    errors: s.errors.push(
                        ErrorModel::DecodeFieldFailed {
                            message_no: def.global_message_number,
                            field_no: d.field_definition_number,
                            reason: Box::new(e),
                        },
                    ),
                    ..s
                },
            };
            assert(errors_kept(s.errors, next.errors));
            lemma_fields_keep_errors(p, bytes, def, k + 1, next);
        }
    }
}

/// The reading of the developer fields of a data message keeps the errors
/// recorded before it.
pub proof fn lemma_developer_fields_keep_errors(
    bytes: Seq<u8>,
    def: DefinitionModel,
    k: int,
    s: DataRead,
)
    requires
        0 <= k,
    ensures
        developer_fields_from(bytes, def, k, s) matches Ok(r) ==> errors_kept(s.errors, r.errors),
    decreases def.developer_field_definitions.len() - k,
{
    if k < def.developer_field_definitions.len() {
        let d = def.developer_field_definitions[k];
        if readable(bytes, s.at, d.size as int) {
            let next = match field_value_of(
                bytes.subrange(s.at, s.at + d.size),
                BaseType::Byte,
                def.architecture.spec_is_big_endian(),
                false,
            ) {
                Ok(value) => DataRead {
                    at: s.at + d.size,
                    developer_fields: developer_fields_insert(
                        s.developer_fields,
                        DeveloperFieldModel {
                            developer_data_index: d.developer_data_index,
                            field_number: d.field_number,
                            value,
                        },
                    ),
                    ..s
                },
                Err(e) => DataRead {
                    at: s.at + d.size,
                    errors: s.errors.push(
                        ErrorModel::DecodeDeveloperFieldFailed {
                            message_no: def.global_message_number,
                            data_index: d.developer_data_index,
                            reason: Box::new(e),
                        },
                    ),
                    ..s
                },
            };
            assert(errors_kept(s.errors, next.errors));
            lemma_developer_fields_keep_errors(bytes, def, k + 1, next);
        }
    }
}

/// The reading of a data message keeps the errors recorded before it.
pub proof fn lemma_data_message_keeps_errors(
    p: FitProfile,
    bytes: Seq<u8>,
    at: int,
    def: DefinitionModel,
    header: FitMessageHeader,
    errors: Seq<ErrorModel>,
)
    ensures
        data_message_at(p, bytes, at, def, header, errors) matches Ok(r) ==> errors_kept(
            errors,
            r.2,
        ),
{
    let start = DataRead { at, fields: Seq::empty(), developer_fields: Seq::empty(), errors };
    lemma_fields_keep_errors(p, bytes, def, 0, start);
    if let Ok(s) = data_fields_from(p, bytes, def, 0, start) {
        lemma_developer_fields_keep_errors(bytes, def, 0, s);
    }
}

/// A text field of well-formed bytes is valid and holds the text that the
/// bytes up to the first NUL encode, once a reading has learnt so much of
/// its text.
pub proof fn lemma_text_field(chunk: Seq<u8>, big_endian: bool)
    requires
        chunk.len() > 0,
        well_formed(text_bytes(chunk)),
        text_decoded(chunk, BaseType::String),
    ensures
        field_value_of(chunk, BaseType::String, big_endian, false) == Ok::<_, ErrorModel>(
            ValueModel::String(decoding_of(text_bytes(chunk))),
        ),
{
}

} // verus!
