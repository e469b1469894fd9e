//! The errors of the decoder: those that end a decoding, and those that are
//! recorded while it goes on.
use vstd::prelude::*;
use crate::fit::{BaseType, Value, ValueModel};

verus! {

/// Why a field could not be projected through the profile.
#[derive(Debug, Clone, Copy, PartialEq, Eq, Structural)]
pub enum ProjectionFault {
    /// The message has no field with this definition number.
    UnknownField,
    /// The profile fixes the length of the array, and the value has another.
    ArrayLengthMismatch { expected: usize, actual: usize },
    /// The value is an array, and the profile declares none.
    UnexpectedArray,
    /// The profile declares a date and time, and the value is no `UInt32`.
    NotADateTime,
    /// A scale or an offset applies, and the value is no number.
    NotNumeric,
    /// The field has components, and the value is no unsigned integer.
    NotUnsigned,
    /// A component is wider than 64 bits, or of a type that no integer fits.
    BadComponent,
    /// The value has fewer bits than the components take.
    OutOfBits,
}

/// An error of the decoder.
#[derive(Debug, PartialEq)]
#[allow(inconsistent_fields)]
pub enum ErrorKind {
    InvalidFitFile,
    InvalidCRC,
    OutOfBoundsRead { offset: usize, requested_len: usize, remaining_len: usize },
    ByteConversionError { source_len: usize },
    InvalidMessageHeader,
    InvalidFieldValue { base_type: BaseType, invalid: u64, value: Value },
    DecodeFieldFailed { message_no: u16, field_no: u8, reason: Box<ErrorKind> },
    DecodeDeveloperFieldFailed { message_no: u16, data_index: u8, reason: Box<ErrorKind> },
    SizeMismatch { field_size: usize, base_type_size: u8 },
    LocalDefinitionMessageNotFound(u8),
    GlobalDefinitionMessageNotFound(u16),
    UnknownMessage(String),
    InvalidDeveloperField { name: String },
    DecodeMessageFailed { message: String, reason: ProjectionFault, field_no: u8 },
    BaseTypeMismatch { tag: u8 },
    MissingTimestampRef,
    InvalidTimestamp { timestamp: u32 },
    MissingDeveloperDataDef { developer_data_index: u8 },
    MissingDeveloperFieldDescription { developer_data_index: u8, field_no: u8 },
}

/// The mathematical model of an [`ErrorKind`].
#[allow(inconsistent_fields)]
pub enum ErrorModel {
    InvalidFitFile,
    InvalidCRC,
    OutOfBoundsRead { offset: usize, requested_len: usize, remaining_len: usize },
    ByteConversionError { source_len: usize },
    InvalidMessageHeader,
    InvalidFieldValue { base_type: BaseType, invalid: u64, value: ValueModel },
    DecodeFieldFailed { message_no: u16, field_no: u8, reason: Box<ErrorModel> },
    DecodeDeveloperFieldFailed { message_no: u16, data_index: u8, reason: Box<ErrorModel> },
    SizeMismatch { field_size: usize, base_type_size: u8 },
    LocalDefinitionMessageNotFound(u8),
    GlobalDefinitionMessageNotFound(u16),
    UnknownMessage(Seq<char>),
    InvalidDeveloperField { name: Seq<char> },
    DecodeMessageFailed { message: Seq<char>, reason: ProjectionFault, field_no: u8 },
    BaseTypeMismatch { tag: u8 },
    MissingTimestampRef,
    InvalidTimestamp { timestamp: u32 },
    MissingDeveloperDataDef { developer_data_index: u8 },
    MissingDeveloperFieldDescription { developer_data_index: u8, field_no: u8 },
}

/// The model of an error.
pub open spec fn error_model(e: ErrorKind) -> ErrorModel
    decreases e,
{
    match e {
        ErrorKind::InvalidFitFile => ErrorModel::InvalidFitFile,
        ErrorKind::InvalidCRC => ErrorModel::InvalidCRC,
        ErrorKind::OutOfBoundsRead { offset, requested_len, remaining_len } => (
        ErrorModel::OutOfBoundsRead { offset, requested_len, remaining_len }),
        ErrorKind::ByteConversionError { source_len } => (ErrorModel::ByteConversionError {
            source_len,
        }),
        ErrorKind::InvalidMessageHeader => ErrorModel::InvalidMessageHeader,
        ErrorKind::InvalidFieldValue { base_type, invalid, value } => (
        ErrorModel::InvalidFieldValue { base_type, invalid, value: value@ }),
        ErrorKind::DecodeFieldFailed { message_no, field_no, reason } => (
        ErrorModel::DecodeFieldFailed {
            message_no,
            field_no,
            reason: Box::new(error_model(*reason)),
        }),
        ErrorKind::DecodeDeveloperFieldFailed { message_no, data_index, reason } => (
        ErrorModel::DecodeDeveloperFieldFailed {
            message_no,
            data_index,
            reason: Box::new(error_model(*reason)),
        }),
        ErrorKind::SizeMismatch { field_size, base_type_size } => (ErrorModel::SizeMismatch {
            field_size,
            base_type_size,
        }),
        ErrorKind::LocalDefinitionMessageNotFound(n) => ErrorModel::LocalDefinitionMessageNotFound(
            n,
        ),
        ErrorKind::GlobalDefinitionMessageNotFound(n) => (
        ErrorModel::GlobalDefinitionMessageNotFound(n)),
        ErrorKind::UnknownMessage(name) => ErrorModel::UnknownMessage(name@),
        ErrorKind::InvalidDeveloperField { name } => (ErrorModel::InvalidDeveloperField {
            name: name@,
        }),
        ErrorKind::DecodeMessageFailed { message, reason, field_no } => (
        ErrorModel::DecodeMessageFailed { message: message@, reason, field_no }),
        ErrorKind::BaseTypeMismatch { tag } => ErrorModel::BaseTypeMismatch { tag },
        ErrorKind::MissingTimestampRef => ErrorModel::MissingTimestampRef,
        ErrorKind::InvalidTimestamp { timestamp } => ErrorModel::InvalidTimestamp { timestamp },
        ErrorKind::MissingDeveloperDataDef { developer_data_index } => (
        ErrorModel::MissingDeveloperDataDef { developer_data_index }),
        ErrorKind::MissingDeveloperFieldDescription { developer_data_index, field_no } => (
        ErrorModel::MissingDeveloperFieldDescription { developer_data_index, field_no }),
    }
}

impl View for ErrorKind {
    type V = ErrorModel;

    open spec fn view(&self) -> ErrorModel {
        error_model(*self)
    }
}

/// Whether a list of errors starts with an earlier list: what was recorded
/// stays, and errors are only added.
pub open spec fn errors_kept(before: Seq<ErrorModel>, after: Seq<ErrorModel>) -> bool {
    before.len() <= after.len() && forall|i: int| 0 <= i < before.len() ==> after[i] == before[i]
}

/// The models of a sequence of errors, in order.
pub open spec fn error_models(errors: Seq<ErrorKind>) -> Seq<ErrorModel> {
    Seq::new(errors.len(), |i: int| errors[i]@)
}

impl ErrorModel {
    /// Whether the error ends a decoding. The others are recorded, and the
    /// decoding goes on.
    pub open spec fn is_fatal(self) -> bool {
        self is InvalidFitFile || self is InvalidCRC || self is OutOfBoundsRead
            || self is InvalidMessageHeader || self is LocalDefinitionMessageNotFound
            || self is BaseTypeMismatch || self is GlobalDefinitionMessageNotFound
            || self is UnknownMessage || self is InvalidDeveloperField
    }

    /// The machine-readable tag of the error: the name of its variant.
    pub open spec fn kind(self) -> Seq<char> {
        match self {
            ErrorModel::InvalidFitFile => "InvalidFitFile"@,
            ErrorModel::InvalidCRC => "InvalidCRC"@,
            ErrorModel::OutOfBoundsRead { .. } => "OutOfBoundsRead"@,
            ErrorModel::ByteConversionError { .. } => "ByteConversionError"@,
            ErrorModel::InvalidMessageHeader => "InvalidMessageHeader"@,
            ErrorModel::InvalidFieldValue { .. } => "InvalidFieldValue"@,
            ErrorModel::DecodeFieldFailed { .. } => "DecodeFieldFailed"@,
            ErrorModel::DecodeDeveloperFieldFailed { .. } => "DecodeDeveloperFieldFailed"@,
            ErrorModel::SizeMismatch { .. } => "SizeMismatch"@,
            ErrorModel::LocalDefinitionMessageNotFound(_) => "LocalDefinitionMessageNotFound"@,
            ErrorModel::GlobalDefinitionMessageNotFound(_) => "GlobalDefinitionMessageNotFound"@,
            ErrorModel::UnknownMessage(_) => "UnknownMessage"@,
            ErrorModel::InvalidDeveloperField { .. } => "InvalidDeveloperField"@,
            ErrorModel::DecodeMessageFailed { .. } => "DecodeMessageFailed"@,
            ErrorModel::BaseTypeMismatch { .. } => "BaseTypeMismatch"@,
            ErrorModel::MissingTimestampRef => "MissingTimestampRef"@,
            ErrorModel::InvalidTimestamp { .. } => "InvalidTimestamp"@,
            ErrorModel::MissingDeveloperDataDef { .. } => "MissingDeveloperDataDef"@,
            ErrorModel::MissingDeveloperFieldDescription { .. } => (
            "MissingDeveloperFieldDescription"@),
        }
    }
}

impl Clone for ErrorKind {
    fn clone(&self) -> (r: ErrorKind)
        ensures
            r@ == self@,
        decreases self,
    {
        match self {
            ErrorKind::InvalidFitFile => ErrorKind::InvalidFitFile,
            ErrorKind::InvalidCRC => ErrorKind::InvalidCRC,
            ErrorKind::OutOfBoundsRead { offset, requested_len, remaining_len } => (
            ErrorKind::OutOfBoundsRead {
                offset: *offset,
                requested_len: *requested_len,
                remaining_len: *remaining_len,
            }),
            ErrorKind::ByteConversionError { source_len } => (ErrorKind::ByteConversionError {
                source_len: *source_len,
            }),
            ErrorKind::InvalidMessageHeader => ErrorKind::InvalidMessageHeader,
            ErrorKind::InvalidFieldValue { base_type, invalid, value } => (
            ErrorKind::InvalidFieldValue {
                base_type: *base_type,
                invalid: *invalid,
                value: value.clone(),
            }),
            ErrorKind::DecodeFieldFailed { message_no, field_no, reason } => {
                let inner: &ErrorKind = &**reason;
                ErrorKind::DecodeFieldFailed {
                    message_no: *message_no,
                    field_no: *field_no,
                    reason: Box::new(inner.clone()),
                }
            },
            ErrorKind::DecodeDeveloperFieldFailed { message_no, data_index, reason } => {
                let inner: &ErrorKind = &**reason;
                ErrorKind::DecodeDeveloperFieldFailed {
                    message_no: *message_no,
                    data_index: *data_index,
                    reason: Box::new(inner.clone()),
                }
            },
            ErrorKind::SizeMismatch { field_size, base_type_size } => (ErrorKind::SizeMismatch {
                field_size: *field_size,
                base_type_size: *base_type_size,
            }),
            ErrorKind::LocalDefinitionMessageNotFound(n) => (
            ErrorKind::LocalDefinitionMessageNotFound(*n)),
            ErrorKind::GlobalDefinitionMessageNotFound(n) => (
            ErrorKind::GlobalDefinitionMessageNotFound(*n)),
            ErrorKind::UnknownMessage(name) => ErrorKind::UnknownMessage(name.clone()),
            ErrorKind::InvalidDeveloperField { name } => (ErrorKind::InvalidDeveloperField {
                name: name.clone(),
            }),
            ErrorKind::DecodeMessageFailed { message, reason, field_no } => (
            ErrorKind::DecodeMessageFailed {
                message: message.clone(),
                reason: *reason,
                field_no: *field_no,
            }),
            ErrorKind::BaseTypeMismatch { tag } => ErrorKind::BaseTypeMismatch { tag: *tag },
            ErrorKind::MissingTimestampRef => ErrorKind::MissingTimestampRef,
            ErrorKind::InvalidTimestamp { timestamp } => (ErrorKind::InvalidTimestamp {
                timestamp: *timestamp,
            }),
            ErrorKind::MissingDeveloperDataDef { developer_data_index } => (
            ErrorKind::MissingDeveloperDataDef { developer_data_index: *developer_data_index }),
            ErrorKind::MissingDeveloperFieldDescription { developer_data_index, field_no } => (
            ErrorKind::MissingDeveloperFieldDescription {
                developer_data_index: *developer_data_index,
                field_no: *field_no,
            }),
        }
    }
}

/// A copy of a vector of errors.
pub fn clone_errors(errors: &Vec<ErrorKind>) -> (r: Vec<ErrorKind>)
    ensures
        error_models(r@) == error_models(errors@),
{
    let mut out: Vec<ErrorKind> = Vec::new();
    let mut i: usize = 0;
    while i < errors.len()
        invariant
            i <= errors.len(),
            out.len() == i,
            forall|j: int| 0 <= j < i ==> out[j]@ == errors[j]@,
        decreases errors.len() - i,
    {
        out.push(errors[i].clone());
        i += 1;
    }
    assert(error_models(out@) =~= error_models(errors@));
    out
}

impl ErrorKind {
    /// The machine-readable tag of the error: the name of its variant.
    pub fn kind(&self) -> (r: &'static str)
        ensures
            r@ == self@.kind(),
    {
        match self {
            ErrorKind::InvalidFitFile => "InvalidFitFile",
            ErrorKind::InvalidCRC => "InvalidCRC",
            ErrorKind::OutOfBoundsRead { .. } => "OutOfBoundsRead",
            ErrorKind::ByteConversionError { .. } => "ByteConversionError",
            ErrorKind::InvalidMessageHeader => "InvalidMessageHeader",
            ErrorKind::InvalidFieldValue { .. } => "InvalidFieldValue",
            ErrorKind::DecodeFieldFailed { .. } => "DecodeFieldFailed",
            ErrorKind::DecodeDeveloperFieldFailed { .. } => "DecodeDeveloperFieldFailed",
            ErrorKind::SizeMismatch { .. } => "SizeMismatch",
            ErrorKind::LocalDefinitionMessageNotFound(_) => "LocalDefinitionMessageNotFound",
            ErrorKind::GlobalDefinitionMessageNotFound(_) => "GlobalDefinitionMessageNotFound",
            ErrorKind::UnknownMessage(_) => "UnknownMessage",
            ErrorKind::InvalidDeveloperField { .. } => "InvalidDeveloperField",
            ErrorKind::DecodeMessageFailed { .. } => "DecodeMessageFailed",
            ErrorKind::BaseTypeMismatch { .. } => "BaseTypeMismatch",
            ErrorKind::MissingTimestampRef => "MissingTimestampRef",
            ErrorKind::InvalidTimestamp { .. } => "InvalidTimestamp",
            ErrorKind::MissingDeveloperDataDef { .. } => "MissingDeveloperDataDef",
            ErrorKind::MissingDeveloperFieldDescription { .. } => "MissingDeveloperFieldDescription",
        }
    }

    /// Whether the error ends a decoding.
    pub fn is_fatal(&self) -> (r: bool)
        ensures
            r == self@.is_fatal(),
    {
        match self {
            ErrorKind::InvalidFitFile
            | ErrorKind::InvalidCRC
            | ErrorKind::OutOfBoundsRead { .. }
            | ErrorKind::InvalidMessageHeader
            | ErrorKind::LocalDefinitionMessageNotFound(_)
            | ErrorKind::BaseTypeMismatch { .. }
            | ErrorKind::GlobalDefinitionMessageNotFound(_)
            | ErrorKind::UnknownMessage(_)
            | ErrorKind::InvalidDeveloperField { .. } => true,
            _ => false,
        }
    }
}

/// What a step of the decoding gives: a value, or the error that ends the
/// decoding.
pub type ParserResult<T> = Result<T, ErrorKind>;

} // verus!
