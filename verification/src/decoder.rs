//! The decoder: the check of a file's framing, and the decoding of the
//! files of an input into the records of each message name.
use vstd::prelude::*;
use std::collections::HashMap;
use crate::byte_reader::{ByteReader, failure_of, get_u16, u16_at};
use crate::crc::{crc_16, crc_16_of};
use crate::error::{clone_errors, error_models, errors_kept, ErrorKind, ErrorModel};
use crate::framing::{
    data_message_at, data_message_stopped, definition_at, definition_stopped, file_header_at,
    lemma_data_message_failure, message_header_of, out_of_bounds, read_data_message,
    read_definition_message, read_file_header, read_message_header, readable,
};
use crate::message::{DefinitionModel, FitDefinitionMessage, FitMessageType};
use crate::profile::FitProfile;
use crate::record::{FieldModel, MessageRecordsModel, Messages, messages_push, Record};
use crate::session::{
    fresh_session, lemma_message_failed, message_decoded, message_failed, Session, SessionModel,
    table_models,
};

verus! {

broadcast use vstd::std_specs::hash::group_hash_axioms;

/// The number of bytes of the check value that ends a file.
pub const CRC_SIZE: usize = 2;

/// Whether bytes start like a file of the format: the first byte is a
/// header size of 12 or 14, the header and a check value fit, and the bytes
/// 8 to 11 spell `.FIT`.
pub open spec fn is_fit_of(bytes: Seq<u8>) -> bool {
    &&& bytes.len() > 0
    &&& (bytes[0] == 0x0E || bytes[0] == 0x0C)
    &&& bytes.len() >= bytes[0] + CRC_SIZE
    &&& bytes[8] == 0x2E
    &&& bytes[9] == 0x46
    &&& bytes[10] == 0x49
    &&& bytes[11] == 0x54
}

/// Whether the first file of the bytes is whole: the header can be read,
/// the bytes hold the header, the data and the check value, a check value
/// of the header that is not zero is that of its first twelve bytes, and
/// the check value after the data is that of the header and the data.
pub open spec fn integrity_of(bytes: Seq<u8>) -> bool {
    match file_header_at(bytes, 0) {
        Ok((header, _)) => {
            let end = header.header_size + header.data_size;
            &&& bytes.len() >= end + CRC_SIZE
            &&& (header.header_size == 0x0E && header.header_crc != 0 ==> header.header_crc
                == crc_16_of(bytes.subrange(0, 12)))
            &&& u16_at(bytes, end, false) == crc_16_of(bytes.subrange(0, end))
        },
        Err(_) => false,
    }
}

/// The definition of a local message number in a table, if it has one.
pub open spec fn table_get(t: Map<u8, DefinitionModel>, local: u8) -> Option<DefinitionModel> {
    if t.contains_key(local) {
        Some(t[local])
    } else {
        None
    }
}

/// The table with the definition of a local message number put in the
/// place of the one before.
pub open spec fn table_set(t: Map<u8, DefinitionModel>, local: u8, d: DefinitionModel) -> Map<
    u8,
    DefinitionModel,
> {
    t.insert(local, d)
}

/// What the decoding of one message gives: the state after it, the
/// position after it, and the name and record of a data message.
pub struct Step {
    pub session: SessionModel,
    pub at: int,
    pub record: Option<(Seq<char>, Seq<FieldModel>)>,
}

#[verifier::opaque]
/// The decoding of the message at `at`. A definition message takes the
/// place of the definition of its local message number. A data message is
/// read by the definition of its local message number, which must be there,
/// and decoded through the profile.
pub open spec fn record_decoded(p: FitProfile, bytes: Seq<u8>, at: int, s: SessionModel) -> Result<
    Step,
    ErrorModel,
> {
    if !readable(bytes, at, 1) {
        Err(out_of_bounds(bytes, at, 1))
    } else {
        let header = message_header_of(bytes[at]);
        if header.message_type == FitMessageType::Definition {
            match definition_at(bytes, at + 1, header) {
                Ok((d, after)) => Ok(
                    Step {
                        session: SessionModel {
                            definitions: table_set(s.definitions, header.local_message_number, d),
                            ..s
                        },
                        at: after,
                        record: None,
                    },
                ),
                Err(e) => Err(e),
            }
        } else {
            match table_get(s.definitions, header.local_message_number) {
                Some(d) => match data_message_at(p, bytes, at + 1, d, header, s.errors) {
                    Ok((msg, after, errors)) => match message_decoded(
                        p,
                        SessionModel { errors, ..s },
                        msg,
                    ) {
                        Ok((session, name, record)) => Ok(
                            Step { session, at: after, record: Some((name, record)) },
                        ),
                        Err(e) => Err(e),
                    },
                    Err(e) => Err(e),
                },
                None => Err(
                    ErrorModel::LocalDefinitionMessageNotFound(header.local_message_number),
                ),
            }
        }
    }
}

/// The state of the decoding of an input: the state of the session, the
/// position, and the records so far.
pub struct Progress {
    pub session: SessionModel,
    pub at: int,
    pub messages: Seq<MessageRecordsModel>,
}

/// The progress after a step.
pub open spec fn after_step(g: Progress, step: Step) -> Progress {
    Progress {
        session: step.session,
        at: step.at,
        messages: match step.record {
            Some((name, record)) => messages_push(g.messages, name, record),
            None => g.messages,
        },
    }
}

/// The decoding of the messages of a file up to the position `end`.
pub open spec fn records_from(p: FitProfile, bytes: Seq<u8>, end: int, g: Progress) -> Result<
    Progress,
    ErrorModel,
>
    decreases bytes.len() - g.at,
{
    if g.at >= end {
        Ok(g)
    } else {
        match record_decoded(p, bytes, g.at, g.session) {
            Ok(step) => {
                let next = after_step(g, step);
                if g.at < next.at <= bytes.len() {
                    records_from(p, bytes, end, next)
                } else {
                    Ok(next)
                }
            },
            Err(e) => Err(e),
        }
    }
}

#[verifier::opaque]
/// The decoding of the file at the position of `g`: the bytes from there on
/// must start like a file; the header gives the end of the data; the
/// messages are decoded up to it; and the two bytes that follow must be the
/// check value of the header and the data.
pub open spec fn file_decoded(p: FitProfile, bytes: Seq<u8>, g: Progress) -> Result<
    Progress,
    ErrorModel,
> {
    if g.at < 0 || g.at > bytes.len() || !is_fit_of(bytes.subrange(g.at, bytes.len() as int)) {
        Err(ErrorModel::InvalidFitFile)
    } else {
        match file_header_at(bytes, g.at) {
            Ok((header, after)) => {
                let end = g.at + header.header_size + header.data_size;
                match records_from(p, bytes, end, Progress { at: after, ..g }) {
                    Ok(done) => if !readable(bytes, done.at, 2) {
                        Err(out_of_bounds(bytes, done.at, 2))
                    } else if end > bytes.len() || u16_at(bytes, done.at, false) != crc_16_of(
                        bytes.subrange(g.at, end),
                    ) {
                        Err(ErrorModel::InvalidCRC)
                    } else {
                        Ok(Progress { at: done.at + 2, ..done })
                    },
                    Err(e) => Err(e),
                }
            },
            Err(e) => Err(e),
        }
    }
}

/// The decoding of the files of an input from the position of `g` on, one
/// after the other, until at most one byte is left.
pub open spec fn files_from(p: FitProfile, bytes: Seq<u8>, g: Progress) -> Result<
    Progress,
    ErrorModel,
>
    decreases bytes.len() - g.at,
{
    if g.at + 1 >= bytes.len() {
        Ok(g)
    } else {
        match file_decoded(p, bytes, g) {
            Ok(done) => if g.at < done.at <= bytes.len() {
                files_from(p, bytes, done)
            } else {
                Ok(done)
            },
            Err(e) => Err(e),
        }
    }
}

/// The decoding of an input from its first byte on, with the state `s`.
pub open spec fn decoded(p: FitProfile, bytes: Seq<u8>, s: SessionModel) -> Result<
    Progress,
    ErrorModel,
> {
    files_from(p, bytes, Progress { session: s, at: 0, messages: Seq::empty() })
}

/// What a decoding that fails with `e` has made of the state `s` and the
/// position `at`, from which the failing step began. The definitions stay
/// as they were. The errors recorded stay, and those of the fields read
/// before the failure may follow them. The position does not go back. A
/// data message without a definition leaves the state as it was and the
/// position after its header; bytes that start like no file leave state
/// and position as they were; a wrong check value leaves the state as it
/// was and the position after the check value.
pub open spec fn halted(s: SessionModel, at: int, e: ErrorModel, after: SessionModel, offset: int) -> bool {
    &&& after.definitions == s.definitions
    &&& after.developer_definitions == s.developer_definitions
    &&& errors_kept(s.errors, after.errors)
    &&& at <= offset
    &&& e is LocalDefinitionMessageNotFound ==> after == s && offset == at + 1
    &&& e is InvalidFitFile ==> after == s && offset == at
    &&& e is InvalidCRC ==> after == s && offset == at + 2
}

/// Where the decoding of the messages up to `end` stops: the progress
/// before the message that fails, or after the last message where none
/// fails.
pub open spec fn records_stopped(p: FitProfile, bytes: Seq<u8>, end: int, g: Progress) -> Progress
    decreases bytes.len() - g.at,
{
    if g.at >= end {
        g
    } else {
        match record_decoded(p, bytes, g.at, g.session) {
            Ok(step) => {
                let next = after_step(g, step);
                if g.at < next.at <= bytes.len() {
                    records_stopped(p, bytes, end, next)
                } else {
                    next
                }
            },
            Err(_) => g,
        }
    }
}

/// Where the decoding of the file at the position of `g` stops: at `g`
/// where the bytes start like no file, and else where the decoding of its
/// messages stops.
pub open spec fn file_stopped(p: FitProfile, bytes: Seq<u8>, g: Progress) -> Progress {
    if g.at < 0 || g.at > bytes.len() || !is_fit_of(bytes.subrange(g.at, bytes.len() as int)) {
        g
    } else {
        match file_header_at(bytes, g.at) {
            Ok((header, after)) => records_stopped(
                p,
                bytes,
                g.at + header.header_size + header.data_size,
                Progress { at: after, ..g },
            ),
            Err(_) => g,
        }
    }
}

/// Where the decoding of the files of an input stops: in the file that
/// fails, or after the last file where none fails.
pub open spec fn files_stopped(p: FitProfile, bytes: Seq<u8>, g: Progress) -> Progress
    decreases bytes.len() - g.at,
{
    if g.at + 1 >= bytes.len() {
        g
    } else {
        match file_decoded(p, bytes, g) {
            Ok(done) => if g.at < done.at <= bytes.len() {
                files_stopped(p, bytes, done)
            } else {
                done
            },
            Err(_) => file_stopped(p, bytes, g),
        }
    }
}

/// The state and the position that the decoding of the message at `at`
/// leaves where it fails. A header that cannot be read leaves both as they
/// were. A definition message leaves the state, and the position where its
/// reading stopped. A data message without a definition leaves the state,
/// and the position after its header. A data message whose bytes are
/// missing leaves the errors of the fields read and the position before
/// the field that could not be read. A data message that the profile
/// cannot decode leaves the position after it and the state that
/// [`message_failed`] defines.
pub open spec fn record_failed(p: FitProfile, bytes: Seq<u8>, at: int, s: SessionModel) -> (
    SessionModel,
    int,
) {
    if !readable(bytes, at, 1) {
        (s, at)
    } else {
        let header = message_header_of(bytes[at]);
        if header.message_type == FitMessageType::Definition {
            (s, definition_stopped(bytes, at + 1, header))
        } else {
            match table_get(s.definitions, header.local_message_number) {
                None => (s, at + 1),
                Some(d) => match data_message_at(p, bytes, at + 1, d, header, s.errors) {
                    Err(_) => (
                        SessionModel {
                            errors: data_message_stopped(p, bytes, at + 1, d, s.errors).errors,
                            ..s
                        },
                        data_message_stopped(p, bytes, at + 1, d, s.errors).at,
                    ),
                    Ok((msg, after, errors)) => (
                        message_failed(p, SessionModel { errors, ..s }, msg),
                        after,
                    ),
                },
            }
        }
    }
}

/// The state and the position that the decoding of the file at the
/// position of `g` leaves where it fails: those of `g` where the bytes start
/// like no file; those that the message that fails leaves; or the state
/// after the messages, and the position after the check value as far as it
/// can be read.
pub open spec fn file_failed(p: FitProfile, bytes: Seq<u8>, g: Progress) -> (SessionModel, int) {
    if g.at < 0 || g.at > bytes.len() || !is_fit_of(bytes.subrange(g.at, bytes.len() as int)) {
        (g.session, g.at)
    } else {
        match file_header_at(bytes, g.at) {
            Ok((header, after)) => {
                let end = g.at + header.header_size + header.data_size;
                let start = Progress { at: after, ..g };
                let stop = records_stopped(p, bytes, end, start);
                match records_from(p, bytes, end, start) {
                    Ok(done) => (
                        done.session,
                        if readable(bytes, done.at, 2) {
                            done.at + 2
                        } else {
                            done.at
                        },
                    ),
                    Err(_) => record_failed(p, bytes, stop.at, stop.session),
                }
            },
            Err(_) => (g.session, g.at),
        }
    }
}

/// The state and the position that the decoding of the files of an input
/// leaves where it fails: those that the file that fails leaves.
pub open spec fn files_failed(p: FitProfile, bytes: Seq<u8>, g: Progress) -> (SessionModel, int)
    decreases bytes.len() - g.at,
{
    if g.at + 1 >= bytes.len() {
        (g.session, g.at)
    } else {
        match file_decoded(p, bytes, g) {
            Ok(done) => if g.at < done.at <= bytes.len() {
                files_failed(p, bytes, done)
            } else {
                (done.session, done.at)
            },
            Err(_) => file_failed(p, bytes, g),
        }
    }
}

/// A decoder over the bytes of an input.
pub struct Decoder<'input> {
    pub reader: ByteReader<'input>,
    pub session: Session,
}

/// The definition of a local message number in a table.
fn definition_of(table: &HashMap<u8, FitDefinitionMessage>, local: u8) -> (r: Option<
    &FitDefinitionMessage,
>)
    ensures
        match r {
            Some(d) => table_get(table_models(table@), local) == Some(d@),
            None => table_get(table_models(table@), local) is None,
        },
{
    table.get(&local)
}

/// Puts the definition of a local message number into a table.
fn set_definition(table: &mut HashMap<u8, FitDefinitionMessage>, local: u8, d: FitDefinitionMessage)
    ensures
        table_models(final(table)@) == table_set(table_models(old(table)@), local, d@),
{
    table.insert(local, d);
    assert(table_models(table@) =~= table_set(table_models(old(table)@), local, d@));
}

/// The progress of a decoder.
pub open spec fn progress_of(reader: &ByteReader, session: &Session, messages: &Messages) -> Progress {
    Progress { session: session@, at: reader.offset as int, messages: messages@ }
}

impl<'input> Decoder<'input> {
    /// A decoder at the first byte of an input, with a fresh state.
    pub fn new(bytes: &'input [u8]) -> (r: Self)
        ensures
            r.reader.bytes == bytes,
            r.reader.offset == 0,
            r.session@ == fresh_session(),
    {
        Decoder { reader: ByteReader::new(bytes), session: Session::new() }
    }

    /// Whether bytes start like a file of the format.
    pub fn is_fit(bytes: &[u8]) -> (r: bool)
        ensures
            r == is_fit_of(bytes@),
    {
        if bytes.len() == 0 {
            return false;
        }
        if bytes[0] != 0x0E && bytes[0] != 0x0C {
            return false;
        }
        if bytes.len() < bytes[0] as usize + CRC_SIZE {
            return false;
        }
        bytes[8] == 0x2E && bytes[9] == 0x46 && bytes[10] == 0x49 && bytes[11] == 0x54
    }

    /// Whether the first file of the input is whole, as [`integrity_of`]
    /// defines it. The decoder stays as it is.
    pub fn check_integrity(&mut self) -> (r: bool)
        ensures
            r == integrity_of(old(self).reader.bytes@),
            final(self).reader == old(self).reader,
            final(self).session@ == old(self).session@,
    {
        let bytes = self.reader.bytes;
        let mut reader = ByteReader::new(bytes);
        let header = match read_file_header(&mut reader) {
            Ok(header) => header,
            Err(_) => {
                return false;
            },
        };
        let end = header.header_size as u64 + header.data_size as u64;
        let total = bytes.len() as u64;
        if total < end + CRC_SIZE as u64 {
            return false;
        }
        let end = end as usize;
        if header.header_size == 0x0E && header.header_crc != 0 && header.header_crc != crc_16(
            reader.range(0, 12),
        ) {
            return false;
        }
        get_u16(bytes, end, false) == crc_16(reader.range(0, end))
    }

    /// Reads the check value at the position and compares it with that of
    /// the bytes from `start` up to `end`, which lie before the position.
    pub fn crc_valid(&mut self, start: usize, end: usize) -> (r: Result<bool, ErrorKind>)
        requires
            start <= end <= old(self).reader.offset,
        ensures
            old(self).reader.read_moves(2, &final(self).reader, failure_of(r)),
            final(self).session@ == old(self).session@,
            r matches Ok(valid) ==> valid == (u16_at(
                old(self).reader.bytes@,
                old(self).reader.offset as int,
                false,
            ) == crc_16_of(old(self).reader.bytes@.subrange(start as int, end as int))),
    {
        let stored = self.reader.read_next_u16(false)?;
        Ok(stored == crc_16(self.reader.range(start, end)))
    }

    /// Decodes the message at the position, as [`record_decoded`] defines
    /// it, and returns the name and the record of a data message. Where it
    /// fails, the decoder is left as [`record_failed`] says.
    pub fn decode_next_record(&mut self, profile: &FitProfile) -> (r: Result<
        Option<(String, Record)>,
        ErrorKind,
    >)
        ensures
            final(self).reader.bytes == old(self).reader.bytes,
            match r {
                Ok(record) => record_decoded(
                    *profile,
                    old(self).reader.bytes@,
                    old(self).reader.offset as int,
                    old(self).session@,
                ) == Ok::<_, ErrorModel>(
                    Step {
                        session: final(self).session@,
                        at: final(self).reader.offset as int,
                        record: match record {
                            Some((name, fields)) => Some((name@, fields@)),
                            None => None,
                        },
                    },
                ) && old(self).reader.offset < final(self).reader.offset
                    <= final(self).reader.bytes@.len(),
                Err(e) => record_decoded(
                    *profile,
                    old(self).reader.bytes@,
                    old(self).reader.offset as int,
                    old(self).session@,
                ) == Err::<Step, _>(e@) && halted(
                    old(self).session@,
                    old(self).reader.offset as int,
                    e@,
                    final(self).session@,
                    final(self).reader.offset as int,
                ) && (final(self).session@, final(self).reader.offset as int) == record_failed(
                    *profile,
                    old(self).reader.bytes@,
                    old(self).reader.offset as int,
                    old(self).session@,
                ),
            },
    {
        reveal(record_decoded);

        let header = read_message_header(&mut self.reader)?;
        match header.message_type {
            FitMessageType::Definition => {
                let d = read_definition_message(&mut self.reader, &header)?;
                set_definition(&mut self.session.definitions, header.local_message_number, d);
                Ok(None)
            },
            FitMessageType::Data => {
                let msg = match definition_of(
                    &self.session.definitions,
                    header.local_message_number,
                ) {
                    Some(d) => read_data_message(
                        profile,
                        &mut self.reader,
                        d,
                        &header,
                        &mut self.session.errors,
                    )?,
                    None => {
                        return Err(
                            ErrorKind::LocalDefinitionMessageNotFound(header.local_message_number),
                        );
                    },
                };
                let ghost read = self.session@;
                match self.session.decode_message(profile, &msg) {
                    Ok((name, record)) => Ok(Some((name, record))),
                    Err(e) => {
                        proof {
                            lemma_message_failed(*profile, read, msg@);
                        }
                        Err(e)
                    },
                }
            },
        }
    }

    /// Decodes the messages from the position up to `end`, as
    /// [`records_from`] defines it, and adds their records to `messages`.
    /// Where a message fails, `messages` holds the records of those before
    /// it, and the decoder is left as [`record_failed`] says of that
    /// message.
    #[verifier::loop_isolation(false)]
    pub fn decode_records(&mut self, profile: &FitProfile, messages: &mut Messages, end: u128) -> (r:
        Result<(), ErrorKind>)
        ensures
            final(self).reader.bytes == old(self).reader.bytes,
            match r {
                Ok(()) => records_from(
                    *profile,
                    old(self).reader.bytes@,
                    end as int,
                    progress_of(&old(self).reader, &old(self).session, old(messages)),
                ) == Ok::<_, ErrorModel>(
                    progress_of(&final(self).reader, &final(self).session, final(messages)),
                ) && final(self).reader.offset >= old(self).reader.offset
                    && final(self).reader.offset >= end,
                Err(e) => records_from(
                    *profile,
                    old(self).reader.bytes@,
                    end as int,
                    progress_of(&old(self).reader, &old(self).session, old(messages)),
                ) == Err::<Progress, _>(e@) && halted(
                    records_stopped(
                        *profile,
                        old(self).reader.bytes@,
                        end as int,
                        progress_of(&old(self).reader, &old(self).session, old(messages)),
                    ).session,
                    records_stopped(
                        *profile,
                        old(self).reader.bytes@,
                        end as int,
                        progress_of(&old(self).reader, &old(self).session, old(messages)),
                    ).at,
                    e@,
                    final(self).session@,
                    final(self).reader.offset as int,
                ) && (final(self).session@, final(self).reader.offset as int) == record_failed(
                    *profile,
                    old(self).reader.bytes@,
                    records_stopped(
                        *profile,
                        old(self).reader.bytes@,
                        end as int,
                        progress_of(&old(self).reader, &old(self).session, old(messages)),
                    ).at,
                    records_stopped(
                        *profile,
                        old(self).reader.bytes@,
                        end as int,
                        progress_of(&old(self).reader, &old(self).session, old(messages)),
                    ).session,
                ),
            },
            final(messages)@ == records_stopped(
                *profile,
                old(self).reader.bytes@,
                end as int,
                progress_of(&old(self).reader, &old(self).session, old(messages)),
            ).messages,
            r is Ok ==> progress_of(&final(self).reader, &final(self).session, final(messages))
                == records_stopped(
                *profile,
                old(self).reader.bytes@,
                end as int,
                progress_of(&old(self).reader, &old(self).session, old(messages)),
            ),
    {
        let ghost bytes = self.reader.bytes@;
        let ghost goal = records_from(
            *profile,
            bytes,
            end as int,
            progress_of(&self.reader, &self.session, messages),
        );
        let ghost stop = records_stopped(
            *profile,
            bytes,
            end as int,
            progress_of(&self.reader, &self.session, messages),
        );
        while (self.reader.offset() as u128) < end
            invariant
                self.reader.bytes@ == bytes,
                self.reader.bytes == old(self).reader.bytes,
                self.reader.offset >= old(self).reader.offset,
                stop == records_stopped(
                    *profile,
                    bytes,
                    end as int,
                    progress_of(&self.reader, &self.session, messages),
                ),
                goal == records_from(
                    *profile,
                    bytes,
                    end as int,
                    progress_of(&self.reader, &self.session, messages),
                ),
            decreases bytes.len() - self.reader.offset,
        {
            match self.decode_next_record(profile) {
                Ok(Some((name, record))) => {
                    messages.push(name, record);
                },
                Ok(None) => {},
                Err(e) => {
                    return Err(e);
                },
            }
        }
        Ok(())
    }

    /// Decodes the file at the position, as [`file_decoded`] defines it,
    /// and adds its records to `messages`. Where it fails, `messages` holds
    /// the records decoded up to where [`file_stopped`] says, and the
    /// decoder is left as [`file_failed`] says.
    pub fn decode_next_file(&mut self, profile: &FitProfile, messages: &mut Messages) -> (r: Result<
        (),
        ErrorKind,
    >)
        requires
            old(self).reader.offset <= old(self).reader.bytes@.len(),
        ensures
            final(self).reader.bytes == old(self).reader.bytes,
            match r {
                Ok(()) => file_decoded(
                    *profile,
                    old(self).reader.bytes@,
                    progress_of(&old(self).reader, &old(self).session, old(messages)),
                ) == Ok::<_, ErrorModel>(
                    progress_of(&final(self).reader, &final(self).session, final(messages)),
                ) && old(self).reader.offset < final(self).reader.offset
                    <= final(self).reader.bytes@.len(),
                Err(e) => file_decoded(
                    *profile,
                    old(self).reader.bytes@,
                    progress_of(&old(self).reader, &old(self).session, old(messages)),
                ) == Err::<Progress, _>(e@) && final(messages)@ == file_stopped(
                    *profile,
                    old(self).reader.bytes@,
                    progress_of(&old(self).reader, &old(self).session, old(messages)),
                ).messages && halted(
                    file_stopped(
                        *profile,
                        old(self).reader.bytes@,
                        progress_of(&old(self).reader, &old(self).session, old(messages)),
                    ).session,
                    file_stopped(
                        *profile,
                        old(self).reader.bytes@,
                        progress_of(&old(self).reader, &old(self).session, old(messages)),
                    ).at,
                    e@,
                    final(self).session@,
                    final(self).reader.offset as int,
                ) && (final(self).session@, final(self).reader.offset as int) == file_failed(
                    *profile,
                    old(self).reader.bytes@,
                    progress_of(&old(self).reader, &old(self).session, old(messages)),
                ),
            },
    {
        reveal(file_decoded);
        let start = self.reader.offset();
        let ghost bytes = self.reader.bytes@;
        if !Decoder::is_fit(self.reader.range(start, self.reader.len())) {
            return Err(ErrorKind::InvalidFitFile);
        }
        let header = read_file_header(&mut self.reader)?;
        let end: u128 = start as u128 + header.header_size as u128 + header.data_size as u128;
        self.decode_records(profile, messages, end)?;
        if self.crc_valid(start, end as usize)? {
            Ok(())
        } else {
            Err(ErrorKind::InvalidCRC)
        }
    }

    /// Decodes the files of the input from its first byte on, as
    /// [`decoded`] defines it, and returns the errors recorded and the
    /// records of each message name.
    ///
    /// Each call is a session of its own: it starts at the first byte with
    /// a fresh state, whatever the decoder did before. The state goes from
    /// one file of the input to the next. Where the decoding fails, the
    /// decoder is left as [`files_failed`] says.
    #[verifier::loop_isolation(false)]
    pub fn decode(&mut self, profile: &FitProfile) -> (r: Result<
        (Vec<ErrorKind>, Messages),
        ErrorKind,
    >)
        ensures
            final(self).reader.bytes == old(self).reader.bytes,
            match r {
                Ok((errors, messages)) => decoded(
                    *profile,
                    old(self).reader.bytes@,
                    fresh_session(),
                ) == Ok::<_, ErrorModel>(
                    progress_of(&final(self).reader, &final(self).session, &messages),
                ) && error_models(errors@) == final(self).session@.errors,
                Err(e) => decoded(*profile, old(self).reader.bytes@, fresh_session()) == Err::<
                    Progress,
                    _,
                >(e@) && halted(
                    files_stopped(
                        *profile,
                        old(self).reader.bytes@,
                        Progress { session: fresh_session(), at: 0, messages: Seq::empty() },
                    ).session,
                    files_stopped(
                        *profile,
                        old(self).reader.bytes@,
                        Progress { session: fresh_session(), at: 0, messages: Seq::empty() },
                    ).at,
                    e@,
                    final(self).session@,
                    final(self).reader.offset as int,
                ) && (final(self).session@, final(self).reader.offset as int) == files_failed(
                    *profile,
                    old(self).reader.bytes@,
                    Progress { session: fresh_session(), at: 0, messages: Seq::empty() },
                ),
            },
    {
        self.reader.reset();
        self.session = Session::new();
        let mut messages = Messages::new();
        let ghost bytes = self.reader.bytes@;
        let ghost goal = decoded(*profile, bytes, fresh_session());
        let ghost stop = files_stopped(
            *profile,
            bytes,
            Progress { session: fresh_session(), at: 0, messages: Seq::empty() },
        );
        let ghost failed = files_failed(
            *profile,
            bytes,
            Progress { session: fresh_session(), at: 0, messages: Seq::empty() },
        );
        while !self.reader.is_end()
            invariant
                self.reader.bytes@ == bytes,
                failed == files_failed(
                    *profile,
                    bytes,
                    progress_of(&self.reader, &self.session, &messages),
                ),
                stop == files_stopped(
                    *profile,
                    bytes,
                    progress_of(&self.reader, &self.session, &messages),
                ),
                self.reader.bytes == old(self).reader.bytes,
                self.reader.offset <= bytes.len(),
                goal == files_from(
                    *profile,
                    bytes,
                    progress_of(&self.reader, &self.session, &messages),
                ),
            decreases bytes.len() - self.reader.offset,
        {
            match self.decode_next_file(profile, &mut messages) {
                Ok(()) => {},
                Err(e) => {
                    return Err(e);
                },
            }
        }
        Ok((clone_errors(&self.session.errors), messages))
    }
}

/// The check value of a whole file: where the first file of the bytes is
/// whole, the two bytes after its data are the check value of its header
/// and its data.
pub proof fn lemma_integrity_check_value(bytes: Seq<u8>)
    requires
        integrity_of(bytes),
    ensures
        ({
            let header = file_header_at(bytes, 0)->Ok_0.0;
            let end = header.header_size + header.data_size;
            &&& end + CRC_SIZE <= bytes.len()
            &&& crc_16_of(bytes.subrange(0, end)) == u16_at(bytes, end, false)
        }),
{
}

/// The check value of a decoded file: where a file decodes, the two bytes
/// that the decoding ends with are the check value of the bytes from the
/// start of the file up to the end of the data that its header declares.
pub proof fn lemma_decoded_file_check_value(p: FitProfile, bytes: Seq<u8>, g: Progress)
    requires
        file_decoded(p, bytes, g) is Ok,
    ensures
        ({
            let header = file_header_at(bytes, g.at)->Ok_0.0;
            let end = g.at + header.header_size + header.data_size;
            let done = file_decoded(p, bytes, g)->Ok_0;
            &&& is_fit_of(bytes.subrange(g.at, bytes.len() as int))
            &&& end <= bytes.len()
            &&& done.at <= bytes.len()
            &&& crc_16_of(bytes.subrange(g.at, end)) == u16_at(bytes, done.at - 2, false)
        }),
{
    reveal(file_decoded);
}

/// The decoding of a message fails for want of a definition exactly where
/// the message is a data message whose local message number has none; the
/// error then names that number.
pub proof fn lemma_definition_missing(p: FitProfile, bytes: Seq<u8>, at: int, s: SessionModel)
    ensures
        (record_decoded(p, bytes, at, s) matches Err(e) && e is LocalDefinitionMessageNotFound) <==> (
        readable(bytes, at, 1) && message_header_of(bytes[at]).message_type
            != FitMessageType::Definition && table_get(
            s.definitions,
            message_header_of(bytes[at]).local_message_number,
        ) is None),
        record_decoded(p, bytes, at, s) matches Err(e) ==> (e is LocalDefinitionMessageNotFound
            ==> e == ErrorModel::LocalDefinitionMessageNotFound(
            message_header_of(bytes[at]).local_message_number,
        )),
{
    reveal(record_decoded);
    reveal(message_decoded);
    if readable(bytes, at, 1) {
        let header = message_header_of(bytes[at]);
        if header.message_type != FitMessageType::Definition {
            if let Some(d) = table_get(s.definitions, header.local_message_number) {
                lemma_data_message_failure(p, bytes, at + 1, d, header, s.errors);
            }
        }
    }
}

} // verus!
