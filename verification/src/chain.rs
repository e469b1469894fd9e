//! Chained files: what the decoding of files that stand one after the other
//! in an input has to do with the decoding of each.
use vstd::prelude::*;
use crate::accumulator::{accumulated, AccumulatedField, counters_after};
use crate::bit_reader::{bit_width, bit_words, BitReader, bits_value};
use crate::decoder::{
    after_step, decoded, file_decoded, files_from, Progress, record_decoded, records_from, Step,
    table_get, table_set,
};
use crate::developer::{
    defines, definitions_find, definitions_insert, described_in, describes, DescriptionModel,
    DeveloperDataModel, lemma_describe_described, lemma_insert_described,
};
use crate::error::{ErrorModel, errors_kept};
use crate::expansion::{
    activates, components_expanded, DecodeArgsModel, expanded_from, Expansion, field_decoded,
    group_read, GroupRead, occurrences, repeats, seeded, sub_fields_from, with_field,
};
use crate::fit::{BaseType, ValueModel};
use crate::framing::{
    data_fields_from, data_message_at, DataRead, definition_at, developer_fields_from,
    field_value_of, file_header_at, lemma_data_message_keeps_errors, message_header_of, readable,
};
use crate::message::{
    DataFieldModel, DataMessageModel, DefinitionModel, developer_fields_insert, DeveloperFieldModel,
    fields_insert, FitMessageHeader, FitMessageType,
};
use crate::profile::{Component, FitProfile, lemma_find_field, lemma_resolve, Message, MessageField};
use crate::projection::{coerced, projected, wrap_integer};
use crate::record::{
    FieldModel, is_named, is_of, lemma_insert_other, lemma_push_count, MessageRecordsModel,
    messages_find, messages_push, messages_records, record_find, record_insert, record_value,
    records_count, Scaling,
};
use crate::search::{
    lemma_first_from, lemma_first_from_same, lemma_first_push, lemma_first_update,
};
use crate::session::{
    args_of, definition_of, definition_registered, description_named, developer_from,
    developer_step, DeveloperState, fresh_session, lemma_message_failed, lemma_named_other,
    lemma_registration_names, message_decoded, missing_description_field, next_timestamp,
    projected_from, Projection, projection_step, record_byte, record_named, SessionModel,
    timestamp_applied, timestamp_field,
};

verus! {

/// Whether `part` stands in `whole` from the position `at` on.
pub open spec fn stands_at(part: Seq<u8>, whole: Seq<u8>, at: int) -> bool {
    &&& 0 <= at
    &&& at + part.len() <= whole.len()
    &&& forall|i: int| 0 <= i < part.len() ==> whole[at + i] == #[trigger] part[i]
}

/// A range of a part is the same range of the whole, moved.
pub proof fn lemma_moved_range(part: Seq<u8>, whole: Seq<u8>, at: int, from: int, to: int)
    requires
        stands_at(part, whole, at),
        0 <= from <= to <= part.len(),
    ensures
        whole.subrange(at + from, at + to) == part.subrange(from, to),
{
    assert(whole.subrange(at + from, at + to) =~= part.subrange(from, to));
}

/// A file header that can be read in a part can be read in the whole, and
/// is the same.
pub proof fn lemma_moved_header(part: Seq<u8>, whole: Seq<u8>, at: int, k: int)
    requires
        stands_at(part, whole, at),
        0 <= k,
        file_header_at(part, k) is Ok,
    ensures
        file_header_at(whole, at + k) == Ok::<_, ErrorModel>(
            (file_header_at(part, k)->Ok_0.0, at + file_header_at(part, k)->Ok_0.1),
        ),
{
}

/// A definition message that can be read in a part can be read in the
/// whole, and is the same.
pub proof fn lemma_moved_definition(
    part: Seq<u8>,
    whole: Seq<u8>,
    at: int,
    k: int,
    header: FitMessageHeader,
)
    requires
        stands_at(part, whole, at),
        0 <= k,
        definition_at(part, k, header) is Ok,
    ensures
        definition_at(whole, at + k, header) == Ok::<_, ErrorModel>(
            (definition_at(part, k, header)->Ok_0.0, at + definition_at(part, k, header)->Ok_0.1),
        ),
{
    let n = part[k + 4] as int;
    let fields_end = k + 5 + 3 * n;
    lemma_moved_range(part, whole, at, k + 5, fields_end);
    if header.contains_developer_data {
        assert(whole[at + fields_end] == part[fields_end]);
        let m = part[fields_end] as int;
        lemma_moved_range(part, whole, at, fields_end + 1, fields_end + 1 + 3 * m);
    }
}

/// The state of the reading of a data message, moved.
pub open spec fn moved_read(s: DataRead, by: int) -> DataRead {
    DataRead { at: s.at + by, ..s }
}

/// The fields of a data message that can be read in a part can be read in
/// the whole, and are the same.
pub proof fn lemma_moved_fields(
    p: FitProfile,
    part: Seq<u8>,
    whole: Seq<u8>,
    at: int,
    def: DefinitionModel,
    k: int,
    s: DataRead,
)
    requires
        stands_at(part, whole, at),
        0 <= k,
        0 <= s.at,
        data_fields_from(p, part, def, k, s) is Ok,
    ensures
        data_fields_from(p, whole, def, k, moved_read(s, at)) == Ok::<_, ErrorModel>(
            moved_read(data_fields_from(p, part, def, k, s)->Ok_0, at),
        ),
    decreases def.field_definitions.len() - k,
{
    if k < def.field_definitions.len() {
        let d = def.field_definitions[k];
        lemma_moved_range(part, whole, at, s.at, s.at + d.size);
        let value = field_value_of(
            part.subrange(s.at, s.at + d.size),
            d.base_type,
            def.architecture.spec_is_big_endian(),
            p.spec_declares_array(def.global_message_number, d.field_definition_number),
        );
        match value {
            Ok(v) => {
                lemma_moved_fields(
                    p,
                    part,
                    whole,
                    at,
                    def,
                    k + 1,
                    DataRead {
                        at: s.at + d.size,
                        fields: fields_insert(
                            s.fields,
                            DataFieldModel {
                                field_definition_number: d.field_definition_number,
                                value: v,
                            },
                        ),
                        ..s
                    },
                );
            },
            Err(e) => {
                lemma_moved_fields(
                    p,
                    part,
                    whole,
                    at,
                    def,
                    k + 1,
                    DataRead {
                        at: s.at + d.size,
                        errors: s.errors.push(
                            ErrorModel::DecodeFieldFailed {
                                message_no: def.global_message_number,
                                field_no: d.field_definition_number,
                                reason: Box::new(e),
                            },
                        ),
                        ..s
                    },
                );
            },
        }
    }
}

/// The developer fields of a data message that can be read in a part can
/// be read in the whole, and are the same.
pub proof fn lemma_moved_developer_fields(
    part: Seq<u8>,
    whole: Seq<u8>,
    at: int,
    def: DefinitionModel,
    k: int,
    s: DataRead,
)
    requires
        stands_at(part, whole, at),
        0 <= k,
        0 <= s.at,
        developer_fields_from(part, def, k, s) is Ok,
    ensures
        developer_fields_from(whole, def, k, moved_read(s, at)) == Ok::<_, ErrorModel>(
            moved_read(developer_fields_from(part, def, k, s)->Ok_0, at),
        ),
    decreases def.developer_field_definitions.len() - k,
{
    if k < def.developer_field_definitions.len() {
        let d = def.developer_field_definitions[k];
        lemma_moved_range(part, whole, at, s.at, s.at + d.size);
        let value = field_value_of(
            part.subrange(s.at, s.at + d.size),
            BaseType::Byte,
            def.architecture.spec_is_big_endian(),
            false,
        );
        match value {
            Ok(v) => {
                lemma_moved_developer_fields(
                    part,
                    whole,
                    at,
                    def,
                    k + 1,
                    DataRead {
                        at: s.at + d.size,
                        developer_fields: developer_fields_insert(
                            s.developer_fields,
                            DeveloperFieldModel {
                                developer_data_index: d.developer_data_index,
                                field_number: d.field_number,
                                value: v,
                            },
                        ),
                        ..s
                    },
                );
            },
            Err(e) => {
                lemma_moved_developer_fields(
                    part,
                    whole,
                    at,
                    def,
                    k + 1,
                    DataRead {
                        at: s.at + d.size,
                        errors: s.errors.push(
                            ErrorModel::DecodeDeveloperFieldFailed {
                                message_no: def.global_message_number,
                                data_index: d.developer_data_index,
                                reason: Box::new(e),
                            },
                        ),
                        ..s
                    },
                );
            },
        }
    }
}

/// A data message that can be read in a part can be read in the whole, and
/// is the same.
pub proof fn lemma_moved_data_message(
    p: FitProfile,
    part: Seq<u8>,
    whole: Seq<u8>,
    at: int,
    k: int,
    def: DefinitionModel,
    header: FitMessageHeader,
    errors: Seq<ErrorModel>,
)
    requires
        stands_at(part, whole, at),
        0 <= k,
        data_message_at(p, part, k, def, header, errors) is Ok,
    ensures
        data_message_at(p, whole, at + k, def, header, errors) == Ok::<_, ErrorModel>(
            (
                data_message_at(p, part, k, def, header, errors)->Ok_0.0,
                at + data_message_at(p, part, k, def, header, errors)->Ok_0.1,
                data_message_at(p, part, k, def, header, errors)->Ok_0.2,
            ),
        ),
{
    let start = DataRead { at: k, fields: Seq::empty(), developer_fields: Seq::empty(), errors };
    lemma_moved_fields(p, part, whole, at, def, 0, start);
    let s = data_fields_from(p, part, def, 0, start)->Ok_0;
    lemma_fields_position(p, part, def, 0, start);
    lemma_moved_developer_fields(part, whole, at, def, 0, s);
    assert(moved_read(start, at) == DataRead { at: at + k, ..start });
}

/// The reading of fields does not move the position back, nor past the
/// end of the bytes.
pub proof fn lemma_fields_position(
    p: FitProfile,
    bytes: Seq<u8>,
    def: DefinitionModel,
    k: int,
    s: DataRead,
)
    requires
        0 <= k,
    ensures
        data_fields_from(p, bytes, def, k, s) matches Ok(r) ==> s.at <= r.at && (s.at
            <= bytes.len() ==> r.at <= bytes.len()),
    decreases def.field_definitions.len() - k,
{
    if k < def.field_definitions.len() {
        let d = def.field_definitions[k];
        if readable(bytes, s.at, d.size as int) {
            let value = field_value_of(
                bytes.subrange(s.at, s.at + d.size),
                d.base_type,
                def.architecture.spec_is_big_endian(),
                p.spec_declares_array(def.global_message_number, d.field_definition_number),
            );
            match value {
                Ok(v) => {
                    lemma_fields_position(
                        p,
                        bytes,
                        def,
                        k + 1,
                        DataRead {
                            at: s.at + d.size,
                            fields: fields_insert(
                                s.fields,
                                DataFieldModel {
                                    field_definition_number: d.field_definition_number,
                                    value: v,
                                },
                            ),
                            ..s
                        },
                    );
                },
                Err(e) => {
                    lemma_fields_position(
                        p,
                        bytes,
                        def,
                        k + 1,
                        DataRead {
                            at: s.at + d.size,
                            errors: s.errors.push(
                                ErrorModel::DecodeFieldFailed {
                                    message_no: def.global_message_number,
                                    field_no: d.field_definition_number,
                                    reason: Box::new(e),
                                },
                            ),
                            ..s
                        },
                    );
                },
            }
        }
    }
}

/// The reading of developer fields does not move the position back, nor
/// past the end of the bytes.
pub proof fn lemma_developer_fields_position(
    bytes: Seq<u8>,
    def: DefinitionModel,
    k: int,
    s: DataRead,
)
    requires
        0 <= k,
    ensures
        developer_fields_from(bytes, def, k, s) matches Ok(r) ==> s.at <= r.at && (s.at
            <= bytes.len() ==> r.at <= bytes.len()),
    decreases def.developer_field_definitions.len() - k,
{
    if k < def.developer_field_definitions.len() {
        let d = def.developer_field_definitions[k];
        if readable(bytes, s.at, d.size as int) {
            let value = field_value_of(
                bytes.subrange(s.at, s.at + d.size),
                BaseType::Byte,
                def.architecture.spec_is_big_endian(),
                false,
            );
            match value {
                Ok(v) => {
                    lemma_developer_fields_position(
                        bytes,
                        def,
                        k + 1,
                        DataRead {
                            at: s.at + d.size,
                            developer_fields: developer_fields_insert(
                                s.developer_fields,
                                DeveloperFieldModel {
                                    developer_data_index: d.developer_data_index,
                                    field_number: d.field_number,
                                    value: v,
                                },
                            ),
                            ..s
                        },
                    );
                },
                Err(e) => {
                    lemma_developer_fields_position(
                        bytes,
                        def,
                        k + 1,
                        DataRead {
                            at: s.at + d.size,
                            errors: s.errors.push(
                                ErrorModel::DecodeDeveloperFieldFailed {
                                    message_no: def.global_message_number,
                                    data_index: d.developer_data_index,
                                    reason: Box::new(e),
                                },
                            ),
                            ..s
                        },
                    );
                },
            }
        }
    }
}

/// A decoded message moves the position on, and not past the end of the
/// bytes.
pub proof fn lemma_record_position(p: FitProfile, bytes: Seq<u8>, at: int, s: SessionModel)
    requires
        0 <= at,
    ensures
        record_decoded(p, bytes, at, s) matches Ok(step) ==> at < step.at <= bytes.len(),
{
    reveal(record_decoded);
    if readable(bytes, at, 1) {
        let header = message_header_of(bytes[at]);
        if header.message_type != FitMessageType::Definition {
            if let Some(d) = table_get(s.definitions, header.local_message_number) {
                let start = DataRead {
                    at: at + 1,
                    fields: Seq::empty(),
                    developer_fields: Seq::empty(),
                    errors: s.errors,
                };
                lemma_fields_position(p, bytes, d, 0, start);
                if let Ok(middle) = data_fields_from(p, bytes, d, 0, start) {
                    lemma_developer_fields_position(bytes, d, 0, middle);
                }
            }
        }
    }
}

/// A step, moved.
pub open spec fn moved_step(step: Step, by: int) -> Step {
    Step { at: step.at + by, ..step }
}

/// A progress, moved.
pub open spec fn moved(g: Progress, by: int) -> Progress {
    Progress { at: g.at + by, ..g }
}

/// A message that can be decoded in a part can be decoded in the whole,
/// and gives the same.
pub proof fn lemma_moved_record(
    p: FitProfile,
    part: Seq<u8>,
    whole: Seq<u8>,
    at: int,
    k: int,
    s: SessionModel,
)
    requires
        stands_at(part, whole, at),
        0 <= k,
        record_decoded(p, part, k, s) is Ok,
    ensures
        record_decoded(p, whole, at + k, s) == Ok::<_, ErrorModel>(
            moved_step(record_decoded(p, part, k, s)->Ok_0, at),
        ),
{
    reveal(record_decoded);
    assert(whole[at + k] == part[k]);
    let header = message_header_of(part[k]);
    if header.message_type == FitMessageType::Definition {
        lemma_moved_definition(part, whole, at, k + 1, header);
    } else {
        let d = table_get(s.definitions, header.local_message_number)->Some_0;
        lemma_moved_data_message(p, part, whole, at, k + 1, d, header, s.errors);
    }
}

/// Messages that can be decoded in a part can be decoded in the whole, and
/// give the same.
pub proof fn lemma_moved_records(
    p: FitProfile,
    part: Seq<u8>,
    whole: Seq<u8>,
    at: int,
    end: int,
    g: Progress,
)
    requires
        stands_at(part, whole, at),
        0 <= g.at,
        records_from(p, part, end, g) is Ok,
    ensures
        records_from(p, whole, at + end, moved(g, at)) == Ok::<_, ErrorModel>(
            moved(records_from(p, part, end, g)->Ok_0, at),
        ),
    decreases part.len() - g.at,
{
    if g.at < end {
        lemma_moved_record(p, part, whole, at, g.at, g.session);
        lemma_record_position(p, part, g.at, g.session);
        let step = record_decoded(p, part, g.at, g.session)->Ok_0;
        let next = after_step(g, step);
        assert(after_step(moved(g, at), moved_step(step, at)) == moved(next, at));
        if g.at < next.at <= part.len() {
            lemma_moved_records(p, part, whole, at, end, next);
        }
    }
}

/// The decoding of messages does not move the position back.
pub proof fn lemma_records_position(p: FitProfile, bytes: Seq<u8>, end: int, g: Progress)
    requires
        0 <= g.at,
    ensures
        records_from(p, bytes, end, g) matches Ok(done) ==> g.at <= done.at && (g.at < end
            ==> end <= done.at) && (g.at <= bytes.len() ==> done.at <= bytes.len()),
    decreases bytes.len() - g.at,
{
    if g.at < end {
        lemma_record_position(p, bytes, g.at, g.session);
        if let Ok(step) = record_decoded(p, bytes, g.at, g.session) {
            let next = after_step(g, step);
            if g.at < next.at <= bytes.len() {
                lemma_records_position(p, bytes, end, next);
            }
        }
    }
}

/// A file that can be decoded in a part can be decoded in the whole, and
/// gives the same.
pub proof fn lemma_moved_file(p: FitProfile, part: Seq<u8>, whole: Seq<u8>, at: int, g: Progress)
    requires
        stands_at(part, whole, at),
        file_decoded(p, part, g) is Ok,
    ensures
        file_decoded(p, whole, moved(g, at)) == Ok::<_, ErrorModel>(
            moved(file_decoded(p, part, g)->Ok_0, at),
        ),
{
    reveal(file_decoded);
    let rest = part.subrange(g.at, part.len() as int);
    let rest_whole = whole.subrange(at + g.at, whole.len() as int);
    lemma_moved_header(part, whole, at, g.at);
    let (header, after) = file_header_at(part, g.at)->Ok_0;
    let end = g.at + header.header_size + header.data_size;
    lemma_moved_records(p, part, whole, at, end, Progress { at: after, ..g });
    assert(records_from(p, part, end, Progress { at: after, ..g }) is Ok);
    let done = records_from(p, part, end, Progress { at: after, ..g })->Ok_0;
    assert(moved(Progress { at: after, ..g }, at) == Progress { at: at + after, ..moved(g, at) });
    lemma_records_position(p, part, end, Progress { at: after, ..g });
    assert(readable(part, done.at, 2));
    assert(whole[at + done.at] == part[done.at]);
    assert(whole[at + done.at + 1] == part[done.at + 1]);
    lemma_moved_range(part, whole, at, g.at, end);
}

/// The files of a part that decodes wholly are decoded in the whole as in
/// the part, and the decoding of the whole goes on after them.
pub proof fn lemma_moved_files(p: FitProfile, part: Seq<u8>, whole: Seq<u8>, at: int, g: Progress)
    requires
        stands_at(part, whole, at),
        0 <= g.at,
        files_from(p, part, g) is Ok,
        files_from(p, part, g)->Ok_0.at == part.len(),
    ensures
        files_from(p, whole, moved(g, at)) == files_from(
            p,
            whole,
            moved(files_from(p, part, g)->Ok_0, at),
        ),
    decreases part.len() - g.at,
{
    if g.at + 1 < part.len() {
        lemma_moved_file(p, part, whole, at, g);
        let done = file_decoded(p, part, g)->Ok_0;
        if g.at < done.at <= part.len() {
            lemma_moved_files(p, part, whole, at, done);
        }
    }
}

/// The progress at the first byte of an input.
pub open spec fn at_start(s: SessionModel, messages: Seq<MessageRecordsModel>) -> Progress {
    Progress { session: s, at: 0, messages }
}

/// The decoding of a progress that stands at the end of the bytes is done.
pub proof fn lemma_done_at_end(p: FitProfile, bytes: Seq<u8>, g: Progress)
    requires
        g.at >= bytes.len(),
    ensures
        files_from(p, bytes, g) == Ok::<_, ErrorModel>(g),
{
}

/// Chained files are decoded one after the other, and the state carries
/// over: where a first part of an input decodes wholly, and the second part
/// decodes wholly with the state and the records that the first has left,
/// the input decodes to what the second part then gives, at the end of the
/// input.
pub proof fn lemma_chain_decoded(p: FitProfile, first: Seq<u8>, second: Seq<u8>, s: SessionModel)
    requires
        decoded(p, first, s) is Ok,
        decoded(p, first, s)->Ok_0.at == first.len(),
        ({
            let left = decoded(p, first, s)->Ok_0;
            &&& files_from(p, second, at_start(left.session, left.messages)) is Ok
            &&& files_from(p, second, at_start(left.session, left.messages))->Ok_0.at
                == second.len()
        }),
    ensures
        ({
            let left = decoded(p, first, s)->Ok_0;
            decoded(p, first + second, s) == Ok::<_, ErrorModel>(
                moved(
                    files_from(p, second, at_start(left.session, left.messages))->Ok_0,
                    first.len() as int,
                ),
            )
        }),
{
    let whole = first + second;
    let left = decoded(p, first, s)->Ok_0;
    let start = at_start(s, Seq::empty());
    assert(stands_at(first, whole, 0));
    assert(stands_at(second, whole, first.len() as int));
    lemma_moved_files(p, first, whole, 0, start);
    assert(moved(start, 0) == start);
    assert(moved(left, 0) == left);
    let middle = at_start(left.session, left.messages);
    assert(moved(middle, first.len() as int) == left);
    lemma_moved_files(p, second, whole, first.len() as int, middle);
    let done = files_from(p, second, middle)->Ok_0;
    lemma_done_at_end(p, whole, moved(done, first.len() as int));
}

/// The errors recorded before do not change what the fields of a data
/// message are read as, nor how many errors their reading adds.
pub proof fn lemma_fields_errors(
    p: FitProfile,
    bytes: Seq<u8>,
    def: DefinitionModel,
    k: int,
    s: DataRead,
    other: Seq<ErrorModel>,
)
    requires
        0 <= k,
        data_fields_from(p, bytes, def, k, s) is Ok,
    ensures
        ({
            let r = data_fields_from(p, bytes, def, k, s)->Ok_0;
            &&& data_fields_from(p, bytes, def, k, DataRead { errors: other, ..s }) matches Ok(q)
            &&& q.at == r.at
            &&& q.fields == r.fields
            &&& q.developer_fields == r.developer_fields
            &&& q.errors.len() - other.len() == r.errors.len() - s.errors.len()
            &&& r.errors.len() >= s.errors.len()
        }),
    decreases def.field_definitions.len() - k,
{
    if k < def.field_definitions.len() {
        let d = def.field_definitions[k];
        let value = field_value_of(
            bytes.subrange(s.at, s.at + d.size),
            d.base_type,
            def.architecture.spec_is_big_endian(),
            p.spec_declares_array(def.global_message_number, d.field_definition_number),
        );
        match value {
            Ok(v) => {
                let next = DataRead {
                    at: s.at + d.size,
                    fields: fields_insert(
                        s.fields,
                        DataFieldModel {
                            field_definition_number: d.field_definition_number,
                            value: v,
                        },
                    ),
                    ..s
                };
                lemma_fields_errors(p, bytes, def, k + 1, next, other);
                assert(DataRead { errors: other, ..next } == DataRead {
                    at: s.at + d.size,
                    fields: next.fields,
                    ..DataRead { errors: other, ..s }
                });
            },
            Err(e) => {
                let failed = ErrorModel::DecodeFieldFailed {
                    message_no: def.global_message_number,
                    field_no: d.field_definition_number,
                    reason: Box::new(e),
                };
                let next = DataRead { at: s.at + d.size, errors: s.errors.push(failed), ..s };
                lemma_fields_errors(p, bytes, def, k + 1, next, other.push(failed));
                assert(DataRead { errors: other.push(failed), ..next } == DataRead {
                    at: s.at + d.size,
                    errors: other.push(failed),
                    ..DataRead { errors: other, ..s }
                });
            },
        }
    }
}

/// The errors recorded before do not change what the developer fields of a
/// data message are read as, nor how many errors their reading adds.
pub proof fn lemma_developer_fields_errors(
    bytes: Seq<u8>,
    def: DefinitionModel,
    k: int,
    s: DataRead,
    other: Seq<ErrorModel>,
)
    requires
        0 <= k,
        developer_fields_from(bytes, def, k, s) is Ok,
    ensures
        ({
            let r = developer_fields_from(bytes, def, k, s)->Ok_0;
            &&& developer_fields_from(bytes, def, k, DataRead { errors: other, ..s }) matches Ok(q)
            &&& q.at == r.at
            &&& q.fields == r.fields
            &&& q.developer_fields == r.developer_fields
            &&& q.errors.len() - other.len() == r.errors.len() - s.errors.len()
            &&& r.errors.len() >= s.errors.len()
        }),
    decreases def.developer_field_definitions.len() - k,
{
    if k < def.developer_field_definitions.len() {
        let d = def.developer_field_definitions[k];
        let value = field_value_of(
            bytes.subrange(s.at, s.at + d.size),
            BaseType::Byte,
            def.architecture.spec_is_big_endian(),
            false,
        );
        match value {
            Ok(v) => {
                let next = DataRead {
                    at: s.at + d.size,
                    developer_fields: developer_fields_insert(
                        s.developer_fields,
                        DeveloperFieldModel {
                            developer_data_index: d.developer_data_index,
                            field_number: d.field_number,
                            value: v,
                        },
                    ),
                    ..s
                };
                lemma_developer_fields_errors(bytes, def, k + 1, next, other);
                assert(DataRead { errors: other, ..next } == DataRead {
                    at: s.at + d.size,
                    developer_fields: next.developer_fields,
                    ..DataRead { errors: other, ..s }
                });
            },
            Err(e) => {
                let failed = ErrorModel::DecodeDeveloperFieldFailed {
                    message_no: def.global_message_number,
                    data_index: d.developer_data_index,
                    reason: Box::new(e),
                };
                let next = DataRead { at: s.at + d.size, errors: s.errors.push(failed), ..s };
                lemma_developer_fields_errors(bytes, def, k + 1, next, other.push(failed));
                assert(DataRead { errors: other.push(failed), ..next } == DataRead {
                    at: s.at + d.size,
                    errors: other.push(failed),
                    ..DataRead { errors: other, ..s }
                });
            },
        }
    }
}

/// The errors recorded before do not change what a data message is read
/// as, nor how many errors its reading adds.
pub proof fn lemma_data_message_errors(
    p: FitProfile,
    bytes: Seq<u8>,
    at: int,
    def: DefinitionModel,
    header: FitMessageHeader,
    errors: Seq<ErrorModel>,
    other: Seq<ErrorModel>,
)
    requires
        data_message_at(p, bytes, at, def, header, errors) is Ok,
    ensures
        ({
            let r = data_message_at(p, bytes, at, def, header, errors)->Ok_0;
            &&& data_message_at(p, bytes, at, def, header, other) matches Ok(q)
            &&& q.0 == r.0
            &&& q.1 == r.1
            &&& q.2.len() - other.len() == r.2.len() - errors.len()
            &&& r.2.len() >= errors.len()
        }),
{
    let start = DataRead { at, fields: Seq::empty(), developer_fields: Seq::empty(), errors };
    lemma_fields_errors(p, bytes, def, 0, start, other);
    let middle = data_fields_from(p, bytes, def, 0, start)->Ok_0;
    let other_middle = data_fields_from(p, bytes, def, 0, DataRead { errors: other, ..start })->Ok_0;
    lemma_developer_fields_errors(bytes, def, 0, middle, other_middle.errors);
    assert(DataRead { errors: other_middle.errors, ..middle } == other_middle);
}

/// The decoding of a field without sub-fields and components reads
/// nothing of the counters: the record and the fault are the same whatever
/// the counters are.
pub proof fn lemma_plain_field(
    p: FitProfile,
    m: Message,
    a: DecodeArgsModel,
    e: Expansion,
    counters: Map<u32, AccumulatedField>,
)
    requires
        m.is_plain(),
        e.fault is None,
    ensures
        field_decoded(p, m, a, Expansion { counters, ..e }).record == field_decoded(
            p,
            m,
            a,
            e,
        ).record,
        field_decoded(p, m, a, Expansion { counters, ..e }).fault == field_decoded(p, m, a, e).fault,
{
    lemma_find_field(m, a.field_no);
}

/// The projection of the fields of a message without sub-fields and
/// components gives the same record and as many errors whatever the state
/// is, and has a timestamp reference wherever it has one in a state that
/// knows less.
pub proof fn lemma_plain_projection(
    p: FitProfile,
    m: Message,
    name: Seq<char>,
    exempt: bool,
    msg: DataMessageModel,
    k: int,
    s: Projection,
    t: Projection,
)
    requires
        m.is_plain(),
        0 <= k,
        s.record == t.record,
        s.timestamp_ref is Some ==> t.timestamp_ref is Some,
    ensures
        ({
            let r = projected_from(p, m, name, exempt, msg, k, s);
            let q = projected_from(p, m, name, exempt, msg, k, t);
            &&& r.record == q.record
            &&& q.errors.len() - t.errors.len() == r.errors.len() - s.errors.len()
            &&& r.errors.len() >= s.errors.len()
            &&& r.timestamp_ref is Some ==> q.timestamp_ref is Some
        }),
    decreases msg.fields.len() - k,
{
    if k < msg.fields.len() {
        let e = Expansion { record: s.record, counters: s.counters, fault: None };
        lemma_plain_field(p, m, args_of(exempt, msg, k), e, t.counters);
        assert(Expansion { counters: t.counters, ..e } == Expansion {
            record: t.record,
            counters: t.counters,
            fault: None,
        });
        lemma_plain_projection(
            p,
            m,
            name,
            exempt,
            msg,
            k + 1,
            projection_step(p, m, name, exempt, msg, k, s),
            projection_step(p, m, name, exempt, msg, k, t),
        );
    }
}

/// The developer fields of a message add no more errors in a state that
/// defines and describes more.
pub proof fn lemma_developer_errors(
    a: Map<u8, DeveloperDataModel>,
    b: Map<u8, DeveloperDataModel>,
    name: Seq<char>,
    fields: Seq<DeveloperFieldModel>,
    k: int,
    s: DeveloperState,
    t: DeveloperState,
)
    requires
        described_in(a, b),
        0 <= k,
    ensures
        ({
            let r = developer_from(a, name, fields, k, s);
            let q = developer_from(b, name, fields, k, t);
            &&& q.errors.len() - t.errors.len() <= r.errors.len() - s.errors.len()
            &&& r.errors.len() >= s.errors.len()
            &&& q.errors.len() >= t.errors.len()
        }),
    decreases fields.len() - k,
{
    if k < fields.len() {
        let f = fields[k];
        if describes(a, f.developer_data_index, f.field_number) {
            assert(describes(b, f.developer_data_index, f.field_number));
        }
        lemma_developer_errors(
            a,
            b,
            name,
            fields,
            k + 1,
            developer_step(a, name, f, s),
            developer_step(b, name, f, t),
        );
    }
}

/// Whether two records hold fields of the same names in the same order.
pub open spec fn same_names(a: Seq<FieldModel>, b: Seq<FieldModel>) -> bool {
    &&& a.len() == b.len()
    &&& forall|i: int| 0 <= i < a.len() ==> (#[trigger] a[i]).name == b[i].name
}

/// Fields of one name put into records of the same names leave them with
/// the same names.
pub proof fn lemma_insert_names(
    a: Seq<FieldModel>,
    b: Seq<FieldModel>,
    fa: FieldModel,
    fb: FieldModel,
)
    requires
        same_names(a, b),
        fa.name == fb.name,
    ensures
        same_names(record_insert(a, fa), record_insert(b, fb)),
{
    assert forall|j: int| 0 <= j < a.len() implies is_named(fa.name)(#[trigger] a[j]) == is_named(
        fa.name,
    )(b[j]) by {
        assert(a[j].name == b[j].name);
    }
    lemma_first_from_same(a, b, is_named(fa.name), 0);
    lemma_first_from(a, is_named(fa.name), 0);
    let ra = record_insert(a, fa);
    let rb = record_insert(b, fb);
    assert forall|i: int| 0 <= i < ra.len() implies (#[trigger] ra[i]).name == rb[i].name by {
        if i < a.len() {
            assert(a[i].name == b[i].name);
        }
    }
}

/// Whether two values pass or fail the projection alike: both are arrays,
/// of one length, or neither is; both are `UInt32` or neither is; and both
/// are numbers throughout or neither is.
pub open spec fn alike(v: ValueModel, w: ValueModel) -> bool {
    &&& (v is Array) == (w is Array)
    &&& (v is UInt32) == (w is UInt32)
    &&& v.all_numbers() == w.all_numbers()
    &&& v is Array ==> v->Array_0.len() == w->Array_0.len()
}

/// The projection passes or fails alike, and with the same fault, for
/// values that are alike.
pub proof fn lemma_projected_alike(
    p: FitProfile,
    exempt: bool,
    v: ValueModel,
    w: ValueModel,
    ty: Seq<char>,
    scale: u64,
    offset: u64,
    array: Option<usize>,
)
    requires
        alike(v, w),
    ensures
        projected(p, exempt, v, ty, scale, offset, array) is Ok <==> projected(
            p,
            exempt,
            w,
            ty,
            scale,
            offset,
            array,
        ) is Ok,
        projected(p, exempt, v, ty, scale, offset, array) is Err ==> projected(
            p,
            exempt,
            v,
            ty,
            scale,
            offset,
            array,
        )->Err_0 == projected(p, exempt, w, ty, scale, offset, array)->Err_0,
{
}

/// Whether two sequences of values have one length and numbers at the
/// same places.
pub open spec fn elements_alike(a: Seq<ValueModel>, b: Seq<ValueModel>) -> bool {
    &&& a.len() == b.len()
    &&& forall|i: int| 0 <= i < a.len() ==> (#[trigger] a[i]).is_number() == b[i].is_number()
}

/// Arrays of elements that are alike are alike.
pub proof fn lemma_arrays_alike(a: Seq<ValueModel>, b: Seq<ValueModel>)
    requires
        elements_alike(a, b),
    ensures
        alike(ValueModel::Array(a), ValueModel::Array(b)),
{
    let va = ValueModel::Array(a);
    let vb = ValueModel::Array(b);
    assert(va->Array_0 == a);
    assert(vb->Array_0 == b);
    if va.all_numbers() {
        assert forall|i: int| 0 <= i < b.len() implies (#[trigger] b[i]).is_number() by {
            assert(va->Array_0[i].is_number());
            assert(a[i].is_number() == b[i].is_number());
        }
    }
    if vb.all_numbers() {
        assert forall|i: int| 0 <= i < a.len() implies (#[trigger] a[i]).is_number() by {
            assert(vb->Array_0[i].is_number());
            assert(a[i].is_number() == b[i].is_number());
        }
    }
}

/// The reading of a group of components reads as many values, up to the
/// same position, whatever the counters are.
pub proof fn lemma_group_alike(
    words: Seq<u64>,
    per: int,
    n: nat,
    bits: u8,
    a: DecodeArgsModel,
    t: BaseType,
    g: GroupRead,
    h: GroupRead,
)
    requires
        t.spec_is_integer(),
        g.position == h.position,
        elements_alike(g.values, h.values),
    ensures
        group_read(words, per, n, bits, a, t, g).position == group_read(
            words,
            per,
            n,
            bits,
            a,
            t,
            h,
        ).position,
        elements_alike(
            group_read(words, per, n, bits, a, t, g).values,
            group_read(words, per, n, bits, a, t, h).values,
        ),
    decreases n,
{
    if n > 0 && g.position + bits <= per * words.len() {
        let raw = bits_value(words, per, g.position, bits as nat) as u64;
        let vg = wrap_integer(
            t,
            accumulated(g.counters, a.msg_no, a.field_no, raw, bits),
        ).unwrap();
        let vh = wrap_integer(
            t,
            accumulated(h.counters, a.msg_no, a.field_no, raw, bits),
        ).unwrap();
        let g1 = GroupRead {
            values: g.values.push(vg),
            position: g.position + bits,
            counters: counters_after(
                g.counters,
                a.msg_no,
                a.field_no,
                raw,
                bits,
            ),
        };
        let h1 = GroupRead {
            values: h.values.push(vh),
            position: h.position + bits,
            counters: counters_after(
                h.counters,
                a.msg_no,
                a.field_no,
                raw,
                bits,
            ),
        };
        assert forall|i: int| 0 <= i < g1.values.len() implies (#[trigger] g1.values[i]).is_number()
            == h1.values[i].is_number() by {
            if i < g.values.len() {
                assert(g.values[i].is_number() == h.values[i].is_number());
            }
        }
        lemma_group_alike(words, per, (n - 1) as nat, bits, a, t, g1, h1);
    }
}

/// The expansion of components gives fields of the same names and the
/// same fault whatever the counters are.
pub proof fn lemma_expanded_alike(
    p: FitProfile,
    a: DecodeArgsModel,
    words: Seq<u64>,
    per: int,
    comps: Seq<Component>,
    i: int,
    position: int,
    e: Expansion,
    f: Expansion,
)
    requires
        0 <= i,
        same_names(e.record, f.record),
        e.fault == f.fault,
    ensures
        same_names(
            expanded_from(p, a, words, per, comps, i, position, e).record,
            expanded_from(p, a, words, per, comps, i, position, f).record,
        ),
        expanded_from(p, a, words, per, comps, i, position, e).fault == expanded_from(
            p,
            a,
            words,
            per,
            comps,
            i,
            position,
            f,
        ).fault,
    decreases comps.len() - i,
{
    if i < comps.len() {
        if repeats(comps, i) {
            lemma_expanded_alike(p, a, words, per, comps, i + 1, position, e, f);
        } else {
            let c = comps[i];
            let n = occurrences(comps, c.field_name@, i);
            if let Some(t) = p.spec_base_type_of(c.field_type@) {
                if c.bits > 64 || !t.spec_is_integer() {
                } else if n > 1 {
                    let empty = Seq::<ValueModel>::empty();
                    let g0 = GroupRead { values: empty, position, counters: e.counters };
                    let h0 = GroupRead { values: empty, position, counters: f.counters };
                    lemma_group_alike(words, per, n, c.bits, a, t, g0, h0);
                    let g = group_read(words, per, n, c.bits, a, t, g0);
                    let h = group_read(words, per, n, c.bits, a, t, h0);
                    lemma_arrays_alike(g.values, h.values);
                    lemma_projected_alike(
                        p,
                        a.exempt,
                        ValueModel::Array(g.values),
                        ValueModel::Array(h.values),
                        c.field_type@,
                        c.scale,
                        c.offset,
                        c.array,
                    );
                    let e1 = Expansion { counters: g.counters, ..e };
                    let f1 = Expansion { counters: h.counters, ..f };
                    let pe = projected(
                        p,
                        a.exempt,
                        ValueModel::Array(g.values),
                        c.field_type@,
                        c.scale,
                        c.offset,
                        c.array,
                    );
                    let pf = projected(
                        p,
                        a.exempt,
                        ValueModel::Array(h.values),
                        c.field_type@,
                        c.scale,
                        c.offset,
                        c.array,
                    );
                    if let Ok(v) = pe {
                        let w = pf->Ok_0;
                        lemma_with_field_names(e1, f1, c.field_name@, v, w, c.units@, false);
                        lemma_expanded_alike(
                            p,
                            a,
                            words,
                            per,
                            comps,
                            i + 1,
                            g.position,
                            with_field(e1, c.field_name@, v, c.units@, false),
                            with_field(f1, c.field_name@, w, c.units@, false),
                        );
                    }
                } else if position + c.bits > per * words.len() {
                } else {
                    let raw = bits_value(words, per, position, c.bits as nat) as u64;
                    let ve = wrap_integer(
                        t,
                        accumulated(e.counters, a.msg_no, a.field_no, raw, c.bits),
                    ).unwrap();
                    let vf = wrap_integer(
                        t,
                        accumulated(f.counters, a.msg_no, a.field_no, raw, c.bits),
                    ).unwrap();
                    lemma_projected_alike(
                        p,
                        a.exempt,
                        ve,
                        vf,
                        c.field_type@,
                        c.scale,
                        c.offset,
                        c.array,
                    );
                    let e1 = Expansion {
                        counters: counters_after(
                            e.counters,
                            a.msg_no,
                            a.field_no,
                            raw,
                            c.bits,
                        ),
                        ..e
                    };
                    let f1 = Expansion {
                        counters: counters_after(
                            f.counters,
                            a.msg_no,
                            a.field_no,
                            raw,
                            c.bits,
                        ),
                        ..f
                    };
                    let pe = projected(p, a.exempt, ve, c.field_type@, c.scale, c.offset, c.array);
                    let pf = projected(p, a.exempt, vf, c.field_type@, c.scale, c.offset, c.array);
                    if let Ok(v) = pe {
                        let w = pf->Ok_0;
                        lemma_with_field_names(e1, f1, c.field_name@, v, w, c.units@, false);
                        lemma_expanded_alike(
                            p,
                            a,
                            words,
                            per,
                            comps,
                            i + 1,
                            position + c.bits,
                            with_field(e1, c.field_name@, v, c.units@, false),
                            with_field(f1, c.field_name@, w, c.units@, false),
                        );
                    }
                }
            }
        }
    }
}

/// One more field of one name leaves records of the same names with the
/// same names.
pub proof fn lemma_with_field_names(
    e: Expansion,
    f: Expansion,
    name: Seq<char>,
    v: (ValueModel, Option<Scaling>),
    w: (ValueModel, Option<Scaling>),
    units: Seq<char>,
    is_subfield: bool,
)
    requires
        same_names(e.record, f.record),
    ensures
        same_names(
            with_field(e, name, v, units, is_subfield).record,
            with_field(f, name, w, units, is_subfield).record,
        ),
        with_field(e, name, v, units, is_subfield).fault == e.fault,
        with_field(f, name, w, units, is_subfield).fault == f.fault,
        with_field(e, name, v, units, is_subfield).counters == e.counters,
        with_field(f, name, w, units, is_subfield).counters == f.counters,
{
    lemma_insert_names(
        e.record,
        f.record,
        FieldModel { name, value: v.0, units, is_subfield, scaling: v.1 },
        FieldModel { name, value: w.0, units, is_subfield, scaling: w.1 },
    );
}

/// The expansion of the components of a field gives fields of the same
/// names and the same fault whatever the counters are.
pub proof fn lemma_components_alike(
    p: FitProfile,
    a: DecodeArgsModel,
    comps: Seq<Component>,
    e: Expansion,
    f: Expansion,
)
    requires
        same_names(e.record, f.record),
        e.fault == f.fault,
    ensures
        same_names(
            components_expanded(p, a, comps, e).record,
            components_expanded(p, a, comps, f).record,
        ),
        components_expanded(p, a, comps, e).fault == components_expanded(p, a, comps, f).fault,
{
    if comps.len() > 0 && BitReader::accepts(a.value) {
        lemma_expanded_alike(
            p,
            a,
            bit_words(a.value).unwrap(),
            bit_width(a.value),
            comps,
            0,
            0,
            e,
            f,
        );
    }
}

/// The sub-fields of a field give fields of the same names and the same
/// fault whatever the counters are.
pub proof fn lemma_sub_fields_alike(
    p: FitProfile,
    m: Message,
    field: MessageField,
    a: DecodeArgsModel,
    i: int,
    e: Expansion,
    f: Expansion,
)
    requires
        0 <= i,
        same_names(e.record, f.record),
        e.fault == f.fault,
    ensures
        same_names(
            sub_fields_from(p, m, field, a, i, e).record,
            sub_fields_from(p, m, field, a, i, f).record,
        ),
        sub_fields_from(p, m, field, a, i, e).fault == sub_fields_from(p, m, field, a, i, f).fault,
    decreases field.sub_fields@.len() - i,
{
    if i < field.sub_fields@.len() {
        let sub = field.sub_fields@[i];
        if activates(p, m, sub, a.fields) {
            let value = projected(
                p,
                a.exempt,
                coerced(p, field.field_type@, sub.field_type@, a.value),
                sub.field_type@,
                sub.scale,
                sub.offset,
                sub.array,
            );
            if let Ok(v) = value {
                lemma_with_field_names(e, f, sub.field_name@, v, v, sub.units@, true);
                let e0 = with_field(e, sub.field_name@, v, sub.units@, true);
                let f0 = with_field(f, sub.field_name@, v, sub.units@, true);
                lemma_components_alike(p, a, sub.components@, e0, f0);
                let e1 = components_expanded(p, a, sub.components@, e0);
                let f1 = components_expanded(p, a, sub.components@, f0);
                if e1.fault is None {
                    lemma_sub_fields_alike(p, m, field, a, i + 1, e1, f1);
                }
            }
        } else {
            lemma_sub_fields_alike(p, m, field, a, i + 1, e, f);
        }
    }
}

/// The decoding of a field gives fields of the same names and the same
/// fault whatever the counters are.
pub proof fn lemma_field_alike(p: FitProfile, m: Message, a: DecodeArgsModel, e: Expansion, f: Expansion)
    requires
        same_names(e.record, f.record),
        e.fault == f.fault,
    ensures
        same_names(field_decoded(p, m, a, e).record, field_decoded(p, m, a, f).record),
        field_decoded(p, m, a, e).fault == field_decoded(p, m, a, f).fault,
{
    if let Some(i) = m.spec_find_field(a.field_no) {
        let field = m.fields@[i];
        let value = projected(
            p,
            a.exempt,
            a.value,
            field.field_type@,
            field.scale,
            field.offset,
            field.array,
        );
        if let Ok(v) = value {
            lemma_with_field_names(e, f, field.field_name@, v, v, field.units@, false);
            let e0 = seeded(field, a, with_field(e, field.field_name@, v, field.units@, false));
            let f0 = seeded(field, a, with_field(f, field.field_name@, v, field.units@, false));
            lemma_sub_fields_alike(p, m, field, a, 0, e0, f0);
            let e1 = sub_fields_from(p, m, field, a, 0, e0);
            let f1 = sub_fields_from(p, m, field, a, 0, f0);
            if e1.fault is None {
                lemma_components_alike(p, a, field.components@, e1, f1);
            }
        }
    }
}

/// The projection of the fields of a message gives fields of the same
/// names and as many errors whatever the state is, and has a timestamp
/// reference wherever it has one in a state that knows less.
pub proof fn lemma_projection_alike(
    p: FitProfile,
    m: Message,
    name: Seq<char>,
    exempt: bool,
    msg: DataMessageModel,
    k: int,
    s: Projection,
    t: Projection,
)
    requires
        0 <= k,
        same_names(s.record, t.record),
        s.timestamp_ref is Some ==> t.timestamp_ref is Some,
    ensures
        ({
            let r = projected_from(p, m, name, exempt, msg, k, s);
            let q = projected_from(p, m, name, exempt, msg, k, t);
            &&& same_names(r.record, q.record)
            &&& q.errors.len() - t.errors.len() == r.errors.len() - s.errors.len()
            &&& r.errors.len() >= s.errors.len()
            &&& r.timestamp_ref is Some ==> q.timestamp_ref is Some
        }),
    decreases msg.fields.len() - k,
{
    if k < msg.fields.len() {
        lemma_field_alike(
            p,
            m,
            args_of(exempt, msg, k),
            Expansion { record: s.record, counters: s.counters, fault: None },
            Expansion { record: t.record, counters: t.counters, fault: None },
        );
        lemma_projection_alike(
            p,
            m,
            name,
            exempt,
            msg,
            k + 1,
            projection_step(p, m, name, exempt, msg, k, s),
            projection_step(p, m, name, exempt, msg, k, t),
        );
    }
}

impl FitProfile {
    /// Whether the two messages that describe developer data have neither
    /// sub-fields nor components.
    pub open spec fn describes_plainly(&self) -> bool {
        forall|m: int|
            0 <= m < self.messages@.len() && ((#[trigger] self.messages@[m]).name@
                == "developer_data_id"@ || self.messages@[m].name@ == "field_description"@)
                ==> self.messages@[m].is_plain()
    }
}

/// Whether a state knows at least what another does: the definition of
/// every local message number that the other has, a timestamp reference
/// where the other has one, and the definitions and descriptions of
/// developer data that the other has.
pub open spec fn follows(s: SessionModel, t: SessionModel) -> bool {
    &&& forall|local: u8| #[trigger]
        table_get(s.definitions, local) is Some ==> table_get(t.definitions, local) == table_get(
            s.definitions,
            local,
        )
    &&& s.timestamp_ref is Some ==> t.timestamp_ref is Some
    &&& described_in(s.developer_definitions, t.developer_definitions)
}

/// Whether a record is another with, at most, one more field of the name
/// `timestamp`.
pub open spec fn stamped(record: Seq<FieldModel>, from: Seq<FieldModel>) -> bool {
    record == from || exists|t: u32| record == record_insert(from, #[trigger] timestamp_field(t))
}

/// A field of the name `timestamp` leaves what a record holds under other
/// names.
pub proof fn lemma_stamped_reads(record: Seq<FieldModel>, from: Seq<FieldModel>, name: Seq<char>)
    requires
        stamped(record, from),
        name != "timestamp"@,
    ensures
        record_find(record, name) == record_find(from, name),
        record_value(record, name) == record_value(from, name),
{
    if record != from {
        let t = choose|t: u32| record == record_insert(from, #[trigger] timestamp_field(t));
        lemma_insert_other(from, timestamp_field(t), name);
    }
}

/// The registration of a developer data index reads of a record only its
/// index, and nothing of a field of the name `timestamp`.
pub proof fn lemma_definition_registered(
    p: FitProfile,
    record: Seq<FieldModel>,
    from: Seq<FieldModel>,
    defs: Map<u8, DeveloperDataModel>,
)
    requires
        stamped(record, from),
    ensures
        match record_byte(from, "developer_data_index"@) {
            Some(index) => definition_registered(p, record, defs) matches Ok(out) && out.1
                == definitions_insert(
                defs,
                definition_of(record_named(p, record, "manufacturer_id"@, "manufacturer"@), index),
            ),
            None => definition_registered(p, record, defs) is Err,
        },
{
    lemma_registration_names();
    lemma_named_other(p, record, "manufacturer_id"@, "manufacturer"@, "developer_data_index"@);
    lemma_stamped_reads(record, from, "developer_data_index"@);
}

/// The registration of a field description reads of a record only its four
/// fields, its index and its field number, and nothing of a field of the
/// name `timestamp`.
pub proof fn lemma_description_registered(
    p: FitProfile,
    record: Seq<FieldModel>,
    from: Seq<FieldModel>,
    defs: Map<u8, DeveloperDataModel>,
)
    requires
        stamped(record, from),
    ensures
        missing_description_field(record) == missing_description_field(from),
        record_byte(description_named(p, record), "developer_data_index"@) == record_byte(
            from,
            "developer_data_index"@,
        ),
        record_byte(description_named(p, record), "field_definition_number"@) == record_byte(
            from,
            "field_definition_number"@,
        ),
{
    lemma_registration_names();
    lemma_stamped_reads(record, from, "developer_data_index"@);
    lemma_stamped_reads(record, from, "field_definition_number"@);
    lemma_stamped_reads(record, from, "fit_base_type_id"@);
    lemma_stamped_reads(record, from, "field_name"@);
    let r1 = record_named(p, record, "fit_base_type_id"@, "fit_base_type"@);
    let r2 = record_named(p, r1, "fit_base_unit_id"@, "fit_base_unit"@);
    lemma_named_other(p, record, "fit_base_type_id"@, "fit_base_type"@, "developer_data_index"@);
    lemma_named_other(p, r1, "fit_base_unit_id"@, "fit_base_unit"@, "developer_data_index"@);
    lemma_named_other(p, r2, "native_mesg_num"@, "mesg_num"@, "developer_data_index"@);
    lemma_named_other(p, record, "fit_base_type_id"@, "fit_base_type"@, "field_definition_number"@);
    lemma_named_other(p, r1, "fit_base_unit_id"@, "fit_base_unit"@, "field_definition_number"@);
    lemma_named_other(p, r2, "native_mesg_num"@, "mesg_num"@, "field_definition_number"@);
}

/// A compressed timestamp adds a field of the name `timestamp` at most,
/// adds an error only where there is no reference, and leaves a reference
/// wherever there was one.
pub proof fn lemma_timestamp_applied(time_offset: Option<u8>, s: Projection)
    ensures
        ({
            let r = timestamp_applied(time_offset, s);
            &&& stamped(r.record, s.record)
            &&& r.counters == s.counters
            &&& s.timestamp_ref is Some ==> r.timestamp_ref is Some && r.errors == s.errors
            &&& s.timestamp_ref is None ==> r.timestamp_ref is None && r.record == s.record
            &&& r.errors.len() == s.errors.len() + (if time_offset is Some && s.timestamp_ref
                is None {
                1nat
            } else {
                0nat
            })
        }),
{
    if time_offset is Some && s.timestamp_ref is Some {
        let t = next_timestamp(s.timestamp_ref.unwrap(), time_offset.unwrap());
        assert(timestamp_applied(time_offset, s).record == record_insert(
            s.record,
            timestamp_field(t),
        ));
    }
}

/// A message that decodes in one state decodes in any state that knows at
/// least as much, with a profile whose two messages that describe developer
/// data have neither sub-fields nor components: under the same name, with
/// no more errors added, and into a state that again knows at least as
/// much.
pub proof fn lemma_message_follows(
    p: FitProfile,
    s: SessionModel,
    t: SessionModel,
    msg: DataMessageModel,
)
    requires
        p.describes_plainly(),
        follows(s, t),
        message_decoded(p, s, msg) is Ok,
    ensures
        ({
            let r = message_decoded(p, s, msg)->Ok_0;
            &&& message_decoded(p, t, msg) matches Ok(q)
            &&& q.1 == r.1
            &&& follows(r.0, q.0)
            &&& q.0.errors.len() - t.errors.len() <= r.0.errors.len() - s.errors.len()
            &&& r.0.errors.len() >= s.errors.len()
            &&& q.0.errors.len() >= t.errors.len()
        }),
{
    reveal(message_decoded);
    lemma_resolve(p, msg.global_message_number);
    let m = p.spec_resolve(msg.global_message_number)->Ok_0;
    let message = p.messages@[m];
    let name = message.name@;
    let exempt = name == "developer_data_id"@ || name == "field_description"@;
    let start_s = Projection {
        record: Seq::empty(),
        counters: s.counters,
        errors: s.errors,
        timestamp_ref: s.timestamp_ref,
    };
    let start_t = Projection {
        record: Seq::empty(),
        counters: t.counters,
        errors: t.errors,
        timestamp_ref: t.timestamp_ref,
    };
    if exempt {
        assert(message.is_plain());
        lemma_plain_projection(p, message, name, exempt, msg, 0, start_s, start_t);
    } else {
        lemma_projection_alike(p, message, name, exempt, msg, 0, start_s, start_t);
    }
    let fields_s = projected_from(p, message, name, exempt, msg, 0, start_s);
    let fields_t = projected_from(p, message, name, exempt, msg, 0, start_t);
    let dev_s = DeveloperState { data: s.developer_data, errors: fields_s.errors };
    let dev_t = DeveloperState { data: t.developer_data, errors: fields_t.errors };
    lemma_developer_errors(
        s.developer_definitions,
        t.developer_definitions,
        name,
        msg.developer_fields,
        0,
        dev_s,
        dev_t,
    );
    let developer_s = developer_from(s.developer_definitions, name, msg.developer_fields, 0, dev_s);
    let developer_t = developer_from(t.developer_definitions, name, msg.developer_fields, 0, dev_t);
    let before_s = Projection { errors: developer_s.errors, ..fields_s };
    let before_t = Projection { errors: developer_t.errors, ..fields_t };
    lemma_timestamp_applied(msg.time_offset, before_s);
    lemma_timestamp_applied(msg.time_offset, before_t);
    let timed_s = timestamp_applied(msg.time_offset, before_s);
    let timed_t = timestamp_applied(msg.time_offset, before_t);
    let from = fields_s.record;
    if name == "developer_data_id"@ {
        lemma_definition_registered(p, timed_s.record, from, s.developer_definitions);
        lemma_definition_registered(p, timed_t.record, from, t.developer_definitions);
        let index = record_byte(from, "developer_data_index"@)->Some_0;
        lemma_insert_described(
            s.developer_definitions,
            t.developer_definitions,
            definition_of(
                record_named(p, timed_s.record, "manufacturer_id"@, "manufacturer"@),
                index,
            ),
            definition_of(
                record_named(p, timed_t.record, "manufacturer_id"@, "manufacturer"@),
                index,
            ),
        );
    } else if name == "field_description"@ {
        lemma_description_registered(p, timed_s.record, from, s.developer_definitions);
        lemma_description_registered(p, timed_t.record, from, t.developer_definitions);
        let index = record_byte(from, "developer_data_index"@)->Some_0;
        let number = record_byte(from, "field_definition_number"@)->Some_0;
        lemma_describe_described(
            s.developer_definitions,
            t.developer_definitions,
            index,
            DescriptionModel {
                field_definition_number: number,
                attributes: description_named(p, timed_s.record),
            },
            DescriptionModel {
                field_definition_number: number,
                attributes: description_named(p, timed_t.record),
            },
        );
    }
}

/// The definition of a local message number after one is put into a
/// table: the new one under its number, and the others as before.
pub proof fn lemma_table_set(
    t: Map<u8, DefinitionModel>,
    local: u8,
    d: DefinitionModel,
    other: u8,
)
    ensures
        table_get(table_set(t, local, d), other) == (if other == local {
            Some(d)
        } else {
            table_get(t, other)
        }),
{
}

/// How the records of two decodings have grown alike: by as many records
/// under every message name.
pub open spec fn grown_alike(
    g0: Seq<MessageRecordsModel>,
    g1: Seq<MessageRecordsModel>,
    h0: Seq<MessageRecordsModel>,
    h1: Seq<MessageRecordsModel>,
) -> bool {
    forall|name: Seq<char>|
        #![trigger records_count(h1, name)]
        records_count(h1, name) - records_count(h0, name) == records_count(g1, name)
            - records_count(g0, name)
}

/// How a decoding keeps up with another, from the progress `g0` to `g1`
/// the one and from `h0` to `h1` the other: they end at the same position;
/// the second ends knowing at least what the first knows; it has added no
/// more errors; and the records of both have grown alike.
pub open spec fn keeps_up(g0: Progress, g1: Progress, h0: Progress, h1: Progress) -> bool {
    &&& h1.at == g1.at
    &&& follows(g1.session, h1.session)
    &&& h1.session.errors.len() - h0.session.errors.len() <= g1.session.errors.len()
        - g0.session.errors.len()
    &&& g1.session.errors.len() >= g0.session.errors.len()
    &&& h1.session.errors.len() >= h0.session.errors.len()
    &&& grown_alike(g0.messages, g1.messages, h0.messages, h1.messages)
}

/// A message of an input that decodes in one state decodes in any state
/// that knows at least as much, with a profile that describes developer
/// data plainly: up to the same position, under the same name, with no more
/// errors added.
pub proof fn lemma_record_follows(
    p: FitProfile,
    bytes: Seq<u8>,
    at: int,
    s: SessionModel,
    t: SessionModel,
)
    requires
        p.describes_plainly(),
        follows(s, t),
        record_decoded(p, bytes, at, s) is Ok,
    ensures
        ({
            let step = record_decoded(p, bytes, at, s)->Ok_0;
            &&& record_decoded(p, bytes, at, t) matches Ok(other)
            &&& other.at == step.at
            &&& follows(step.session, other.session)
            &&& other.session.errors.len() - t.errors.len() <= step.session.errors.len()
                - s.errors.len()
            &&& step.session.errors.len() >= s.errors.len()
            &&& other.session.errors.len() >= t.errors.len()
            &&& step.record is Some <==> other.record is Some
            &&& step.record is Some ==> other.record->Some_0.0 == step.record->Some_0.0
        }),
{
    reveal(record_decoded);
    let header = message_header_of(bytes[at]);
    if header.message_type == FitMessageType::Definition {
        let d = definition_at(bytes, at + 1, header)->Ok_0.0;
        let s2 = table_set(s.definitions, header.local_message_number, d);
        let t2 = table_set(t.definitions, header.local_message_number, d);
        assert forall|local: u8| #[trigger] table_get(s2, local) is Some implies table_get(
            t2,
            local,
        ) == table_get(s2, local) by {
            lemma_table_set(s.definitions, header.local_message_number, d, local);
            lemma_table_set(t.definitions, header.local_message_number, d, local);
            if local != header.local_message_number {
                assert(table_get(s.definitions, local) is Some);
            }
        }
    } else {
        assert(table_get(s.definitions, header.local_message_number) is Some);
        let d = table_get(s.definitions, header.local_message_number)->Some_0;
        lemma_data_message_errors(p, bytes, at + 1, d, header, s.errors, t.errors);
        let read = data_message_at(p, bytes, at + 1, d, header, s.errors)->Ok_0;
        let other = data_message_at(p, bytes, at + 1, d, header, t.errors)->Ok_0;
        let s1 = SessionModel { errors: read.2, ..s };
        let t1 = SessionModel { errors: other.2, ..t };
        assert(follows(s1, t1));
        lemma_message_follows(p, s1, t1, read.0);
    }
}

/// The messages of an input that decode in one state decode in any state
/// that knows at least as much, with a profile that describes developer
/// data plainly, and the decoding keeps up.
pub proof fn lemma_records_follow(
    p: FitProfile,
    bytes: Seq<u8>,
    end: int,
    g: Progress,
    h: Progress,
)
    requires
        p.describes_plainly(),
        0 <= g.at,
        g.at == h.at,
        follows(g.session, h.session),
        records_from(p, bytes, end, g) is Ok,
    ensures
        records_from(p, bytes, end, h) is Ok,
        keeps_up(g, records_from(p, bytes, end, g)->Ok_0, h, records_from(p, bytes, end, h)->Ok_0),
    decreases bytes.len() - g.at,
{
    if g.at < end {
        lemma_record_follows(p, bytes, g.at, g.session, h.session);
        lemma_record_position(p, bytes, g.at, g.session);
        let step = record_decoded(p, bytes, g.at, g.session)->Ok_0;
        let other = record_decoded(p, bytes, g.at, h.session)->Ok_0;
        let g1 = after_step(g, step);
        let h1 = after_step(h, other);
        assert(grown_alike(g.messages, g1.messages, h.messages, h1.messages)) by {
            assert forall|name: Seq<char>|
                #![trigger records_count(h1.messages, name)]
                records_count(h1.messages, name) - records_count(h.messages, name)
                    == records_count(g1.messages, name) - records_count(g.messages, name) by {
                if let Some(r) = step.record {
                    lemma_push_count(g.messages, r.0, r.1, name);
                    lemma_push_count(h.messages, other.record->Some_0.0, other.record->Some_0.1, name);
                }
            }
        }
        lemma_records_follow(p, bytes, end, g1, h1);
        let gd = records_from(p, bytes, end, g1)->Ok_0;
        let hd = records_from(p, bytes, end, h1)->Ok_0;
        assert(grown_alike(g.messages, gd.messages, h.messages, hd.messages)) by {
            assert forall|name: Seq<char>|
                #![trigger records_count(hd.messages, name)]
                records_count(hd.messages, name) - records_count(h.messages, name)
                    == records_count(gd.messages, name) - records_count(g.messages, name) by {
                assert(records_count(hd.messages, name) - records_count(h1.messages, name)
                    == records_count(gd.messages, name) - records_count(g1.messages, name));
                assert(records_count(h1.messages, name) - records_count(h.messages, name)
                    == records_count(g1.messages, name) - records_count(g.messages, name));
            }
        }
    } else {
        assert(grown_alike(g.messages, g.messages, h.messages, h.messages));
    }
}

/// A file that decodes in one state decodes in any state that knows at
/// least as much, with a profile that describes developer data plainly, and
/// the decoding keeps up.
pub proof fn lemma_file_follows(p: FitProfile, bytes: Seq<u8>, g: Progress, h: Progress)
    requires
        p.describes_plainly(),
        g.at == h.at,
        follows(g.session, h.session),
        file_decoded(p, bytes, g) is Ok,
    ensures
        file_decoded(p, bytes, h) is Ok,
        keeps_up(g, file_decoded(p, bytes, g)->Ok_0, h, file_decoded(p, bytes, h)->Ok_0),
{
    reveal(file_decoded);
    let (header, after) = file_header_at(bytes, g.at)->Ok_0;
    let end = g.at + header.header_size + header.data_size;
    let g0 = Progress { at: after, ..g };
    let h0 = Progress { at: after, ..h };
    lemma_records_follow(p, bytes, end, g0, h0);
    let gd = records_from(p, bytes, end, g0)->Ok_0;
    let hd = records_from(p, bytes, end, h0)->Ok_0;
    let g1 = Progress { at: gd.at + 2, ..gd };
    let h1 = Progress { at: hd.at + 2, ..hd };
    assert(grown_alike(g.messages, g1.messages, h.messages, h1.messages)) by {
        assert forall|name: Seq<char>|
            #![trigger records_count(h1.messages, name)]
            records_count(h1.messages, name) - records_count(h.messages, name) == records_count(
                g1.messages,
                name,
            ) - records_count(g.messages, name) by {
            assert(records_count(hd.messages, name) - records_count(h0.messages, name)
                == records_count(gd.messages, name) - records_count(g0.messages, name));
        }
    }
}

/// The files of an input that decode in one state decode in any state that
/// knows at least as much, with a profile that describes developer data
/// plainly, and the decoding keeps up.
pub proof fn lemma_files_follow(p: FitProfile, bytes: Seq<u8>, g: Progress, h: Progress)
    requires
        p.describes_plainly(),
        g.at == h.at,
        follows(g.session, h.session),
        files_from(p, bytes, g) is Ok,
    ensures
        files_from(p, bytes, h) is Ok,
        keeps_up(g, files_from(p, bytes, g)->Ok_0, h, files_from(p, bytes, h)->Ok_0),
    decreases bytes.len() - g.at,
{
    if g.at + 1 < bytes.len() {
        lemma_file_follows(p, bytes, g, h);
        let g1 = file_decoded(p, bytes, g)->Ok_0;
        let h1 = file_decoded(p, bytes, h)->Ok_0;
        if g.at < g1.at <= bytes.len() {
            lemma_files_follow(p, bytes, g1, h1);
            let gd = files_from(p, bytes, g1)->Ok_0;
            let hd = files_from(p, bytes, h1)->Ok_0;
            assert(grown_alike(g.messages, gd.messages, h.messages, hd.messages)) by {
                assert forall|name: Seq<char>|
                    #![trigger records_count(hd.messages, name)]
                    records_count(hd.messages, name) - records_count(h.messages, name)
                        == records_count(gd.messages, name) - records_count(g.messages, name) by {
                    assert(records_count(hd.messages, name) - records_count(h1.messages, name)
                        == records_count(gd.messages, name) - records_count(g1.messages, name));
                    assert(records_count(h1.messages, name) - records_count(h.messages, name)
                        == records_count(g1.messages, name) - records_count(g.messages, name));
                }
            }
        }
    } else {
        assert(grown_alike(g.messages, g.messages, h.messages, h.messages));
    }
}

/// Every state knows at least what the state at the start of a decoding
/// knows, which is nothing.
pub proof fn lemma_fresh_follows(t: SessionModel)
    ensures
        follows(fresh_session(), t),
{
    let s = fresh_session();
    assert forall|local: u8| #[trigger] table_get(s.definitions, local) is Some implies table_get(
        t.definitions,
        local,
    ) == table_get(s.definitions, local) by {
        assert(!s.definitions.contains_key(local));
    }
    assert forall|index: u8| #[trigger] defines(s.developer_definitions, index) implies defines(
        t.developer_definitions,
        index,
    ) by {
        assert(definitions_find(s.developer_definitions, index) is None);
    }
    assert forall|index: u8, number: u8| #[trigger]
        describes(s.developer_definitions, index, number) implies describes(
        t.developer_definitions,
        index,
        number,
    ) by {
        assert(definitions_find(s.developer_definitions, index) is None);
    }
}

/// An input `n` times in a row.
pub open spec fn copies(one: Seq<u8>, n: nat) -> Seq<u8>
    decreases n,
{
    if n == 0 {
        Seq::empty()
    } else {
        copies(one, (n - 1) as nat) + one
    }
}

/// The decoding of an input `n` times in a row, with a profile whose two
/// messages that describe developer data have neither sub-fields nor
/// components: where the input decodes wholly, its copies in a row decode
/// wholly, to `n` times the records of the one under every message name,
/// and to `n` times its errors at most. The records and the errors of the
/// first copy come first, as they are by itself.
pub proof fn lemma_copies_decoded(p: FitProfile, one: Seq<u8>, n: nat)
    requires
        p.describes_plainly(),
        decoded(p, one, fresh_session()) is Ok,
        decoded(p, one, fresh_session())->Ok_0.at == one.len(),
    ensures
        decoded(p, copies(one, n), fresh_session()) is Ok,
        ({
            let single = decoded(p, one, fresh_session())->Ok_0;
            let all = decoded(p, copies(one, n), fresh_session())->Ok_0;
            &&& all.at == copies(one, n).len()
            &&& all.session.errors.len() <= n * single.session.errors.len()
            &&& forall|name: Seq<char>|
                #![trigger records_count(all.messages, name)]
                records_count(all.messages, name) == n * records_count(single.messages, name)
            &&& n >= 1 ==> messages_kept(single.messages, all.messages) && errors_kept(
                single.session.errors,
                all.session.errors,
            )
        }),
    decreases n,
{
    let fresh = fresh_session();
    let single = decoded(p, one, fresh)->Ok_0;
    let start = at_start(fresh, Seq::empty());
    if n == 0 {
        let all = decoded(p, copies(one, 0), fresh)->Ok_0;
        assert(all == start);
        assert forall|name: Seq<char>|
            #![trigger records_count(all.messages, name)]
            records_count(all.messages, name) == 0 * records_count(single.messages, name) by {
            assert(messages_find(all.messages, name) is None);
        }
    } else {
        let before = copies(one, (n - 1) as nat);
        lemma_copies_decoded(p, one, (n - 1) as nat);
        let left = decoded(p, before, fresh)->Ok_0;
        let middle = at_start(left.session, left.messages);
        lemma_fresh_follows(left.session);
        lemma_files_follow(p, one, start, middle);
        let done = files_from(p, one, middle)->Ok_0;
        lemma_chain_decoded(p, before, one, fresh);
        let all = decoded(p, copies(one, n), fresh)->Ok_0;
        assert(all == moved(done, before.len() as int));
        lemma_files_kept(p, one, middle);
        lemma_files_keep_errors(p, one, middle);
        if n == 1 {
            assert(left == start);
        } else {
            assert forall|name: Seq<char>| #![trigger messages_records(all.messages, name)]
                records_kept(
                    messages_records(single.messages, name),
                    messages_records(all.messages, name),
                ) by {
                assert(records_kept(
                    messages_records(single.messages, name),
                    messages_records(left.messages, name),
                ));
            }
        }
        let e = single.session.errors.len() as int;
        assert(n * e == (n - 1) * e + e) by (nonlinear_arith);
        assert forall|name: Seq<char>|
            #![trigger records_count(all.messages, name)]
            records_count(all.messages, name) == n * records_count(single.messages, name) by {
            let c = records_count(single.messages, name) as int;
            assert(n * c == (n - 1) * c + c) by (nonlinear_arith);
            assert(records_count(done.messages, name) - records_count(middle.messages, name)
                == records_count(single.messages, name) - records_count(start.messages, name));
            assert(messages_find(start.messages, name) is None);
            assert(records_count(left.messages, name) == (n - 1) * records_count(
                single.messages,
                name,
            ));
        }
    }
}

/// Whether a list of records starts with an earlier list: the records
/// decoded stay where they are, and records are only added after them.
pub open spec fn records_kept(before: Seq<Seq<FieldModel>>, after: Seq<Seq<FieldModel>>) -> bool {
    before.len() <= after.len() && forall|i: int| 0 <= i < before.len() ==> after[i] == before[i]
}

/// Whether an output holds an earlier one: under every message name the
/// records of the earlier output come first, in their order.
pub open spec fn messages_kept(
    before: Seq<MessageRecordsModel>,
    after: Seq<MessageRecordsModel>,
) -> bool {
    forall|name: Seq<char>|
        #![trigger messages_records(after, name)]
        records_kept(messages_records(before, name), messages_records(after, name))
}

/// One more record comes after the records that are there, under every
/// message name.
pub proof fn lemma_push_kept(
    messages: Seq<MessageRecordsModel>,
    name: Seq<char>,
    record: Seq<FieldModel>,
)
    ensures
        messages_kept(messages, messages_push(messages, name, record)),
{
    let after = messages_push(messages, name, record);
    assert forall|other: Seq<char>| #![trigger messages_records(after, other)]
        records_kept(messages_records(messages, other), messages_records(after, other)) by {
        lemma_first_from(messages, is_of(name), 0);
        lemma_first_from(messages, is_of(other), 0);
        match messages_find(messages, name) {
            Some(i) => {
                let entry = MessageRecordsModel {
                    name: messages[i].name,
                    records: messages[i].records.push(record),
                };
                lemma_first_update(messages, is_of(other), i, entry);
            },
            None => {
                lemma_first_push(
                    messages,
                    is_of(other),
                    MessageRecordsModel { name, records: seq![record] },
                    0,
                );
            },
        }
    }
}

/// The decoding of messages adds its records after those that are there.
pub proof fn lemma_records_kept(p: FitProfile, bytes: Seq<u8>, end: int, g: Progress)
    ensures
        records_from(p, bytes, end, g) matches Ok(done) ==> messages_kept(g.messages, done.messages),
    decreases bytes.len() - g.at,
{
    if g.at < end {
        if let Ok(step) = record_decoded(p, bytes, g.at, g.session) {
            let next = after_step(g, step);
            if let Some((name, record)) = step.record {
                lemma_push_kept(g.messages, name, record);
            }
            if g.at < next.at <= bytes.len() {
                lemma_records_kept(p, bytes, end, next);
                if let Ok(done) = records_from(p, bytes, end, next) {
                    assert forall|name: Seq<char>| #![trigger messages_records(done.messages, name)]
                        records_kept(
                            messages_records(g.messages, name),
                            messages_records(done.messages, name),
                        ) by {
                        assert(records_kept(
                            messages_records(g.messages, name),
                            messages_records(next.messages, name),
                        ));
                    }
                }
            }
        }
    }
}

/// The decoding of files adds its records after those that are there.
pub proof fn lemma_files_kept(p: FitProfile, bytes: Seq<u8>, g: Progress)
    ensures
        files_from(p, bytes, g) matches Ok(done) ==> messages_kept(g.messages, done.messages),
    decreases bytes.len() - g.at,
{
    reveal(file_decoded);
    if g.at + 1 < bytes.len() {
        if let Ok(next) = file_decoded(p, bytes, g) {
            let header = file_header_at(bytes, g.at)->Ok_0;
            lemma_records_kept(
                p,
                bytes,
                g.at + header.0.header_size + header.0.data_size,
                Progress { at: header.1, ..g },
            );
            if g.at < next.at <= bytes.len() {
                lemma_files_kept(p, bytes, next);
                if let Ok(done) = files_from(p, bytes, next) {
                    assert forall|name: Seq<char>| #![trigger messages_records(done.messages, name)]
                        records_kept(
                            messages_records(g.messages, name),
                            messages_records(done.messages, name),
                        ) by {
                        assert(records_kept(
                            messages_records(g.messages, name),
                            messages_records(next.messages, name),
                        ));
                    }
                }
            }
        }
    }
}

/// The decoding of a message keeps the errors recorded before it.
pub proof fn lemma_step_keeps_errors(p: FitProfile, bytes: Seq<u8>, at: int, s: SessionModel)
    ensures
        record_decoded(p, bytes, at, s) matches Ok(step) ==> errors_kept(
            s.errors,
            step.session.errors,
        ),
{
    reveal(record_decoded);
    if readable(bytes, at, 1) {
        let header = message_header_of(bytes[at]);
        if header.message_type != FitMessageType::Definition {
            if let Some(d) = table_get(s.definitions, header.local_message_number) {
                lemma_data_message_keeps_errors(p, bytes, at + 1, d, header, s.errors);
                if let Ok((msg, after, errors)) = data_message_at(
                    p,
                    bytes,
                    at + 1,
                    d,
                    header,
                    s.errors,
                ) {
                    lemma_message_failed(p, SessionModel { errors, ..s }, msg);
                }
            }
        }
    }
}

/// The decoding of messages keeps the errors recorded before it.
pub proof fn lemma_records_keep_errors(p: FitProfile, bytes: Seq<u8>, end: int, g: Progress)
    ensures
        records_from(p, bytes, end, g) matches Ok(done) ==> errors_kept(
            g.session.errors,
            done.session.errors,
        ),
    decreases bytes.len() - g.at,
{
    if g.at < end {
        lemma_step_keeps_errors(p, bytes, g.at, g.session);
        if let Ok(step) = record_decoded(p, bytes, g.at, g.session) {
            let next = after_step(g, step);
            if g.at < next.at <= bytes.len() {
                lemma_records_keep_errors(p, bytes, end, next);
            }
        }
    }
}

/// The decoding of files keeps the errors recorded before it.
pub proof fn lemma_files_keep_errors(p: FitProfile, bytes: Seq<u8>, g: Progress)
    ensures
        files_from(p, bytes, g) matches Ok(done) ==> errors_kept(
            g.session.errors,
            done.session.errors,
        ),
    decreases bytes.len() - g.at,
{
    reveal(file_decoded);
    if g.at + 1 < bytes.len() {
        if let Ok(next) = file_decoded(p, bytes, g) {
            let header = file_header_at(bytes, g.at)->Ok_0;
            lemma_records_keep_errors(
                p,
                bytes,
                g.at + header.0.header_size + header.0.data_size,
                Progress { at: header.1, ..g },
            );
            if g.at < next.at <= bytes.len() {
                lemma_files_keep_errors(p, bytes, next);
            }
        }
    }
}

/// Two inputs in a row, with a profile whose two messages that describe
/// developer data have neither sub-fields nor components: where each
/// decodes wholly by itself, the two in a row decode wholly. Under every
/// message name the records of the first come first, as they are and in
/// their order, and as many records follow them as the second has by
/// itself. The errors are at most those of the two together.
pub proof fn lemma_pair_decoded(p: FitProfile, first: Seq<u8>, second: Seq<u8>)
    requires
        p.describes_plainly(),
        decoded(p, first, fresh_session()) is Ok,
        decoded(p, first, fresh_session())->Ok_0.at == first.len(),
        decoded(p, second, fresh_session()) is Ok,
        decoded(p, second, fresh_session())->Ok_0.at == second.len(),
    ensures
        decoded(p, first + second, fresh_session()) is Ok,
        ({
            let one = decoded(p, first, fresh_session())->Ok_0;
            let two = decoded(p, second, fresh_session())->Ok_0;
            let all = decoded(p, first + second, fresh_session())->Ok_0;
            &&& all.at == first.len() + second.len()
            &&& messages_kept(one.messages, all.messages)
            &&& errors_kept(one.session.errors, all.session.errors)
            &&& all.session.errors.len() <= one.session.errors.len() + two.session.errors.len()
            &&& forall|name: Seq<char>|
                #![trigger records_count(all.messages, name)]
                records_count(all.messages, name) == records_count(one.messages, name)
                    + records_count(two.messages, name)
        }),
{
    let fresh = fresh_session();
    let one = decoded(p, first, fresh)->Ok_0;
    let two = decoded(p, second, fresh)->Ok_0;
    let start = at_start(fresh, Seq::empty());
    let middle = at_start(one.session, one.messages);
    lemma_fresh_follows(one.session);
    lemma_files_follow(p, second, start, middle);
    let done = files_from(p, second, middle)->Ok_0;
    lemma_chain_decoded(p, first, second, fresh);
    let all = decoded(p, first + second, fresh)->Ok_0;
    assert(all == moved(done, first.len() as int));
    lemma_files_kept(p, second, middle);
    lemma_files_keep_errors(p, second, middle);
    assert forall|name: Seq<char>|
        #![trigger records_count(all.messages, name)]
        records_count(all.messages, name) == records_count(one.messages, name) + records_count(
            two.messages,
            name,
        ) by {
        assert(records_count(done.messages, name) - records_count(middle.messages, name)
            == records_count(two.messages, name) - records_count(start.messages, name));
        assert(messages_find(start.messages, name) is None);
    }
}

} // verus!
