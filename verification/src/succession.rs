//! The records of files that stand one after the other in an input.
//!
//! The state of a decoding goes from one file to the next, so a file may
//! decode otherwise after another than by itself. With a profile without
//! components, a file that decodes by itself without an error decodes after
//! any other to the same records, which come after those of the files
//! before it.
use vstd::prelude::*;
use crate::accumulator::AccumulatedField;
use crate::chain::{
    at_start, copies, follows, lemma_chain_decoded, lemma_data_message_errors,
    lemma_files_keep_errors, lemma_fresh_follows, lemma_message_follows, lemma_record_follows,
    lemma_records_keep_errors, lemma_step_keeps_errors,
};
use crate::decoder::{
    after_step, decoded, file_decoded, files_from, Progress, record_decoded, records_from,
    table_get,
};
use crate::error::{ErrorModel, errors_kept};
use crate::framing::{
    data_message_at, file_header_at, lemma_data_message_keeps_errors, message_header_of,
};
use crate::expansion::{
    activates, DecodeArgsModel, Expansion, field_decoded, seeded, sub_fields_from, with_field,
};
use crate::message::{DataMessageModel, FitMessageType};
use crate::profile::{FitProfile, lemma_find_field, lemma_resolve, Message, MessageField};
use crate::projection::{coerced, projected};
use crate::record::{
    FieldModel, is_of, MessageRecordsModel, messages_find, messages_push, messages_records,
};
use crate::search::{lemma_first_from, lemma_first_push, lemma_first_update};
use crate::session::{
    args_of, developer_from, DeveloperState, fresh_session, lemma_developer_keeps_errors,
    lemma_message_failed, lemma_projection_keeps_errors, message_decoded, projected_from,
    Projection, projection_step, SessionModel, timestamp_applied,
};

verus! {

/// Whether a state knows at least what another does, and has the timestamp
/// reference of the other where the other has one.
pub open spec fn tracks(s: SessionModel, t: SessionModel) -> bool {
    follows(s, t) && (s.timestamp_ref is Some ==> t.timestamp_ref == s.timestamp_ref)
}

/// Errors that are kept, and no more of them, are the same errors.
pub proof fn lemma_kept_same(before: Seq<ErrorModel>, after: Seq<ErrorModel>)
    requires
        errors_kept(before, after),
        after.len() <= before.len(),
    ensures
        after == before,
{
    assert(after =~= before);
}

/// The projection of the fields of a message leaves the same timestamp
/// reference in a state that had the same.
pub proof fn lemma_projection_reference(
    p: FitProfile,
    m: Message,
    name: Seq<char>,
    exempt: bool,
    msg: DataMessageModel,
    k: int,
    s: Projection,
    t: Projection,
)
    requires
        0 <= k,
        s.timestamp_ref is Some ==> t.timestamp_ref == s.timestamp_ref,
    ensures
        projected_from(p, m, name, exempt, msg, k, s).timestamp_ref is Some ==> projected_from(
            p,
            m,
            name,
            exempt,
            msg,
            k,
            t,
        ).timestamp_ref == projected_from(p, m, name, exempt, msg, k, s).timestamp_ref,
    decreases msg.fields.len() - k,
{
    if k < msg.fields.len() {
        lemma_projection_reference(
            p,
            m,
            name,
            exempt,
            msg,
            k + 1,
            projection_step(p, m, name, exempt, msg, k, s),
            projection_step(p, m, name, exempt, msg, k, t),
        );
    }
}

impl Message {
    /// Whether no field and no sub-field of the message has components.
    pub open spec fn without_components(&self) -> bool {
        forall|i: int|
            0 <= i < self.fields@.len() ==> (#[trigger] self.fields@[i]).components@.len() == 0
                && forall|j: int|
                0 <= j < self.fields@[i].sub_fields@.len() ==> (
                #[trigger] self.fields@[i].sub_fields@[j]).components@.len() == 0
    }
}

impl FitProfile {
    /// Whether no message has components, and the two messages that
    /// describe developer data have no sub-fields either.
    pub open spec fn without_components(&self) -> bool {
        &&& self.describes_plainly()
        &&& forall|m: int|
            0 <= m < self.messages@.len() ==> (#[trigger] self.messages@[m]).without_components()
    }
}

/// The sub-fields of a field without components read nothing of the
/// counters and leave them as they are.
pub proof fn lemma_sub_fields_apart(
    p: FitProfile,
    m: Message,
    f: MessageField,
    a: DecodeArgsModel,
    i: int,
    e: Expansion,
    counters: Map<u32, AccumulatedField>,
)
    requires
        forall|j: int| 0 <= j < f.sub_fields@.len() ==> (#[trigger] f.sub_fields@[j]).components@.len()
            == 0,
    ensures
        sub_fields_from(p, m, f, a, i, Expansion { counters, ..e }) == (Expansion {
            counters,
            ..sub_fields_from(p, m, f, a, i, e)
        }),
    decreases f.sub_fields@.len() - i,
{
    if 0 <= i < f.sub_fields@.len() {
        let sub = f.sub_fields@[i];
        assert(sub.components@.len() == 0);
        if activates(p, m, sub, a.fields) {
            if let Ok(v) = projected(
                p,
                a.exempt,
                coerced(p, f.field_type@, sub.field_type@, a.value),
                sub.field_type@,
                sub.scale,
                sub.offset,
                sub.array,
            ) {
                let e1 = with_field(e, sub.field_name@, v, sub.units@, true);
                assert(with_field(Expansion { counters, ..e }, sub.field_name@, v, sub.units@, true)
                    == Expansion { counters, ..e1 });
                if e1.fault is None {
                    lemma_sub_fields_apart(p, m, f, a, i + 1, e1, counters);
                }
            }
        } else {
            lemma_sub_fields_apart(p, m, f, a, i + 1, e, counters);
        }
    }
}

/// The decoding of a field of a message without components gives the same
/// record and the same fault whatever the counters are.
pub proof fn lemma_field_apart(
    p: FitProfile,
    m: Message,
    a: DecodeArgsModel,
    e: Expansion,
    counters: Map<u32, AccumulatedField>,
)
    requires
        m.without_components(),
    ensures
        field_decoded(p, m, a, Expansion { counters, ..e }).record == field_decoded(p, m, a, e).record,
        field_decoded(p, m, a, Expansion { counters, ..e }).fault == field_decoded(p, m, a, e).fault,
{
    lemma_find_field(m, a.field_no);
    if let Some(i) = m.spec_find_field(a.field_no) {
        let f = m.fields@[i];
        assert(f.components@.len() == 0);
        if let Ok(v) = projected(p, a.exempt, a.value, f.field_type@, f.scale, f.offset, f.array) {
            let own = with_field(e, f.field_name@, v, f.units@, false);
            let one = seeded(f, a, own);
            let other = seeded(f, a, with_field(Expansion { counters, ..e }, f.field_name@, v, f.units@, false));
            lemma_sub_fields_apart(p, m, f, a, 0, own, one.counters);
            lemma_sub_fields_apart(p, m, f, a, 0, own, other.counters);
            assert(one == Expansion { counters: one.counters, ..own });
            assert(other == Expansion { counters: other.counters, ..own });
        }
    }
}

/// The projection of the fields of a message without components gives the
/// same record whatever the state is.
pub proof fn lemma_projection_apart(
    p: FitProfile,
    m: Message,
    name: Seq<char>,
    exempt: bool,
    msg: DataMessageModel,
    k: int,
    s: Projection,
    t: Projection,
)
    requires
        m.without_components(),
        0 <= k,
        s.record == t.record,
    ensures
        projected_from(p, m, name, exempt, msg, k, s).record == projected_from(
            p,
            m,
            name,
            exempt,
            msg,
            k,
            t,
        ).record,
    decreases msg.fields.len() - k,
{
    if k < msg.fields.len() {
        let e = Expansion { record: s.record, counters: s.counters, fault: None };
        lemma_field_apart(p, m, args_of(exempt, msg, k), e, t.counters);
        lemma_projection_apart(
            p,
            m,
            name,
            exempt,
            msg,
            k + 1,
            projection_step(p, m, name, exempt, msg, k, s),
            projection_step(p, m, name, exempt, msg, k, t),
        );
    }
}

/// A message that decodes without an error in one state decodes in a state
/// that tracks it to the same record, without an error, with a profile
/// without components.
pub proof fn lemma_message_tracks(p: FitProfile, s: SessionModel, t: SessionModel, msg: DataMessageModel)
    requires
        p.without_components(),
        tracks(s, t),
        message_decoded(p, s, msg) is Ok,
        message_decoded(p, s, msg)->Ok_0.0.errors.len() <= s.errors.len(),
    ensures
        ({
            let r = message_decoded(p, s, msg)->Ok_0;
            &&& message_decoded(p, t, msg) matches Ok(q)
            &&& q.1 == r.1
            &&& q.2 == r.2
            &&& tracks(r.0, q.0)
            &&& r.0.errors == s.errors
            &&& q.0.errors == t.errors
        }),
{
    lemma_message_follows(p, s, t, msg);
    lemma_message_failed(p, s, msg);
    lemma_message_failed(p, t, msg);
    let r = message_decoded(p, s, msg)->Ok_0;
    let q = message_decoded(p, t, msg)->Ok_0;
    lemma_kept_same(s.errors, r.0.errors);
    lemma_kept_same(t.errors, q.0.errors);
    reveal(message_decoded);
    lemma_resolve(p, msg.global_message_number);
    let m = p.spec_resolve(msg.global_message_number)->Ok_0;
    let message = p.messages@[m];
    let name = message.name@;
    let exempt = name == "developer_data_id"@ || name == "field_description"@;
    let start_s = Projection {
        record: Seq::empty(),
        counters: s.counters,
        errors: s.errors,
        timestamp_ref: s.timestamp_ref,
    };
    let start_t = Projection {
        record: Seq::empty(),
        counters: t.counters,
        errors: t.errors,
        timestamp_ref: t.timestamp_ref,
    };
    assert(message.without_components());
    lemma_projection_apart(p, message, name, exempt, msg, 0, start_s, start_t);
    lemma_projection_reference(p, message, name, exempt, msg, 0, start_s, start_t);
    lemma_projection_keeps_errors(p, message, name, exempt, msg, 0, start_s);
    let fields_s = projected_from(p, message, name, exempt, msg, 0, start_s);
    let fields_t = projected_from(p, message, name, exempt, msg, 0, start_t);
    let before_s = DeveloperState { data: s.developer_data, errors: fields_s.errors };
    lemma_developer_keeps_errors(s.developer_definitions, name, msg.developer_fields, 0, before_s);
    let developer_s = developer_from(s.developer_definitions, name, msg.developer_fields, 0, before_s);
    let developer_t = developer_from(
        t.developer_definitions,
        name,
        msg.developer_fields,
        0,
        DeveloperState { data: t.developer_data, errors: fields_t.errors },
    );
    let timed_s = timestamp_applied(
        msg.time_offset,
        Projection { errors: developer_s.errors, ..fields_s },
    );
    let timed_t = timestamp_applied(
        msg.time_offset,
        Projection { errors: developer_t.errors, ..fields_t },
    );
    assert(r.0.errors == timed_s.errors);
    if msg.time_offset is Some && fields_s.timestamp_ref is None {
        assert(timed_s.errors.len() == developer_s.errors.len() + 1);
        assert(false);
    }
    assert(timed_t.record == timed_s.record);
    assert(timed_s.timestamp_ref is Some ==> timed_t.timestamp_ref == timed_s.timestamp_ref);
}

/// A message of an input that decodes without an error in one state
/// decodes in a state that tracks it up to the same position and to the
/// same record, without an error, with a profile without components.
pub proof fn lemma_step_tracks(p: FitProfile, bytes: Seq<u8>, at: int, s: SessionModel, t: SessionModel)
    requires
        p.without_components(),
        tracks(s, t),
        record_decoded(p, bytes, at, s) is Ok,
        record_decoded(p, bytes, at, s)->Ok_0.session.errors.len() <= s.errors.len(),
    ensures
        ({
            let step = record_decoded(p, bytes, at, s)->Ok_0;
            &&& record_decoded(p, bytes, at, t) matches Ok(other)
            &&& other.at == step.at
            &&& other.record == step.record
            &&& tracks(step.session, other.session)
            &&& step.session.errors == s.errors
            &&& other.session.errors == t.errors
        }),
{
    lemma_record_follows(p, bytes, at, s, t);
    lemma_step_keeps_errors(p, bytes, at, s);
    lemma_step_keeps_errors(p, bytes, at, t);
    let step = record_decoded(p, bytes, at, s)->Ok_0;
    let other = record_decoded(p, bytes, at, t)->Ok_0;
    lemma_kept_same(s.errors, step.session.errors);
    lemma_kept_same(t.errors, other.session.errors);
    reveal(record_decoded);
    let header = message_header_of(bytes[at]);
    if header.message_type != FitMessageType::Definition {
        let d = table_get(s.definitions, header.local_message_number)->Some_0;
        assert(table_get(s.definitions, header.local_message_number) is Some);
        assert(table_get(t.definitions, header.local_message_number) == Some(d));
        let read = data_message_at(p, bytes, at + 1, d, header, s.errors)->Ok_0;
        lemma_data_message_errors(p, bytes, at + 1, d, header, s.errors, t.errors);
        lemma_data_message_keeps_errors(p, bytes, at + 1, d, header, s.errors);
        lemma_data_message_keeps_errors(p, bytes, at + 1, d, header, t.errors);
        let other_read = data_message_at(p, bytes, at + 1, d, header, t.errors)->Ok_0;
        let s1 = SessionModel { errors: read.2, ..s };
        let t1 = SessionModel { errors: other_read.2, ..t };
        lemma_message_failed(p, s1, read.0);
        lemma_kept_same(s.errors, read.2);
        lemma_kept_same(t.errors, other_read.2);
        assert(s1 == s);
        assert(t1 == t);
        lemma_message_tracks(p, s, t, read.0);
    }
}

/// Whether an output is a first one with the records of a second after
/// it, under every message name.
pub open spec fn appended(
    base: Seq<MessageRecordsModel>,
    added: Seq<MessageRecordsModel>,
    all: Seq<MessageRecordsModel>,
) -> bool {
    forall|name: Seq<char>|
        #![trigger messages_records(all, name)]
        messages_records(all, name) == messages_records(base, name) + messages_records(
            added,
            name,
        )
}

/// One more record comes last among the records of its message name, and
/// leaves the records of the other names.
pub proof fn lemma_push_records(
    messages: Seq<MessageRecordsModel>,
    name: Seq<char>,
    record: Seq<FieldModel>,
    other: Seq<char>,
)
    ensures
        messages_records(messages_push(messages, name, record), other) == (if other == name {
            messages_records(messages, other).push(record)
        } else {
            messages_records(messages, other)
        }),
{
    lemma_first_from(messages, is_of(name), 0);
    lemma_first_from(messages, is_of(other), 0);
    match messages_find(messages, name) {
        Some(i) => {
            let entry = MessageRecordsModel {
                name: messages[i].name,
                records: messages[i].records.push(record),
            };
            lemma_first_update(messages, is_of(other), i, entry);
        },
        None => {
            lemma_first_push(
                messages,
                is_of(other),
                MessageRecordsModel { name, records: seq![record] },
                0,
            );
            if other == name {
                assert(messages_records(messages, other).push(record) =~= seq![record]);
            }
        },
    }
}

/// The same record added on both sides keeps an output appended.
pub proof fn lemma_push_appended(
    base: Seq<MessageRecordsModel>,
    added: Seq<MessageRecordsModel>,
    all: Seq<MessageRecordsModel>,
    name: Seq<char>,
    record: Seq<FieldModel>,
)
    requires
        appended(base, added, all),
    ensures
        appended(base, messages_push(added, name, record), messages_push(all, name, record)),
{
    let added1 = messages_push(added, name, record);
    let all1 = messages_push(all, name, record);
    assert forall|other: Seq<char>| #![trigger messages_records(all1, other)]
        messages_records(all1, other) == messages_records(base, other) + messages_records(
            added1,
            other,
        ) by {
        lemma_push_records(added, name, record, other);
        lemma_push_records(all, name, record, other);
        assert(messages_records(all, other) == messages_records(base, other) + messages_records(
            added,
            other,
        ));
        assert(messages_records(all1, other) =~= messages_records(base, other) + messages_records(
            added1,
            other,
        ));
    }
}

/// The messages of an input that decode without an error in one state
/// decode in a state that tracks it to the same records, with a profile
/// without components.
pub proof fn lemma_records_track(
    p: FitProfile,
    bytes: Seq<u8>,
    end: int,
    base: Seq<MessageRecordsModel>,
    g: Progress,
    h: Progress,
)
    requires
        p.without_components(),
        0 <= g.at,
        g.at == h.at,
        tracks(g.session, h.session),
        appended(base, g.messages, h.messages),
        records_from(p, bytes, end, g) is Ok,
        records_from(p, bytes, end, g)->Ok_0.session.errors.len() <= g.session.errors.len(),
    ensures
        ({
            let done = records_from(p, bytes, end, g)->Ok_0;
            &&& records_from(p, bytes, end, h) matches Ok(other)
            &&& other.at == done.at
            &&& tracks(done.session, other.session)
            &&& appended(base, done.messages, other.messages)
            &&& done.session.errors == g.session.errors
            &&& other.session.errors == h.session.errors
        }),
    decreases bytes.len() - g.at,
{
    if g.at < end {
        let step = record_decoded(p, bytes, g.at, g.session)->Ok_0;
        let next = after_step(g, step);
        lemma_step_keeps_errors(p, bytes, g.at, g.session);
        if g.at < next.at <= bytes.len() {
            lemma_records_keep_errors(p, bytes, end, next);
        }
        lemma_step_tracks(p, bytes, g.at, g.session, h.session);
        let other = record_decoded(p, bytes, g.at, h.session)->Ok_0;
        let other_next = after_step(h, other);
        if let Some((name, record)) = step.record {
            lemma_push_appended(base, g.messages, h.messages, name, record);
        }
        if g.at < next.at <= bytes.len() {
            lemma_records_track(p, bytes, end, base, next, other_next);
        }
    }
}

/// A file that decodes without an error in one state decodes in a state
/// that tracks it to the same records, with a profile without
/// components.
pub proof fn lemma_file_tracks(
    p: FitProfile,
    bytes: Seq<u8>,
    base: Seq<MessageRecordsModel>,
    g: Progress,
    h: Progress,
)
    requires
        p.without_components(),
        g.at == h.at,
        tracks(g.session, h.session),
        appended(base, g.messages, h.messages),
        file_decoded(p, bytes, g) is Ok,
        file_decoded(p, bytes, g)->Ok_0.session.errors.len() <= g.session.errors.len(),
    ensures
        ({
            let done = file_decoded(p, bytes, g)->Ok_0;
            &&& file_decoded(p, bytes, h) matches Ok(other)
            &&& other.at == done.at
            &&& tracks(done.session, other.session)
            &&& appended(base, done.messages, other.messages)
            &&& done.session.errors == g.session.errors
            &&& other.session.errors == h.session.errors
        }),
{
    reveal(file_decoded);
    let (header, after) = file_header_at(bytes, g.at)->Ok_0;
    let end = g.at + header.header_size + header.data_size;
    lemma_records_track(
        p,
        bytes,
        end,
        base,
        Progress { at: after, ..g },
        Progress { at: after, ..h },
    );
}

/// The files of an input that decode without an error in one state decode
/// in a state that tracks it to the same records, with a profile without
/// components.
pub proof fn lemma_files_track(
    p: FitProfile,
    bytes: Seq<u8>,
    base: Seq<MessageRecordsModel>,
    g: Progress,
    h: Progress,
)
    requires
        p.without_components(),
        g.at == h.at,
        tracks(g.session, h.session),
        appended(base, g.messages, h.messages),
        files_from(p, bytes, g) is Ok,
        files_from(p, bytes, g)->Ok_0.session.errors.len() <= g.session.errors.len(),
    ensures
        ({
            let done = files_from(p, bytes, g)->Ok_0;
            &&& files_from(p, bytes, h) matches Ok(other)
            &&& other.at == done.at
            &&& tracks(done.session, other.session)
            &&& appended(base, done.messages, other.messages)
            &&& done.session.errors == g.session.errors
            &&& other.session.errors == h.session.errors
        }),
    decreases bytes.len() - g.at,
{
    if g.at + 1 < bytes.len() {
        let next = file_decoded(p, bytes, g)->Ok_0;
        lemma_file_keeps_errors(p, bytes, g);
        if g.at < next.at <= bytes.len() {
            lemma_files_keep_errors(p, bytes, next);
        }
        lemma_file_tracks(p, bytes, base, g, h);
        let other = file_decoded(p, bytes, h)->Ok_0;
        if g.at < next.at <= bytes.len() {
            lemma_files_track(p, bytes, base, next, other);
        }
    }
}

/// The decoding of a file keeps the errors recorded before it.
pub proof fn lemma_file_keeps_errors(p: FitProfile, bytes: Seq<u8>, g: Progress)
    ensures
        file_decoded(p, bytes, g) matches Ok(done) ==> errors_kept(
            g.session.errors,
            done.session.errors,
        ),
{
    reveal(file_decoded);
    if let Ok(done) = file_decoded(p, bytes, g) {
        let header = file_header_at(bytes, g.at)->Ok_0;
        lemma_records_keep_errors(
            p,
            bytes,
            g.at + header.0.header_size + header.0.data_size,
            Progress { at: header.1, ..g },
        );
    }
}

/// Two inputs in a row, with a profile without components:
/// where the first decodes wholly by itself, and the second decodes wholly
/// by itself and without an error, the two in a row decode wholly, to the
/// errors of the first, and under every message name to the records of the
/// first followed by the records of the second.
pub proof fn lemma_sequel_decoded(p: FitProfile, first: Seq<u8>, second: Seq<u8>)
    requires
        p.without_components(),
        decoded(p, first, fresh_session()) is Ok,
        decoded(p, first, fresh_session())->Ok_0.at == first.len(),
        decoded(p, second, fresh_session()) is Ok,
        decoded(p, second, fresh_session())->Ok_0.at == second.len(),
        decoded(p, second, fresh_session())->Ok_0.session.errors.len() == 0,
    ensures
        decoded(p, first + second, fresh_session()) is Ok,
        ({
            let one = decoded(p, first, fresh_session())->Ok_0;
            let two = decoded(p, second, fresh_session())->Ok_0;
            let all = decoded(p, first + second, fresh_session())->Ok_0;
            &&& all.at == first.len() + second.len()
            &&& all.session.errors == one.session.errors
            &&& forall|name: Seq<char>|
                #![trigger messages_records(all.messages, name)]
                messages_records(all.messages, name) == messages_records(one.messages, name)
                    + messages_records(two.messages, name)
        }),
{
    let fresh = fresh_session();
    let one = decoded(p, first, fresh)->Ok_0;
    let start = at_start(fresh, Seq::empty());
    let middle = at_start(one.session, one.messages);
    lemma_fresh_follows(one.session);
    assert(appended(one.messages, start.messages, middle.messages)) by {
        assert forall|name: Seq<char>| #![trigger messages_records(middle.messages, name)]
            messages_records(middle.messages, name) == messages_records(one.messages, name)
                + messages_records(start.messages, name) by {
            assert(messages_find(start.messages, name) is None);
            assert(messages_records(one.messages, name) + Seq::<Seq<FieldModel>>::empty()
                =~= messages_records(one.messages, name));
        }
    }
    lemma_files_track(p, second, one.messages, start, middle);
    lemma_chain_decoded(p, first, second, fresh);
}

/// Records `n` times in a row.
pub open spec fn repeated(records: Seq<Seq<FieldModel>>, n: nat) -> Seq<Seq<FieldModel>>
    decreases n,
{
    if n == 0 {
        Seq::empty()
    } else {
        repeated(records, (n - 1) as nat) + records
    }
}

/// An input `n` times in a row, with a profile without components: where the input decodes wholly and without an error, its
/// copies in a row decode wholly and without an error, and under every
/// message name to the records of the one, `n` times in a row.
pub proof fn lemma_copies_repeated(p: FitProfile, one: Seq<u8>, n: nat)
    requires
        p.without_components(),
        decoded(p, one, fresh_session()) is Ok,
        decoded(p, one, fresh_session())->Ok_0.at == one.len(),
        decoded(p, one, fresh_session())->Ok_0.session.errors.len() == 0,
    ensures
        decoded(p, copies(one, n), fresh_session()) is Ok,
        ({
            let single = decoded(p, one, fresh_session())->Ok_0;
            let all = decoded(p, copies(one, n), fresh_session())->Ok_0;
            &&& all.at == copies(one, n).len()
            &&& all.session.errors.len() == 0
            &&& forall|name: Seq<char>|
                #![trigger messages_records(all.messages, name)]
                messages_records(all.messages, name) == repeated(
                    messages_records(single.messages, name),
                    n,
                )
        }),
    decreases n,
{
    let fresh = fresh_session();
    let single = decoded(p, one, fresh)->Ok_0;
    if n == 0 {
        let all = decoded(p, copies(one, 0), fresh)->Ok_0;
        assert(all == at_start(fresh, Seq::empty()));
        assert forall|name: Seq<char>| #![trigger messages_records(all.messages, name)]
            messages_records(all.messages, name) == repeated(
                messages_records(single.messages, name),
                0,
            ) by {
            assert(messages_find(all.messages, name) is None);
        }
    } else {
        let before = copies(one, (n - 1) as nat);
        lemma_copies_repeated(p, one, (n - 1) as nat);
        lemma_sequel_decoded(p, before, one);
        let left = decoded(p, before, fresh)->Ok_0;
        let all = decoded(p, copies(one, n), fresh)->Ok_0;
        assert forall|name: Seq<char>| #![trigger messages_records(all.messages, name)]
            messages_records(all.messages, name) == repeated(
                messages_records(single.messages, name),
                n,
            ) by {
            assert(messages_records(left.messages, name) == repeated(
                messages_records(single.messages, name),
                (n - 1) as nat,
            ));
        }
    }
}

} // verus!
