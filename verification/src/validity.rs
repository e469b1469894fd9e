//! The validity of what a decoding emits.
//!
//! The raw values of a data message are valid, and the projection of a
//! field keeps them so. A value that a sub-field reads under another type,
//! or that is made of the bits of a component, may be an invalid marker of
//! its type. So every value of a decoded record is valid, or stands under a
//! name that the profile gives a sub-field or a component of the message.
use vstd::prelude::*;
use crate::accumulator::{accumulated, counters_after};
use crate::bit_reader::{bit_width, bit_words, BitReader, bits_value};
use crate::decoder::{
    after_step, decoded, file_decoded, files_from, Progress, record_decoded, records_from,
    table_get,
};
use crate::expansion::{
    activates, components_expanded, DecodeArgsModel, expanded_from, Expansion, field_decoded,
    group_read, group_state, occurrences, repeats, seeded, sub_fields_from, with_field,
};
use crate::fit::ValueModel;
use crate::framing::{
    data_message_at, fields_valid, file_header_at, lemma_data_message_valid, message_header_of,
    readable,
};
use crate::message::{DataMessageModel, FitMessageType};
use crate::profile::{
    Component, FitProfile, lemma_find_field, lemma_resolve, Message, MessageField,
    NestedMessageField,
};
use crate::projection::{
    coerced, lemma_named_valid, lemma_projected_valid, named, named_all, projected, wrap_integer,
};
use crate::record::{
    FieldModel, is_named, is_of, MessageRecordsModel, messages_find, messages_push, record_find,
    record_insert, Scaling,
};
use crate::search::lemma_first_from;
use crate::session::{
    args_of, developer_from, DeveloperState, message_decoded, next_timestamp, projected_from,
    Projection, projection_step, record_named, SessionModel, timestamp_applied, timestamp_field,
};

verus! {

/// Whether `name` is the name of one of the components.
pub open spec fn names_component(comps: Seq<Component>, name: Seq<char>) -> bool {
    exists|k: int| 0 <= k < comps.len() && (#[trigger] comps[k]).field_name@ == name
}

impl NestedMessageField {
    /// Whether `name` is the name of the sub-field or of one of its
    /// components.
    pub open spec fn derives(&self, name: Seq<char>) -> bool {
        self.field_name@ == name || names_component(self.components@, name)
    }
}

impl MessageField {
    /// Whether `name` is the name of a component or of a sub-field of the
    /// field, or of a component of one of its sub-fields.
    pub open spec fn derives(&self, name: Seq<char>) -> bool {
        names_component(self.components@, name) || exists|j: int|
            0 <= j < self.sub_fields@.len() && (#[trigger] self.sub_fields@[j]).derives(name)
    }
}

impl Message {
    /// Whether `name` is the name of a sub-field or of a component of the
    /// message.
    pub open spec fn derives(&self, name: Seq<char>) -> bool {
        exists|i: int| 0 <= i < self.fields@.len() && (#[trigger] self.fields@[i]).derives(name)
    }
}

impl FitProfile {
    /// Whether `name` is the name of a sub-field or of a component of a
    /// message of the name `message`.
    pub open spec fn derives(&self, message: Seq<char>, name: Seq<char>) -> bool {
        exists|m: int|
            0 <= m < self.messages@.len() && (#[trigger] self.messages@[m]).name@ == message
                && self.messages@[m].derives(name)
    }
}

/// Whether every field of a record of the message `m` holds a valid value
/// or has the name of a sub-field or of a component of the message.
pub open spec fn record_sound(m: Message, record: Seq<FieldModel>) -> bool {
    forall|i: int|
        0 <= i < record.len() ==> (#[trigger] record[i]).value.is_valid() || m.derives(
            record[i].name,
        )
}

/// A sound record stays sound with one more field that is valid or has the
/// name of a sub-field or of a component.
pub proof fn lemma_insert_sound(m: Message, record: Seq<FieldModel>, field: FieldModel)
    requires
        record_sound(m, record),
        field.value.is_valid() || m.derives(field.name),
    ensures
        record_sound(m, record_insert(record, field)),
{
    lemma_first_from(record, is_named(field.name), 0);
}

/// A sound record stays sound with one more field of a state that is valid
/// or has the name of a sub-field or of a component.
pub proof fn lemma_with_field_sound(
    m: Message,
    e: Expansion,
    name: Seq<char>,
    value: (ValueModel, Option<Scaling>),
    units: Seq<char>,
    is_subfield: bool,
)
    requires
        record_sound(m, e.record),
        value.0.is_valid() || m.derives(name),
    ensures
        record_sound(m, with_field(e, name, value, units, is_subfield).record),
{
    lemma_insert_sound(
        m,
        e.record,
        FieldModel { name, value: value.0, units, is_subfield, scaling: value.1 },
    );
}

/// Whether every one of the components has a name that the message gives a
/// component.
pub open spec fn components_within(m: Message, comps: Seq<Component>) -> bool {
    forall|k: int| 0 <= k < comps.len() ==> m.derives((#[trigger] comps[k]).field_name@)
}

/// The expansion of components of a message keeps a record sound.
pub proof fn lemma_expanded_sound(
    p: FitProfile,
    m: Message,
    a: DecodeArgsModel,
    words: Seq<u64>,
    per: int,
    comps: Seq<Component>,
    i: int,
    position: int,
    e: Expansion,
)
    requires
        components_within(m, comps),
        record_sound(m, e.record),
    ensures
        record_sound(m, expanded_from(p, a, words, per, comps, i, position, e).record),
    decreases comps.len() - i,
{
    if 0 <= i < comps.len() {
        let c = comps[i];
        if repeats(comps, i) {
            lemma_expanded_sound(p, m, a, words, per, comps, i + 1, position, e);
        } else if let Some(t) = p.spec_base_type_of(c.field_type@) {
            let n = occurrences(comps, c.field_name@, i);
            if c.bits > 64 || !t.spec_is_integer() {
            } else if n > 1 {
                let g = group_read(
                    words,
                    per,
                    n,
                    c.bits,
                    a,
                    t,
                    group_state(Seq::empty(), position, e.counters),
                );
                let e1 = Expansion { counters: g.counters, ..e };
                if let Ok(v) = projected(
                    p,
                    a.exempt,
                    ValueModel::Array(g.values),
                    c.field_type@,
                    c.scale,
                    c.offset,
                    c.array,
                ) {
                    let next = with_field(e1, c.field_name@, v, c.units@, false);
                    lemma_with_field_sound(m, e1, c.field_name@, v, c.units@, false);
                    lemma_expanded_sound(p, m, a, words, per, comps, i + 1, g.position, next);
                }
            } else if position + c.bits <= per * words.len() {
                let raw = bits_value(words, per, position, c.bits as nat) as u64;
                let e1 = Expansion {
                    counters: counters_after(e.counters, a.msg_no, a.field_no, raw, c.bits),
                    ..e
                };
                if let Ok(v) = projected(
                    p,
                    a.exempt,
                    wrap_integer(
                        t,
                        accumulated(e.counters, a.msg_no, a.field_no, raw, c.bits),
                    ).unwrap(),
                    c.field_type@,
                    c.scale,
                    c.offset,
                    c.array,
                ) {
                    let next = with_field(e1, c.field_name@, v, c.units@, false);
                    lemma_with_field_sound(m, e1, c.field_name@, v, c.units@, false);
                    lemma_expanded_sound(
                        p,
                        m,
                        a,
                        words,
                        per,
                        comps,
                        i + 1,
                        position + c.bits,
                        next,
                    );
                }
            }
        }
    }
}

/// The expansion of the components of a field or sub-field keeps a record
/// sound.
pub proof fn lemma_components_sound(
    p: FitProfile,
    m: Message,
    a: DecodeArgsModel,
    comps: Seq<Component>,
    e: Expansion,
)
    requires
        components_within(m, comps),
        record_sound(m, e.record),
    ensures
        record_sound(m, components_expanded(p, a, comps, e).record),
{
    if comps.len() != 0 && BitReader::accepts(a.value) {
        lemma_expanded_sound(
            p,
            m,
            a,
            bit_words(a.value).unwrap(),
            bit_width(a.value),
            comps,
            0,
            0,
            e,
        );
    }
}

/// The names of a field of a message are names of the message: those of
/// its components, of its sub-fields, and of their components.
pub proof fn lemma_field_within(m: Message, i: int)
    requires
        0 <= i < m.fields@.len(),
    ensures
        components_within(m, m.fields@[i].components@),
        forall|j: int|
            0 <= j < m.fields@[i].sub_fields@.len() ==> m.derives(
                (#[trigger] m.fields@[i].sub_fields@[j]).field_name@,
            ) && components_within(m, m.fields@[i].sub_fields@[j].components@),
{
    let f = m.fields@[i];
    assert forall|k: int| 0 <= k < f.components@.len() implies m.derives(
        (#[trigger] f.components@[k]).field_name@,
    ) by {
        assert(f.derives(f.components@[k].field_name@));
    }
    assert forall|j: int| 0 <= j < f.sub_fields@.len() implies m.derives(
        (#[trigger] f.sub_fields@[j]).field_name@,
    ) && components_within(m, f.sub_fields@[j].components@) by {
        let sub = f.sub_fields@[j];
        assert(sub.derives(sub.field_name@));
        assert(f.derives(sub.field_name@));
        assert forall|k: int| 0 <= k < sub.components@.len() implies m.derives(
            (#[trigger] sub.components@[k]).field_name@,
        ) by {
            assert(sub.derives(sub.components@[k].field_name@));
            assert(f.derives(sub.components@[k].field_name@));
        }
    }
}

/// The sub-fields of a field of a message keep a record sound.
pub proof fn lemma_sub_fields_sound(
    p: FitProfile,
    m: Message,
    at: int,
    a: DecodeArgsModel,
    i: int,
    e: Expansion,
)
    requires
        0 <= at < m.fields@.len(),
        record_sound(m, e.record),
    ensures
        record_sound(m, sub_fields_from(p, m, m.fields@[at], a, i, e).record),
    decreases m.fields@[at].sub_fields@.len() - i,
{
    let f = m.fields@[at];
    if 0 <= i < f.sub_fields@.len() {
        let sub = f.sub_fields@[i];
        lemma_field_within(m, at);
        if activates(p, m, sub, a.fields) {
            if let Ok(v) = projected(
                p,
                a.exempt,
                coerced(p, f.field_type@, sub.field_type@, a.value),
                sub.field_type@,
                sub.scale,
                sub.offset,
                sub.array,
            ) {
                let named = with_field(e, sub.field_name@, v, sub.units@, true);
                lemma_with_field_sound(m, e, sub.field_name@, v, sub.units@, true);
                lemma_components_sound(p, m, a, sub.components@, named);
                let e1 = components_expanded(p, a, sub.components@, named);
                if e1.fault is None {
                    lemma_sub_fields_sound(p, m, at, a, i + 1, e1);
                }
            }
        } else {
            lemma_sub_fields_sound(p, m, at, a, i + 1, e);
        }
    }
}

/// The decoding of a valid value as a field of a message keeps a record
/// sound, with a profile whose names are valid.
pub proof fn lemma_field_decoded_sound(p: FitProfile, m: Message, a: DecodeArgsModel, e: Expansion)
    requires
        p.names_valid(),
        a.value.is_valid(),
        record_sound(m, e.record),
    ensures
        record_sound(m, field_decoded(p, m, a, e).record),
{
    lemma_find_field(m, a.field_no);
    if let Some(i) = m.spec_find_field(a.field_no) {
        let f = m.fields@[i];
        lemma_projected_valid(p, a.exempt, a.value, f.field_type@, f.scale, f.offset, f.array);
        if let Ok(v) = projected(p, a.exempt, a.value, f.field_type@, f.scale, f.offset, f.array) {
            lemma_with_field_sound(m, e, f.field_name@, v, f.units@, false);
            let own = seeded(f, a, with_field(e, f.field_name@, v, f.units@, false));
            lemma_sub_fields_sound(p, m, i, a, 0, own);
            let e1 = sub_fields_from(p, m, f, a, 0, own);
            if e1.fault is None {
                lemma_field_within(m, i);
                lemma_components_sound(p, m, a, f.components@, e1);
            }
        }
    }
}

/// The projection of valid values as fields of a message keeps a record
/// sound.
pub proof fn lemma_projected_from_sound(
    p: FitProfile,
    m: Message,
    name: Seq<char>,
    exempt: bool,
    msg: DataMessageModel,
    k: int,
    s: Projection,
)
    requires
        0 <= k,
        p.names_valid(),
        fields_valid(msg.fields),
        record_sound(m, s.record),
    ensures
        record_sound(m, projected_from(p, m, name, exempt, msg, k, s).record),
    decreases msg.fields.len() - k,
{
    if k < msg.fields.len() {
        assert(msg.fields[k].value.is_valid());
        lemma_field_decoded_sound(
            p,
            m,
            args_of(exempt, msg, k),
            Expansion { record: s.record, counters: s.counters, fault: None },
        );
        lemma_projected_from_sound(
            p,
            m,
            name,
            exempt,
            msg,
            k + 1,
            projection_step(p, m, name, exempt, msg, k, s),
        );
    }
}

/// A valid value stays valid under a named type, element by element where
/// it is an array.
pub proof fn lemma_named_all_valid(p: FitProfile, ty: Seq<char>, v: ValueModel)
    requires
        p.names_valid(),
        v.is_valid(),
    ensures
        named_all(p, ty, v).is_valid(),
{
    match v {
        ValueModel::Array(a) => {
            let out = Seq::new(a.len(), |j: int| named(p, ty, a[j]));
            assert forall|j: int| 0 <= j < out.len() implies (#[trigger] out[j]).is_valid() by {
                assert(a[j].is_valid());
                lemma_named_valid(p, ty, a[j]);
            }
            assert(ValueModel::Array(out).is_valid());
        },
        _ => {
            lemma_named_valid(p, ty, v);
        },
    }
}

/// A sound record stays sound with the value of one field under a named
/// type.
pub proof fn lemma_record_named_sound(
    p: FitProfile,
    m: Message,
    record: Seq<FieldModel>,
    field: Seq<char>,
    ty: Seq<char>,
)
    requires
        p.names_valid(),
        record_sound(m, record),
    ensures
        record_sound(m, record_named(p, record, field, ty)),
{
    lemma_first_from(record, is_named(field), 0);
    if let Some(i) = record_find(record, field) {
        if record[i].value.is_valid() {
            lemma_named_all_valid(p, ty, record[i].value);
        }
    }
}

/// Every field of the record of a decoded message holds a valid value or
/// has the name of a sub-field or of a component of the message: the raw
/// values of a data message are valid, the projection keeps them so, and a
/// timestamp is.
pub proof fn lemma_record_sound(p: FitProfile, s: SessionModel, msg: DataMessageModel)
    requires
        p.names_valid(),
        fields_valid(msg.fields),
    ensures
        message_decoded(p, s, msg) matches Ok(r) ==> p.spec_resolve(msg.global_message_number)
            matches Ok(m) && 0 <= m < p.messages@.len() && r.1 == p.messages@[m].name@
            && record_sound(p.messages@[m], r.2),
{
    reveal(message_decoded);
    lemma_resolve(p, msg.global_message_number);
    if let Ok(m) = p.spec_resolve(msg.global_message_number) {
        let message = p.messages@[m];
        let name = message.name@;
        let exempt = name == "developer_data_id"@ || name == "field_description"@;
        let start = Projection {
            record: Seq::empty(),
            counters: s.counters,
            errors: s.errors,
            timestamp_ref: s.timestamp_ref,
        };
        lemma_projected_from_sound(p, message, name, exempt, msg, 0, start);
        let fields = projected_from(p, message, name, exempt, msg, 0, start);
        let developer = developer_from(
            s.developer_definitions,
            name,
            msg.developer_fields,
            0,
            DeveloperState { data: s.developer_data, errors: fields.errors },
        );
        let before = Projection { errors: developer.errors, ..fields };
        let timed = timestamp_applied(msg.time_offset, before);
        if msg.time_offset is Some && before.timestamp_ref is Some {
            lemma_insert_sound(
                message,
                before.record,
                timestamp_field(
                    next_timestamp(before.timestamp_ref.unwrap(), msg.time_offset.unwrap()),
                ),
            );
        }
        assert(record_sound(message, timed.record));
        lemma_record_named_sound(p, message, timed.record, "manufacturer_id"@, "manufacturer"@);
        let r1 = record_named(p, timed.record, "fit_base_type_id"@, "fit_base_type"@);
        lemma_record_named_sound(p, message, timed.record, "fit_base_type_id"@, "fit_base_type"@);
        let r2 = record_named(p, r1, "fit_base_unit_id"@, "fit_base_unit"@);
        lemma_record_named_sound(p, message, r1, "fit_base_unit_id"@, "fit_base_unit"@);
        lemma_record_named_sound(p, message, r2, "native_mesg_num"@, "mesg_num"@);
    }
}

/// Whether every field of a record of a message of the name `message`
/// holds a valid value or has the name of a sub-field or of a component of
/// such a message.
pub open spec fn record_sound_in(
    p: FitProfile,
    message: Seq<char>,
    record: Seq<FieldModel>,
) -> bool {
    forall|k: int|
        0 <= k < record.len() ==> (#[trigger] record[k]).value.is_valid() || p.derives(
            message,
            record[k].name,
        )
}

/// Whether every record of every message name is sound.
pub open spec fn messages_sound(p: FitProfile, messages: Seq<MessageRecordsModel>) -> bool {
    forall|i: int, j: int|
        0 <= i < messages.len() && 0 <= j < messages[i].records.len() ==> record_sound_in(
            p,
            messages[i].name,
            #[trigger] messages[i].records[j],
        )
}

/// Sound records stay sound with one more sound record.
pub proof fn lemma_messages_push_sound(
    p: FitProfile,
    messages: Seq<MessageRecordsModel>,
    name: Seq<char>,
    record: Seq<FieldModel>,
)
    requires
        messages_sound(p, messages),
        record_sound_in(p, name, record),
    ensures
        messages_sound(p, messages_push(messages, name, record)),
{
    lemma_first_from(messages, is_of(name), 0);
    let after = messages_push(messages, name, record);
    assert forall|i: int, j: int|
        0 <= i < after.len() && 0 <= j < after[i].records.len() implies record_sound_in(
        p,
        after[i].name,
        #[trigger] after[i].records[j],
    ) by {
        match messages_find(messages, name) {
            Some(k) => {
                if i == k {
                    if j < messages[k].records.len() {
                        assert(after[i].records[j] == messages[k].records[j]);
                    }
                } else {
                    assert(after[i].records[j] == messages[i].records[j]);
                }
            },
            None => {
                if i < messages.len() {
                    assert(after[i].records[j] == messages[i].records[j]);
                }
            },
        }
    }
}

/// The record of a decoded message is sound, with a profile whose names
/// are valid.
pub proof fn lemma_step_sound(p: FitProfile, bytes: Seq<u8>, at: int, s: SessionModel)
    requires
        p.names_valid(),
    ensures
        record_decoded(p, bytes, at, s) matches Ok(step) ==> (step.record matches Some(r)
            ==> record_sound_in(p, r.0, r.1)),
{
    reveal(record_decoded);
    if readable(bytes, at, 1) {
        let header = message_header_of(bytes[at]);
        if header.message_type != FitMessageType::Definition {
            if let Some(d) = table_get(s.definitions, header.local_message_number) {
                lemma_data_message_valid(p, bytes, at + 1, d, header, s.errors);
                if let Ok((msg, after, errors)) = data_message_at(
                    p,
                    bytes,
                    at + 1,
                    d,
                    header,
                    s.errors,
                ) {
                    lemma_record_sound(p, SessionModel { errors, ..s }, msg);
                    if let Ok(r) = message_decoded(p, SessionModel { errors, ..s }, msg) {
                        let m = p.spec_resolve(msg.global_message_number)->Ok_0;
                        assert forall|k: int| 0 <= k < r.2.len() implies (#[trigger] r.2[k])
                            .value.is_valid() || p.derives(r.1, r.2[k].name) by {
                            if !r.2[k].value.is_valid() {
                                assert(p.messages@[m].derives(r.2[k].name));
                            }
                        }
                    }
                }
            }
        }
    }
}

/// The decoding of messages keeps the records sound.
pub proof fn lemma_records_sound(p: FitProfile, bytes: Seq<u8>, end: int, g: Progress)
    requires
        p.names_valid(),
        messages_sound(p, g.messages),
    ensures
        records_from(p, bytes, end, g) matches Ok(done) ==> messages_sound(p, done.messages),
    decreases bytes.len() - g.at,
{
    if g.at < end {
        lemma_step_sound(p, bytes, g.at, g.session);
        if let Ok(step) = record_decoded(p, bytes, g.at, g.session) {
            if let Some((name, record)) = step.record {
                lemma_messages_push_sound(p, g.messages, name, record);
            }
            let next = after_step(g, step);
            if g.at < next.at <= bytes.len() {
                lemma_records_sound(p, bytes, end, next);
            }
        }
    }
}

/// The decoding of files keeps the records sound.
pub proof fn lemma_files_sound(p: FitProfile, bytes: Seq<u8>, g: Progress)
    requires
        p.names_valid(),
        messages_sound(p, g.messages),
    ensures
        files_from(p, bytes, g) matches Ok(done) ==> messages_sound(p, done.messages),
    decreases bytes.len() - g.at,
{
    reveal(file_decoded);
    if g.at + 1 < bytes.len() {
        if let Ok(done) = file_decoded(p, bytes, g) {
            let header = file_header_at(bytes, g.at)->Ok_0;
            lemma_records_sound(
                p,
                bytes,
                g.at + header.0.header_size + header.0.data_size,
                Progress { at: header.1, ..g },
            );
            if g.at < done.at <= bytes.len() {
                lemma_files_sound(p, bytes, done);
            }
        }
    }
}

/// Every value that a decoding emits is valid, or stands under a name that
/// the profile gives a sub-field or a component of a message of the
/// record's name, with a profile whose names are valid.
pub proof fn lemma_decoded_sound(p: FitProfile, bytes: Seq<u8>, s: SessionModel)
    requires
        p.names_valid(),
    ensures
        decoded(p, bytes, s) matches Ok(done) ==> messages_sound(p, done.messages),
{
    lemma_files_sound(p, bytes, Progress { session: s, at: 0, messages: Seq::empty() });
}

/// Whether every field of a record holds a valid value.
pub open spec fn record_valid(record: Seq<FieldModel>) -> bool {
    forall|i: int| 0 <= i < record.len() ==> (#[trigger] record[i]).value.is_valid()
}

/// Whether every value of every record is valid.
pub open spec fn messages_valid(messages: Seq<MessageRecordsModel>) -> bool {
    forall|i: int, j: int|
        0 <= i < messages.len() && 0 <= j < messages[i].records.len() ==> record_valid(
            #[trigger] messages[i].records[j],
        )
}

impl Message {
    /// Whether no field of the message has sub-fields or components.
    pub open spec fn is_plain(&self) -> bool {
        forall|i: int|
            0 <= i < self.fields@.len() ==> (#[trigger] self.fields@[i]).components@.len() == 0
                && self.fields@[i].sub_fields@.len() == 0
    }
}

impl FitProfile {
    /// Whether no field of any message has sub-fields or components.
    pub open spec fn is_plain(&self) -> bool {
        forall|m: int| 0 <= m < self.messages@.len() ==> (#[trigger] self.messages@[m]).is_plain()
    }
}

/// A profile without sub-fields and components gives them no name.
pub proof fn lemma_plain_derives(p: FitProfile, message: Seq<char>, name: Seq<char>)
    requires
        p.is_plain(),
    ensures
        !p.derives(message, name),
{
    if p.derives(message, name) {
        let m = choose|m: int|
            0 <= m < p.messages@.len() && (#[trigger] p.messages@[m]).name@ == message
                && p.messages@[m].derives(name);
        let msg = p.messages@[m];
        assert(msg.is_plain());
        let i = choose|i: int|
            0 <= i < msg.fields@.len() && (#[trigger] msg.fields@[i]).derives(name);
        assert(msg.fields@[i].components@.len() == 0);
        assert(msg.fields@[i].sub_fields@.len() == 0);
    }
}

/// Every value that a decoding emits is valid, with a profile whose names
/// are valid and whose fields have neither sub-fields nor components.
pub proof fn lemma_decoded_valid(p: FitProfile, bytes: Seq<u8>, s: SessionModel)
    requires
        p.names_valid(),
        p.is_plain(),
    ensures
        decoded(p, bytes, s) matches Ok(done) ==> messages_valid(done.messages),
{
    lemma_decoded_sound(p, bytes, s);
    if let Ok(done) = decoded(p, bytes, s) {
        assert forall|i: int, j: int|
            0 <= i < done.messages.len() && 0 <= j < done.messages[i].records.len()
            implies record_valid(#[trigger] done.messages[i].records[j]) by {
            let record = done.messages[i].records[j];
            assert(record_sound_in(p, done.messages[i].name, record));
            assert forall|k: int| 0 <= k < record.len() implies (#[trigger] record[k])
                .value.is_valid() by {
                lemma_plain_derives(p, done.messages[i].name, record[k].name);
            }
        }
    }
}

} // verus!
