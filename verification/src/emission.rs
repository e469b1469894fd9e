//! Where the fields of a decoded record come from.
//!
//! A record holds a name only where the profile and the data message give
//! a reason for it: the name is that of a field whose number the message
//! holds, of a component of such a field, of a sub-field of such a field that
//! is in force, or of a component of such a sub-field; or it is `timestamp`.
//! So a sub-field is emitted only where the field that it refers to holds
//! the value that it names, and where no sub-field of a field is in force
//! the field stands under its own name alone.
use vstd::prelude::*;
use crate::accumulator::{accumulated, counters_after};
use crate::bit_reader::{bit_width, bit_words, BitReader, bits_value};
use crate::expansion::{
    activates, components_expanded, DecodeArgsModel, expanded_from, Expansion, field_decoded,
    group_read, group_state, occurrences, repeats, seeded, sub_fields_from, with_field,
};
use crate::fit::ValueModel;
use crate::message::{DataFieldModel, DataMessageModel, fields_find, fields_get};
use crate::profile::{Component, FitProfile, lemma_find_field, lemma_resolve, Message, MessageField};
use crate::projection::{coerced, projected, wrap_integer};
use crate::record::{FieldModel, is_named, record_find, Scaling};
use crate::search::lemma_first_from;
use crate::session::{
    args_of, developer_from, DeveloperState, message_decoded, next_timestamp, projected_from,
    Projection, projection_step, record_named, SessionModel, timestamp_applied, timestamp_field,
};
use crate::validity::names_component;

verus! {

/// Whether the decoding of the field `f` of the message `m`, beside the
/// data fields `fields`, may give the record a field of the name `name`:
/// the name is that of the field, of one of its components, of one of its
/// sub-fields that is in force, or of a component of such a sub-field.
pub open spec fn field_emits(
    p: FitProfile,
    m: Message,
    f: MessageField,
    fields: Seq<DataFieldModel>,
    name: Seq<char>,
) -> bool {
    f.field_name@ == name || names_component(f.components@, name) || exists|j: int|
        0 <= j < f.sub_fields@.len() && activates(p, m, #[trigger] f.sub_fields@[j], fields)
            && f.sub_fields@[j].derives(name)
}

/// Whether the decoding of a data message with the data fields `fields` as
/// the message `m` may give the record a field of the name `name`: the name
/// is `timestamp`, or a field of the message whose number is among the data
/// fields may give it.
pub open spec fn message_emits(
    p: FitProfile,
    m: Message,
    fields: Seq<DataFieldModel>,
    name: Seq<char>,
) -> bool {
    name == "timestamp"@ || exists|i: int|
        0 <= i < m.fields@.len() && fields_get(fields, (#[trigger] m.fields@[i]).field_no) is Some
            && field_emits(p, m, m.fields@[i], fields, name)
}

/// Whether every field of a record has a name that the decoding of the data
/// fields as the message may give.
pub open spec fn record_owed(
    p: FitProfile,
    m: Message,
    fields: Seq<DataFieldModel>,
    record: Seq<FieldModel>,
) -> bool {
    forall|i: int| 0 <= i < record.len() ==> message_emits(p, m, fields, (#[trigger] record[i]).name)
}

/// A record stays owed with one more field of a name that is owed.
pub proof fn lemma_insert_owed(
    p: FitProfile,
    m: Message,
    fields: Seq<DataFieldModel>,
    e: Expansion,
    name: Seq<char>,
    value: (ValueModel, Option<Scaling>),
    units: Seq<char>,
    is_subfield: bool,
)
    requires
        record_owed(p, m, fields, e.record),
        message_emits(p, m, fields, name),
    ensures
        record_owed(p, m, fields, with_field(e, name, value, units, is_subfield).record),
{
    lemma_first_from(e.record, is_named(name), 0);
}

/// Whether every one of the components has a name that is owed.
pub open spec fn components_owed(
    p: FitProfile,
    m: Message,
    fields: Seq<DataFieldModel>,
    comps: Seq<Component>,
) -> bool {
    forall|k: int| 0 <= k < comps.len() ==> message_emits(p, m, fields, (#[trigger] comps[k]).field_name@)
}

/// The expansion of components whose names are owed keeps a record owed.
pub proof fn lemma_expanded_owed(
    p: FitProfile,
    m: Message,
    a: DecodeArgsModel,
    words: Seq<u64>,
    per: int,
    comps: Seq<Component>,
    i: int,
    position: int,
    e: Expansion,
)
    requires
        components_owed(p, m, a.fields, comps),
        record_owed(p, m, a.fields, e.record),
    ensures
        record_owed(p, m, a.fields, expanded_from(p, a, words, per, comps, i, position, e).record),
    decreases comps.len() - i,
{
    if 0 <= i < comps.len() {
        let c = comps[i];
        if repeats(comps, i) {
            lemma_expanded_owed(p, m, a, words, per, comps, i + 1, position, e);
        } else if let Some(t) = p.spec_base_type_of(c.field_type@) {
            let n = occurrences(comps, c.field_name@, i);
            if c.bits > 64 || !t.spec_is_integer() {
            } else if n > 1 {
                let g = group_read(
                    words,
                    per,
                    n,
                    c.bits,
                    a,
                    t,
                    group_state(Seq::empty(), position, e.counters),
                );
                let e1 = Expansion { counters: g.counters, ..e };
                if let Ok(v) = projected(
                    p,
                    a.exempt,
                    ValueModel::Array(g.values),
                    c.field_type@,
                    c.scale,
                    c.offset,
                    c.array,
                ) {
                    let next = with_field(e1, c.field_name@, v, c.units@, false);
                    lemma_insert_owed(p, m, a.fields, e1, c.field_name@, v, c.units@, false);
                    lemma_expanded_owed(p, m, a, words, per, comps, i + 1, g.position, next);
                }
            } else if position + c.bits <= per * words.len() {
                let raw = bits_value(words, per, position, c.bits as nat) as u64;
                let e1 = Expansion {
                    counters: counters_after(e.counters, a.msg_no, a.field_no, raw, c.bits),
                    ..e
                };
                if let Ok(v) = projected(
                    p,
                    a.exempt,
                    wrap_integer(
                        t,
                        accumulated(e.counters, a.msg_no, a.field_no, raw, c.bits),
                    ).unwrap(),
                    c.field_type@,
                    c.scale,
                    c.offset,
                    c.array,
                ) {
                    let next = with_field(e1, c.field_name@, v, c.units@, false);
                    lemma_insert_owed(p, m, a.fields, e1, c.field_name@, v, c.units@, false);
                    lemma_expanded_owed(
                        p,
                        m,
                        a,
                        words,
                        per,
                        comps,
                        i + 1,
                        position + c.bits,
                        next,
                    );
                }
            }
        }
    }
}

/// The expansion of the components of a field or sub-field keeps a record
/// owed, where their names are.
pub proof fn lemma_components_owed(
    p: FitProfile,
    m: Message,
    a: DecodeArgsModel,
    comps: Seq<Component>,
    e: Expansion,
)
    requires
        components_owed(p, m, a.fields, comps),
        record_owed(p, m, a.fields, e.record),
    ensures
        record_owed(p, m, a.fields, components_expanded(p, a, comps, e).record),
{
    if comps.len() != 0 && BitReader::accepts(a.value) {
        lemma_expanded_owed(
            p,
            m,
            a,
            bit_words(a.value).unwrap(),
            bit_width(a.value),
            comps,
            0,
            0,
            e,
        );
    }
}

/// What a field of a message whose number is among the data fields gives
/// names to: itself, its components, and each of its sub-fields that is in
/// force with its components.
pub proof fn lemma_field_owes(p: FitProfile, m: Message, i: int, fields: Seq<DataFieldModel>)
    requires
        0 <= i < m.fields@.len(),
        fields_get(fields, m.fields@[i].field_no) is Some,
    ensures
        message_emits(p, m, fields, m.fields@[i].field_name@),
        components_owed(p, m, fields, m.fields@[i].components@),
        forall|j: int|
            0 <= j < m.fields@[i].sub_fields@.len() && activates(
                p,
                m,
                #[trigger] m.fields@[i].sub_fields@[j],
                fields,
            ) ==> message_emits(p, m, fields, m.fields@[i].sub_fields@[j].field_name@)
                && components_owed(p, m, fields, m.fields@[i].sub_fields@[j].components@),
{
    let f = m.fields@[i];
    assert(field_emits(p, m, f, fields, f.field_name@));
    assert forall|k: int| 0 <= k < f.components@.len() implies message_emits(
        p,
        m,
        fields,
        (#[trigger] f.components@[k]).field_name@,
    ) by {
        assert(field_emits(p, m, f, fields, f.components@[k].field_name@));
    }
    assert forall|j: int|
        0 <= j < f.sub_fields@.len() && activates(
            p,
            m,
            #[trigger] f.sub_fields@[j],
            fields,
        ) implies message_emits(p, m, fields, f.sub_fields@[j].field_name@) && components_owed(
        p,
        m,
        fields,
        f.sub_fields@[j].components@,
    ) by {
        let sub = f.sub_fields@[j];
        assert(sub.derives(sub.field_name@));
        assert(field_emits(p, m, f, fields, sub.field_name@));
        assert forall|k: int| 0 <= k < sub.components@.len() implies message_emits(
            p,
            m,
            fields,
            (#[trigger] sub.components@[k]).field_name@,
        ) by {
            assert(sub.derives(sub.components@[k].field_name@));
            assert(field_emits(p, m, f, fields, sub.components@[k].field_name@));
        }
    }
}

/// The sub-fields of a field of a message whose number is among the data
/// fields keep a record owed.
pub proof fn lemma_sub_fields_owed(
    p: FitProfile,
    m: Message,
    at: int,
    a: DecodeArgsModel,
    i: int,
    e: Expansion,
)
    requires
        0 <= at < m.fields@.len(),
        fields_get(a.fields, m.fields@[at].field_no) is Some,
        record_owed(p, m, a.fields, e.record),
    ensures
        record_owed(p, m, a.fields, sub_fields_from(p, m, m.fields@[at], a, i, e).record),
    decreases m.fields@[at].sub_fields@.len() - i,
{
    let f = m.fields@[at];
    if 0 <= i < f.sub_fields@.len() {
        let sub = f.sub_fields@[i];
        lemma_field_owes(p, m, at, a.fields);
        if activates(p, m, sub, a.fields) {
            if let Ok(v) = projected(
                p,
                a.exempt,
                coerced(p, f.field_type@, sub.field_type@, a.value),
                sub.field_type@,
                sub.scale,
                sub.offset,
                sub.array,
            ) {
                let named = with_field(e, sub.field_name@, v, sub.units@, true);
                lemma_insert_owed(p, m, a.fields, e, sub.field_name@, v, sub.units@, true);
                lemma_components_owed(p, m, a, sub.components@, named);
                let e1 = components_expanded(p, a, sub.components@, named);
                if e1.fault is None {
                    lemma_sub_fields_owed(p, m, at, a, i + 1, e1);
                }
            }
        } else {
            lemma_sub_fields_owed(p, m, at, a, i + 1, e);
        }
    }
}

/// The decoding of a field whose number is among the data fields keeps a
/// record owed.
pub proof fn lemma_field_decoded_owed(p: FitProfile, m: Message, a: DecodeArgsModel, e: Expansion)
    requires
        fields_get(a.fields, a.field_no) is Some,
        record_owed(p, m, a.fields, e.record),
    ensures
        record_owed(p, m, a.fields, field_decoded(p, m, a, e).record),
{
    lemma_find_field(m, a.field_no);
    if let Some(i) = m.spec_find_field(a.field_no) {
        let f = m.fields@[i];
        lemma_field_owes(p, m, i, a.fields);
        if let Ok(v) = projected(p, a.exempt, a.value, f.field_type@, f.scale, f.offset, f.array) {
            lemma_insert_owed(p, m, a.fields, e, f.field_name@, v, f.units@, false);
            let own = seeded(f, a, with_field(e, f.field_name@, v, f.units@, false));
            lemma_sub_fields_owed(p, m, i, a, 0, own);
            let e1 = sub_fields_from(p, m, f, a, 0, own);
            if e1.fault is None {
                lemma_components_owed(p, m, a, f.components@, e1);
            }
        }
    }
}

/// The projection of the fields of a data message keeps a record owed.
pub proof fn lemma_projected_from_owed(
    p: FitProfile,
    m: Message,
    name: Seq<char>,
    exempt: bool,
    msg: DataMessageModel,
    k: int,
    s: Projection,
)
    requires
        0 <= k,
        record_owed(p, m, msg.fields, s.record),
    ensures
        record_owed(p, m, msg.fields, projected_from(p, m, name, exempt, msg, k, s).record),
    decreases msg.fields.len() - k,
{
    if k < msg.fields.len() {
        let number = msg.fields[k].field_definition_number;
        lemma_first_from(msg.fields, |f: DataFieldModel| f.field_definition_number == number, 0);
        assert(fields_find(msg.fields, number) is Some);
        lemma_field_decoded_owed(
            p,
            m,
            args_of(exempt, msg, k),
            Expansion { record: s.record, counters: s.counters, fault: None },
        );
        lemma_projected_from_owed(
            p,
            m,
            name,
            exempt,
            msg,
            k + 1,
            projection_step(p, m, name, exempt, msg, k, s),
        );
    }
}

/// A record stays owed with the value of one field under a named type:
/// the names stay.
pub proof fn lemma_record_named_owed(
    p: FitProfile,
    m: Message,
    fields: Seq<DataFieldModel>,
    record: Seq<FieldModel>,
    field: Seq<char>,
    ty: Seq<char>,
)
    requires
        record_owed(p, m, fields, record),
    ensures
        record_owed(p, m, fields, record_named(p, record, field, ty)),
{
    lemma_first_from(record, is_named(field), 0);
}

/// Every field of the record of a decoded message has a name that the
/// profile and the data message give a reason for: `timestamp`, or the name
/// of a field whose number the message holds, of a component of it, of a
/// sub-field of it that is in force, or of a component of such a sub-field.
pub proof fn lemma_record_owed(p: FitProfile, s: SessionModel, msg: DataMessageModel)
    ensures
        message_decoded(p, s, msg) matches Ok(r) ==> p.spec_resolve(msg.global_message_number)
            matches Ok(m) && 0 <= m < p.messages@.len() && record_owed(
            p,
            p.messages@[m],
            msg.fields,
            r.2,
        ),
{
    reveal(message_decoded);
    lemma_resolve(p, msg.global_message_number);
    if let Ok(m) = p.spec_resolve(msg.global_message_number) {
        let message = p.messages@[m];
        let name = message.name@;
        let exempt = name == "developer_data_id"@ || name == "field_description"@;
        let start = Projection {
            record: Seq::empty(),
            counters: s.counters,
            errors: s.errors,
            timestamp_ref: s.timestamp_ref,
        };
        lemma_projected_from_owed(p, message, name, exempt, msg, 0, start);
        let fields = projected_from(p, message, name, exempt, msg, 0, start);
        let developer = developer_from(
            s.developer_definitions,
            name,
            msg.developer_fields,
            0,
            DeveloperState { data: s.developer_data, errors: fields.errors },
        );
        let before = Projection { errors: developer.errors, ..fields };
        let timed = timestamp_applied(msg.time_offset, before);
        if msg.time_offset is Some && before.timestamp_ref is Some {
            let stamp = timestamp_field(
                next_timestamp(before.timestamp_ref.unwrap(), msg.time_offset.unwrap()),
            );
            lemma_first_from(before.record, is_named(stamp.name), 0);
            assert(message_emits(p, message, msg.fields, stamp.name));
        }
        assert(record_owed(p, message, msg.fields, timed.record));
        lemma_record_named_owed(p, message, msg.fields, timed.record, "manufacturer_id"@, "manufacturer"@);
        let r1 = record_named(p, timed.record, "fit_base_type_id"@, "fit_base_type"@);
        lemma_record_named_owed(p, message, msg.fields, timed.record, "fit_base_type_id"@, "fit_base_type"@);
        let r2 = record_named(p, r1, "fit_base_unit_id"@, "fit_base_unit"@);
        lemma_record_named_owed(p, message, msg.fields, r1, "fit_base_unit_id"@, "fit_base_unit"@);
        lemma_record_named_owed(p, message, msg.fields, r2, "native_mesg_num"@, "mesg_num"@);
    }
}

/// A sub-field that is not in force leaves no field in the record, unless
/// the profile gives its name to something else that the message emits:
/// where nothing that the data message emits has the name, the record of
/// the decoded message holds no field of the name.
pub proof fn lemma_not_emitted(p: FitProfile, s: SessionModel, msg: DataMessageModel, name: Seq<char>)
    requires
        message_decoded(p, s, msg) is Ok,
        !message_emits(
            p,
            p.messages@[p.spec_resolve(msg.global_message_number)->Ok_0],
            msg.fields,
            name,
        ),
    ensures
        record_find(message_decoded(p, s, msg)->Ok_0.2, name) is None,
{
    lemma_record_owed(p, s, msg);
    let record = message_decoded(p, s, msg)->Ok_0.2;
    lemma_first_from(record, is_named(name), 0);
}

/// Whether the sub-field `j` of the field `i` of a message has a name of
/// its own: the name is not `timestamp`, nor that of a field or a component
/// of the message, nor that of another sub-field.
pub open spec fn sub_field_apart(m: Message, i: int, j: int) -> bool {
    let name = m.fields@[i].sub_fields@[j].field_name@;
    &&& name != "timestamp"@
    &&& !names_component(m.fields@[i].sub_fields@[j].components@, name)
    &&& forall|k: int|
        0 <= k < m.fields@.len() ==> (#[trigger] m.fields@[k]).field_name@ != name
            && !names_component(m.fields@[k].components@, name)
    &&& forall|k: int, l: int|
        0 <= k < m.fields@.len() && 0 <= l < m.fields@[k].sub_fields@.len() && !(k == i && l == j)
            ==> !(#[trigger] m.fields@[k].sub_fields@[l]).derives(name)
}

/// A sub-field with a name of its own stands in the record of a decoded
/// message only where it is in force, beside a field of its number: the
/// field that it refers to is among the data fields and holds the value
/// that the sub-field names.
pub proof fn lemma_sub_field_in_force(
    p: FitProfile,
    s: SessionModel,
    msg: DataMessageModel,
    i: int,
    j: int,
)
    requires
        message_decoded(p, s, msg) is Ok,
        ({
            let m = p.messages@[p.spec_resolve(msg.global_message_number)->Ok_0];
            &&& 0 <= i < m.fields@.len()
            &&& 0 <= j < m.fields@[i].sub_fields@.len()
            &&& sub_field_apart(m, i, j)
            &&& record_find(
                message_decoded(p, s, msg)->Ok_0.2,
                m.fields@[i].sub_fields@[j].field_name@,
            ) is Some
        }),
    ensures
        ({
            let m = p.messages@[p.spec_resolve(msg.global_message_number)->Ok_0];
            &&& activates(p, m, m.fields@[i].sub_fields@[j], msg.fields)
            &&& fields_get(msg.fields, m.fields@[i].field_no) is Some
        }),
{
    let m = p.messages@[p.spec_resolve(msg.global_message_number)->Ok_0];
    let name = m.fields@[i].sub_fields@[j].field_name@;
    let record = message_decoded(p, s, msg)->Ok_0.2;
    lemma_record_owed(p, s, msg);
    lemma_first_from(record, is_named(name), 0);
    let at = record_find(record, name)->Some_0;
    assert(message_emits(p, m, msg.fields, record[at].name));
    let k = choose|k: int|
        0 <= k < m.fields@.len() && fields_get(msg.fields, (#[trigger] m.fields@[k]).field_no)
            is Some && field_emits(p, m, m.fields@[k], msg.fields, name);
    let f = m.fields@[k];
    let l = choose|l: int|
        0 <= l < f.sub_fields@.len() && activates(p, m, #[trigger] f.sub_fields@[l], msg.fields)
            && f.sub_fields@[l].derives(name);
    assert(m.fields@[k].sub_fields@[l].derives(name));
    if !(k == i && l == j) {
        assert(false);
    }
}

} // verus!
