//! The decoding of one field of a data message through the profile: the
//! field itself, the sub-fields that a sibling field puts in force, and the
//! components packed into its bits.
use vstd::prelude::*;
use crate::accumulator::{accumulated, AccumulatedField, Accumulator, counter_key, counters_after};
use crate::bit_reader::{bit_width, bit_words, BitReader, bits_value};
use crate::error::ProjectionFault;
use crate::fit::{BaseType, lemma_array_model, Value, value_models, ValueModel};
use crate::message::{data_field_models, DataField, DataFieldModel, fields_get, find_data_field};
use crate::profile::{Component, FitProfile, Message, MessageField, NestedMessageField};
use crate::projection::{coerce, coerced, integer_value, projected, transform_value, wrap_integer};
use crate::record::{Field, FieldModel, Record, record_insert, Scaling};
use crate::search::{first_from, first_index};
use crate::text::str_eq;

verus! {

/// The state of the decoding of a message: the record so far, the counters,
/// and the fault that stopped the decoding of a field, if one did.
pub struct Expansion {
    pub record: Seq<FieldModel>,
    pub counters: Map<u32, AccumulatedField>,
    pub fault: Option<ProjectionFault>,
}

/// What a decoded field needs to know of its message.
pub struct MessageDecodeArgs<'a> {
    /// Whether the message is one of the two that describe developer data,
    /// whose values pass unchanged.
    pub exempt: bool,
    pub msg_no: u16,
    pub field_no: u8,
    pub value: &'a Value,
    pub fields: &'a Vec<DataField>,
}

/// The mathematical model of [`MessageDecodeArgs`].
pub struct DecodeArgsModel {
    pub exempt: bool,
    pub msg_no: u16,
    pub field_no: u8,
    pub value: ValueModel,
    pub fields: Seq<DataFieldModel>,
}

impl<'a> View for MessageDecodeArgs<'a> {
    type V = DecodeArgsModel;

    open spec fn view(&self) -> DecodeArgsModel {
        DecodeArgsModel {
            exempt: self.exempt,
            msg_no: self.msg_no,
            field_no: self.field_no,
            value: (*self.value)@,
            fields: data_field_models(self.fields@),
        }
    }
}

/// The field that a sub-field refers to and the value that it must hold:
/// the number of the field of the referenced name, the base type of that
/// field's type, and the number that the type gives the referenced name.
pub open spec fn reference_of(p: FitProfile, m: Message, sub: NestedMessageField) -> Option<
    (u8, BaseType, u64),
> {
    match m.spec_find_field_named(sub.ref_field_name@) {
        Some(r) => match p.spec_find_type(m.fields@[r].field_type@) {
            Some(t) => match p.types@[t].spec_find_name(sub.ref_field_value@) {
                Some(k) => Some(
                    (m.fields@[r].field_no, p.types@[t].base_type, p.types@[t].values@[k].value),
                ),
                None => None,
            },
            None => None,
        },
        None => None,
    }
}

/// Whether a sub-field is in force: its reference can be resolved, and the
/// referenced field of the message holds the referenced value.
pub open spec fn activates(
    p: FitProfile,
    m: Message,
    sub: NestedMessageField,
    fields: Seq<DataFieldModel>,
) -> bool {
    reference_of(p, m, sub) matches Some((number, base, value)) && fields_get(fields, number)
        matches Some(v) && v.ordinal(base) == Some(value)
}

/// How often a name occurs among the components from `from` on.
pub open spec fn occurrences(comps: Seq<Component>, name: Seq<char>, from: int) -> nat
    decreases comps.len() - from,
{
    if from < 0 || from >= comps.len() {
        0
    } else if comps[from].field_name@ == name {
        1 + occurrences(comps, name, from + 1)
    } else {
        occurrences(comps, name, from + 1)
    }
}

/// Whether the name of the component at `i` occurs before it.
pub open spec fn repeats(comps: Seq<Component>, i: int) -> bool {
    first_index(comps, |c: Component| c.field_name@ == comps[i].field_name@) != Some(i)
}

/// What reading a group of `n` components of one name gives: the values
/// read so far, the position in the bits, and the counters.
pub struct GroupRead {
    pub values: Seq<ValueModel>,
    pub position: int,
    pub counters: Map<u32, AccumulatedField>,
}

/// The state of a group read.
pub open spec fn group_state(
    values: Seq<ValueModel>,
    position: int,
    counters: Map<u32, AccumulatedField>,
) -> GroupRead {
    GroupRead { values, position, counters }
}

/// Reads up to `n` values of `bits` bits each, from `position` on. Each goes
/// through the counter of the field and into the base type `t`. The reading
/// stops where fewer than `bits` bits are left, and the rest is then
/// consumed.
pub open spec fn group_read(
    words: Seq<u64>,
    per: int,
    n: nat,
    bits: u8,
    a: DecodeArgsModel,
    t: BaseType,
    sofar: GroupRead,
) -> GroupRead
    decreases n,
{
    if n == 0 {
        sofar
    } else if sofar.position + bits > per * words.len() {
        GroupRead { position: per * words.len(), ..sofar }
    } else {
        let raw = bits_value(words, per, sofar.position, bits as nat) as u64;
        group_read(
            words,
            per,
            (n - 1) as nat,
            bits,
            a,
            t,
            GroupRead {
                values: sofar.values.push(
                    wrap_integer(
                        t,
                        accumulated(sofar.counters, a.msg_no, a.field_no, raw, bits),
                    ).unwrap(),
                ),
                position: sofar.position + bits,
                counters: counters_after(sofar.counters, a.msg_no, a.field_no, raw, bits),
            },
        )
    }
}

/// The state with one more field in the record.
pub open spec fn with_field(
    e: Expansion,
    name: Seq<char>,
    value: (ValueModel, Option<Scaling>),
    units: Seq<char>,
    is_subfield: bool,
) -> Expansion {
    Expansion {
        record: record_insert(
            e.record,
            FieldModel { name, value: value.0, units, is_subfield, scaling: value.1 },
        ),
        ..e
    }
}

/// The expansion of the components from `i` on, with the bits from
/// `position` on.
///
/// Components of one name make one group, at the place of the first of
/// them, and take the width of the first. A group of one gives a single
/// value, and fails where the bits run out; a larger group gives an array of
/// the values that the bits suffice for. Each bit pattern goes through the
/// counter of the field that holds the components and into the base type of
/// the component's type, and the value is projected as a field of the
/// component's name.
pub open spec fn expanded_from(
    p: FitProfile,
    a: DecodeArgsModel,
    words: Seq<u64>,
    per: int,
    comps: Seq<Component>,
    i: int,
    position: int,
    e: Expansion,
) -> Expansion
    decreases comps.len() - i,
{
    if i < 0 || i >= comps.len() {
        e
    } else if repeats(comps, i) {
        expanded_from(p, a, words, per, comps, i + 1, position, e)
    } else {
        let c = comps[i];
        let n = occurrences(comps, c.field_name@, i);
        match p.spec_base_type_of(c.field_type@) {
            Some(t) => if c.bits > 64 || !t.spec_is_integer() {
                Expansion { fault: Some(ProjectionFault::BadComponent), ..e }
            } else if n > 1 {
                let g = group_read(
                    words,
                    per,
                    n,
                    c.bits,
                    a,
                    t,
                    GroupRead { values: Seq::empty(), position, counters: e.counters },
                );
                let e1 = Expansion { counters: g.counters, ..e };
                match projected(
                    p,
                    a.exempt,
                    ValueModel::Array(g.values),
                    c.field_type@,
                    c.scale,
                    c.offset,
                    c.array,
                ) {
                    Ok(v) => expanded_from(
                        p,
                        a,
                        words,
                        per,
                        comps,
                        i + 1,
                        g.position,
                        with_field(e1, c.field_name@, v, c.units@, false),
                    ),
                    Err(f) => Expansion { fault: Some(f), ..e1 },
                }
            } else if position + c.bits > per * words.len() {
                Expansion { fault: Some(ProjectionFault::OutOfBits), ..e }
            } else {
                let raw = bits_value(words, per, position, c.bits as nat) as u64;
                let e1 = Expansion {
                    counters: counters_after(e.counters, a.msg_no, a.field_no, raw, c.bits),
                    ..e
                };
                match projected(
                    p,
                    a.exempt,
                    wrap_integer(
                        t,
                        accumulated(e.counters, a.msg_no, a.field_no, raw, c.bits),
                    ).unwrap(),
                    c.field_type@,
                    c.scale,
                    c.offset,
                    c.array,
                ) {
                    Ok(v) => expanded_from(
                        p,
                        a,
                        words,
                        per,
                        comps,
                        i + 1,
                        position + c.bits,
                        with_field(e1, c.field_name@, v, c.units@, false),
                    ),
                    Err(f) => Expansion { fault: Some(f), ..e1 },
                }
            },
            None => Expansion { fault: Some(ProjectionFault::BadComponent), ..e },
        }
    }
}

/// The expansion of the components of a field or sub-field. A value that
/// is no unsigned integer, or array of them, cannot be expanded.
pub open spec fn components_expanded(
    p: FitProfile,
    a: DecodeArgsModel,
    comps: Seq<Component>,
    e: Expansion,
) -> Expansion {
    if comps.len() == 0 {
        e
    } else if !BitReader::accepts(a.value) {
        Expansion { fault: Some(ProjectionFault::NotUnsigned), ..e }
    } else {
        expanded_from(p, a, bit_words(a.value).unwrap(), bit_width(a.value), comps, 0, 0, e)
    }
}

/// The sub-fields of a field from `i` on. Each that is in force gives a
/// field of its own name: the raw value, read as the sub-field's type and
/// projected with its scale, offset and unit, and then its components.
pub open spec fn sub_fields_from(
    p: FitProfile,
    m: Message,
    f: MessageField,
    a: DecodeArgsModel,
    i: int,
    e: Expansion,
) -> Expansion
    decreases f.sub_fields@.len() - i,
{
    if i < 0 || i >= f.sub_fields@.len() {
        e
    } else {
        let sub = f.sub_fields@[i];
        if activates(p, m, sub, a.fields) {
            match projected(
                p,
                a.exempt,
                coerced(p, f.field_type@, sub.field_type@, a.value),
                sub.field_type@,
                sub.scale,
                sub.offset,
                sub.array,
            ) {
                Ok(v) => {
                    let e1 = components_expanded(
                        p,
                        a,
                        sub.components@,
                        with_field(e, sub.field_name@, v, sub.units@, true),
                    );
                    if e1.fault is Some {
                        e1
                    } else {
                        sub_fields_from(p, m, f, a, i + 1, e1)
                    }
                },
                Err(fault) => Expansion { fault: Some(fault), ..e },
            }
        } else {
            sub_fields_from(p, m, f, a, i + 1, e)
        }
    }
}

/// The counters after the seed of a field: where the profile has the field
/// accumulate and its value is an unsigned integer, its counter starts at
/// that value.
pub open spec fn seeded(f: MessageField, a: DecodeArgsModel, e: Expansion) -> Expansion {
    if f.accumulate && a.value.unsigned() is Some {
        Expansion {
            counters: e.counters.insert(
                counter_key(a.msg_no, a.field_no),
                AccumulatedField {
                    accumulated_value: a.value.unsigned().unwrap(),
                    last_value: a.value.unsigned().unwrap(),
                },
            ),
            ..e
        }
    } else {
        e
    }
}

/// The decoding of one field of a message: the field under its name, the
/// seed of its counter, its sub-fields, and its components. A fault stops
/// it, and what was done before the fault stays.
pub open spec fn field_decoded(p: FitProfile, m: Message, a: DecodeArgsModel, e: Expansion) -> Expansion {
    match m.spec_find_field(a.field_no) {
        Some(i) => {
            let f = m.fields@[i];
            match projected(p, a.exempt, a.value, f.field_type@, f.scale, f.offset, f.array) {
                Ok(v) => {
                    let e1 = sub_fields_from(
                        p,
                        m,
                        f,
                        a,
                        0,
                        seeded(f, a, with_field(e, f.field_name@, v, f.units@, false)),
                    );
                    if e1.fault is Some {
                        e1
                    } else {
                        components_expanded(p, a, f.components@, e1)
                    }
                },
                Err(fault) => Expansion { fault: Some(fault), ..e },
            }
        },
        None => Expansion { fault: Some(ProjectionFault::UnknownField), ..e },
    }
}

/// The state that a record, counters and the result of a step make.
pub open spec fn state_of(record: &Record, accumulator: &Accumulator, r: Result<(), ProjectionFault>) -> Expansion {
    Expansion {
        record: record@,
        counters: accumulator@,
        fault: match r {
            Ok(_) => None,
            Err(f) => Some(f),
        },
    }
}

/// Whether a sub-field is in force.
pub fn sub_field_activates(
    profile: &FitProfile,
    message: &Message,
    sub: &NestedMessageField,
    fields: &Vec<DataField>,
) -> (r: bool)
    ensures
        r == activates(*profile, *message, *sub, data_field_models(fields@)),
{
    let referenced = match message.find_field_named(sub.ref_field_name.as_str()) {
        Some(r) => r,
        None => {
            return false;
        },
    };
    let t = match profile.find_type(message.fields[referenced].field_type.as_str()) {
        Some(t) => t,
        None => {
            return false;
        },
    };
    let k = match profile.types[t].find_name(sub.ref_field_value.as_str()) {
        Some(k) => k,
        None => {
            return false;
        },
    };
    match find_data_field(fields, message.fields[referenced].field_no) {
        Some(i) => {
            assert(data_field_models(fields@)[i as int] == fields[i as int]@);
            match fields[i].value.ordinal(profile.types[t].base_type) {
                Some(n) => n == profile.types[t].values[k].value,
                None => false,
            }
        },
        None => false,
    }
}

/// How often a name occurs among the components from `from` on.
pub fn count_occurrences(comps: &Vec<Component>, name: &str, from: usize) -> (r: usize)
    ensures
        r == occurrences(comps@, name@, from as int),
        r <= comps@.len(),
{
    let mut n: usize = 0;
    let mut i: usize = from;
    if from >= comps.len() {
        return 0;
    }
    while i < comps.len()
        invariant
            from <= i <= comps.len(),
            n <= i - from,
            occurrences(comps@, name@, from as int) == n + occurrences(comps@, name@, i as int),
        decreases comps.len() - i,
    {
        if str_eq(comps[i].field_name.as_str(), name) {
            n += 1;
        }
        i += 1;
    }
    n
}

/// Whether the name of the component at `i` occurs before it.
pub fn component_repeats(comps: &Vec<Component>, i: usize) -> (r: bool)
    requires
        i < comps@.len(),
    ensures
        r == repeats(comps@, i as int),
{
    let ghost pred = |c: Component| c.field_name@ == comps@[i as int].field_name@;
    let mut j: usize = 0;
    while j < i
        invariant
            j <= i < comps.len(),
            pred == (|c: Component| c.field_name@ == comps@[i as int].field_name@),
            first_from(comps@, pred, 0) == first_from(comps@, pred, j as int),
        decreases i - j,
    {
        if str_eq(comps[j].field_name.as_str(), comps[i].field_name.as_str()) {
            return true;
        }
        j += 1;
    }
    false
}

/// Projects a value and puts it into the record as a field.
fn put_field(
    profile: &FitProfile,
    exempt: bool,
    value: &Value,
    name: &String,
    ty: &String,
    scale: u64,
    offset: u64,
    array: Option<usize>,
    units: &String,
    is_subfield: bool,
    record: &mut Record,
) -> (r: Result<(), ProjectionFault>)
    ensures
        match projected(*profile, exempt, value@, ty@, scale, offset, array) {
            Ok(v) => r is Ok && final(record)@ == record_insert(
                old(record)@,
                FieldModel {
                    name: name@,
                    value: v.0,
                    units: units@,
                    is_subfield,
                    scaling: v.1,
                },
            ),
            Err(f) => r == Err::<(), _>(f) && final(record)@ == old(record)@,
        },
{
    match transform_value(profile, exempt, value, ty.as_str(), scale, offset, array) {
        Ok((v, scaling)) => {
            record.insert(
                Field { name: name.clone(), value: v, units: units.clone(), is_subfield, scaling },
            );
            Ok(())
        },
        Err(f) => Err(f),
    }
}

/// Reads a group of components of one name into an array.
#[verifier::loop_isolation(false)]
fn read_group(
    reader: &mut BitReader,
    n: usize,
    bits: u8,
    args: &MessageDecodeArgs,
    t: BaseType,
    accumulator: &mut Accumulator,
) -> (r: Vec<Value>)
    requires
        old(reader).wf(),
        bits <= 64,
        t.spec_is_integer(),
    ensures
        final(reader).wf(),
        final(reader).bytes == old(reader).bytes,
        final(reader).per_size == old(reader).per_size,
        group_state(value_models(r@), final(reader).consumed as int, final(accumulator)@)
            == group_read(
            old(reader).bytes@,
            old(reader).per_size as int,
            n as nat,
            bits,
            args@,
            t,
            group_state(Seq::empty(), old(reader).consumed as int, old(accumulator)@),
        ),
{
    let mut values: Vec<Value> = Vec::new();
    let mut k: usize = 0;
    let ghost words = reader.bytes@;
    let ghost per = reader.per_size as int;
    let ghost goal = group_read(
        words,
        per,
        n as nat,
        bits,
        args@,
        t,
        group_state(Seq::empty(), reader.consumed as int, accumulator@),
    );
    assert(value_models(values@) =~= Seq::<ValueModel>::empty());
    while k < n
        invariant
            k <= n,
            reader.wf(),
            reader.bytes == old(reader).bytes,
            reader.bytes@ == words,
            reader.per_size == old(reader).per_size,
            reader.per_size == per,
            bits <= 64,
            t.spec_is_integer(),
            goal == group_read(
                words,
                per,
                (n - k) as nat,
                bits,
                args@,
                t,
                group_state(value_models(values@), reader.consumed as int, accumulator@),
            ),
        decreases n - k,
    {
        let ghost before = value_models(values@);
        let raw = match reader.read_bits(bits as usize) {
            Some(raw) => raw,
            None => {
                return values;
            },
        };
        let full = accumulator.accumulate(args.msg_no, args.field_no, raw, bits);
        match integer_value(t, full) {
            Some(v) => {
                values.push(v);
                assert(value_models(values@) =~= before.push(v@));
            },
            None => {
                assert(false);
            },
        }
        k += 1;
    }
    values
}

/// Expands the components of a field or sub-field, as
/// [`components_expanded`] defines it.
#[verifier::loop_isolation(false)]
pub fn expand_components(
    profile: &FitProfile,
    args: &MessageDecodeArgs,
    comps: &Vec<Component>,
    record: &mut Record,
    accumulator: &mut Accumulator,
) -> (r: Result<(), ProjectionFault>)
    ensures
        state_of(final(record), final(accumulator), r) == components_expanded(
            *profile,
            args@,
            comps@,
            state_of(old(record), old(accumulator), Ok(())),
        ),
{
    if comps.len() == 0 {
        return Ok(());
    }
    let mut reader = match BitReader::try_new(args.value) {
        Some(reader) => reader,
        None => {
            return Err(ProjectionFault::NotUnsigned);
        },
    };
    let ghost words = reader.bytes@;
    let ghost per = reader.per_size as int;
    let ghost goal = components_expanded(
        *profile,
        args@,
        comps@,
        state_of(old(record), old(accumulator), Ok(())),
    );
    let mut i: usize = 0;
    while i < comps.len()
        invariant
            i <= comps.len(),
            reader.wf(),
            reader.bytes@ == words,
            reader.per_size == per,
            goal == expanded_from(
                *profile,
                args@,
                words,
                per,
                comps@,
                i as int,
                reader.consumed as int,
                state_of(record, accumulator, Ok(())),
            ),
        decreases comps.len() - i,
    {
        if component_repeats(comps, i) {
            i += 1;
            continue ;
        }
        let c = &comps[i];
        let n = count_occurrences(comps, c.field_name.as_str(), i);
        let t = match profile.base_type_of(c.field_type.as_str()) {
            Some(t) => t,
            None => {
                return Err(ProjectionFault::BadComponent);
            },
        };
        if c.bits > 64 || !t.is_integer() {
            return Err(ProjectionFault::BadComponent);
        }
        let value = if n > 1 {
            let items = read_group(&mut reader, n, c.bits, args, t, accumulator);
            proof {
                lemma_array_model(items);
            }
            Value::Array(items)
        } else {
            let raw = match reader.read_bits(c.bits as usize) {
                Some(raw) => raw,
                None => {
                    return Err(ProjectionFault::OutOfBits);
                },
            };
            let full = accumulator.accumulate(args.msg_no, args.field_no, raw, c.bits);
            match integer_value(t, full) {
                Some(v) => v,
                None => {
                    assert(false);
                    return Err(ProjectionFault::BadComponent);
                },
            }
        };
        match put_field(
            profile,
            args.exempt,
            &value,
            &c.field_name,
            &c.field_type,
            c.scale,
            c.offset,
            c.array,
            &c.units,
            false,
            record,
        ) {
            Ok(()) => {},
            Err(f) => {
                return Err(f);
            },
        }
        i += 1;
    }
    Ok(())
}

/// Decodes the sub-fields of a field that are in force, as
/// [`sub_fields_from`] defines it.
#[verifier::loop_isolation(false)]
pub fn expand_sub_fields(
    profile: &FitProfile,
    message: &Message,
    field: &MessageField,
    args: &MessageDecodeArgs,
    record: &mut Record,
    accumulator: &mut Accumulator,
) -> (r: Result<(), ProjectionFault>)
    ensures
        state_of(final(record), final(accumulator), r) == sub_fields_from(
            *profile,
            *message,
            *field,
            args@,
            0,
            state_of(old(record), old(accumulator), Ok(())),
        ),
{
    let ghost goal = sub_fields_from(
        *profile,
        *message,
        *field,
        args@,
        0,
        state_of(old(record), old(accumulator), Ok(())),
    );
    let mut i: usize = 0;
    while i < field.sub_fields.len()
        invariant
            i <= field.sub_fields.len(),
            goal == sub_fields_from(
                *profile,
                *message,
                *field,
                args@,
                i as int,
                state_of(record, accumulator, Ok(())),
            ),
        decreases field.sub_fields.len() - i,
    {
        let sub = &field.sub_fields[i];
        if sub_field_activates(profile, message, sub, args.fields) {
            let value = coerce(
                profile,
                field.field_type.as_str(),
                sub.field_type.as_str(),
                args.value,
            );
            match put_field(
                profile,
                args.exempt,
                &value,
                &sub.field_name,
                &sub.field_type,
                sub.scale,
                sub.offset,
                sub.array,
                &sub.units,
                true,
                record,
            ) {
                Ok(()) => {},
                Err(f) => {
                    return Err(f);
                },
            }
            match expand_components(profile, args, &sub.components, record, accumulator) {
                Ok(()) => {},
                Err(f) => {
                    return Err(f);
                },
            }
        }
        i += 1;
    }
    Ok(())
}

/// Decodes one field of a message into the record, as [`field_decoded`]
/// defines it.
pub fn decode_field(
    profile: &FitProfile,
    message: &Message,
    args: &MessageDecodeArgs,
    record: &mut Record,
    accumulator: &mut Accumulator,
) -> (r: Result<(), ProjectionFault>)
    ensures
        state_of(final(record), final(accumulator), r) == field_decoded(
            *profile,
            *message,
            args@,
            state_of(old(record), old(accumulator), Ok(())),
        ),
{
    let i = match message.find_field(args.field_no) {
        Some(i) => i,
        None => {
            return Err(ProjectionFault::UnknownField);
        },
    };
    let field = &message.fields[i];
    match put_field(
        profile,
        args.exempt,
        args.value,
        &field.field_name,
        &field.field_type,
        field.scale,
        field.offset,
        field.array,
        &field.units,
        false,
        record,
    ) {
        Ok(()) => {},
        Err(f) => {
            return Err(f);
        },
    }
    if field.accumulate {
        match args.value.unsigned() {
            Some(n) => accumulator.add(args.msg_no, args.field_no, n),
            None => {},
        }
    }
    match expand_sub_fields(profile, message, field, args, record, accumulator) {
        Ok(()) => {},
        Err(f) => {
            return Err(f);
        },
    }
    expand_components(profile, args, &field.components, record, accumulator)
}

/// Of the sub-fields of a field that refer to the same sibling field, only
/// those whose referenced value is the one that the sibling holds are in
/// force: two that are in force for one message refer to the same number.
pub proof fn lemma_sub_field_exclusive(
    p: FitProfile,
    m: Message,
    a: NestedMessageField,
    b: NestedMessageField,
    fields: Seq<DataFieldModel>,
)
    requires
        activates(p, m, a, fields),
        activates(p, m, b, fields),
        a.ref_field_name@ == b.ref_field_name@,
    ensures
        reference_of(p, m, a) == reference_of(p, m, b),
{
}

/// Where no sub-field of a field is in force, the sub-fields leave the
/// record and the counters as they are: the field is emitted alone.
pub proof fn lemma_no_sub_field_in_force(
    p: FitProfile,
    m: Message,
    f: MessageField,
    a: DecodeArgsModel,
    i: int,
    e: Expansion,
)
    requires
        0 <= i,
        forall|k: int| i <= k < f.sub_fields@.len() ==> !activates(p, m, #[trigger] f.sub_fields@[k], a.fields),
    ensures
        sub_fields_from(p, m, f, a, i, e) == e,
    decreases f.sub_fields@.len() - i,
{
    if i < f.sub_fields@.len() {
        lemma_no_sub_field_in_force(p, m, f, a, i + 1, e);
    }
}

/// A sub-field that is in force where no other is gives the record one
/// more field, of its own name and flagged as a sub-field, or the decoding
/// of the field stops with a fault.
pub proof fn lemma_one_sub_field_in_force(
    p: FitProfile,
    m: Message,
    f: MessageField,
    a: DecodeArgsModel,
    only: int,
    e: Expansion,
)
    requires
        0 <= only < f.sub_fields@.len(),
        e.fault is None,
        f.sub_fields@[only].components@.len() == 0,
        forall|k: int|
            0 <= k < f.sub_fields@.len() ==> (activates(p, m, #[trigger] f.sub_fields@[k], a.fields)
                <==> k == only),
    ensures
        ({
            let sub = f.sub_fields@[only];
            let value = projected(
                p,
                a.exempt,
                coerced(p, f.field_type@, sub.field_type@, a.value),
                sub.field_type@,
                sub.scale,
                sub.offset,
                sub.array,
            );
            sub_fields_from(p, m, f, a, 0, e) == (match value {
                Ok(v) => with_field(e, sub.field_name@, v, sub.units@, true),
                Err(fault) => Expansion { fault: Some(fault), ..e },
            })
        }),
{
    lemma_sub_fields_before(p, m, f, a, 0, only, e);
    let sub = f.sub_fields@[only];
    let value = projected(
        p,
        a.exempt,
        coerced(p, f.field_type@, sub.field_type@, a.value),
        sub.field_type@,
        sub.scale,
        sub.offset,
        sub.array,
    );
    if let Ok(v) = value {
        lemma_no_sub_field_in_force(
            p,
            m,
            f,
            a,
            only + 1,
            with_field(e, sub.field_name@, v, sub.units@, true),
        );
    }
}

/// Sub-fields that are not in force are passed over.
pub proof fn lemma_sub_fields_before(
    p: FitProfile,
    m: Message,
    f: MessageField,
    a: DecodeArgsModel,
    i: int,
    to: int,
    e: Expansion,
)
    requires
        0 <= i <= to <= f.sub_fields@.len(),
        forall|k: int| i <= k < to ==> !activates(p, m, #[trigger] f.sub_fields@[k], a.fields),
    ensures
        sub_fields_from(p, m, f, a, i, e) == sub_fields_from(p, m, f, a, to, e),
    decreases to - i,
{
    if i < to {
        lemma_sub_fields_before(p, m, f, a, i + 1, to, e);
    }
}

} // verus!
