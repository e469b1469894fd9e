//! The output of the decoder: fields, records of fields, and the records of
//! each message name.
use vstd::prelude::*;
use crate::fit::{Value, ValueModel};
use crate::search::{
    first_from, first_index, lemma_first_from, lemma_first_push, lemma_first_update,
};
use crate::text::str_eq;

verus! {

/// A scale and an offset that are still to be applied to a value: the
/// physical value is the raw one divided by the scale, less the offset. Both
/// are IEEE 754 binary64 bit patterns.
#[derive(Debug, Clone, Copy, PartialEq, Eq, Structural)]
pub struct Scaling {
    pub scale: u64,
    pub offset: u64,
}

/// A decoded field: its name in the profile, its value, its unit, and
/// whether a sub-field gave it its name. Where `scaling` is set, `value` is
/// the raw number, or the array of raw numbers, that it applies to.
#[derive(Debug, PartialEq)]
pub struct Field {
    pub name: String,
    pub value: Value,
    pub units: String,
    pub is_subfield: bool,
    pub scaling: Option<Scaling>,
}

/// The mathematical model of a [`Field`].
pub struct FieldModel {
    pub name: Seq<char>,
    pub value: ValueModel,
    pub units: Seq<char>,
    pub is_subfield: bool,
    pub scaling: Option<Scaling>,
}

impl View for Field {
    type V = FieldModel;

    open spec fn view(&self) -> FieldModel {
        FieldModel {
            name: self.name@,
            value: self.value@,
            units: self.units@,
            is_subfield: self.is_subfield,
            scaling: self.scaling,
        }
    }
}

impl Clone for Field {
    fn clone(&self) -> (r: Field)
        ensures
            r@ == self@,
    {
        Field {
            name: self.name.clone(),
            value: self.value.clone(),
            units: self.units.clone(),
            is_subfield: self.is_subfield,
            scaling: self.scaling,
        }
    }
}

/// The models of a sequence of fields, in order.
pub open spec fn field_models(fields: Seq<Field>) -> Seq<FieldModel> {
    Seq::new(fields.len(), |i: int| fields[i]@)
}

/// The test whether a field has a name.
pub open spec fn is_named(name: Seq<char>) -> spec_fn(FieldModel) -> bool {
    |f: FieldModel| f.name == name
}

/// The index of the field with the name `name` in a record.
pub open spec fn record_find(record: Seq<FieldModel>, name: Seq<char>) -> Option<int> {
    first_index(record, is_named(name))
}

/// The value of the field with the name `name` in a record.
pub open spec fn record_value(record: Seq<FieldModel>, name: Seq<char>) -> Option<ValueModel> {
    match record_find(record, name) {
        Some(i) => Some(record[i].value),
        None => None,
    }
}

/// The record with one more field: it takes the place of the field of the
/// same name, and comes last where there is none.
pub open spec fn record_insert(record: Seq<FieldModel>, field: FieldModel) -> Seq<FieldModel> {
    match record_find(record, field.name) {
        Some(i) => record.update(i, field),
        None => record.push(field),
    }
}

/// The fields of one decoded message, each name once, in the order in which
/// the names came up.
#[derive(Debug, PartialEq)]
pub struct Record {
    pub fields: Vec<Field>,
}

impl View for Record {
    type V = Seq<FieldModel>;

    open spec fn view(&self) -> Seq<FieldModel> {
        field_models(self.fields@)
    }
}

impl Clone for Record {
    fn clone(&self) -> (r: Record)
        ensures
            r@ == self@,
    {
        let mut fields: Vec<Field> = Vec::new();
        let mut i: usize = 0;
        while i < self.fields.len()
            invariant
                i <= self.fields.len(),
                fields.len() == i,
                forall|j: int| 0 <= j < i ==> fields[j]@ == self.fields[j]@,
            decreases self.fields.len() - i,
        {
            fields.push(self.fields[i].clone());
            i += 1;
        }
        assert(field_models(fields@) =~= field_models(self.fields@));
        Record { fields }
    }
}

impl Record {
    /// A record without fields.
    pub fn new() -> (r: Record)
        ensures
            r@ == Seq::<FieldModel>::empty(),
    {
        let r = Record { fields: Vec::new() };
        assert(r@ =~= Seq::<FieldModel>::empty());
        r
    }

    /// The number of fields.
    pub fn len(&self) -> (r: usize)
        ensures
            r == self@.len(),
    {
        self.fields.len()
    }

    /// The index of the field with the name `name`.
    pub fn find(&self, name: &str) -> (r: Option<usize>)
        ensures
            match r {
                Some(i) => record_find(self@, name@) == Some(i as int) && i < self.fields@.len(),
                None => record_find(self@, name@) is None,
            },
    {
        let ghost pred = is_named(name@);
        let mut i: usize = 0;
        while i < self.fields.len()
            invariant
                i <= self.fields.len(),
                pred == is_named(name@),
                first_from(self@, pred, 0) == first_from(self@, pred, i as int),
            decreases self.fields.len() - i,
        {
            assert(self@[i as int] == self.fields[i as int]@);
            if str_eq(self.fields[i].name.as_str(), name) {
                return Some(i);
            }
            i += 1;
        }
        None
    }

    /// The field with the name `name`.
    pub fn get(&self, name: &str) -> (r: Option<&Field>)
        ensures
            match r {
                Some(f) => record_find(self@, name@) matches Some(i) && self@[i] == f@,
                None => record_find(self@, name@) is None,
            },
    {
        match self.find(name) {
            Some(i) => Some(&self.fields[i]),
            None => None,
        }
    }

    /// The value of the field with the name `name`.
    pub fn value(&self, name: &str) -> (r: Option<&Value>)
        ensures
            match r {
                Some(v) => record_value(self@, name@) == Some(v@),
                None => record_value(self@, name@) is None,
            },
    {
        match self.find(name) {
            Some(i) => Some(&self.fields[i].value),
            None => None,
        }
    }

    /// Whether the record has a field with the name `name`.
    pub fn contains_key(&self, name: &str) -> (r: bool)
        ensures
            r == record_find(self@, name@) is Some,
    {
        self.find(name).is_some()
    }

    /// Puts a field into the record: in the place of the field of the same
    /// name, or last where there is none.
    pub fn insert(&mut self, field: Field)
        ensures
            final(self)@ == record_insert(old(self)@, field@),
    {
        match self.find(field.name.as_str()) {
            Some(i) => {
                self.fields.set(i, field);
                assert(self@ =~= old(self)@.update(i as int, field@));
            },
            None => {
                self.fields.push(field);
                assert(self@ =~= old(self)@.push(field@));
            },
        }
    }
}

/// The records of one message name, in the order of the input.
#[derive(Debug, PartialEq)]
pub struct MessageRecords {
    pub name: String,
    pub records: Vec<Record>,
}

/// The models of a sequence of records, in order.
pub open spec fn record_models(records: Seq<Record>) -> Seq<Seq<FieldModel>> {
    Seq::new(records.len(), |i: int| records[i]@)
}

/// The mathematical model of the records of one message name.
pub struct MessageRecordsModel {
    pub name: Seq<char>,
    pub records: Seq<Seq<FieldModel>>,
}

impl View for MessageRecords {
    type V = MessageRecordsModel;

    open spec fn view(&self) -> MessageRecordsModel {
        MessageRecordsModel { name: self.name@, records: record_models(self.records@) }
    }
}

/// The test whether the records are those of a message name.
pub open spec fn is_of(name: Seq<char>) -> spec_fn(MessageRecordsModel) -> bool {
    |m: MessageRecordsModel| m.name == name
}

/// The index of the entry of a message name.
pub open spec fn messages_find(messages: Seq<MessageRecordsModel>, name: Seq<char>) -> Option<
    int,
> {
    first_index(messages, is_of(name))
}

/// The records of a message name; none where no message of the name was
/// decoded.
pub open spec fn messages_records(messages: Seq<MessageRecordsModel>, name: Seq<char>) -> Seq<
    Seq<FieldModel>,
> {
    match messages_find(messages, name) {
        Some(i) => messages[i].records,
        None => Seq::empty(),
    }
}

/// The output with one more record: it comes last among the records of its
/// message name, and a name that is new comes last among the names.
pub open spec fn messages_push(
    messages: Seq<MessageRecordsModel>,
    name: Seq<char>,
    record: Seq<FieldModel>,
) -> Seq<MessageRecordsModel> {
    match messages_find(messages, name) {
        Some(i) => messages.update(
            i,
            MessageRecordsModel { name: messages[i].name, records: messages[i].records.push(record) },
        ),
        None => messages.push(MessageRecordsModel { name, records: seq![record] }),
    }
}

/// The decoded records, by message name, each name once, in the order in
/// which the names came up in the input.
#[derive(Debug, PartialEq)]
pub struct Messages {
    pub entries: Vec<MessageRecords>,
}

impl View for Messages {
    type V = Seq<MessageRecordsModel>;

    open spec fn view(&self) -> Seq<MessageRecordsModel> {
        Seq::new(self.entries@.len(), |i: int| self.entries@[i]@)
    }
}

impl Messages {
    /// No records.
    pub fn new() -> (r: Messages)
        ensures
            r@ == Seq::<MessageRecordsModel>::empty(),
    {
        let r = Messages { entries: Vec::new() };
        assert(r@ =~= Seq::<MessageRecordsModel>::empty());
        r
    }

    /// The number of message names.
    pub fn len(&self) -> (r: usize)
        ensures
            r == self@.len(),
    {
        self.entries.len()
    }

    /// The index of the entry of a message name.
    pub fn find(&self, name: &str) -> (r: Option<usize>)
        ensures
            match r {
                Some(i) => messages_find(self@, name@) == Some(i as int) && i
                    < self.entries@.len(),
                None => messages_find(self@, name@) is None,
            },
    {
        let ghost pred = is_of(name@);
        let mut i: usize = 0;
        while i < self.entries.len()
            invariant
                i <= self.entries.len(),
                pred == is_of(name@),
                first_from(self@, pred, 0) == first_from(self@, pred, i as int),
            decreases self.entries.len() - i,
        {
            assert(self@[i as int] == self.entries[i as int]@);
            if str_eq(self.entries[i].name.as_str(), name) {
                return Some(i);
            }
            i += 1;
        }
        None
    }

    /// The records of a message name, if any was decoded.
    pub fn get(&self, name: &str) -> (r: Option<&Vec<Record>>)
        ensures
            match r {
                Some(records) => messages_find(self@, name@) is Some && record_models(records@)
                    == messages_records(self@, name@),
                None => messages_find(self@, name@) is None,
            },
    {
        match self.find(name) {
            Some(i) => Some(&self.entries[i].records),
            None => None,
        }
    }

    /// Adds a record under its message name.
    pub fn push(&mut self, name: String, record: Record)
        ensures
            final(self)@ == messages_push(old(self)@, name@, record@),
    {
        match self.find(name.as_str()) {
            Some(i) => {
                let ghost before = self.entries[i as int]@;
                self.entries[i].records.push(record);
                assert(self.entries[i as int]@.records =~= before.records.push(record@));
                assert(self@ =~= old(self)@.update(
                    i as int,
                    MessageRecordsModel { name: before.name, records: before.records.push(record@) },
                ));
            },
            None => {
                let mut records: Vec<Record> = Vec::new();
                records.push(record);
                let entry = MessageRecords { name, records };
                assert(entry@.records =~= seq![record@]);
                self.entries.push(entry);
                assert(self@ =~= old(self)@.push(entry@));
            },
        }
    }
}

/// A field put into a record leaves the fields of other names where and
/// what they were.
pub proof fn lemma_insert_other(record: Seq<FieldModel>, field: FieldModel, name: Seq<char>)
    requires
        field.name != name,
    ensures
        record_find(record_insert(record, field), name) == record_find(record, name),
        record_value(record_insert(record, field), name) == record_value(record, name),
{
    lemma_first_from(record, is_named(field.name), 0);
    lemma_first_from(record, is_named(name), 0);
    match record_find(record, field.name) {
        Some(i) => {
            lemma_first_update(record, is_named(name), i, field);
        },
        None => {
            lemma_first_push(record, is_named(name), field, 0);
        },
    }
}

/// The number of records of a message name.
pub open spec fn records_count(messages: Seq<MessageRecordsModel>, name: Seq<char>) -> nat {
    messages_records(messages, name).len()
}

/// One more record makes the records of its message name one more, and
/// leaves the number of the others.
pub proof fn lemma_push_count(
    messages: Seq<MessageRecordsModel>,
    name: Seq<char>,
    record: Seq<FieldModel>,
    other: Seq<char>,
)
    ensures
        records_count(messages_push(messages, name, record), other) == records_count(
            messages,
            other,
        ) + (if other == name {
            1nat
        } else {
            0nat
        }),
{
    lemma_first_from(messages, is_of(name), 0);
    lemma_first_from(messages, is_of(other), 0);
    match messages_find(messages, name) {
        Some(i) => {
            let entry = MessageRecordsModel {
                name: messages[i].name,
                records: messages[i].records.push(record),
            };
            lemma_first_update(messages, is_of(other), i, entry);
        },
        None => {
            lemma_first_push(
                messages,
                is_of(other),
                MessageRecordsModel { name, records: seq![record] },
                0,
            );
        },
    }
}

} // verus!
