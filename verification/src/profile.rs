//! The profile: the catalogue of types and messages that gives a decoded
//! field its name, its unit and its scale.
//!
//! A scale and an offset are held as the IEEE 754 binary64 bit pattern of the
//! number.
use vstd::prelude::*;
use crate::error::{ErrorKind, ErrorModel};
use crate::fit::BaseType;
use crate::search::{first_from, first_index, lemma_first_from};
use crate::text::str_eq;

verus! {

/// The bit pattern of the scale 1.0.
pub const SCALE_ONE: u64 = 0x3FF0_0000_0000_0000;

/// The bit pattern of the offset 0.0.
pub const OFFSET_ZERO: u64 = 0;

/// One named number of a type.
#[derive(Debug, Clone)]
pub struct TypeValue {
    pub name: String,
    pub value: u64,
}

/// A named type: a base type and the names of some of its numbers. A type
/// without names only wraps its base type.
#[derive(Debug, Clone)]
pub struct Type {
    pub name: String,
    pub base_type: BaseType,
    pub values: Vec<TypeValue>,
}

/// One target of a field that packs several values into its bits.
#[derive(Debug, Clone)]
pub struct Component {
    pub bits: u8,
    pub field_name: String,
    pub field_type: String,
    pub array: Option<usize>,
    pub scale: u64,
    pub offset: u64,
    pub units: String,
    pub accumulate: bool,
}

/// Another reading of a field, in force where a sibling field holds a given
/// value.
#[derive(Debug, Clone)]
pub struct NestedMessageField {
    pub field_name: String,
    pub field_type: String,
    pub array: Option<usize>,
    pub components: Vec<Component>,
    pub scale: u64,
    pub offset: u64,
    pub units: String,
    pub ref_field_name: String,
    pub ref_field_value: String,
}

/// A field of a message.
#[derive(Debug, Clone)]
pub struct MessageField {
    pub field_no: u8,
    pub field_name: String,
    pub field_type: String,
    pub array: Option<usize>,
    pub components: Vec<Component>,
    pub scale: u64,
    pub offset: u64,
    pub units: String,
    pub accumulate: bool,
    pub sub_fields: Vec<NestedMessageField>,
}

/// A message and its fields.
#[derive(Debug, Clone)]
pub struct Message {
    pub name: String,
    pub fields: Vec<MessageField>,
}

/// The catalogue.
#[derive(Debug, Clone)]
pub struct FitProfile {
    pub messages: Vec<Message>,
    pub types: Vec<Type>,
}

/// The test whether a message has a name.
pub open spec fn message_named(name: Seq<char>) -> spec_fn(Message) -> bool {
    |m: Message| m.name@ == name
}

/// The test whether a field has a name.
pub open spec fn field_named(name: Seq<char>) -> spec_fn(MessageField) -> bool {
    |f: MessageField| f.field_name@ == name
}

/// The test whether a named number has a name.
pub open spec fn value_named(name: Seq<char>) -> spec_fn(TypeValue) -> bool {
    |v: TypeValue| v.name@ == name
}

/// The test whether a type has a name.
pub open spec fn type_named(name: Seq<char>) -> spec_fn(Type) -> bool {
    |t: Type| t.name@ == name
}

/// Whether an index found by a search is the one that the model gives.
pub open spec fn same_index(found: Option<usize>, model: Option<int>) -> bool {
    match found {
        Some(i) => model == Some(i as int),
        None => model is None,
    }
}

impl Type {
    /// The index of the first entry with the number `value`.
    pub open spec fn spec_find_value(&self, value: u64) -> Option<int> {
        first_index(self.values@, |v: TypeValue| v.value == value)
    }

    /// The index of the first entry with the name `name`.
    pub open spec fn spec_find_name(&self, name: Seq<char>) -> Option<int> {
        first_index(self.values@, value_named(name))
    }

    /// The index of the first entry with the number `value`.
    pub fn find_value(&self, value: u64) -> (r: Option<usize>)
        ensures
            same_index(r, self.spec_find_value(value)),
            r matches Some(i) ==> i < self.values@.len() && self.values@[i as int].value == value,
    {
        let ghost pred = |v: TypeValue| v.value == value;
        let mut i: usize = 0;
        while i < self.values.len()
            invariant
                i <= self.values.len(),
                pred == (|v: TypeValue| v.value == value),
                first_from(self.values@, pred, 0) == first_from(self.values@, pred, i as int),
            decreases self.values.len() - i,
        {
            if self.values[i].value == value {
                return Some(i);
            }
            i += 1;
        }
        None
    }

    /// The index of the first entry with the name `name`.
    pub fn find_name(&self, name: &str) -> (r: Option<usize>)
        ensures
            same_index(r, self.spec_find_name(name@)),
            r matches Some(i) ==> i < self.values@.len() && self.values@[i as int].name@ == name@,
    {
        let ghost pred = value_named(name@);
        let mut i: usize = 0;
        while i < self.values.len()
            invariant
                i <= self.values.len(),
                pred == value_named(name@),
                first_from(self.values@, pred, 0) == first_from(self.values@, pred, i as int),
            decreases self.values.len() - i,
        {
            if str_eq(self.values[i].name.as_str(), name) {
                return Some(i);
            }
            i += 1;
        }
        None
    }
}

/// The entry that a search for a number finds holds the number.
pub proof fn lemma_find_value(ty: Type, value: u64)
    ensures
        ty.spec_find_value(value) matches Some(k) ==> 0 <= k < ty.values@.len()
            && ty.values@[k].value == value,
{
    lemma_first_from(ty.values@, |v: TypeValue| v.value == value, 0);
}

/// The field that a search for a number finds is a field of the message.
pub proof fn lemma_find_field(m: Message, field_no: u8)
    ensures
        m.spec_find_field(field_no) matches Some(i) ==> 0 <= i < m.fields@.len()
            && m.fields@[i].field_no == field_no,
{
    lemma_first_from(m.fields@, |f: MessageField| f.field_no == field_no, 0);
}

/// The message that a global message number resolves to is a message of
/// the profile.
pub proof fn lemma_resolve(p: FitProfile, number: u16)
    ensures
        p.spec_resolve(number) matches Ok(m) ==> 0 <= m < p.messages@.len(),
{
    if let Some(name) = p.spec_name_of("mesg_num"@, number as u64) {
        lemma_first_from(p.messages@, message_named(name), 0);
    }
}

/// The type that a search for a name finds has the name.
pub proof fn lemma_find_type(p: FitProfile, name: Seq<char>)
    ensures
        p.spec_find_type(name) matches Some(t) ==> 0 <= t < p.types@.len() && p.types@[t].name@
            == name,
{
    lemma_first_from(p.types@, type_named(name), 0);
}

impl Message {
    /// The index of the first field with the definition number `field_no`.
    pub open spec fn spec_find_field(&self, field_no: u8) -> Option<int> {
        first_index(self.fields@, |f: MessageField| f.field_no == field_no)
    }

    /// The index of the first field with the name `name`.
    pub open spec fn spec_find_field_named(&self, name: Seq<char>) -> Option<int> {
        first_index(self.fields@, field_named(name))
    }

    /// The index of the first field with the definition number `field_no`.
    pub fn find_field(&self, field_no: u8) -> (r: Option<usize>)
        ensures
            same_index(r, self.spec_find_field(field_no)),
            r matches Some(i) ==> i < self.fields@.len() && self.fields@[i as int].field_no
                == field_no,
    {
        let ghost pred = |f: MessageField| f.field_no == field_no;
        let mut i: usize = 0;
        while i < self.fields.len()
            invariant
                i <= self.fields.len(),
                pred == (|f: MessageField| f.field_no == field_no),
                first_from(self.fields@, pred, 0) == first_from(self.fields@, pred, i as int),
            decreases self.fields.len() - i,
        {
            if self.fields[i].field_no == field_no {
                return Some(i);
            }
            i += 1;
        }
        None
    }

    /// The index of the first field with the name `name`.
    pub fn find_field_named(&self, name: &str) -> (r: Option<usize>)
        ensures
            same_index(r, self.spec_find_field_named(name@)),
            r matches Some(i) ==> i < self.fields@.len() && self.fields@[i as int].field_name@
                == name@,
    {
        let ghost pred = field_named(name@);
        let mut i: usize = 0;
        while i < self.fields.len()
            invariant
                i <= self.fields.len(),
                pred == field_named(name@),
                first_from(self.fields@, pred, 0) == first_from(self.fields@, pred, i as int),
            decreases self.fields.len() - i,
        {
            if str_eq(self.fields[i].field_name.as_str(), name) {
                return Some(i);
            }
            i += 1;
        }
        None
    }
}

impl FitProfile {
    /// The index of the first type with the name `name`.
    pub open spec fn spec_find_type(&self, name: Seq<char>) -> Option<int> {
        first_index(self.types@, type_named(name))
    }

    /// The index of the first message with the name `name`.
    pub open spec fn spec_find_message(&self, name: Seq<char>) -> Option<int> {
        first_index(self.messages@, message_named(name))
    }

    /// Whether a type name stands for a base type: one of their names, or
    /// `bool`.
    pub open spec fn spec_is_base_type(name: Seq<char>) -> bool {
        name == "bool"@ || BaseType::spec_from_name(name) is Some
    }

    /// The base type behind a type name: the type itself where the name is
    /// that of a base type, else the base type of the type of that name.
    pub open spec fn spec_base_type_of(&self, name: Seq<char>) -> Option<BaseType> {
        match BaseType::spec_from_name(name) {
            Some(t) => Some(t),
            None => match self.spec_find_type(name) {
                Some(i) => Some(self.types@[i].base_type),
                None => None,
            },
        }
    }

    /// The name that a type gives a number: that of its first entry with the
    /// number. `None` where the profile has no such type or the type no such
    /// entry.
    pub open spec fn spec_name_of(&self, ty: Seq<char>, value: u64) -> Option<Seq<char>> {
        match self.spec_find_type(ty) {
            Some(t) => match self.types@[t].spec_find_value(value) {
                Some(v) => Some(self.types@[t].values@[v].name@),
                None => None,
            },
            None => None,
        }
    }

    /// The message of a global message number: the type `mesg_num` gives the
    /// number its name, and the message is the first of that name. A number
    /// without a name and a name without a message are the two errors.
    pub open spec fn spec_resolve(&self, number: u16) -> Result<int, ErrorModel> {
        match self.spec_name_of("mesg_num"@, number as u64) {
            Some(name) => match self.spec_find_message(name) {
                Some(m) => Ok(m),
                None => Err(ErrorModel::UnknownMessage(name)),
            },
            None => Err(ErrorModel::GlobalDefinitionMessageNotFound(number)),
        }
    }

    /// Whether the profile declares a field of a message as an array.
    pub open spec fn spec_declares_array(&self, number: u16, field_no: u8) -> bool {
        match self.spec_resolve(number) {
            Ok(m) => match self.messages@[m].spec_find_field(field_no) {
                Some(f) => self.messages@[m].fields@[f].array is Some,
                None => false,
            },
            Err(_) => false,
        }
    }

    /// The index of the first type with the name `name`.
    pub fn find_type(&self, name: &str) -> (r: Option<usize>)
        ensures
            same_index(r, self.spec_find_type(name@)),
            r matches Some(i) ==> i < self.types@.len() && self.types@[i as int].name@
                == name@,
    {
        let ghost pred = type_named(name@);
        let mut i: usize = 0;
        while i < self.types.len()
            invariant
                i <= self.types.len(),
                pred == type_named(name@),
                first_from(self.types@, pred, 0) == first_from(self.types@, pred, i as int),
            decreases self.types.len() - i,
        {
            if str_eq(self.types[i].name.as_str(), name) {
                return Some(i);
            }
            i += 1;
        }
        None
    }

    /// The index of the first message with the name `name`.
    pub fn find_message(&self, name: &str) -> (r: Option<usize>)
        ensures
            same_index(r, self.spec_find_message(name@)),
            r matches Some(i) ==> i < self.messages@.len() && self.messages@[i as int].name@
                == name@,
    {
        let ghost pred = message_named(name@);
        let mut i: usize = 0;
        while i < self.messages.len()
            invariant
                i <= self.messages.len(),
                pred == message_named(name@),
                first_from(self.messages@, pred, 0) == first_from(self.messages@, pred, i as int),
            decreases self.messages.len() - i,
        {
            if str_eq(self.messages[i].name.as_str(), name) {
                return Some(i);
            }
            i += 1;
        }
        None
    }

    /// Whether a type name stands for a base type.
    pub fn is_base_type(name: &str) -> (r: bool)
        ensures
            r == FitProfile::spec_is_base_type(name@),
    {
        str_eq(name, "bool") || BaseType::from_name(name).is_some()
    }

    /// The base type behind a type name.
    pub fn base_type_of(&self, name: &str) -> (r: Option<BaseType>)
        ensures
            r == self.spec_base_type_of(name@),
    {
        match BaseType::from_name(name) {
            Some(t) => Some(t),
            None => match self.find_type(name) {
                Some(i) => Some(self.types[i].base_type),
                None => None,
            },
        }
    }

    /// The name that a type gives a number, if it gives one.
    pub fn name_of(&self, ty: &str, value: u64) -> (r: Option<&String>)
        ensures
            match r {
                Some(s) => self.spec_name_of(ty@, value) == Some(s@),
                None => self.spec_name_of(ty@, value) is None,
            },
    {
        match self.find_type(ty) {
            Some(t) => match self.types[t].find_value(value) {
                Some(v) => Some(&self.types[t].values[v].name),
                None => None,
            },
            None => None,
        }
    }

    /// The index of the message of a global message number.
    pub fn resolve(&self, number: u16) -> (r: Result<usize, ErrorKind>)
        ensures
            match r {
                Ok(m) => self.spec_resolve(number) == Ok::<int, ErrorModel>(m as int) && m
                    < self.messages@.len(),
                Err(e) => self.spec_resolve(number) == Err::<int, ErrorModel>(e@),
            },
    {
        match self.name_of("mesg_num", number as u64) {
            Some(name) => match self.find_message(name.as_str()) {
                Some(m) => Ok(m),
                None => Err(ErrorKind::UnknownMessage(name.clone())),
            },
            None => Err(ErrorKind::GlobalDefinitionMessageNotFound(number)),
        }
    }

    /// Whether the profile declares a field of a message as an array.
    pub fn declares_array(&self, number: u16, field_no: u8) -> (r: bool)
        ensures
            r == self.spec_declares_array(number, field_no),
    {
        match self.resolve(number) {
            Ok(m) => match self.messages[m].find_field(field_no) {
                Some(f) => self.messages[m].fields[f].array.is_some(),
                None => false,
            },
            Err(_) => false,
        }
    }
}

/// The mathematical model of a [`TypeValue`].
pub struct TypeValueModel {
    pub name: Seq<char>,
    pub value: u64,
}

impl View for TypeValue {
    type V = TypeValueModel;

    open spec fn view(&self) -> TypeValueModel {
        TypeValueModel { name: self.name@, value: self.value }
    }
}

/// The mathematical model of a [`Type`].
pub struct TypeModel {
    pub name: Seq<char>,
    pub base_type: BaseType,
    pub values: Seq<TypeValueModel>,
}

impl View for Type {
    type V = TypeModel;

    open spec fn view(&self) -> TypeModel {
        TypeModel {
            name: self.name@,
            base_type: self.base_type,
            values: Seq::new(self.values@.len(), |i: int| self.values@[i]@),
        }
    }
}

/// The mathematical model of a [`Component`].
pub struct ComponentModel {
    pub bits: u8,
    pub field_name: Seq<char>,
    pub field_type: Seq<char>,
    pub array: Option<usize>,
    pub scale: u64,
    pub offset: u64,
    pub units: Seq<char>,
    pub accumulate: bool,
}

impl View for Component {
    type V = ComponentModel;

    open spec fn view(&self) -> ComponentModel {
        ComponentModel {
            bits: self.bits,
            field_name: self.field_name@,
            field_type: self.field_type@,
            array: self.array,
            scale: self.scale,
            offset: self.offset,
            units: self.units@,
            accumulate: self.accumulate,
        }
    }
}

/// The models of a sequence of components, in order.
pub open spec fn component_models(s: Seq<Component>) -> Seq<ComponentModel> {
    Seq::new(s.len(), |i: int| s[i]@)
}

/// The mathematical model of a [`NestedMessageField`].
pub struct SubFieldModel {
    pub field_name: Seq<char>,
    pub field_type: Seq<char>,
    pub array: Option<usize>,
    pub components: Seq<ComponentModel>,
    pub scale: u64,
    pub offset: u64,
    pub units: Seq<char>,
    pub ref_field_name: Seq<char>,
    pub ref_field_value: Seq<char>,
}

impl View for NestedMessageField {
    type V = SubFieldModel;

    open spec fn view(&self) -> SubFieldModel {
        SubFieldModel {
            field_name: self.field_name@,
            field_type: self.field_type@,
            array: self.array,
            components: component_models(self.components@),
            scale: self.scale,
            offset: self.offset,
            units: self.units@,
            ref_field_name: self.ref_field_name@,
            ref_field_value: self.ref_field_value@,
        }
    }
}

/// The models of a sequence of sub-fields, in order.
pub open spec fn sub_field_models(s: Seq<NestedMessageField>) -> Seq<SubFieldModel> {
    Seq::new(s.len(), |i: int| s[i]@)
}

/// The mathematical model of a [`MessageField`].
pub struct MessageFieldModel {
    pub field_no: u8,
    pub field_name: Seq<char>,
    pub field_type: Seq<char>,
    pub array: Option<usize>,
    pub components: Seq<ComponentModel>,
    pub scale: u64,
    pub offset: u64,
    pub units: Seq<char>,
    pub accumulate: bool,
    pub sub_fields: Seq<SubFieldModel>,
}

impl View for MessageField {
    type V = MessageFieldModel;

    open spec fn view(&self) -> MessageFieldModel {
        MessageFieldModel {
            field_no: self.field_no,
            field_name: self.field_name@,
            field_type: self.field_type@,
            array: self.array,
            components: component_models(self.components@),
            scale: self.scale,
            offset: self.offset,
            units: self.units@,
            accumulate: self.accumulate,
            sub_fields: sub_field_models(self.sub_fields@),
        }
    }
}

/// The models of a sequence of fields, in order.
pub open spec fn message_field_models(s: Seq<MessageField>) -> Seq<MessageFieldModel> {
    Seq::new(s.len(), |i: int| s[i]@)
}

/// The mathematical model of a [`Message`].
pub struct MessageModel {
    pub name: Seq<char>,
    pub fields: Seq<MessageFieldModel>,
}

impl View for Message {
    type V = MessageModel;

    open spec fn view(&self) -> MessageModel {
        MessageModel { name: self.name@, fields: message_field_models(self.fields@) }
    }
}

/// The models of a sequence of types, in order.
pub open spec fn type_models(s: Seq<Type>) -> Seq<TypeModel> {
    Seq::new(s.len(), |i: int| s[i]@)
}

/// The models of a sequence of messages, in order.
pub open spec fn message_models(s: Seq<Message>) -> Seq<MessageModel> {
    Seq::new(s.len(), |i: int| s[i]@)
}

/// The mathematical model of a [`FitProfile`].
pub struct ProfileModel {
    pub messages: Seq<MessageModel>,
    pub types: Seq<TypeModel>,
}

impl View for FitProfile {
    type V = ProfileModel;

    open spec fn view(&self) -> ProfileModel {
        ProfileModel {
            messages: message_models(self.messages@),
            types: type_models(self.types@),
        }
    }
}

} // verus!
