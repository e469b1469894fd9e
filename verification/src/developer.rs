//! Developer data: the definitions that two messages of a file register,
//! and the values of the developer fields that they describe.
use vstd::prelude::*;
use std::collections::HashMap;
use crate::fit::{Value, ValueModel};
use crate::message::{
    data_field_models, DataField, DataFieldModel, fields_insert, insert_data_field,
};
use crate::record::{FieldModel, Record};
use crate::search::{first_from, first_index};
use crate::text::str_eq;

verus! {

broadcast use vstd::std_specs::hash::group_hash_axioms;

/// The description of one developer field: its number and the fields of the
/// message that described it.
#[derive(Debug, PartialEq)]
pub struct DeveloperFieldDescription {
    pub field_definition_number: u8,
    pub attributes: Record,
}

/// The mathematical model of a [`DeveloperFieldDescription`].
pub struct DescriptionModel {
    pub field_definition_number: u8,
    pub attributes: Seq<FieldModel>,
}

impl View for DeveloperFieldDescription {
    type V = DescriptionModel;

    open spec fn view(&self) -> DescriptionModel {
        DescriptionModel {
            field_definition_number: self.field_definition_number,
            attributes: self.attributes@,
        }
    }
}

/// The models of the descriptions of a definition: under each field number
/// the model of its description.
pub open spec fn description_models(s: Map<u8, DeveloperFieldDescription>) -> Map<
    u8,
    DescriptionModel,
> {
    Map::new(|number: u8| s.contains_key(number), |number: u8| s[number]@)
}

/// The key of the description of a field number, if it has one.
pub open spec fn descriptions_find(s: Map<u8, DescriptionModel>, number: u8) -> Option<u8> {
    if s.contains_key(number) {
        Some(number)
    } else {
        None
    }
}

/// The descriptions with one more, which takes the place of the
/// description of the same field number.
pub open spec fn descriptions_insert(s: Map<u8, DescriptionModel>, d: DescriptionModel) -> Map<
    u8,
    DescriptionModel,
> {
    s.insert(d.field_definition_number, d)
}

/// What a file registered for one developer data index.
#[derive(Debug, PartialEq)]
pub struct FitDeveloperDataDefinition {
    pub developer_id: Option<Value>,
    pub application_id: Option<Value>,
    pub manufacturer_id: Option<Value>,
    pub developer_data_index: u8,
    pub application_version: Option<u32>,
    pub field_map: HashMap<u8, DeveloperFieldDescription>,
}

/// The mathematical model of a [`FitDeveloperDataDefinition`].
pub struct DeveloperDataModel {
    pub developer_id: Option<ValueModel>,
    pub application_id: Option<ValueModel>,
    pub manufacturer_id: Option<ValueModel>,
    pub developer_data_index: u8,
    pub application_version: Option<u32>,
    pub field_map: Map<u8, DescriptionModel>,
}

/// The model of a value that may be absent.
pub open spec fn optional_model(v: Option<Value>) -> Option<ValueModel> {
    match v {
        Some(v) => Some(v@),
        None => None,
    }
}

impl View for FitDeveloperDataDefinition {
    type V = DeveloperDataModel;

    open spec fn view(&self) -> DeveloperDataModel {
        DeveloperDataModel {
            developer_id: optional_model(self.developer_id),
            application_id: optional_model(self.application_id),
            manufacturer_id: optional_model(self.manufacturer_id),
            developer_data_index: self.developer_data_index,
            application_version: self.application_version,
            field_map: description_models(self.field_map@),
        }
    }
}

/// The models of the definitions of developer data: under each developer
/// data index the model of its definition.
pub open spec fn definition_models(s: Map<u8, FitDeveloperDataDefinition>) -> Map<
    u8,
    DeveloperDataModel,
> {
    Map::new(|index: u8| s.contains_key(index), |index: u8| s[index]@)
}

/// The key of the definition of a developer data index, if it has one.
pub open spec fn definitions_find(s: Map<u8, DeveloperDataModel>, index: u8) -> Option<u8> {
    if s.contains_key(index) {
        Some(index)
    } else {
        None
    }
}

/// The definitions with one more, which takes the place of the definition
/// of the same developer data index.
pub open spec fn definitions_insert(s: Map<u8, DeveloperDataModel>, d: DeveloperDataModel) -> Map<
    u8,
    DeveloperDataModel,
> {
    s.insert(d.developer_data_index, d)
}

/// The definitions with one more description for a developer data index;
/// unchanged where the index has no definition.
pub open spec fn definitions_describe(
    s: Map<u8, DeveloperDataModel>,
    index: u8,
    d: DescriptionModel,
) -> Map<u8, DeveloperDataModel> {
    match definitions_find(s, index) {
        Some(i) => s.insert(
            i,
            DeveloperDataModel { field_map: descriptions_insert(s[i].field_map, d), ..s[i] },
        ),
        None => s,
    }
}

/// The definition of a developer data index.
pub fn find_definition(defs: &HashMap<u8, FitDeveloperDataDefinition>, index: u8) -> (r: Option<
    &FitDeveloperDataDefinition,
>)
    ensures
        match r {
            Some(d) => definitions_find(definition_models(defs@), index) == Some(index) && d@
                == definition_models(defs@)[index],
            None => definitions_find(definition_models(defs@), index) is None,
        },
{
    defs.get(&index)
}

/// The description of a field number.
pub fn find_description(map: &HashMap<u8, DeveloperFieldDescription>, number: u8) -> (r: Option<
    &DeveloperFieldDescription,
>)
    ensures
        match r {
            Some(d) => descriptions_find(description_models(map@), number) == Some(number) && d@
                == description_models(map@)[number],
            None => descriptions_find(description_models(map@), number) is None,
        },
{
    map.get(&number)
}

/// Registers a definition, in the place of the definition of the same
/// developer data index.
pub fn insert_definition(defs: &mut HashMap<u8, FitDeveloperDataDefinition>, d: FitDeveloperDataDefinition)
    ensures
        definition_models(final(defs)@) == definitions_insert(definition_models(old(defs)@), d@),
{
    let ghost model = d@;
    defs.insert(d.developer_data_index, d);
    assert(definition_models(defs@) =~= definitions_insert(definition_models(old(defs)@), model));
}

/// Registers the description of a field for a developer data index that
/// has a definition.
pub fn describe_field(
    defs: &mut HashMap<u8, FitDeveloperDataDefinition>,
    index: u8,
    d: DeveloperFieldDescription,
)
    ensures
        definition_models(final(defs)@) == definitions_describe(
            definition_models(old(defs)@),
            index,
            d@,
        ),
{
    let ghost model = d@;
    match defs.remove(&index) {
        Some(entry) => {
            let ghost before = entry@;
            let mut entry = entry;
            entry.field_map.insert(d.field_definition_number, d);
            assert(entry@.field_map =~= descriptions_insert(before.field_map, model));
            let ghost after = entry@;
            defs.insert(index, entry);
            assert(definition_models(defs@) =~= definition_models(old(defs)@).insert(index, after));
        },
        None => {
            assert(definition_models(defs@) =~= definition_models(old(defs)@));
        },
    }
}

/// The developer field values of the messages of one name.
#[derive(Debug, PartialEq)]
pub struct DeveloperData {
    pub message: String,
    pub fields: Vec<DataField>,
}

/// The mathematical model of [`DeveloperData`].
pub struct DeveloperValuesModel {
    pub message: Seq<char>,
    pub fields: Seq<DataFieldModel>,
}

impl View for DeveloperData {
    type V = DeveloperValuesModel;

    open spec fn view(&self) -> DeveloperValuesModel {
        DeveloperValuesModel { message: self.message@, fields: data_field_models(self.fields@) }
    }
}

/// The models of a sequence of developer values, in order.
pub open spec fn developer_data_models(s: Seq<DeveloperData>) -> Seq<DeveloperValuesModel> {
    Seq::new(s.len(), |i: int| s[i]@)
}

/// The index of the developer values of a message name.
pub open spec fn developer_data_find(s: Seq<DeveloperValuesModel>, message: Seq<char>) -> Option<
    int,
> {
    first_index(s, |d: DeveloperValuesModel| d.message == message)
}

/// The developer values with one more for a message name: it takes the
/// place of the value of the same field number under that name.
pub open spec fn developer_data_put(
    s: Seq<DeveloperValuesModel>,
    message: Seq<char>,
    field: DataFieldModel,
) -> Seq<DeveloperValuesModel> {
    match developer_data_find(s, message) {
        Some(i) => s.update(
            i,
            DeveloperValuesModel { message: s[i].message, fields: fields_insert(s[i].fields, field) },
        ),
        None => s.push(DeveloperValuesModel { message, fields: seq![field] }),
    }
}

/// Stores the value of a developer field under the name of its message.
pub fn put_developer_data(data: &mut Vec<DeveloperData>, message: &String, field: DataField)
    ensures
        developer_data_models(final(data)@) == developer_data_put(
            developer_data_models(old(data)@),
            message@,
            field@,
        ),
{
    let ghost pred = |d: DeveloperValuesModel| d.message == message@;
    let ghost models = developer_data_models(data@);
    let mut found: Option<usize> = None;
    let mut i: usize = 0;
    while i < data.len() && found.is_none()
        invariant
            i <= data.len(),
            data@ == old(data)@,
            models == developer_data_models(data@),
            pred == (|d: DeveloperValuesModel| d.message == message@),
            match found {
                Some(k) => first_from(models, pred, 0) == Some(k as int) && k < data.len(),
                None => first_from(models, pred, 0) == first_from(models, pred, i as int),
            },
        decreases data.len() - i + (if found is None { 1int } else { 0int }),
    {
        assert(models[i as int] == data[i as int]@);
        if str_eq(data[i].message.as_str(), message.as_str()) {
            found = Some(i);
        } else {
            i += 1;
        }
    }
    match found {
        Some(k) => {
            let ghost before = data[k as int]@;
            insert_data_field(&mut data[k].fields, field);
            assert(developer_data_models(data@) =~= models.update(
                k as int,
                DeveloperValuesModel {
                    message: before.message,
                    fields: fields_insert(before.fields, field@),
                },
            ));
        },
        None => {
            let mut fields: Vec<DataField> = Vec::new();
            fields.push(field);
            let entry = DeveloperData { message: message.clone(), fields };
            assert(entry@.fields =~= seq![field@]);
            data.push(entry);
            assert(developer_data_models(data@) =~= models.push(entry@));
        },
    }
}

/// Whether a developer data index has a definition.
pub open spec fn defines(s: Map<u8, DeveloperDataModel>, index: u8) -> bool {
    definitions_find(s, index) is Some
}

/// Whether a field of a developer data index has a description.
pub open spec fn describes(s: Map<u8, DeveloperDataModel>, index: u8, number: u8) -> bool {
    definitions_find(s, index) matches Some(i) && descriptions_find(s[i].field_map, number)
        is Some
}

/// Whether `b` defines and describes at least what `a` does.
pub open spec fn described_in(a: Map<u8, DeveloperDataModel>, b: Map<u8, DeveloperDataModel>) -> bool {
    &&& forall|index: u8| #[trigger] defines(a, index) ==> defines(b, index)
    &&& forall|index: u8, number: u8| #[trigger]
            describes(a, index, number) ==> describes(b, index, number)
}

/// What is defined and described after a definition is registered: its
/// index with its descriptions, and the other indices as before.
pub proof fn lemma_insert_defines(
    s: Map<u8, DeveloperDataModel>,
    d: DeveloperDataModel,
    index: u8,
    number: u8,
)
    ensures
        defines(definitions_insert(s, d), index) == (index == d.developer_data_index || defines(
            s,
            index,
        )),
        describes(definitions_insert(s, d), index, number) == (if index == d.developer_data_index {
            descriptions_find(d.field_map, number) is Some
        } else {
            describes(s, index, number)
        }),
{
}

/// What is described with one more description: what was, and the field
/// of the description.
pub proof fn lemma_description_insert(s: Map<u8, DescriptionModel>, d: DescriptionModel, number: u8)
    ensures
        descriptions_find(descriptions_insert(s, d), number) is Some <==> (number
            == d.field_definition_number || descriptions_find(s, number) is Some),
{
}

/// What is defined and described after a field is described: the same
/// definitions, and one more described field where the index has a
/// definition.
pub proof fn lemma_describe_defines(
    s: Map<u8, DeveloperDataModel>,
    at: u8,
    d: DescriptionModel,
    index: u8,
    number: u8,
)
    ensures
        defines(definitions_describe(s, at, d), index) == defines(s, index),
        describes(definitions_describe(s, at, d), index, number) == (describes(s, index, number) || (
        index == at && defines(s, at) && number == d.field_definition_number)),
{
}

/// The same definition registered on both sides keeps the one within the
/// other, where it comes without descriptions.
pub proof fn lemma_insert_described(
    a: Map<u8, DeveloperDataModel>,
    b: Map<u8, DeveloperDataModel>,
    da: DeveloperDataModel,
    db: DeveloperDataModel,
)
    requires
        described_in(a, b),
        da.developer_data_index == db.developer_data_index,
        da.field_map == Map::<u8, DescriptionModel>::empty(),
    ensures
        described_in(definitions_insert(a, da), definitions_insert(b, db)),
{
    let a2 = definitions_insert(a, da);
    let b2 = definitions_insert(b, db);
    assert forall|index: u8| #[trigger] defines(a2, index) implies defines(b2, index) by {
        lemma_insert_defines(a, da, index, 0);
        lemma_insert_defines(b, db, index, 0);
        if index != da.developer_data_index {
            assert(defines(a, index));
        }
    }
    assert forall|index: u8, number: u8| #[trigger] describes(a2, index, number) implies describes(
        b2,
        index,
        number,
    ) by {
        lemma_insert_defines(a, da, index, number);
        lemma_insert_defines(b, db, index, number);
        if index != da.developer_data_index {
            assert(describes(a, index, number));
        }
    }
}

/// The same field described on both sides keeps the one within the other.
pub proof fn lemma_describe_described(
    a: Map<u8, DeveloperDataModel>,
    b: Map<u8, DeveloperDataModel>,
    at: u8,
    da: DescriptionModel,
    db: DescriptionModel,
)
    requires
        described_in(a, b),
        da.field_definition_number == db.field_definition_number,
    ensures
        described_in(definitions_describe(a, at, da), definitions_describe(b, at, db)),
{
    let a2 = definitions_describe(a, at, da);
    let b2 = definitions_describe(b, at, db);
    assert forall|index: u8| #[trigger] defines(a2, index) implies defines(b2, index) by {
        lemma_describe_defines(a, at, da, index, 0);
        lemma_describe_defines(b, at, db, index, 0);
        assert(defines(a, index));
    }
    assert forall|index: u8, number: u8| #[trigger] describes(a2, index, number) implies describes(
        b2,
        index,
        number,
    ) by {
        lemma_describe_defines(a, at, da, index, number);
        lemma_describe_defines(b, at, db, index, number);
        if describes(a, index, number) {
        } else {
            assert(defines(a, at));
        }
    }
}

} // verus!
