//! What a blueprint is made of.
use vstd::prelude::*;

use crate::config::types::{optional_text, Field, FieldModel};
use crate::lambda::expression::{Expression, ExpressionModel};
use crate::text;

verus! {

/// A field of an object, with the field of the configuration that it was made from.
#[derive(Debug, PartialEq, Eq)]
pub struct FieldDefinition {
    pub name: String,
    pub resolver: Option<Expression>,
    pub source: (String, Field),
}

/// What a [`FieldDefinition`] holds.
pub struct FieldDefinitionModel {
    pub name: Seq<char>,
    pub resolver: Option<ExpressionModel>,
    pub source: (Seq<char>, FieldModel),
}

impl View for FieldDefinition {
    type V = FieldDefinitionModel;

    open spec fn view(&self) -> FieldDefinitionModel {
        FieldDefinitionModel {
            name: self.name@,
            resolver: match self.resolver {
                Some(e) => Some(e@),
                None => None,
            },
            source: (self.source.0@, self.source.1@),
        }
    }
}

impl Clone for FieldDefinition {
    fn clone(&self) -> (res: FieldDefinition)
        ensures
            res@ == self@,
    {
        FieldDefinition {
            name: self.name.clone(),
            resolver: match &self.resolver {
                Some(e) => Some(e.clone()),
                None => None,
            },
            source: (self.source.0.clone(), self.source.1.clone()),
        }
    }
}

/// An object with its fields.
#[derive(Debug, PartialEq, Eq)]
pub struct ObjectTypeDefinition {
    pub name: String,
    pub fields: Vec<FieldDefinition>,
}

/// What an [`ObjectTypeDefinition`] holds.
pub struct ObjectModel {
    pub name: Seq<char>,
    pub fields: Seq<FieldDefinitionModel>,
}

/// The contents of a list of fields.
pub open spec fn fields_model(fields: Seq<FieldDefinition>) -> Seq<FieldDefinitionModel> {
    fields.map_values(|f: FieldDefinition| f@)
}

impl View for ObjectTypeDefinition {
    type V = ObjectModel;

    open spec fn view(&self) -> ObjectModel {
        ObjectModel { name: self.name@, fields: fields_model(self.fields@) }
    }
}

/// The first of the fields called `name`.
pub open spec fn field_in(fields: Seq<FieldDefinitionModel>, name: Seq<char>) -> Option<
    FieldDefinitionModel,
>
    decreases fields.len(),
{
    if fields.len() == 0 {
        None
    } else if fields[0].name == name {
        Some(fields[0])
    } else {
        field_in(fields.skip(1), name)
    }
}

impl ObjectTypeDefinition {
    /// The first field called `name`.
    pub fn find_field(&self, name: &str) -> (res: Option<&FieldDefinition>)
        ensures
            field_in(self@.fields, name@) == match res {
                Some(f) => Some(f@),
                None => None,
            },
    {
        let ghost all = fields_model(self.fields@);
        proof {
            assert(all.skip(0) =~= all);
        }
        for i in 0..self.fields.len()
            invariant
                all == fields_model(self.fields@),
                field_in(all, name@) == field_in(all.skip(i as int), name@),
        {
            proof {
                assert(all.skip(i as int)[0] == self.fields@[i as int]@);
            }
            if text::same(self.fields[i].name.as_str(), name) {
                return Some(&self.fields[i]);
            }
            proof {
                assert(all.skip(i as int).skip(1) =~= all.skip(i + 1));
            }
        }
        None
    }
}

/// A definition of the schema.
#[derive(Debug, PartialEq, Eq)]
pub enum Definition {
    Object(ObjectTypeDefinition),
    /// A definition without resolvers, by its name.
    Other(String),
}

/// What a [`Definition`] holds.
pub enum DefinitionModel {
    Object(ObjectModel),
    Other(Seq<char>),
}

impl View for Definition {
    type V = DefinitionModel;

    open spec fn view(&self) -> DefinitionModel {
        match self {
            Definition::Object(object) => DefinitionModel::Object(object@),
            Definition::Other(name) => DefinitionModel::Other(name@),
        }
    }
}

/// The names of the objects that queries and mutations start from.
#[derive(Debug, PartialEq, Eq)]
pub struct SchemaDefinition {
    pub query: String,
    pub mutation: Option<String>,
}

/// A blueprint.
#[derive(Debug, PartialEq, Eq)]
pub struct Blueprint {
    pub schema: SchemaDefinition,
    pub definitions: Vec<Definition>,
}

/// What a [`Blueprint`] holds.
pub struct BlueprintModel {
    pub query: Seq<char>,
    pub mutation: Option<Seq<char>>,
    pub definitions: Seq<DefinitionModel>,
}

/// The contents of a list of definitions.
pub open spec fn definitions_model(definitions: Seq<Definition>) -> Seq<DefinitionModel> {
    definitions.map_values(|d: Definition| d@)
}

impl View for Blueprint {
    type V = BlueprintModel;

    open spec fn view(&self) -> BlueprintModel {
        BlueprintModel {
            query: self.schema.query@,
            mutation: optional_text(self.schema.mutation),
            definitions: definitions_model(self.definitions@),
        }
    }
}

/// The first of the objects called `name`.
pub open spec fn object_in(definitions: Seq<DefinitionModel>, name: Seq<char>) -> Option<ObjectModel>
    decreases definitions.len(),
{
    if definitions.len() == 0 {
        None
    } else {
        match definitions[0] {
            DefinitionModel::Object(object) => if object.name == name {
                Some(object)
            } else {
                object_in(definitions.skip(1), name)
            },
            _ => object_in(definitions.skip(1), name),
        }
    }
}

impl BlueprintModel {
    /// The object that queries start from.
    pub open spec fn query_def(self) -> Option<ObjectModel> {
        object_in(self.definitions, self.query)
    }

    /// The object that mutations start from.
    pub open spec fn mutation_def(self) -> Option<ObjectModel> {
        match self.mutation {
            Some(name) => object_in(self.definitions, name),
            None => None,
        }
    }
}

/// Relates an optional object to its contents.
pub open spec fn option_object(object: Option<&ObjectTypeDefinition>) -> Option<ObjectModel> {
    match object {
        Some(o) => Some(o@),
        None => None,
    }
}

impl Blueprint {
    /// The first object called `name`.
    pub fn find_object(&self, name: &str) -> (res: Option<&ObjectTypeDefinition>)
        ensures
            option_object(res) == object_in(self@.definitions, name@),
    {
        let ghost all = definitions_model(self.definitions@);
        proof {
            assert(all.skip(0) =~= all);
        }
        for i in 0..self.definitions.len()
            invariant
                all == definitions_model(self.definitions@),
                object_in(all, name@) == object_in(all.skip(i as int), name@),
        {
            proof {
                assert(all.skip(i as int)[0] == self.definitions@[i as int]@);
                assert(all.skip(i as int).skip(1) =~= all.skip(i + 1));
            }
            if let Definition::Object(object) = &self.definitions[i] {
                if text::same(object.name.as_str(), name) {
                    return Some(object);
                }
            }
        }
        None
    }

    /// The object that queries start from.
    pub fn query_def(&self) -> (res: Option<&ObjectTypeDefinition>)
        ensures
            option_object(res) == self@.query_def(),
    {
        self.find_object(self.schema.query.as_str())
    }

    /// The object that mutations start from.
    pub fn mutation_def(&self) -> (res: Option<&ObjectTypeDefinition>)
        ensures
            option_object(res) == self@.mutation_def(),
    {
        match &self.schema.mutation {
            Some(name) => self.find_object(name.as_str()),
            None => None,
        }
    }
}

/// The field found under a name is the first of that name, and none is found where there is none.
pub proof fn law_first_field_is_found(fields: Seq<FieldDefinitionModel>, name: Seq<char>)
    ensures
        match field_in(fields, name) {
            Some(found) => exists|i: int|
                0 <= i < fields.len() && #[trigger] fields[i] == found && found.name == name && forall|
                    j: int,
                |
                    0 <= j < i ==> (#[trigger] fields[j]).name != name,
            None => forall|i: int| 0 <= i < fields.len() ==> (#[trigger] fields[i]).name != name,
        },
    decreases fields.len(),
{
    if fields.len() > 0 {
        if fields[0].name == name {
            assert(fields[0] == field_in(fields, name)->0);
        } else {
            let rest = fields.skip(1);
            law_first_field_is_found(rest, name);
            match field_in(rest, name) {
                Some(found) => {
                    let i = choose|i: int|
                        0 <= i < rest.len() && #[trigger] rest[i] == found && found.name == name
                            && forall|j: int| 0 <= j < i ==> (#[trigger] rest[j]).name != name;
                    assert(fields[i + 1] == found);
                    assert forall|j: int| 0 <= j < i + 1 implies (#[trigger] fields[j]).name != name by {
                        if j > 0 {
                            assert(rest[j - 1] == fields[j]);
                        }
                    }
                },
                None => {
                    assert forall|i: int| 0 <= i < fields.len() implies (#[trigger] fields[i]).name
                        != name by {
                        if i > 0 {
                            assert(rest[i - 1] == fields[i]);
                        }
                    }
                },
            }
        }
    }
}

/// The object found under a name is the first object of that name, and none is found where there is
/// none. Queries start from the object of the name given for them, and so do mutations where a name is
/// given for them.
pub proof fn law_first_object_is_found(blueprint: BlueprintModel, name: Seq<char>)
    ensures
        match object_in(blueprint.definitions, name) {
            Some(found) => exists|i: int|
                0 <= i < blueprint.definitions.len() && #[trigger] blueprint.definitions[i]
                    == DefinitionModel::Object(found) && found.name == name && forall|j: int|
                    0 <= j < i ==> !is_object(#[trigger] blueprint.definitions[j], name),
            None => forall|i: int|
                0 <= i < blueprint.definitions.len() ==> !is_object(
                    #[trigger] blueprint.definitions[i],
                    name,
                ),
        },
        blueprint.query_def() == object_in(blueprint.definitions, blueprint.query),
        blueprint.mutation matches Some(mutation) ==> blueprint.mutation_def() == object_in(
            blueprint.definitions,
            mutation,
        ),
        blueprint.mutation is None ==> blueprint.mutation_def() is None,
{
    lemma_object_in(blueprint.definitions, name);
}

/// Whether a definition is an object of a name.
pub open spec fn is_object(definition: DefinitionModel, name: Seq<char>) -> bool {
    definition matches DefinitionModel::Object(object) && object.name == name
}

proof fn lemma_object_in(definitions: Seq<DefinitionModel>, name: Seq<char>)
    ensures
        match object_in(definitions, name) {
            Some(found) => exists|i: int|
                0 <= i < definitions.len() && #[trigger] definitions[i] == DefinitionModel::Object(
                    found,
                ) && found.name == name && forall|j: int|
                    0 <= j < i ==> !is_object(#[trigger] definitions[j], name),
            None => forall|i: int|
                0 <= i < definitions.len() ==> !is_object(#[trigger] definitions[i], name),
        },
    decreases definitions.len(),
{
    if definitions.len() > 0 {
        if is_object(definitions[0], name) {
            assert(definitions[0] == DefinitionModel::Object(object_in(definitions, name)->0));
        } else {
            let rest = definitions.skip(1);
            lemma_object_in(rest, name);
            match object_in(rest, name) {
                Some(found) => {
                    let i = choose|i: int|
                        0 <= i < rest.len() && #[trigger] rest[i] == DefinitionModel::Object(found)
                            && found.name == name && forall|j: int|
                            0 <= j < i ==> !is_object(#[trigger] rest[j], name);
                    assert(definitions[i + 1] == DefinitionModel::Object(found));
                    assert forall|j: int| 0 <= j < i + 1 implies !is_object(
                        #[trigger] definitions[j],
                        name,
                    ) by {
                        if j > 0 {
                            assert(rest[j - 1] == definitions[j]);
                        }
                    }
                },
                None => {
                    assert forall|i: int| 0 <= i < definitions.len() implies !is_object(
                        #[trigger] definitions[i],
                        name,
                    ) by {
                        if i > 0 {
                            assert(rest[i - 1] == definitions[i]);
                        }
                    }
                },
            }
        }
    }
}

/// A field, an object and a blueprint hold their parts; fields and definitions stand in order.
pub proof fn law_blueprints_hold_their_parts(
    field: FieldDefinition,
    object: ObjectTypeDefinition,
    blueprint: Blueprint,
    name: String,
)
    ensures
        field@.name == field.name@,
        field.resolver matches Some(e) ==> field@.resolver == Some(e@),
        field.resolver is None ==> field@.resolver is None,
        field@.source == (field.source.0@, field.source.1@),
        object@.name == object.name@,
        object@.fields == Seq::new(object.fields@.len(), |i: int| object.fields@[i]@),
        Definition::Object(object)@ == DefinitionModel::Object(object@),
        Definition::Other(name)@ == DefinitionModel::Other(name@),
        blueprint@.query == blueprint.schema.query@,
        blueprint.schema.mutation matches Some(mutation) ==> blueprint@.mutation == Some(mutation@),
        blueprint.schema.mutation is None ==> blueprint@.mutation is None,
        blueprint@.definitions == Seq::new(
            blueprint.definitions@.len(),
            |i: int| blueprint.definitions@[i]@,
        ),
{
    assert(object@.fields =~= Seq::new(object.fields@.len(), |i: int| object.fields@[i]@));
    assert(blueprint@.definitions =~= Seq::new(
        blueprint.definitions@.len(),
        |i: int| blueprint.definitions@[i]@,
    ));
}

} // verus!
