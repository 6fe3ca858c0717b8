//! What a configuration is made of.
use vstd::prelude::*;

use crate::lambda::expression::clone_path;
use crate::string_map::StringMap;
use crate::text::views;
use crate::value::{Value, ValueModel};

verus! {

/// The contents of an optional string.
pub open spec fn optional_text(s: Option<String>) -> Option<Seq<char>> {
    match s {
        Some(text) => Some(text@),
        None => None,
    }
}

/// Copies an optional string.
fn clone_optional(s: &Option<String>) -> (res: Option<String>)
    ensures
        optional_text(res) == optional_text(*s),
{
    match s {
        Some(text) => Some(text.clone()),
        None => None,
    }
}

/// How an argument is renamed or left out.
#[derive(Debug, PartialEq, Eq)]
pub struct Modify {
    pub name: Option<String>,
    pub omit: bool,
}

/// What a [`Modify`] holds.
pub struct ModifyModel {
    pub name: Option<Seq<char>>,
    pub omit: bool,
}

impl View for Modify {
    type V = ModifyModel;

    open spec fn view(&self) -> ModifyModel {
        ModifyModel { name: optional_text(self.name), omit: self.omit }
    }
}

impl Clone for Modify {
    fn clone(&self) -> (res: Modify)
        ensures
            res@ == self@,
    {
        Modify { name: clone_optional(&self.name), omit: self.omit }
    }
}

/// An argument of a field.
#[derive(Debug, PartialEq, Eq)]
pub struct Arg {
    pub type_of: String,
    pub list: bool,
    pub required: bool,
    pub doc: Option<String>,
    pub modify: Option<Modify>,
    pub default_value: Option<Value>,
}

/// What an [`Arg`] holds.
pub struct ArgModel {
    pub type_of: Seq<char>,
    pub list: bool,
    pub required: bool,
    pub doc: Option<Seq<char>>,
    pub modify: Option<ModifyModel>,
    pub default_value: Option<ValueModel>,
}

impl View for Arg {
    type V = ArgModel;

    open spec fn view(&self) -> ArgModel {
        ArgModel {
            type_of: self.type_of@,
            list: self.list,
            required: self.required,
            doc: optional_text(self.doc),
            modify: match self.modify {
                Some(m) => Some(m@),
                None => None,
            },
            default_value: match self.default_value {
                Some(v) => Some(v@),
                None => None,
            },
        }
    }
}

impl Clone for Arg {
    fn clone(&self) -> (res: Arg)
        ensures
            res@ == self@,
    {
        Arg {
            type_of: self.type_of.clone(),
            list: self.list,
            required: self.required,
            doc: clone_optional(&self.doc),
            modify: match &self.modify {
                Some(m) => Some(m.clone()),
                None => None,
            },
            default_value: match &self.default_value {
                Some(v) => Some(v.clone()),
                None => None,
            },
        }
    }
}

/// A gRPC upstream of a field.
#[derive(Debug, PartialEq, Eq)]
pub struct Grpc {
    pub base_url: Option<String>,
    pub body: Option<String>,
    pub group_by: Vec<String>,
    pub headers: Vec<(String, String)>,
    pub method: String,
}

/// What a [`Grpc`] holds.
pub struct GrpcModel {
    pub base_url: Option<Seq<char>>,
    pub body: Option<Seq<char>>,
    pub group_by: Seq<Seq<char>>,
    pub headers: Seq<(Seq<char>, Seq<char>)>,
    pub method: Seq<char>,
}

impl View for Grpc {
    type V = GrpcModel;

    open spec fn view(&self) -> GrpcModel {
        GrpcModel {
            base_url: optional_text(self.base_url),
            body: optional_text(self.body),
            group_by: views(self.group_by@),
            headers: self.headers@.map_values(|h: (String, String)| (h.0@, h.1@)),
            method: self.method@,
        }
    }
}

/// Copies a list of pairs.
fn clone_pairs(pairs: &Vec<(String, String)>) -> (res: Vec<(String, String)>)
    ensures
        res@.map_values(|h: (String, String)| (h.0@, h.1@)) == pairs@.map_values(
            |h: (String, String)| (h.0@, h.1@),
        ),
{
    let mut res: Vec<(String, String)> = Vec::new();
    for i in 0..pairs.len()
        invariant
            res.len() == i,
            forall|k: int|
                0 <= k < i ==> (#[trigger] res@[k]).0@ == pairs@[k].0@ && res@[k].1@ == pairs@[k].1@,
    {
        res.push((pairs[i].0.clone(), pairs[i].1.clone()));
    }
    proof {
        assert(res@.map_values(|h: (String, String)| (h.0@, h.1@)) =~= pairs@.map_values(
            |h: (String, String)| (h.0@, h.1@),
        ));
    }
    res
}

impl Clone for Grpc {
    fn clone(&self) -> (res: Grpc)
        ensures
            res@ == self@,
    {
        Grpc {
            base_url: clone_optional(&self.base_url),
            body: clone_optional(&self.body),
            group_by: clone_path(&self.group_by),
            headers: clone_pairs(&self.headers),
            method: self.method.clone(),
        }
    }
}

/// One step of a call.
#[derive(Debug, PartialEq, Eq)]
pub enum Step {
    /// Resolve the query or mutation of that name.
    Operation(String),
    /// Write the context out under the prefix.
    Debug(String),
}

/// What a [`Step`] holds.
pub enum StepModel {
    Operation(Seq<char>),
    Debug(Seq<char>),
}

impl View for Step {
    type V = StepModel;

    open spec fn view(&self) -> StepModel {
        match self {
            Step::Operation(name) => StepModel::Operation(name@),
            Step::Debug(prefix) => StepModel::Debug(prefix@),
        }
    }
}

impl Clone for Step {
    fn clone(&self) -> (res: Step)
        ensures
            res@ == self@,
    {
        match self {
            Step::Operation(name) => Step::Operation(name.clone()),
            Step::Debug(prefix) => Step::Debug(prefix.clone()),
        }
    }
}

/// The steps that a field resolves through.
#[derive(Debug, PartialEq, Eq)]
pub struct Call {
    pub steps: Vec<Step>,
}

/// The contents of a list of steps.
pub open spec fn steps_model(steps: Seq<Step>) -> Seq<StepModel> {
    steps.map_values(|s: Step| s@)
}

impl View for Call {
    type V = Seq<StepModel>;

    open spec fn view(&self) -> Seq<StepModel> {
        steps_model(self.steps@)
    }
}

impl Clone for Call {
    fn clone(&self) -> (res: Call)
        ensures
            res@ == self@,
    {
        let mut steps: Vec<Step> = Vec::new();
        for i in 0..self.steps.len()
            invariant
                steps.len() == i,
                forall|k: int| 0 <= k < i ==> (#[trigger] steps@[k])@ == self.steps@[k]@,
        {
            steps.push(self.steps[i].clone());
        }
        proof {
            assert(steps_model(steps@) =~= steps_model(self.steps@));
        }
        Call { steps }
    }
}

/// A field of a type.
#[derive(Debug, PartialEq, Eq)]
pub struct Field {
    pub type_of: String,
    pub list: bool,
    pub required: bool,
    pub args: StringMap<Arg>,
    pub grpc: Option<Grpc>,
    pub call: Option<Call>,
}

/// What a [`Field`] holds.
pub struct FieldModel {
    pub type_of: Seq<char>,
    pub list: bool,
    pub required: bool,
    pub args: Map<Seq<char>, ArgModel>,
    pub grpc: Option<GrpcModel>,
    pub call: Option<Seq<StepModel>>,
}

impl View for Field {
    type V = FieldModel;

    open spec fn view(&self) -> FieldModel {
        FieldModel {
            type_of: self.type_of@,
            list: self.list,
            required: self.required,
            args: self.args@.map_values(|a: Arg| a@),
            grpc: match self.grpc {
                Some(g) => Some(g@),
                None => None,
            },
            call: match self.call {
                Some(c) => Some(c@),
                None => None,
            },
        }
    }
}

/// A field of no type, without arguments and without an upstream.
pub open spec fn blank_field() -> FieldModel {
    FieldModel {
        type_of: Seq::empty(),
        list: false,
        required: false,
        args: Map::empty(),
        grpc: None,
        call: None,
    }
}

impl Default for Field {
    fn default() -> (res: Field)
        ensures
            res@ == blank_field(),
    {
        let res = Field {
            type_of: String::new(),
            list: false,
            required: false,
            args: StringMap::new(),
            grpc: None,
            call: None,
        };
        proof {
            assert(res@.args =~= Map::empty());
        }
        res
    }
}

impl Clone for Field {
    fn clone(&self) -> (res: Field)
        ensures
            res@ == self@,
    {
        let args = self.args.clone();
        proof {
            assert(args@.map_values(|a: Arg| a@) =~= self.args@.map_values(|a: Arg| a@)) by {
                assert forall|k: Seq<char>| #[trigger] self.args@.contains_key(k) implies args@[k]@
                    == self.args@[k]@ by {
                    assert(cloned(self.args@[k], args@[k]));
                }
            }
        }
        Field {
            type_of: self.type_of.clone(),
            list: self.list,
            required: self.required,
            args,
            grpc: match &self.grpc {
                Some(g) => Some(g.clone()),
                None => None,
            },
            call: match &self.call {
                Some(c) => Some(c.clone()),
                None => None,
            },
        }
    }
}

/// A type: an object with fields, an enumeration with variants, or both.
#[derive(Debug, PartialEq, Eq)]
pub struct Type {
    pub fields: StringMap<Field>,
    pub variants: Option<StringMap<()>>,
}

/// What a [`Type`] holds.
pub struct TypeModel {
    pub fields: Map<Seq<char>, FieldModel>,
    pub variants: Option<Set<Seq<char>>>,
}

impl View for Type {
    type V = TypeModel;

    open spec fn view(&self) -> TypeModel {
        TypeModel {
            fields: self.fields@.map_values(|f: Field| f@),
            variants: match self.variants {
                Some(names) => Some(names@.dom()),
                None => None,
            },
        }
    }
}

/// A type without fields that is no enumeration.
pub open spec fn blank_type() -> TypeModel {
    TypeModel { fields: Map::empty(), variants: None }
}

impl Default for Type {
    fn default() -> (res: Type)
        ensures
            res@ == blank_type(),
    {
        let res = Type { fields: StringMap::new(), variants: None };
        proof {
            assert(res@.fields =~= Map::empty());
        }
        res
    }
}

impl Clone for Type {
    fn clone(&self) -> (res: Type)
        ensures
            res@ == self@,
    {
        let fields = self.fields.clone();
        proof {
            assert(fields@.map_values(|f: Field| f@) =~= self.fields@.map_values(|f: Field| f@)) by {
                assert forall|k: Seq<char>| #[trigger] self.fields@.contains_key(k) implies fields@[k]@
                    == self.fields@[k]@ by {
                    assert(cloned(self.fields@[k], fields@[k]));
                }
            }
        }
        Type {
            fields,
            variants: match &self.variants {
                Some(names) => Some(names.clone()),
                None => None,
            },
        }
    }
}

impl Type {
    /// Whether the type has no fields and is no enumeration.
    pub fn is_blank(&self) -> (res: bool)
        ensures
            res == (self@ == blank_type()),
    {
        let res = self.fields.is_empty() && self.variants.is_none();
        proof {
            if res {
                assert(self@.fields =~= Map::empty());
            } else if self@ == blank_type() {
                assert(self.fields@.dom() =~= self@.fields.dom());
                assert(self.fields@ =~= Map::empty());
            }
        }
        res
    }

    /// Sets a field, in place of the one of that name that there may have been.
    pub fn insert_field(&mut self, name: String, field: Field)
        ensures
            final(self)@ == (TypeModel {
                fields: old(self)@.fields.insert(name@, field@),
                variants: old(self)@.variants,
            }),
    {
        let ghost before = self@.fields;
        let ghost key = name@;
        let ghost added = field@;
        self.fields.insert(name, field);
        proof {
            assert(self@.fields =~= before.insert(key, added));
        }
    }
}

/// The names of the types that queries and mutations start from.
#[derive(Debug, PartialEq, Eq)]
pub struct RootSchema {
    pub query: Option<String>,
    pub mutation: Option<String>,
}

/// A configuration.
#[derive(Debug, PartialEq, Eq)]
pub struct Config {
    pub schema: RootSchema,
    pub types: StringMap<Type>,
}

/// What a [`Config`] holds.
pub struct ConfigModel {
    pub query: Option<Seq<char>>,
    pub mutation: Option<Seq<char>>,
    pub types: Map<Seq<char>, TypeModel>,
}

impl View for Config {
    type V = ConfigModel;

    open spec fn view(&self) -> ConfigModel {
        ConfigModel {
            query: optional_text(self.schema.query),
            mutation: optional_text(self.schema.mutation),
            types: self.types@.map_values(|t: Type| t@),
        }
    }
}

/// A configuration without types.
pub open spec fn blank_config() -> ConfigModel {
    ConfigModel { query: None, mutation: None, types: Map::empty() }
}

impl Default for Config {
    fn default() -> (res: Config)
        ensures
            res@ == blank_config(),
    {
        let res = Config {
            schema: RootSchema { query: None, mutation: None },
            types: StringMap::new(),
        };
        proof {
            assert(res@.types =~= Map::empty());
        }
        res
    }
}

/// The type called `name`, or a blank one where there is none.
pub open spec fn type_or_blank(types: Map<Seq<char>, TypeModel>, name: Seq<char>) -> TypeModel {
    if types.contains_key(name) {
        types[name]
    } else {
        blank_type()
    }
}

impl Config {
    /// A copy of the type called `name`, or a blank one where there is none.
    pub fn type_or_default(&self, name: &str) -> (res: Type)
        ensures
            res@ == type_or_blank(self@.types, name@),
    {
        match self.types.get(name) {
            Some(t) => t.clone(),
            None => Type::default(),
        }
    }

    /// Sets a type, in place of the one of that name that there may have been.
    pub fn insert_type(&mut self, name: String, ty: Type)
        ensures
            final(self)@ == (ConfigModel {
                types: old(self)@.types.insert(name@, ty@),
                ..old(self)@
            }),
    {
        let ghost before = self@.types;
        let ghost key = name@;
        let ghost added = ty@;
        self.types.insert(name, ty);
        proof {
            assert(self@.types =~= before.insert(key, added));
        }
    }
}

} // verus!
