//! The GraphQL side of a resolver: the parent value, the arguments and the selected field.
use vstd::prelude::*;

use crate::value::{option_model, Value, ValueModel};

verus! {

/// A field of a selection set, with its arguments resolved.
pub struct SelectionField {
    pub name: String,
    /// The arguments, or `None` where they could not be resolved.
    pub arguments: Option<Vec<(String, Value)>>,
    pub selection_set: Vec<SelectionField>,
}

/// The contents of a list of members.
pub open spec fn members_model(members: Seq<(String, Value)>) -> Seq<(Seq<char>, ValueModel)> {
    members.map_values(|m: (String, Value)| (m.0@, m.1@))
}

/// What a resolver can ask of the GraphQL operation that it serves.
pub trait ResolverContextLike: Sized {
    /// The value of the parent.
    spec fn parent(&self) -> Option<ValueModel>;

    /// The arguments of the field.
    spec fn arguments(&self) -> Option<Seq<(Seq<char>, ValueModel)>>;

    /// The field that is resolved.
    spec fn selected(&self) -> Option<SelectionField>;

    fn value(&self) -> (res: Option<&Value>)
        ensures
            option_model(res) == self.parent(),
    ;

    fn args(&self) -> (res: Option<&Vec<(String, Value)>>)
        ensures
            match res {
                Some(members) => self.arguments() == Some(members_model(members@)),
                None => self.arguments() is None,
            },
    ;

    fn field(&self) -> (res: Option<&SelectionField>)
        ensures
            match res {
                Some(field) => self.selected() == Some(*field),
                None => self.selected() is None,
            },
    ;
}

/// A resolver outside any GraphQL operation.
pub struct EmptyResolverContext;

impl ResolverContextLike for EmptyResolverContext {
    open spec fn parent(&self) -> Option<ValueModel> {
        None
    }

    open spec fn arguments(&self) -> Option<Seq<(Seq<char>, ValueModel)>> {
        None
    }

    open spec fn selected(&self) -> Option<SelectionField> {
        None
    }

    fn value(&self) -> (res: Option<&Value>) {
        None
    }

    fn args(&self) -> (res: Option<&Vec<(String, Value)>>) {
        None
    }

    fn field(&self) -> (res: Option<&SelectionField>) {
        None
    }
}

/// A resolver of a field of a GraphQL operation.
pub struct ResolverContext {
    pub value: Option<Value>,
    pub args: Option<Vec<(String, Value)>>,
    pub field: Option<SelectionField>,
}

impl ResolverContextLike for ResolverContext {
    open spec fn parent(&self) -> Option<ValueModel> {
        match self.value {
            Some(v) => Some(v@),
            None => None,
        }
    }

    open spec fn arguments(&self) -> Option<Seq<(Seq<char>, ValueModel)>> {
        match self.args {
            Some(members) => Some(members_model(members@)),
            None => None,
        }
    }

    open spec fn selected(&self) -> Option<SelectionField> {
        self.field
    }

    fn value(&self) -> (res: Option<&Value>) {
        self.value.as_ref()
    }

    fn args(&self) -> (res: Option<&Vec<(String, Value)>>) {
        self.args.as_ref()
    }

    fn field(&self) -> (res: Option<&SelectionField>) {
        self.field.as_ref()
    }
}

} // verus!
