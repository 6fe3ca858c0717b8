//! What an expression is evaluated against.
use hyper::HeaderMap;
use vstd::prelude::*;

use crate::http::headers;
use crate::http::headers::{first_text, header_entries};
use crate::http::request_context::RequestContext;
use crate::lambda::resolver_context::ResolverContextLike;
use crate::text;
use crate::text::{ascii_lowered, views};
use crate::value;
use crate::value::{at_path, option_model, Value, ValueModel};

verus! {

/// The context of an evaluation: the request, the GraphQL operation and what enclosing
/// expressions have put in place of its value and its arguments.
pub struct EvaluationContext<'a, Ctx: ResolverContextLike> {
    pub req_ctx: &'a RequestContext,
    pub graphql_ctx: &'a Ctx,
    /// The time that a script may take, in milliseconds.
    pub timeout: u64,
    /// Stands in place of the value of the GraphQL context.
    pub pushed_value: Option<Value>,
    /// Stands in place of the arguments of the GraphQL context.
    pub pushed_args: Option<Value>,
}

/// What an [`EvaluationContext`] holds.
#[verifier::reject_recursive_types(Ctx)]
pub struct ContextModel<Ctx> {
    pub req_ctx: RequestContext,
    pub graphql_ctx: Ctx,
    pub timeout: u64,
    /// The value that the context shows.
    pub value: Option<ValueModel>,
    /// The arguments that the context shows, as one value.
    pub args: Option<ValueModel>,
}

impl<Ctx> ContextModel<Ctx> {
    /// The context with another value.
    pub open spec fn with_value(self, value: ValueModel) -> ContextModel<Ctx> {
        ContextModel { value: Some(value), ..self }
    }

    /// The context with other arguments.
    pub open spec fn with_args(self, args: ValueModel) -> ContextModel<Ctx> {
        ContextModel { args: Some(args), ..self }
    }

    /// What stands in the value at `path`.
    pub open spec fn path_value(self, path: Seq<Seq<char>>) -> Option<ValueModel> {
        match self.value {
            Some(v) => at_path(v, path),
            None => None,
        }
    }

    /// What stands in the arguments at `path`.
    pub open spec fn arg(self, path: Seq<Seq<char>>) -> Option<ValueModel> {
        match self.args {
            Some(v) => at_path(v, path),
            None => None,
        }
    }
}

impl<'a, Ctx: ResolverContextLike> View for EvaluationContext<'a, Ctx> {
    type V = ContextModel<Ctx>;

    open spec fn view(&self) -> ContextModel<Ctx> {
        ContextModel {
            req_ctx: *self.req_ctx,
            graphql_ctx: *self.graphql_ctx,
            timeout: self.timeout,
            value: match self.pushed_value {
                Some(v) => Some(v@),
                None => self.graphql_ctx.parent(),
            },
            args: match self.pushed_args {
                Some(v) => Some(v@),
                None => match self.graphql_ctx.arguments() {
                    Some(members) => Some(ValueModel::Object(members)),
                    None => None,
                },
            },
        }
    }
}

impl<'a, Ctx: ResolverContextLike> Clone for EvaluationContext<'a, Ctx> {
    fn clone(&self) -> (res: Self)
        ensures
            res@ == self@,
            res.pushed_value is Some == self.pushed_value is Some,
            res.pushed_args is Some == self.pushed_args is Some,
    {
        EvaluationContext {
            req_ctx: self.req_ctx,
            graphql_ctx: self.graphql_ctx,
            timeout: self.timeout,
            pushed_value: match &self.pushed_value {
                Some(v) => Some(v.clone()),
                None => None,
            },
            pushed_args: match &self.pushed_args {
                Some(v) => Some(v.clone()),
                None => None,
            },
        }
    }
}

impl<'a, Ctx: ResolverContextLike> EvaluationContext<'a, Ctx> {
    /// A context in which nothing has been put in place of the value or the arguments.
    pub fn new(req_ctx: &'a RequestContext, graphql_ctx: &'a Ctx) -> (res: EvaluationContext<'a, Ctx>)
        ensures
            res.req_ctx == req_ctx,
            res.graphql_ctx == graphql_ctx,
            res.timeout == 5,
            res.pushed_value is None,
            res.pushed_args is None,
            res@.value == graphql_ctx.parent(),
            res@.args == match graphql_ctx.arguments() {
                Some(members) => Some(ValueModel::Object(members)),
                None => None,
            },
    {
        EvaluationContext { timeout: 5, req_ctx, graphql_ctx, pushed_value: None, pushed_args: None }
    }

    /// The value that the context shows.
    pub fn value(&self) -> (res: Option<&Value>)
        ensures
            option_model(res) == self@.value,
    {
        match &self.pushed_value {
            Some(v) => Some(v),
            None => self.graphql_ctx.value(),
        }
    }

    /// What stands in the arguments at `path`.
    pub fn arg(&self, path: &[String]) -> (res: Option<&Value>)
        requires
            path@.len() > 0 || self.pushed_args is Some || self.graphql_ctx.arguments() is None,
        ensures
            option_model(res) == self@.arg(views(path@)),
    {
        match &self.pushed_args {
            Some(v) => value::get_path_value(v, path),
            None => {
                let ghost keys = views(path@);
                match self.graphql_ctx.args() {
                    None => None,
                    Some(members) => {
                        let (head, tail) = path.split_at(1);
                        proof {
                            assert(views(tail@) =~= keys.skip(1));
                            assert(keys[0] == head@[0]@);
                        }
                        match value::find_member(members, head[0].as_str()) {
                            None => None,
                            Some(found) => value::get_path_value(found, tail),
                        }
                    },
                }
            },
        }
    }

    /// What stands in the value at `path`.
    pub fn path_value(&self, path: &[String]) -> (res: Option<&Value>)
        ensures
            option_model(res) == self@.path_value(views(path@)),
    {
        match self.value() {
            None => None,
            Some(v) => value::get_path_value(v, path),
        }
    }

    /// The headers of the incoming request.
    pub fn headers(&self) -> (res: &HeaderMap)
        ensures
            *res == self.req_ctx.req_headers,
    {
        &self.req_ctx.req_headers
    }

    /// The text of the first value of a header; names are compared in lower case.
    pub fn header(&self, key: &str) -> (res: Option<&str>)
        ensures
            first_text(header_entries(self.req_ctx.req_headers), ascii_lowered(key@)) == match res {
                Some(s) => Some(s@),
                None => None,
            },
    {
        headers::get_text(self.headers(), key)
    }

    /// A variable of the server.
    pub fn var(&self, key: &str) -> (res: Option<&str>)
        ensures
            match res {
                Some(s) => self.req_ctx.server.vars@.contains_key(key@)
                    && self.req_ctx.server.vars@[key@]@ == s@,
                None => !self.req_ctx.server.vars@.contains_key(key@),
            },
    {
        match self.req_ctx.server.vars.get(key) {
            Some(v) => Some(v.as_str()),
            None => None,
        }
    }

    /// The context with another value.
    pub fn with_value(&self, value: Value) -> (res: EvaluationContext<'a, Ctx>)
        ensures
            res@ == self@.with_value(value@),
            res.pushed_value is Some,
            res.pushed_args is Some == self.pushed_args is Some,
    {
        let mut ctx = self.clone();
        ctx.pushed_value = Some(value);
        ctx
    }

    /// The context with other arguments.
    pub fn with_args(&self, args: Value) -> (res: EvaluationContext<'a, Ctx>)
        ensures
            res@ == self@.with_args(args@),
            res.pushed_args is Some,
            res.pushed_value is Some == self.pushed_value is Some,
    {
        let mut ctx = self.clone();
        ctx.pushed_args = Some(args);
        ctx
    }
}

} // verus!
