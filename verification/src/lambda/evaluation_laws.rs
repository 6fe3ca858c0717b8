//! What holds of every evaluation: what each part of an expression sees of its context, what it asks
//! for, and where it ends.
use vstd::prelude::*;

use crate::lambda::evaluation_context::{ContextModel, EvaluationContext};
use crate::lambda::execution::{
    evaluated, executed, law_compiling_keeps_meaning, Concurrent, FailureModel, Outcome, Reply,
    ReplyModel, Request, RequestModel, Tables,
};
use crate::lambda::expression::{
    caches_of, compiled, expression_model, ios_of, label, Cache, Context, DynamicModel, DynamicValue, Expression,
    ExpressionModel, IO,
};
use crate::lambda::resolver_context::{
    EmptyResolverContext, ResolverContext, ResolverContextLike,
};
use crate::text::views;
use crate::value::{at_path, law_paths_lead_on, Value, ValueModel};

verus! {

/// Another value or other arguments change nothing else of a context.
pub proof fn law_context_changes_one_part<Ctx>(ctx: ContextModel<Ctx>, v: ValueModel)
    ensures
        ctx.with_value(v).value == Some(v),
        ctx.with_value(v).args == ctx.args,
        ctx.with_value(v).req_ctx == ctx.req_ctx,
        ctx.with_value(v).graphql_ctx == ctx.graphql_ctx,
        ctx.with_value(v).timeout == ctx.timeout,
        ctx.with_args(v).args == Some(v),
        ctx.with_args(v).value == ctx.value,
        ctx.with_args(v).req_ctx == ctx.req_ctx,
        ctx.with_args(v).graphql_ctx == ctx.graphql_ctx,
        ctx.with_args(v).timeout == ctx.timeout,
{
}

/// A context gives of its value, and of its arguments, what stands there at the end of a path, and
/// nothing where there is none.
pub proof fn law_context_is_read_by_path<Ctx>(ctx: ContextModel<Ctx>, path: Seq<Seq<char>>)
    ensures
        ctx.value matches Some(v) ==> ctx.path_value(path) == at_path(v, path),
        ctx.value is None ==> ctx.path_value(path) is None,
        ctx.args matches Some(v) ==> ctx.arg(path) == at_path(v, path),
        ctx.args is None ==> ctx.arg(path) is None,
{
}

/// The value of the context is what it shows, or null where it shows none. It takes no reply.
pub proof fn law_value_is_that_of_the_context<Ctx>(
    ctx: ContextModel<Ctx>,
    conc: Concurrent,
    replies: Seq<ReplyModel>,
)
    ensures
        evaluated(ExpressionModel::ContextValue, ctx, conc, replies) == Outcome::<Ctx>::Value(
            match ctx.value {
                Some(v) => v,
                None => ValueModel::Null,
            },
            replies,
        ),
{
}

/// A path into the context is that path into its value.
pub proof fn law_context_path_is_path_of_value<Ctx>(
    path: Seq<Seq<char>>,
    ctx: ContextModel<Ctx>,
    conc: Concurrent,
    replies: Seq<ReplyModel>,
)
    ensures
        evaluated(ExpressionModel::ContextPath(path), ctx, conc, replies) == evaluated(
            ExpressionModel::Path(Box::new(ExpressionModel::ContextValue), path),
            ctx,
            conc,
            replies,
        ),
{
    reveal_with_fuel(evaluated, 2);
}

/// A path gives what stands at its end in what it is a path of, and null where nothing does.
pub proof fn law_path_leads_into_the_value<Ctx>(
    e: ExpressionModel,
    path: Seq<Seq<char>>,
    ctx: ContextModel<Ctx>,
    conc: Concurrent,
    replies: Seq<ReplyModel>,
    v: ValueModel,
    rest: Seq<ReplyModel>,
)
    requires
        evaluated(e, ctx, conc, replies) == Outcome::<Ctx>::Value(v, rest),
    ensures
        evaluated(ExpressionModel::Path(Box::new(e), path), ctx, conc, replies)
            == Outcome::<Ctx>::Value(
            match at_path(v, path) {
                Some(found) => found,
                None => ValueModel::Null,
            },
            rest,
        ),
{
}

/// An empty path changes nothing, and a path of a path is the two as one.
pub proof fn law_paths_compose<Ctx>(
    e: ExpressionModel,
    first: Seq<Seq<char>>,
    second: Seq<Seq<char>>,
    ctx: ContextModel<Ctx>,
    conc: Concurrent,
    replies: Seq<ReplyModel>,
)
    ensures
        evaluated(ExpressionModel::Path(Box::new(e), Seq::empty()), ctx, conc, replies) == evaluated(
            e,
            ctx,
            conc,
            replies,
        ),
        evaluated(
            ExpressionModel::Path(Box::new(ExpressionModel::Path(Box::new(e), first)), second),
            ctx,
            conc,
            replies,
        ) == evaluated(ExpressionModel::Path(Box::new(e), first + second), ctx, conc, replies),
{
    reveal_with_fuel(evaluated, 3);
    if let Outcome::Value(v, rest) = evaluated(e, ctx, conc, replies) {
        law_paths_lead_on(v, first, second);
        law_paths_lead_on(v, Seq::empty(), second);
    }
}

/// The context in which what gets pushed arguments is evaluated differs from the one around it in
/// its arguments alone, which are what came before.
pub proof fn law_pushed_args_are_seen<Ctx>(
    e: ExpressionModel,
    next: ExpressionModel,
    ctx: ContextModel<Ctx>,
    inner: ContextModel<Ctx>,
    conc: Concurrent,
    replies: Seq<ReplyModel>,
    args: ValueModel,
    rest: Seq<ReplyModel>,
)
    requires
        evaluated(e, ctx, conc, replies) == Outcome::<Ctx>::Value(args, rest),
        inner.args == Some(args),
        inner.value == ctx.value,
        inner.req_ctx == ctx.req_ctx,
        inner.graphql_ctx == ctx.graphql_ctx,
        inner.timeout == ctx.timeout,
    ensures
        evaluated(ExpressionModel::PushArgs(Box::new(e), Box::new(next)), ctx, conc, replies)
            == evaluated(next, inner, conc, rest),
{
    assert(inner == ctx.with_args(args));
}

/// What gets pushed arguments still sees the value of the context around it: the value itself, and
/// what stands in it at the end of any path.
pub proof fn law_pushed_args_leave_the_value<Ctx>(
    e: ExpressionModel,
    path: Seq<Seq<char>>,
    ctx: ContextModel<Ctx>,
    conc: Concurrent,
    replies: Seq<ReplyModel>,
    args: ValueModel,
    rest: Seq<ReplyModel>,
)
    requires
        evaluated(e, ctx, conc, replies) == Outcome::<Ctx>::Value(args, rest),
    ensures
        evaluated(
            ExpressionModel::PushArgs(Box::new(e), Box::new(ExpressionModel::ContextValue)),
            ctx,
            conc,
            replies,
        ) == Outcome::<Ctx>::Value(
            match ctx.value {
                Some(v) => v,
                None => ValueModel::Null,
            },
            rest,
        ),
        evaluated(
            ExpressionModel::PushArgs(Box::new(e), Box::new(ExpressionModel::ContextPath(path))),
            ctx,
            conc,
            replies,
        ) == evaluated(ExpressionModel::ContextPath(path), ctx, conc, rest),
{
    reveal_with_fuel(evaluated, 2);
}

/// The context in which what gets a pushed value is evaluated differs from the one around it in its
/// value alone, which is what came before.
pub proof fn law_pushed_value_is_seen<Ctx>(
    e: ExpressionModel,
    next: ExpressionModel,
    ctx: ContextModel<Ctx>,
    inner: ContextModel<Ctx>,
    conc: Concurrent,
    replies: Seq<ReplyModel>,
    value: ValueModel,
    rest: Seq<ReplyModel>,
)
    requires
        evaluated(e, ctx, conc, replies) == Outcome::<Ctx>::Value(value, rest),
        inner.value == Some(value),
        inner.args == ctx.args,
        inner.req_ctx == ctx.req_ctx,
        inner.graphql_ctx == ctx.graphql_ctx,
        inner.timeout == ctx.timeout,
    ensures
        evaluated(ExpressionModel::PushValue(Box::new(e), Box::new(next)), ctx, conc, replies)
            == evaluated(next, inner, conc, rest),
        evaluated(
            ExpressionModel::PushValue(Box::new(e), Box::new(ExpressionModel::ContextValue)),
            ctx,
            conc,
            replies,
        ) == Outcome::<Ctx>::Value(value, rest),
{
    reveal_with_fuel(evaluated, 2);
    assert(inner == ctx.with_value(value));
}

/// Where the first part of an expression gives no value, the expression ends as that part does.
pub proof fn law_first_part_comes_first<Ctx>(
    e: ExpressionModel,
    next: ExpressionModel,
    path: Seq<Seq<char>>,
    ctx: ContextModel<Ctx>,
    conc: Concurrent,
    replies: Seq<ReplyModel>,
)
    requires
        !(evaluated(e, ctx, conc, replies) is Value),
    ensures
        evaluated(ExpressionModel::PushArgs(Box::new(e), Box::new(next)), ctx, conc, replies)
            == evaluated(e, ctx, conc, replies),
        evaluated(ExpressionModel::PushValue(Box::new(e), Box::new(next)), ctx, conc, replies)
            == evaluated(e, ctx, conc, replies),
        evaluated(ExpressionModel::Path(Box::new(e), path), ctx, conc, replies) == evaluated(
            e,
            ctx,
            conc,
            replies,
        ),
{
}

/// An upstream call, a cached one, a value to render and a context to write out are asked for in the
/// context in which they stand, upstream calls as they may be made. The value of the reply is what
/// they give, and a failure ends the evaluation.
pub proof fn law_outside_work_is_asked_for<Ctx>(
    io: IO,
    cache: Cache,
    value: DynamicModel,
    prefix: Seq<char>,
    ctx: ContextModel<Ctx>,
    conc: Concurrent,
    v: ValueModel,
    rest: Seq<ReplyModel>,
)
    ensures
        evaluated(ExpressionModel::IO(io), ctx, conc, Seq::empty()) == Outcome::Asks(
            RequestModel::IO(io, ctx, conc),
        ),
        evaluated(ExpressionModel::Cache(cache), ctx, conc, Seq::empty()) == Outcome::Asks(
            RequestModel::Cache(cache, ctx, conc),
        ),
        evaluated(ExpressionModel::Dynamic(value), ctx, conc, Seq::empty()) == Outcome::Asks(
            RequestModel::Render(value, ctx),
        ),
        evaluated(ExpressionModel::Debug(prefix), ctx, conc, Seq::empty()) == Outcome::Asks(
            RequestModel::Debug(prefix, ctx),
        ),
        forall|e: ExpressionModel|
            e == ExpressionModel::IO(io) || e == ExpressionModel::Cache(cache) || e
                == ExpressionModel::Dynamic(value) || e == ExpressionModel::Debug(prefix) ==> {
                &&& #[trigger] evaluated(e, ctx, conc, seq![ReplyModel::Value(v)] + rest)
                    == Outcome::<Ctx>::Value(v, rest)
                &&& evaluated(e, ctx, conc, seq![ReplyModel::Failure] + rest)
                    == Outcome::<Ctx>::Failed(FailureModel::Outside)
            },
{
    let replied = seq![ReplyModel::Value(v)] + rest;
    assert(replied.skip(1) =~= rest);
    assert(replied[0] == ReplyModel::Value(v));
    assert((seq![ReplyModel::Failure] + rest)[0] == ReplyModel::Failure);
}

/// What is protected asks for a verdict in its context first. Where the request is admitted it is
/// evaluated in that context as if nothing protected it, and where the request is refused the
/// message says so and gives the reason.
pub proof fn law_protection_admits_or_refuses<Ctx>(
    e: ExpressionModel,
    ctx: ContextModel<Ctx>,
    conc: Concurrent,
    reason: Seq<char>,
    rest: Seq<ReplyModel>,
)
    ensures
        evaluated(ExpressionModel::Protect(Box::new(e)), ctx, conc, Seq::empty()) == Outcome::Asks(
            RequestModel::Validate(ctx),
        ),
        evaluated(
            ExpressionModel::Protect(Box::new(e)),
            ctx,
            conc,
            seq![ReplyModel::Admitted] + rest,
        ) == evaluated(e, ctx, conc, rest),
        evaluated(
            ExpressionModel::Protect(Box::new(e)),
            ctx,
            conc,
            seq![ReplyModel::Refused(reason)] + rest,
        ) == Outcome::<Ctx>::Failed(
            FailureModel::Unauthorized("Authentication Failure: "@ + reason),
        ),
{
    assert((seq![ReplyModel::Admitted] + rest).skip(1) =~= rest);
    assert((seq![ReplyModel::Admitted] + rest)[0] == ReplyModel::Admitted);
    assert((seq![ReplyModel::Refused(reason)] + rest)[0] == ReplyModel::Refused(reason));
}

/// Replies are used up from the front: what an evaluation leaves over is the end of what it was
/// given, and more replies behind the others are left over too.
pub proof fn law_replies_are_used_from_the_front<Ctx>(
    e: ExpressionModel,
    ctx: ContextModel<Ctx>,
    conc: Concurrent,
    replies: Seq<ReplyModel>,
    more: Seq<ReplyModel>,
)
    ensures
        match evaluated(e, ctx, conc, replies) {
            Outcome::Value(v, rest) => {
                &&& rest.len() <= replies.len()
                &&& rest == replies.skip(replies.len() - rest.len())
                &&& evaluated(e, ctx, conc, replies + more) == Outcome::<Ctx>::Value(v, rest + more)
            },
            Outcome::Failed(failure) => evaluated(e, ctx, conc, replies + more)
                == Outcome::<Ctx>::Failed(failure),
            Outcome::Asks(_) => true,
            Outcome::Stray => replies.len() > 0 && evaluated(e, ctx, conc, replies + more)
                == Outcome::<Ctx>::Stray,
        },
    decreases e,
{
    let all = replies + more;
    assert(replies.skip(0) =~= replies);
    if replies.len() > 0 {
        assert(all[0] == replies[0]);
        assert(all.skip(1) =~= replies.skip(1) + more);
    } else {
        assert(replies =~= Seq::empty());
    }
    match e {
        ExpressionModel::PushArgs(expr, and_then) => {
            law_replies_are_used_from_the_front(*expr, ctx, conc, replies, more);
            if let Outcome::Value(v, rest) = evaluated(*expr, ctx, conc, replies) {
                law_replies_are_used_from_the_front(*and_then, ctx.with_args(v), conc, rest, more);
                if let Outcome::Value(w, left) = evaluated(*and_then, ctx.with_args(v), conc, rest) {
                    assert(rest.skip(rest.len() - left.len()) =~= replies.skip(
                        replies.len() - left.len(),
                    ));
                }
            }
        },
        ExpressionModel::PushValue(expr, and_then) => {
            law_replies_are_used_from_the_front(*expr, ctx, conc, replies, more);
            if let Outcome::Value(v, rest) = evaluated(*expr, ctx, conc, replies) {
                law_replies_are_used_from_the_front(*and_then, ctx.with_value(v), conc, rest, more);
                if let Outcome::Value(w, left) = evaluated(*and_then, ctx.with_value(v), conc, rest) {
                    assert(rest.skip(rest.len() - left.len()) =~= replies.skip(
                        replies.len() - left.len(),
                    ));
                }
            }
        },
        ExpressionModel::Path(expr, _) => {
            law_replies_are_used_from_the_front(*expr, ctx, conc, replies, more);
        },
        ExpressionModel::Protect(expr) => {
            if replies.len() > 0 {
                let behind = replies.skip(1);
                law_replies_are_used_from_the_front(*expr, ctx, conc, behind, more);
                if let Outcome::Value(v, rest) = evaluated(*expr, ctx, conc, behind) {
                    assert(behind.skip(behind.len() - rest.len()) =~= replies.skip(
                        replies.len() - rest.len(),
                    ));
                }
            }
        },
        _ => {},
    }
}

/// A compiled expression, run with the calls that it was compiled with, ends as the expression
/// evaluates.
pub proof fn law_compiled_runs_as_it_evaluates<Ctx>(
    e: ExpressionModel,
    ctx: ContextModel<Ctx>,
    conc: Concurrent,
    replies: Seq<ReplyModel>,
)
    ensures
        executed(
            compiled(e, 0, 0),
            (Tables { ios: ios_of(e), caches: caches_of(e), conc }),
            ctx,
            replies,
        ) == evaluated(e, ctx, conc, replies),
{
    law_compiling_keeps_meaning(
        e,
        0,
        0,
        Tables { ios: ios_of(e), caches: caches_of(e), conc },
        ctx,
        replies,
    );
}

/// What an expression holds is told by its sort and its parts.
pub proof fn law_expressions_hold_their_parts(
    a: Box<Expression>,
    b: Box<Expression>,
    path: Vec<String>,
    value: DynamicValue,
    io: IO,
    cache: Cache,
)
    ensures
        Expression::Context(Context::Value)@ == ExpressionModel::ContextValue,
        Expression::Context(Context::Path(path))@ == ExpressionModel::ContextPath(views(path@)),
        (Expression::Context(Context::PushArgs { expr: a, and_then: b }))@
            == ExpressionModel::PushArgs(Box::new((*a)@), Box::new((*b)@)),
        (Expression::Context(Context::PushValue { expr: a, and_then: b }))@
            == ExpressionModel::PushValue(Box::new((*a)@), Box::new((*b)@)),
        Expression::Dynamic(value)@ == ExpressionModel::Dynamic(value@),
        Expression::IO(io)@ == ExpressionModel::IO(io),
        Expression::Cache(cache)@ == ExpressionModel::Cache(cache),
        Expression::Path(a, path)@ == ExpressionModel::Path(Box::new((*a)@), views(path@)),
        Expression::Protect(a)@ == ExpressionModel::Protect(Box::new((*a)@)),
{
    reveal_with_fuel(expression_model, 2);
}

/// The calls of an expression are those of its parts, in the order in which the parts stand.
pub proof fn law_calls_are_those_of_the_parts(
    a: ExpressionModel,
    b: ExpressionModel,
    path: Seq<Seq<char>>,
    io: IO,
    cache: Cache,
)
    ensures
        ios_of(ExpressionModel::PushArgs(Box::new(a), Box::new(b))) == ios_of(a) + ios_of(b),
        ios_of(ExpressionModel::PushValue(Box::new(a), Box::new(b))) == ios_of(a) + ios_of(b),
        ios_of(ExpressionModel::Path(Box::new(a), path)) == ios_of(a),
        ios_of(ExpressionModel::Protect(Box::new(a))) == ios_of(a),
        ios_of(ExpressionModel::IO(io)) == seq![io],
        ios_of(ExpressionModel::Cache(cache)).len() == 0,
        caches_of(ExpressionModel::PushArgs(Box::new(a), Box::new(b))) == caches_of(a) + caches_of(b),
        caches_of(ExpressionModel::PushValue(Box::new(a), Box::new(b))) == caches_of(a) + caches_of(
            b,
        ),
        caches_of(ExpressionModel::Path(Box::new(a), path)) == caches_of(a),
        caches_of(ExpressionModel::Protect(Box::new(a))) == caches_of(a),
        caches_of(ExpressionModel::Cache(cache)) == seq![cache],
        caches_of(ExpressionModel::IO(io)).len() == 0,
{
}

/// An upstream call is shown under its name, what is protected as that around what it protects, and
/// any other expression by its sort.
pub proof fn law_labels_tell_the_sort(
    a: ExpressionModel,
    b: ExpressionModel,
    path: Seq<Seq<char>>,
    io: IO,
    cache: Cache,
    value: DynamicModel,
)
    ensures
        label(ExpressionModel::IO(io)) == io.name@,
        label(ExpressionModel::Protect(Box::new(a))) == "Protected("@ + label(a) + ")"@,
        label(ExpressionModel::Path(Box::new(a), path)) == "Input"@,
        label(ExpressionModel::Cache(cache)) == "Cache"@,
        label(ExpressionModel::Dynamic(value)) == "Literal"@,
        label(ExpressionModel::ContextValue) == "Context"@,
        label(ExpressionModel::ContextPath(path)) == "Context"@,
        label(ExpressionModel::PushArgs(Box::new(a), Box::new(b))) == "Context"@,
        label(ExpressionModel::PushValue(Box::new(a), Box::new(b))) == "Context"@,
{
}

/// A context shows what was put in place of the value, or of the arguments, of the GraphQL operation,
/// and what the operation has where nothing was. The arguments are shown as one object.
pub proof fn law_context_shows_what_was_put_in_place<'a, Ctx: ResolverContextLike>(
    ctx: EvaluationContext<'a, Ctx>,
)
    ensures
        ctx@.value == match ctx.pushed_value {
            Some(v) => Some(v@),
            None => ctx.graphql_ctx.parent(),
        },
        ctx.pushed_args matches Some(v) ==> ctx@.args == Some(v@),
        ctx.pushed_args is None ==> match ctx.graphql_ctx.arguments() {
            Some(members) => ctx@.args == Some(ValueModel::Object(members)),
            None => ctx@.args is None,
        },
        ctx@.req_ctx == *ctx.req_ctx,
        ctx@.graphql_ctx == *ctx.graphql_ctx,
        ctx@.timeout == ctx.timeout,
{
}

/// A GraphQL operation has the value, the arguments and the field that it was given; outside any
/// operation there are none.
pub proof fn law_operation_has_what_it_was_given(ctx: ResolverContext, none: EmptyResolverContext)
    ensures
        ctx.value matches Some(v) ==> ctx.parent() == Some(v@),
        ctx.value is None ==> ctx.parent() is None,
        ctx.args matches Some(members) ==> ctx.arguments() == Some(
            Seq::new(members@.len(), |i: int| (members@[i].0@, members@[i].1@)),
        ),
        ctx.args is None ==> ctx.arguments() is None,
        ctx.selected() == ctx.field,
        none.parent() is None,
        none.arguments() is None,
        none.selected() is None,
{
    if let Some(members) = ctx.args {
        assert(ctx.arguments()->0 =~= Seq::new(
            members@.len(),
            |i: int| (members@[i].0@, members@[i].1@),
        ));
    }
}

/// A request holds the work with the context that it is asked for in, and a reply what came of it.
pub proof fn law_requests_and_replies_hold_their_parts<'a, Ctx: ResolverContextLike, E>(
    value: DynamicValue,
    io: IO,
    cache: Cache,
    prefix: String,
    ctx: EvaluationContext<'a, Ctx>,
    conc: Concurrent,
    v: Value,
    error: E,
    reason: String,
)
    ensures
        (Request::Render { value, ctx })@ == RequestModel::Render(value@, ctx@),
        (Request::IO { io, ctx, conc })@ == RequestModel::IO(io, ctx@, conc),
        (Request::Cache { cache, ctx, conc })@ == RequestModel::Cache(cache, ctx@, conc),
        (Request::Debug { prefix, ctx })@ == RequestModel::Debug(prefix@, ctx@),
        (Request::Validate { ctx })@ == RequestModel::Validate(ctx@),
        Reply::<E>::Value(v)@ == ReplyModel::Value(v@),
        Reply::<E>::Failure(error)@ == ReplyModel::Failure,
        Reply::<E>::Admitted@ == ReplyModel::Admitted,
        Reply::<E>::Refused(reason)@ == ReplyModel::Refused(reason@),
{
}

} // verus!
