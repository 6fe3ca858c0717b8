//! Running an executable expression.
//!
//! An [`Execution`] holds a stack of expressions that are still to be computed. It goes as far as
//! it can on its own; where it needs an upstream, a template or a verdict on the request, it hands
//! out a [`Request`] and goes on when the [`Reply`] has come.
use vstd::prelude::*;
use vstd::string::*;

use crate::lambda::evaluation_context::{ContextModel, EvaluationContext};
use crate::lambda::expression::{
    caches_of, compiled, ios_of, runnable, Cache, DynamicModel, DynamicValue, ExecutableContext,
    ExecutableExpression, ExecutableModel, ExpressionModel, IO,
};
use crate::lambda::resolver_context::ResolverContextLike;
use crate::value;
use crate::value::{at_path, Value, ValueModel};

verus! {

/// How outside work may be done: one call after the other, or several at a time.
#[derive(Clone, Copy, Debug, PartialEq, Eq)]
pub enum Concurrent {
    Sequential,
    Parallel,
}

/// Work that an execution cannot do on its own.
pub enum Request<'a, Ctx: ResolverContextLike> {
    /// Render the value against the context.
    Render { value: DynamicValue, ctx: EvaluationContext<'a, Ctx> },
    /// Make the upstream call.
    IO { io: IO, ctx: EvaluationContext<'a, Ctx>, conc: Concurrent },
    /// Look the call up in the cache, and make it where it is not there.
    Cache { cache: Cache, ctx: EvaluationContext<'a, Ctx>, conc: Concurrent },
    /// Write the context out under the prefix.
    Debug { prefix: String, ctx: EvaluationContext<'a, Ctx> },
    /// Decide whether the request may see what is protected.
    Validate { ctx: EvaluationContext<'a, Ctx> },
}

/// What a [`Request`] holds.
#[verifier::reject_recursive_types(Ctx)]
pub enum RequestModel<Ctx> {
    Render(DynamicModel, ContextModel<Ctx>),
    IO(IO, ContextModel<Ctx>, Concurrent),
    Cache(Cache, ContextModel<Ctx>, Concurrent),
    Debug(Seq<char>, ContextModel<Ctx>),
    Validate(ContextModel<Ctx>),
}

impl<'a, Ctx: ResolverContextLike> View for Request<'a, Ctx> {
    type V = RequestModel<Ctx>;

    open spec fn view(&self) -> RequestModel<Ctx> {
        match self {
            Request::Render { value, ctx } => RequestModel::Render(value@, ctx@),
            Request::IO { io, ctx, conc } => RequestModel::IO(*io, ctx@, *conc),
            Request::Cache { cache, ctx, conc } => RequestModel::Cache(*cache, ctx@, *conc),
            Request::Debug { prefix, ctx } => RequestModel::Debug(prefix@, ctx@),
            Request::Validate { ctx } => RequestModel::Validate(ctx@),
        }
    }
}

/// What came of the work that a [`Request`] asked for.
pub enum Reply<E> {
    /// The work gave a value.
    Value(Value),
    /// The work failed.
    Failure(E),
    /// The request may see what is protected.
    Admitted,
    /// The request may not see what is protected, for the reason given.
    Refused(String),
}

/// What a [`Reply`] holds, but for the error of a failure.
pub enum ReplyModel {
    Value(ValueModel),
    Failure,
    Admitted,
    Refused(Seq<char>),
}

impl<E> View for Reply<E> {
    type V = ReplyModel;

    open spec fn view(&self) -> ReplyModel {
        match self {
            Reply::Value(v) => ReplyModel::Value(v@),
            Reply::Failure(_) => ReplyModel::Failure,
            Reply::Admitted => ReplyModel::Admitted,
            Reply::Refused(reason) => ReplyModel::Refused(reason@),
        }
    }
}

/// Whether a reply is one to the request: a verdict where one was asked for, and else a value or a
/// failure.
pub open spec fn answers<Ctx>(reply: ReplyModel, request: RequestModel<Ctx>) -> bool {
    match reply {
        ReplyModel::Value(_) => !(request is Validate),
        ReplyModel::Failure => !(request is Validate),
        ReplyModel::Admitted => request is Validate,
        ReplyModel::Refused(_) => request is Validate,
    }
}

/// Why an execution gave no value.
pub enum Failure<E> {
    /// Work that was asked for failed.
    Outside(E),
    /// The request may not see what is protected; the message says so.
    Unauthorized(String),
}

/// What a [`Failure`] holds, but for the error of outside work.
pub enum FailureModel {
    Outside,
    Unauthorized(Seq<char>),
}

impl<E> View for Failure<E> {
    type V = FailureModel;

    open spec fn view(&self) -> FailureModel {
        match self {
            Failure::Outside(_) => FailureModel::Outside,
            Failure::Unauthorized(message) => FailureModel::Unauthorized(message@),
        }
    }
}

/// The message for a request that was refused.
pub open spec fn refusal(reason: Seq<char>) -> Seq<char> {
    "Authentication Failure: "@ + reason
}

/// How an evaluation that is given some replies ends.
#[verifier::reject_recursive_types(Ctx)]
pub enum Outcome<Ctx> {
    /// It gives the value and leaves these replies unused.
    Value(ValueModel, Seq<ReplyModel>),
    /// It fails.
    Failed(FailureModel),
    /// The replies are used up, and it asks for another.
    Asks(RequestModel<Ctx>),
    /// A reply is of the wrong kind for what was asked.
    Stray,
}

/// Takes the next reply as the value that `request` asked for.
pub open spec fn answered<Ctx>(request: RequestModel<Ctx>, replies: Seq<ReplyModel>) -> Outcome<
    Ctx,
> {
    if replies.len() == 0 {
        Outcome::Asks(request)
    } else {
        match replies[0] {
            ReplyModel::Value(v) => Outcome::Value(v, replies.skip(1)),
            ReplyModel::Failure => Outcome::Failed(FailureModel::Outside),
            _ => Outcome::Stray,
        }
    }
}

/// The value, or null where there is none.
pub open spec fn or_null(v: Option<ValueModel>) -> ValueModel {
    match v {
        Some(x) => x,
        None => ValueModel::Null,
    }
}

/// What an expression evaluates to in a context, given how outside work may be done
/// and the replies to what the expression asks for.
pub open spec fn evaluated<Ctx>(
    e: ExpressionModel,
    ctx: ContextModel<Ctx>,
    conc: Concurrent,
    replies: Seq<ReplyModel>,
) -> Outcome<Ctx>
    decreases e,
{
    match e {
        ExpressionModel::ContextValue => Outcome::Value(or_null(ctx.value), replies),
        ExpressionModel::ContextPath(path) => Outcome::Value(or_null(ctx.path_value(path)), replies),
        ExpressionModel::PushArgs(expr, and_then) => match evaluated(*expr, ctx, conc, replies) {
            Outcome::Value(args, rest) => evaluated(*and_then, ctx.with_args(args), conc, rest),
            other => other,
        },
        ExpressionModel::PushValue(expr, and_then) => match evaluated(*expr, ctx, conc, replies) {
            Outcome::Value(value, rest) => evaluated(*and_then, ctx.with_value(value), conc, rest),
            other => other,
        },
        ExpressionModel::Path(expr, path) => match evaluated(*expr, ctx, conc, replies) {
            Outcome::Value(value, rest) => Outcome::Value(or_null(at_path(value, path)), rest),
            other => other,
        },
        ExpressionModel::Dynamic(value) => answered(RequestModel::Render(value, ctx), replies),
        ExpressionModel::IO(io) => answered(RequestModel::IO(io, ctx, conc), replies),
        ExpressionModel::Cache(cache) => answered(RequestModel::Cache(cache, ctx, conc), replies),
        ExpressionModel::Debug(prefix) => answered(RequestModel::Debug(prefix, ctx), replies),
        ExpressionModel::Protect(expr) => if replies.len() == 0 {
            Outcome::Asks(RequestModel::Validate(ctx))
        } else {
            match replies[0] {
                ReplyModel::Admitted => evaluated(*expr, ctx, conc, replies.skip(1)),
                ReplyModel::Refused(reason) => Outcome::Failed(
                    FailureModel::Unauthorized(refusal(reason)),
                ),
                _ => Outcome::Stray,
            }
        },
    }
}

/// In a chain of expressions each of which gets its arguments from the one before, it does not
/// matter how the chain is grouped.
pub proof fn law_chain_associates<Ctx>(
    a: ExpressionModel,
    b: ExpressionModel,
    c: ExpressionModel,
    ctx: ContextModel<Ctx>,
    conc: Concurrent,
    replies: Seq<ReplyModel>,
)
    ensures
        evaluated(
            ExpressionModel::PushArgs(
                Box::new(ExpressionModel::PushArgs(Box::new(a), Box::new(b))),
                Box::new(c),
            ),
            ctx,
            conc,
            replies,
        ) == evaluated(
            ExpressionModel::PushArgs(
                Box::new(a),
                Box::new(ExpressionModel::PushArgs(Box::new(b), Box::new(c))),
            ),
            ctx,
            conc,
            replies,
        ),
{
    reveal_with_fuel(evaluated, 3);
}

/// A protected expression asks for a verdict before anything else, and a request that is refused
/// gets nothing but a message with the reason.
pub proof fn law_refused_sees_nothing<Ctx>(
    e: ExpressionModel,
    ctx: ContextModel<Ctx>,
    conc: Concurrent,
    reason: Seq<char>,
    replies: Seq<ReplyModel>,
)
    ensures
        evaluated(ExpressionModel::Protect(Box::new(e)), ctx, conc, Seq::empty()) == Outcome::Asks(
            RequestModel::Validate(ctx),
        ),
        evaluated(
            ExpressionModel::Protect(Box::new(e)),
            ctx,
            conc,
            seq![ReplyModel::Refused(reason)] + replies,
        ) == Outcome::<Ctx>::Failed(FailureModel::Unauthorized(refusal(reason))),
{
}

/// The tables that an executable expression refers to, and how what they hold may be called.
pub struct Tables {
    pub ios: Seq<IO>,
    pub caches: Seq<Cache>,
    /// How the calls may be made.
    pub conc: Concurrent,
}

/// What an executable expression evaluates to in a context, given the replies to what it asks for.
pub open spec fn executed<Ctx>(
    e: ExecutableModel,
    tables: Tables,
    ctx: ContextModel<Ctx>,
    replies: Seq<ReplyModel>,
) -> Outcome<Ctx>
    decreases e,
{
    match e {
        ExecutableModel::ContextValue => Outcome::Value(or_null(ctx.value), replies),
        ExecutableModel::ContextPath(path) => Outcome::Value(or_null(ctx.path_value(path)), replies),
        ExecutableModel::PushArgs(expr, and_then) => match executed(*expr, tables, ctx, replies) {
            Outcome::Value(args, rest) => executed(*and_then, tables, ctx.with_args(args), rest),
            other => other,
        },
        ExecutableModel::PushValue(expr, and_then) => match executed(*expr, tables, ctx, replies) {
            Outcome::Value(value, rest) => executed(*and_then, tables, ctx.with_value(value), rest),
            other => other,
        },
        ExecutableModel::Path(expr, path) => match executed(*expr, tables, ctx, replies) {
            Outcome::Value(value, rest) => Outcome::Value(or_null(at_path(value, path)), rest),
            other => other,
        },
        ExecutableModel::Dynamic(value) => answered(RequestModel::Render(value, ctx), replies),
        ExecutableModel::IO(id) => answered(RequestModel::IO(tables.ios[id as int], ctx, tables.conc), replies),
        ExecutableModel::Cache(id) => answered(
            RequestModel::Cache(tables.caches[id as int], ctx, tables.conc),
            replies,
        ),
        ExecutableModel::Debug(prefix) => answered(RequestModel::Debug(prefix, ctx), replies),
        ExecutableModel::Protect(expr) => if replies.len() == 0 {
            Outcome::Asks(RequestModel::Validate(ctx))
        } else {
            match replies[0] {
                ReplyModel::Admitted => executed(*expr, tables, ctx, replies.skip(1)),
                ReplyModel::Refused(reason) => Outcome::Failed(
                    FailureModel::Unauthorized(refusal(reason)),
                ),
                _ => Outcome::Stray,
            }
        },
        ExecutableModel::ThenArgs(_) => Outcome::Stray,
        ExecutableModel::ThenValue(_) => Outcome::Stray,
        ExecutableModel::ThenPath(_) => Outcome::Stray,
    }
}

/// Whether `part` stands in `table` from position `at` on.
pub open spec fn holds_at<A>(table: Seq<A>, at: nat, part: Seq<A>) -> bool {
    &&& at + part.len() <= table.len()
    &&& forall|i: int| 0 <= i < part.len() ==> table[at + i] == #[trigger] part[i]
}

/// Compiling an expression does not change what it evaluates to, nor what it asks for on the way.
pub proof fn law_compiling_keeps_meaning<Ctx>(
    e: ExpressionModel,
    io: nat,
    cache: nat,
    tables: Tables,
    ctx: ContextModel<Ctx>,
    replies: Seq<ReplyModel>,
)
    requires
        holds_at(tables.ios, io, ios_of(e)),
        holds_at(tables.caches, cache, caches_of(e)),
    ensures
        executed(compiled(e, io, cache), tables, ctx, replies) == evaluated(
            e,
            ctx,
            tables.conc,
            replies,
        ),
    decreases e,
{
    match e {
        ExpressionModel::PushArgs(expr, and_then) => {
            lemma_holds_parts(tables.ios, io, ios_of(*expr), ios_of(*and_then));
            lemma_holds_parts(tables.caches, cache, caches_of(*expr), caches_of(*and_then));
            let io2 = io + ios_of(*expr).len();
            let cache2 = cache + caches_of(*expr).len();
            law_compiling_keeps_meaning(*expr, io, cache, tables, ctx, replies);
            if let Outcome::Value(args, rest) = evaluated(*expr, ctx, tables.conc, replies) {
                law_compiling_keeps_meaning(*and_then, io2, cache2, tables, ctx.with_args(args), rest);
            }
        },
        ExpressionModel::PushValue(expr, and_then) => {
            lemma_holds_parts(tables.ios, io, ios_of(*expr), ios_of(*and_then));
            lemma_holds_parts(tables.caches, cache, caches_of(*expr), caches_of(*and_then));
            let io2 = io + ios_of(*expr).len();
            let cache2 = cache + caches_of(*expr).len();
            law_compiling_keeps_meaning(*expr, io, cache, tables, ctx, replies);
            if let Outcome::Value(value, rest) = evaluated(*expr, ctx, tables.conc, replies) {
                law_compiling_keeps_meaning(*and_then, io2, cache2, tables, ctx.with_value(value), rest);
            }
        },
        ExpressionModel::Path(expr, _) => {
            law_compiling_keeps_meaning(*expr, io, cache, tables, ctx, replies);
        },
        ExpressionModel::Protect(expr) => {
            law_compiling_keeps_meaning(*expr, io, cache, tables, ctx, replies.skip(1));
        },
        ExpressionModel::IO(call) => {
            assert(ios_of(e)[0] == call);
        },
        ExpressionModel::Cache(call) => {
            assert(caches_of(e)[0] == call);
        },
        _ => {},
    }
}

proof fn lemma_holds_parts<A>(table: Seq<A>, at: nat, first: Seq<A>, second: Seq<A>)
    requires
        holds_at(table, at, first + second),
    ensures
        holds_at(table, at, first),
        holds_at(table, at + first.len(), second),
{
    let both = first + second;
    assert forall|i: int| 0 <= i < first.len() implies table[at + i] == #[trigger] first[i] by {
        assert(both[i] == first[i]);
    }
    assert forall|i: int| 0 <= i < second.len() implies table[at + first.len() + i]
        == #[trigger] second[i] by {
        assert(both[first.len() + i] == second[i]);
    }
}

/// The number of steps that an executable expression takes at most.
pub open spec fn weight(e: ExecutableModel) -> nat
    decreases e,
{
    match e {
        ExecutableModel::PushArgs(expr, and_then) => weight(*expr) + weight(*and_then) + 2,
        ExecutableModel::PushValue(expr, and_then) => weight(*expr) + weight(*and_then) + 2,
        ExecutableModel::ThenArgs(and_then) => weight(*and_then) + 1,
        ExecutableModel::ThenValue(and_then) => weight(*and_then) + 1,
        ExecutableModel::Path(expr, _) => weight(*expr) + 2,
        ExecutableModel::Protect(expr) => weight(*expr) + 1,
        _ => 1,
    }
}

/// The number of steps that the expressions on a stack take at most.
pub open spec fn stack_weight<Ctx>(stack: Seq<(ContextModel<Ctx>, ExecutableModel)>) -> nat
    decreases stack.len(),
{
    if stack.len() == 0 {
        0
    } else {
        stack_weight(stack.drop_last()) + weight(stack.last().1)
    }
}

/// One more expression adds its own steps.
pub proof fn lemma_stack_weight_push<Ctx>(
    stack: Seq<(ContextModel<Ctx>, ExecutableModel)>,
    frame: (ContextModel<Ctx>, ExecutableModel),
)
    ensures
        stack_weight(stack.push(frame)) == stack_weight(stack) + weight(frame.1),
{
    assert(stack.push(frame).drop_last() =~= stack);
}

/// What comes of computing the expressions on a stack, the topmost first, where `last` is what was
/// computed last.
pub open spec fn driven<Ctx>(
    stack: Seq<(ContextModel<Ctx>, ExecutableModel)>,
    last: Option<ValueModel>,
    tables: Tables,
    replies: Seq<ReplyModel>,
) -> Outcome<Ctx>
    decreases stack_weight(stack),
{
    if stack.len() == 0 {
        Outcome::Value(last->0, replies)
    } else {
        let (ctx, e) = stack.last();
        let rest = stack.drop_last();
        match e {
            ExecutableModel::ContextValue => driven(rest, Some(or_null(ctx.value)), tables, replies),
            ExecutableModel::ContextPath(path) => driven(
                rest,
                Some(or_null(ctx.path_value(path))),
                tables,
                replies,
            ),
            ExecutableModel::PushArgs(expr, and_then) => {
                proof {
                    lemma_stack_weight_push(rest, (ctx, ExecutableModel::ThenArgs(and_then)));
                    lemma_stack_weight_push(
                        rest.push((ctx, ExecutableModel::ThenArgs(and_then))),
                        (ctx, *expr),
                    );
                }
                driven(
                    rest.push((ctx, ExecutableModel::ThenArgs(and_then))).push((ctx, *expr)),
                    last,
                    tables,
                    replies,
                )
            },
            ExecutableModel::ThenArgs(and_then) => {
                proof {
                    lemma_stack_weight_push(rest, (ctx.with_args(last->0), *and_then));
                }
                driven(rest.push((ctx.with_args(last->0), *and_then)), last, tables, replies)
            },
            ExecutableModel::PushValue(expr, and_then) => {
                proof {
                    lemma_stack_weight_push(rest, (ctx, ExecutableModel::ThenValue(and_then)));
                    lemma_stack_weight_push(
                        rest.push((ctx, ExecutableModel::ThenValue(and_then))),
                        (ctx, *expr),
                    );
                }
                driven(
                    rest.push((ctx, ExecutableModel::ThenValue(and_then))).push((ctx, *expr)),
                    last,
                    tables,
                    replies,
                )
            },
            ExecutableModel::ThenValue(and_then) => {
                proof {
                    lemma_stack_weight_push(rest, (ctx.with_value(last->0), *and_then));
                }
                driven(rest.push((ctx.with_value(last->0), *and_then)), last, tables, replies)
            },
            ExecutableModel::Path(expr, path) => {
                proof {
                    lemma_stack_weight_push(rest, (ctx, ExecutableModel::ThenPath(path)));
                    lemma_stack_weight_push(
                        rest.push((ctx, ExecutableModel::ThenPath(path))),
                        (ctx, *expr),
                    );
                }
                driven(
                    rest.push((ctx, ExecutableModel::ThenPath(path))).push((ctx, *expr)),
                    last,
                    tables,
                    replies,
                )
            },
            ExecutableModel::ThenPath(path) => driven(
                rest,
                Some(or_null(at_path(last->0, path))),
                tables,
                replies,
            ),
            ExecutableModel::Protect(expr) => {
                proof {
                    lemma_stack_weight_push(rest, (ctx, *expr));
                }
                if replies.len() == 0 {
                    Outcome::Asks(RequestModel::Validate(ctx))
                } else {
                    match replies[0] {
                        ReplyModel::Admitted => driven(
                            rest.push((ctx, *expr)),
                            last,
                            tables,
                            replies.skip(1),
                        ),
                        ReplyModel::Refused(reason) => Outcome::Failed(
                            FailureModel::Unauthorized(refusal(reason)),
                        ),
                        _ => Outcome::Stray,
                    }
                }
            },
            _ => match answered(asked(ctx, e, tables), replies) {
                Outcome::Value(value, left) => driven(rest, Some(value), tables, left),
                other => other,
            },
        }
    }
}

/// What an expression that stands for outside work asks for.
pub open spec fn asked<Ctx>(ctx: ContextModel<Ctx>, e: ExecutableModel, tables: Tables) -> RequestModel<
    Ctx,
> {
    match e {
        ExecutableModel::Dynamic(value) => RequestModel::Render(value, ctx),
        ExecutableModel::IO(id) => RequestModel::IO(tables.ios[id as int], ctx, tables.conc),
        ExecutableModel::Cache(id) => RequestModel::Cache(tables.caches[id as int], ctx, tables.conc),
        ExecutableModel::Debug(prefix) => RequestModel::Debug(prefix, ctx),
        _ => RequestModel::Validate(ctx),
    }
}

/// Whether an expression stands for outside work.
pub open spec fn asks(e: ExecutableModel) -> bool {
    e is Dynamic || e is IO || e is Cache || e is Debug || e is Protect
}

/// A stack on which an expression lies uppermost goes on with the rest of the stack once the
/// expression is evaluated, and ends where the expression fails or asks.
pub proof fn law_stack_follows_evaluation<Ctx>(
    stack: Seq<(ContextModel<Ctx>, ExecutableModel)>,
    last: Option<ValueModel>,
    e: ExecutableModel,
    tables: Tables,
    ctx: ContextModel<Ctx>,
    replies: Seq<ReplyModel>,
)
    requires
        runnable(e, tables.ios.len(), tables.caches.len()),
    ensures
        driven(stack.push((ctx, e)), last, tables, replies) == match executed(e, tables, ctx, replies) {
            Outcome::Value(value, rest) => driven(stack, Some(value), tables, rest),
            other => other,
        },
    decreases e,
{
    let all = stack.push((ctx, e));
    assert(all.drop_last() =~= stack);
    match e {
        ExecutableModel::PushArgs(expr, and_then) => {
            let below = stack.push((ctx, ExecutableModel::ThenArgs(and_then)));
            law_stack_follows_evaluation(below, last, *expr, tables, ctx, replies);
            if let Outcome::Value(args, rest) = executed(*expr, tables, ctx, replies) {
                assert(below.drop_last() =~= stack);
                law_stack_follows_evaluation(
                    stack,
                    Some(args),
                    *and_then,
                    tables,
                    ctx.with_args(args),
                    rest,
                );
            }
        },
        ExecutableModel::PushValue(expr, and_then) => {
            let below = stack.push((ctx, ExecutableModel::ThenValue(and_then)));
            law_stack_follows_evaluation(below, last, *expr, tables, ctx, replies);
            if let Outcome::Value(value, rest) = executed(*expr, tables, ctx, replies) {
                assert(below.drop_last() =~= stack);
                law_stack_follows_evaluation(
                    stack,
                    Some(value),
                    *and_then,
                    tables,
                    ctx.with_value(value),
                    rest,
                );
            }
        },
        ExecutableModel::Path(expr, path) => {
            let below = stack.push((ctx, ExecutableModel::ThenPath(path)));
            law_stack_follows_evaluation(below, last, *expr, tables, ctx, replies);
            assert(below.drop_last() =~= stack);
        },
        ExecutableModel::Protect(expr) => {
            law_stack_follows_evaluation(stack, last, *expr, tables, ctx, replies.skip(1));
        },
        _ => {},
    }
}

/// Whether an expression on the stack waits for the value of what was above it.
pub open spec fn waits(e: ExecutableModel) -> bool {
    e is ThenArgs || e is ThenValue || e is ThenPath
}

/// Whether an expression may lie on a stack.
pub open spec fn stackable(e: ExecutableModel, tables: Tables) -> bool {
    match e {
        ExecutableModel::ThenArgs(and_then) => runnable(
            *and_then,
            tables.ios.len(),
            tables.caches.len(),
        ),
        ExecutableModel::ThenValue(and_then) => runnable(
            *and_then,
            tables.ios.len(),
            tables.caches.len(),
        ),
        ExecutableModel::ThenPath(_) => true,
        _ => runnable(e, tables.ios.len(), tables.caches.len()),
    }
}

/// Whether a run is consistent: each expression on the stack may lie there, and a value has been
/// computed wherever the next step needs one.
pub open spec fn consistent<Ctx>(
    stack: Seq<(ContextModel<Ctx>, ExecutableModel)>,
    last: Option<ValueModel>,
    tables: Tables,
) -> bool {
    &&& forall|i: int| 0 <= i < stack.len() ==> stackable((#[trigger] stack[i]).1, tables)
    &&& last is None ==> stack.len() > 0 && !waits(stack.last().1)
}

/// The contents of a stack.
pub open spec fn frames<Ctx: ResolverContextLike>(
    stack: Seq<(EvaluationContext<Ctx>, ExecutableExpression)>,
) -> Seq<(ContextModel<Ctx>, ExecutableModel)> {
    stack.map_values(|f: (EvaluationContext<Ctx>, ExecutableExpression)| (f.0@, f.1@))
}

/// The contents of a value that may not have been computed yet.
pub open spec fn last_model(last: Option<Value>) -> Option<ValueModel> {
    match last {
        Some(v) => Some(v@),
        None => None,
    }
}

/// A run that waits for the reply to a request.
pub struct Execution<'a, Ctx: ResolverContextLike> {
    stack: Vec<(EvaluationContext<'a, Ctx>, ExecutableExpression)>,
    last: Option<Value>,
    ios: Vec<IO>,
    caches: Vec<Cache>,
    conc: Concurrent,
}

impl<'a, Ctx: ResolverContextLike> Execution<'a, Ctx> {
    spec fn tables(self) -> Tables {
        Tables { ios: self.ios@, caches: self.caches@, conc: self.conc }
    }

    /// Whether the run is consistent and waits for a reply.
    pub closed spec fn wf(self) -> bool {
        &&& consistent(frames(self.stack@), last_model(self.last), self.tables())
        &&& self.stack@.len() > 0
        &&& asks(frames(self.stack@).last().1)
    }

    /// The request that the run waits on.
    pub closed spec fn asked(self) -> RequestModel<Ctx> {
        let (ctx, e) = frames(self.stack@).last();
        asked(ctx, e, self.tables())
    }

    /// How the run ends, given the replies to what it asks for.
    pub closed spec fn outcome(self, replies: Seq<ReplyModel>) -> Outcome<Ctx> {
        driven(frames(self.stack@), last_model(self.last), self.tables(), replies)
    }
}

/// How far a run has come.
pub enum Progress<'a, Ctx: ResolverContextLike> {
    /// It has ended with the value.
    Done(Value),
    /// It goes on when the request has been replied to.
    Asks { request: Request<'a, Ctx>, execution: Execution<'a, Ctx> },
}

impl<'a, Ctx: ResolverContextLike> Progress<'a, Ctx> {
    /// Whether a run that has not ended waits on the request that it hands out.
    pub open spec fn wf(self) -> bool {
        match self {
            Progress::Done(_) => true,
            Progress::Asks { request, execution } => execution.wf() && execution.asked() == request@,
        }
    }

    /// How the run ends, given the replies to what it asks for.
    pub open spec fn outcome(self, replies: Seq<ReplyModel>) -> Outcome<Ctx> {
        match self {
            Progress::Done(value) => Outcome::Value(value@, replies),
            Progress::Asks { request, execution } => execution.outcome(replies),
        }
    }
}

/// A run that hands out a request asks for it before anything else.
pub proof fn law_request_comes_first<Ctx: ResolverContextLike>(progress: Progress<Ctx>)
    requires
        progress.wf(),
        progress is Asks,
    ensures
        progress.outcome(Seq::<ReplyModel>::empty()) == Outcome::<Ctx>::Asks(
            progress->request@,
        ),
{
}

/// The value found, or null.
fn found_or_null(found: Option<&Value>) -> (res: Value)
    ensures
        res@ == or_null(value::option_model(found)),
{
    match found {
        Some(v) => v.clone(),
        None => Value::Null,
    }
}

/// Hands out what the expression on top of the stack asks for.
fn request_of<'a, Ctx: ResolverContextLike>(
    ctx: &EvaluationContext<'a, Ctx>,
    e: &ExecutableExpression,
    ios: &Vec<IO>,
    caches: &Vec<Cache>,
    conc: Concurrent,
) -> (res: Request<'a, Ctx>)
    requires
        asks(e@),
        runnable(e@, ios@.len(), caches@.len()),
    ensures
        res@ == asked(ctx@, e@, (Tables { ios: ios@, caches: caches@, conc })),
{
    match e {
        ExecutableExpression::Dynamic(value) => Request::Render {
            value: value.clone(),
            ctx: ctx.clone(),
        },
        ExecutableExpression::IO(id) => Request::IO { io: ios[*id].clone(), ctx: ctx.clone(), conc },
        ExecutableExpression::Cache(id) => Request::Cache {
            cache: caches[*id],
            ctx: ctx.clone(),
            conc,
        },
        ExecutableExpression::Debug(prefix) => Request::Debug {
            prefix: prefix.clone(),
            ctx: ctx.clone(),
        },
        _ => Request::Validate { ctx: ctx.clone() },
    }
}

proof fn lemma_frames_push<Ctx: ResolverContextLike>(
    stack: Seq<(EvaluationContext<Ctx>, ExecutableExpression)>,
    frame: (EvaluationContext<Ctx>, ExecutableExpression),
)
    ensures
        frames(stack.push(frame)) == frames(stack).push((frame.0@, frame.1@)),
        frames(stack.push(frame)).drop_last() == frames(stack),
{
    assert(frames(stack.push(frame)) =~= frames(stack).push((frame.0@, frame.1@)));
    assert(frames(stack.push(frame)).drop_last() =~= frames(stack));
}

proof fn lemma_runnable_on_top(e: ExecutableModel, tables: Tables)
    requires
        runnable(e, tables.ios.len(), tables.caches.len()),
    ensures
        stackable(e, tables),
        !waits(e),
{
}

/// Computes what lies on the stack until it is empty or outside work is needed.
fn run<'a, Ctx: ResolverContextLike>(
    start: Vec<(EvaluationContext<'a, Ctx>, ExecutableExpression)>,
    before: Option<Value>,
    ios: Vec<IO>,
    caches: Vec<Cache>,
    conc: Concurrent,
) -> (res: Progress<'a, Ctx>)
    requires
        consistent(
            frames(start@),
            last_model(before),
            (Tables { ios: ios@, caches: caches@, conc }),
        ),
    ensures
        res.wf(),
        forall|replies: Seq<ReplyModel>| #[trigger]
            res.outcome(replies) == driven(
                frames(start@),
                last_model(before),
                (Tables { ios: ios@, caches: caches@, conc }),
                replies,
            ),
{
    let ghost tables = Tables { ios: ios@, caches: caches@, conc };
    let ghost first_frames = frames(start@);
    let ghost first_last = last_model(before);
    let mut stack = start;
    let mut last = before;
    loop
        invariant
            tables == (Tables { ios: ios@, caches: caches@, conc }),
            consistent(frames(stack@), last_model(last), tables),
            first_frames == frames(start@),
            first_last == last_model(before),
            forall|replies: Seq<ReplyModel>| #[trigger]
                driven(first_frames, first_last, tables, replies) == driven(
                    frames(stack@),
                    last_model(last),
                    tables,
                    replies,
                ),
        decreases stack_weight(frames(stack@)),
    {
        let ghost all = stack@;
        match stack.pop() {
            None => {
                let value = last.unwrap();
                return Progress::Done(value);
            },
            Some((ctx, e)) => {
                proof {
                    assert(all =~= stack@.push((ctx, e)));
                    lemma_frames_push(stack@, (ctx, e));
                    let f = frames(all);
                    assert(f.last() == (ctx@, e@));
                    assert(stackable(e@, tables)) by {
                        assert(stackable(f[f.len() - 1].1, tables));
                    }
                    assert forall|i: int| 0 <= i < frames(stack@).len() implies stackable(
                        (#[trigger] frames(stack@)[i]).1,
                        tables,
                    ) by {
                        assert(f[i] == frames(stack@)[i]);
                    }
                }
                let ghost below = stack@;
                match e {
                    ExecutableExpression::Context(context) => match context {
                        ExecutableContext::Value => {
                            last = Some(found_or_null(ctx.value()));
                        },
                        ExecutableContext::Path(path) => {
                            last = Some(found_or_null(ctx.path_value(path.as_slice())));
                        },
                        ExecutableContext::PushArgs { expr: Some(expr), and_then } => {
                            let wait = ExecutableExpression::Context(
                                ExecutableContext::PushArgs { expr: None, and_then },
                            );
                            let first = ctx.clone();
                            proof {
                                lemma_frames_push(below, (first, wait));
                                lemma_frames_push(below.push((first, wait)), (ctx, *expr));
                                lemma_runnable_on_top((*expr)@, tables);
                                lemma_stack_weight_push(frames(below), (ctx@, wait@));
                                lemma_stack_weight_push(
                                    frames(below).push((ctx@, wait@)),
                                    (ctx@, (*expr)@),
                                );
                            }
                            stack.push((first, wait));
                            stack.push((ctx, *expr));
                        },
                        ExecutableContext::PushArgs { expr: None, and_then } => {
                            let args = last.unwrap();
                            let inner = ctx.with_args(args.clone());
                            last = Some(args);
                            proof {
                                lemma_frames_push(below, (inner, *and_then));
                                lemma_runnable_on_top((*and_then)@, tables);
                                lemma_stack_weight_push(frames(below), (inner@, (*and_then)@));
                            }
                            stack.push((inner, *and_then));
                        },
                        ExecutableContext::PushValue { expr: Some(expr), and_then } => {
                            let wait = ExecutableExpression::Context(
                                ExecutableContext::PushValue { expr: None, and_then },
                            );
                            let first = ctx.clone();
                            proof {
                                lemma_frames_push(below, (first, wait));
                                lemma_frames_push(below.push((first, wait)), (ctx, *expr));
                                lemma_runnable_on_top((*expr)@, tables);
                                lemma_stack_weight_push(frames(below), (ctx@, wait@));
                                lemma_stack_weight_push(
                                    frames(below).push((ctx@, wait@)),
                                    (ctx@, (*expr)@),
                                );
                            }
                            stack.push((first, wait));
                            stack.push((ctx, *expr));
                        },
                        ExecutableContext::PushValue { expr: None, and_then } => {
                            let value = last.unwrap();
                            let inner = ctx.with_value(value.clone());
                            last = Some(value);
                            proof {
                                lemma_frames_push(below, (inner, *and_then));
                                lemma_runnable_on_top((*and_then)@, tables);
                                lemma_stack_weight_push(frames(below), (inner@, (*and_then)@));
                            }
                            stack.push((inner, *and_then));
                        },
                    },
                    ExecutableExpression::Path(Some(expr), path) => {
                        let wait = ExecutableExpression::Path(None, path);
                        let first = ctx.clone();
                        proof {
                            lemma_frames_push(below, (first, wait));
                            lemma_frames_push(below.push((first, wait)), (ctx, *expr));
                            lemma_runnable_on_top((*expr)@, tables);
                            lemma_stack_weight_push(frames(below), (ctx@, wait@));
                            lemma_stack_weight_push(
                                frames(below).push((ctx@, wait@)),
                                (ctx@, (*expr)@),
                            );
                        }
                        stack.push((first, wait));
                        stack.push((ctx, *expr));
                    },
                    ExecutableExpression::Path(None, path) => {
                        let value = last.unwrap();
                        last = Some(
                            found_or_null(value::get_path_value(&value, path.as_slice())),
                        );
                    },
                    other => {
                        let request = request_of(&ctx, &other, &ios, &caches, conc);
                        stack.push((ctx, other));
                        proof {
                            assert(stack@ =~= all);
                        }
                        return Progress::Asks {
                            request,
                            execution: Execution { stack, last, ios, caches, conc },
                        };
                    },
                }
            },
        }
    }
}

impl<'a, Ctx: ResolverContextLike> Execution<'a, Ctx> {
    /// Starts on an expression with the tables that it refers to.
    pub(crate) fn start(
        ctx: EvaluationContext<'a, Ctx>,
        e: ExecutableExpression,
        ios: Vec<IO>,
        caches: Vec<Cache>,
        conc: Concurrent,
    ) -> (res: Progress<'a, Ctx>)
        requires
            runnable(e@, ios@.len(), caches@.len()),
        ensures
            res.wf(),
            forall|replies: Seq<ReplyModel>| #[trigger]
                res.outcome(replies) == executed(
                    e@,
                    (Tables { ios: ios@, caches: caches@, conc }),
                    ctx@,
                    replies,
                ),
    {
        let ghost tables = Tables { ios: ios@, caches: caches@, conc };
        let ghost none = Seq::<(EvaluationContext<Ctx>, ExecutableExpression)>::empty();
        let mut stack: Vec<(EvaluationContext<'a, Ctx>, ExecutableExpression)> = Vec::new();
        proof {
            lemma_frames_push(none, (ctx, e));
            lemma_runnable_on_top(e@, tables);
            assert(frames(none) =~= Seq::empty());
            assert forall|replies: Seq<ReplyModel>| #[trigger]
                driven(Seq::empty().push((ctx@, e@)), None, tables, replies) == executed(
                    e@,
                    tables,
                    ctx@,
                    replies,
                ) by {
                law_stack_follows_evaluation(Seq::empty(), None, e@, tables, ctx@, replies);
            }
        }
        stack.push((ctx, e));
        run(stack, None, ios, caches, conc)
    }

    /// Goes on with the reply to the request that the run waits on.
    ///
    /// Work that failed ends the run with its error, and a refusal ends it with a message that
    /// gives the reason. With any other reply the run goes on.
    pub fn resume<E>(self, reply: Reply<E>) -> (res: Result<Progress<'a, Ctx>, Failure<E>>)
        requires
            self.wf(),
            answers(reply@, self.asked()),
        ensures
            match reply {
                Reply::Value(_) => res is Ok,
                Reply::Admitted => res is Ok,
                Reply::Failure(e) => res == Err::<Progress<'a, Ctx>, Failure<E>>(Failure::Outside(e)),
                Reply::Refused(reason) => res is Err && res->Err_0@ == FailureModel::Unauthorized(
                    refusal(reason@),
                ),
            },
            match res {
                Ok(progress) => progress.wf() && forall|replies: Seq<ReplyModel>| #[trigger]
                    progress.outcome(replies) == self.outcome(seq![reply@] + replies),
                Err(failure) => forall|replies: Seq<ReplyModel>| #[trigger]
                    self.outcome(seq![reply@] + replies) == Outcome::<Ctx>::Failed(failure@),
            },
    {
        let ghost whole = self;
        let ghost tables = self.tables();
        let Execution { mut stack, last, ios, caches, conc } = self;
        let ghost all = stack@;
        let ghost answer = reply@;
        let (ctx, e) = stack.pop().unwrap();
        proof {
            assert(all =~= stack@.push((ctx, e)));
            lemma_frames_push(stack@, (ctx, e));
            let f = frames(all);
            assert(f.last() == (ctx@, e@));
            assert(stackable(f[f.len() - 1].1, tables));
            assert forall|i: int| 0 <= i < frames(stack@).len() implies stackable(
                (#[trigger] frames(stack@)[i]).1,
                tables,
            ) by {
                assert(f[i] == frames(stack@)[i]);
            }
            assert forall|replies: Seq<ReplyModel>| (#[trigger] (seq![answer] + replies))[0] == answer
                && (seq![answer] + replies).skip(1) == replies by {
                assert((seq![answer] + replies).skip(1) =~= replies);
            }
        }
        match reply {
            Reply::Value(value) => Ok(run(stack, Some(value), ios, caches, conc)),
            Reply::Failure(error) => Err(Failure::Outside(error)),
            Reply::Admitted => {
                if let ExecutableExpression::Protect(expr) = e {
                    proof {
                        lemma_frames_push(stack@, (ctx, *expr));
                        lemma_runnable_on_top((*expr)@, tables);
                    }
                    stack.push((ctx, *expr));
                }
                Ok(run(stack, last, ios, caches, conc))
            },
            Reply::Refused(reason) => {
                let mut message = "Authentication Failure: ".to_string();
                message.append(reason.as_str());
                Err(Failure::Unauthorized(message))
            },
        }
    }
}

} // verus!
