//! Expressions, and the executable form that they are compiled to.
use vstd::prelude::*;
use vstd::string::*;

use crate::lambda::evaluation_context::EvaluationContext;
use crate::lambda::execution::{
    evaluated, executed, law_compiling_keeps_meaning, Concurrent, Execution, Progress, ReplyModel,
    Tables,
};
use crate::lambda::resolver_context::ResolverContextLike;
use crate::text::views;
use crate::value::{Value, ValueModel};

verus! {

/// A value that may have to be rendered against a context.
#[derive(Debug, PartialEq, Eq)]
pub enum DynamicValue {
    Value(Value),
    Mustache(String),
}

/// What a [`DynamicValue`] holds.
pub enum DynamicModel {
    Value(ValueModel),
    Mustache(Seq<char>),
}

impl View for DynamicValue {
    type V = DynamicModel;

    open spec fn view(&self) -> DynamicModel {
        match self {
            DynamicValue::Value(v) => DynamicModel::Value(v@),
            DynamicValue::Mustache(s) => DynamicModel::Mustache(s@),
        }
    }
}

impl Clone for DynamicValue {
    fn clone(&self) -> (res: DynamicValue)
        ensures
            res@ == self@,
    {
        match self {
            DynamicValue::Value(v) => DynamicValue::Value(v.clone()),
            DynamicValue::Mustache(s) => DynamicValue::Mustache(s.clone()),
        }
    }
}

/// A call to an upstream, by the name that it is shown under and the number that tells it apart.
#[derive(Debug, PartialEq, Eq)]
pub struct IO {
    pub name: String,
    pub id: u64,
}

impl Clone for IO {
    fn clone(&self) -> (res: IO)
        ensures
            res == *self,
    {
        IO { name: self.name.clone(), id: self.id }
    }
}

/// A cached upstream call, by the number that tells it apart.
#[derive(Clone, Copy, Debug, PartialEq, Eq)]
pub struct Cache {
    pub id: u64,
}

/// What a field resolves to.
#[derive(Debug, PartialEq, Eq)]
pub enum Expression {
    Context(Context),
    Dynamic(DynamicValue),
    IO(IO),
    Cache(Cache),
    Path(Box<Expression>, Vec<String>),
    Protect(Box<Expression>),
    Debug(String),
}

/// What an expression takes from its context, or puts into it for another one.
#[derive(Debug, PartialEq, Eq)]
pub enum Context {
    Value,
    Path(Vec<String>),
    PushArgs { expr: Box<Expression>, and_then: Box<Expression> },
    PushValue { expr: Box<Expression>, and_then: Box<Expression> },
}

/// What an [`Expression`] holds.
pub enum ExpressionModel {
    ContextValue,
    ContextPath(Seq<Seq<char>>),
    PushArgs(Box<ExpressionModel>, Box<ExpressionModel>),
    PushValue(Box<ExpressionModel>, Box<ExpressionModel>),
    Dynamic(DynamicModel),
    IO(IO),
    Cache(Cache),
    Path(Box<ExpressionModel>, Seq<Seq<char>>),
    Protect(Box<ExpressionModel>),
    Debug(Seq<char>),
}

/// The model of an expression.
pub open spec fn expression_model(e: Expression) -> ExpressionModel
    decreases e,
{
    match e {
        Expression::Context(Context::Value) => ExpressionModel::ContextValue,
        Expression::Context(Context::Path(path)) => ExpressionModel::ContextPath(views(path@)),
        Expression::Context(Context::PushArgs { expr, and_then }) => ExpressionModel::PushArgs(
            Box::new(expression_model(*expr)),
            Box::new(expression_model(*and_then)),
        ),
        Expression::Context(Context::PushValue { expr, and_then }) => ExpressionModel::PushValue(
            Box::new(expression_model(*expr)),
            Box::new(expression_model(*and_then)),
        ),
        Expression::Dynamic(value) => ExpressionModel::Dynamic(value@),
        Expression::IO(io) => ExpressionModel::IO(io),
        Expression::Cache(cache) => ExpressionModel::Cache(cache),
        Expression::Path(expr, path) => ExpressionModel::Path(
            Box::new(expression_model(*expr)),
            views(path@),
        ),
        Expression::Protect(expr) => ExpressionModel::Protect(Box::new(expression_model(*expr))),
        Expression::Debug(prefix) => ExpressionModel::Debug(prefix@),
    }
}

impl View for Expression {
    type V = ExpressionModel;

    open spec fn view(&self) -> ExpressionModel {
        expression_model(*self)
    }
}

/// Copies a path.
pub(crate) fn clone_path(path: &Vec<String>) -> (res: Vec<String>)
    ensures
        views(res@) == views(path@),
{
    let mut res: Vec<String> = Vec::new();
    for i in 0..path.len()
        invariant
            views(res@) == views(path@).take(i as int),
    {
        let ghost before = res@;
        let name = path[i].clone();
        res.push(name);
        proof {
            assert(views(res@) =~= views(before).push(name@));
            assert(views(path@).take(i + 1) =~= views(path@).take(i as int).push(name@));
        }
    }
    proof {
        assert(views(path@).take(path.len() as int) =~= views(path@));
    }
    res
}

impl Clone for Expression {
    fn clone(&self) -> (res: Expression)
        ensures
            res@ == self@,
        decreases self,
    {
        match self {
            Expression::Context(context) => Expression::Context(
                match context {
                    Context::Value => Context::Value,
                    Context::Path(path) => Context::Path(clone_path(path)),
                    Context::PushArgs { expr, and_then } => Context::PushArgs {
                        expr: Box::new((**expr).clone()),
                        and_then: Box::new((**and_then).clone()),
                    },
                    Context::PushValue { expr, and_then } => Context::PushValue {
                        expr: Box::new((**expr).clone()),
                        and_then: Box::new((**and_then).clone()),
                    },
                },
            ),
            Expression::Dynamic(value) => Expression::Dynamic(value.clone()),
            Expression::IO(io) => Expression::IO(io.clone()),
            Expression::Cache(cache) => Expression::Cache(*cache),
            Expression::Path(expr, path) => Expression::Path(
                Box::new((**expr).clone()),
                clone_path(path),
            ),
            Expression::Protect(expr) => Expression::Protect(Box::new((**expr).clone())),
            Expression::Debug(prefix) => Expression::Debug(prefix.clone()),
        }
    }
}

/// The text that an expression is shown as.
pub open spec fn label(e: ExpressionModel) -> Seq<char>
    decreases e,
{
    match e {
        ExpressionModel::ContextValue => "Context"@,
        ExpressionModel::ContextPath(_) => "Context"@,
        ExpressionModel::PushArgs(_, _) => "Context"@,
        ExpressionModel::PushValue(_, _) => "Context"@,
        ExpressionModel::Dynamic(_) => "Literal"@,
        ExpressionModel::IO(io) => io.name@,
        ExpressionModel::Cache(_) => "Cache"@,
        ExpressionModel::Path(_, _) => "Input"@,
        ExpressionModel::Protect(expr) => "Protected("@ + label(*expr) + ")"@,
        ExpressionModel::Debug(_) => "Debug"@,
    }
}

/// An expression ready to run. Upstream calls stand in the tables of the [`Executable`] and are
/// referred to by their position. Where `expr` is `None`, what it stood for has been computed.
#[derive(Debug, PartialEq, Eq)]
pub enum ExecutableExpression {
    Context(ExecutableContext),
    Dynamic(DynamicValue),
    IO(usize),
    Cache(usize),
    Path(Option<Box<ExecutableExpression>>, Vec<String>),
    Protect(Box<ExecutableExpression>),
    Debug(String),
}

/// The executable form of a [`Context`].
#[derive(Debug, PartialEq, Eq)]
pub enum ExecutableContext {
    Value,
    Path(Vec<String>),
    PushArgs { expr: Option<Box<ExecutableExpression>>, and_then: Box<ExecutableExpression> },
    PushValue { expr: Option<Box<ExecutableExpression>>, and_then: Box<ExecutableExpression> },
}

/// What an [`ExecutableExpression`] holds. The variants that begin with `Then` are those in which
/// `expr` is `None`.
pub enum ExecutableModel {
    ContextValue,
    ContextPath(Seq<Seq<char>>),
    PushArgs(Box<ExecutableModel>, Box<ExecutableModel>),
    ThenArgs(Box<ExecutableModel>),
    PushValue(Box<ExecutableModel>, Box<ExecutableModel>),
    ThenValue(Box<ExecutableModel>),
    Dynamic(DynamicModel),
    IO(nat),
    Cache(nat),
    Path(Box<ExecutableModel>, Seq<Seq<char>>),
    ThenPath(Seq<Seq<char>>),
    Protect(Box<ExecutableModel>),
    Debug(Seq<char>),
}

/// The model of an executable expression.
pub open spec fn executable_model(e: ExecutableExpression) -> ExecutableModel
    decreases e,
{
    match e {
        ExecutableExpression::Context(ExecutableContext::Value) => ExecutableModel::ContextValue,
        ExecutableExpression::Context(ExecutableContext::Path(path)) => ExecutableModel::ContextPath(
            views(path@),
        ),
        ExecutableExpression::Context(ExecutableContext::PushArgs { expr: Some(expr), and_then }) =>
            ExecutableModel::PushArgs(
            Box::new(executable_model(*expr)),
            Box::new(executable_model(*and_then)),
        ),
        ExecutableExpression::Context(ExecutableContext::PushArgs { expr: None, and_then }) =>
            ExecutableModel::ThenArgs(Box::new(executable_model(*and_then))),
        ExecutableExpression::Context(ExecutableContext::PushValue { expr: Some(expr), and_then }) =>
            ExecutableModel::PushValue(
            Box::new(executable_model(*expr)),
            Box::new(executable_model(*and_then)),
        ),
        ExecutableExpression::Context(ExecutableContext::PushValue { expr: None, and_then }) =>
            ExecutableModel::ThenValue(Box::new(executable_model(*and_then))),
        ExecutableExpression::Dynamic(value) => ExecutableModel::Dynamic(value@),
        ExecutableExpression::IO(id) => ExecutableModel::IO(id as nat),
        ExecutableExpression::Cache(id) => ExecutableModel::Cache(id as nat),
        ExecutableExpression::Path(Some(expr), path) => ExecutableModel::Path(
            Box::new(executable_model(*expr)),
            views(path@),
        ),
        ExecutableExpression::Path(None, path) => ExecutableModel::ThenPath(views(path@)),
        ExecutableExpression::Protect(expr) => ExecutableModel::Protect(
            Box::new(executable_model(*expr)),
        ),
        ExecutableExpression::Debug(prefix) => ExecutableModel::Debug(prefix@),
    }
}

impl View for ExecutableExpression {
    type V = ExecutableModel;

    open spec fn view(&self) -> ExecutableModel {
        executable_model(*self)
    }
}

impl Clone for ExecutableExpression {
    fn clone(&self) -> (res: ExecutableExpression)
        ensures
            res@ == self@,
        decreases self,
    {
        match self {
            ExecutableExpression::Context(context) => ExecutableExpression::Context(
                match context {
                    ExecutableContext::Value => ExecutableContext::Value,
                    ExecutableContext::Path(path) => ExecutableContext::Path(clone_path(path)),
                    ExecutableContext::PushArgs { expr, and_then } => ExecutableContext::PushArgs {
                        expr: match expr {
                            Some(e) => Some(Box::new((**e).clone())),
                            None => None,
                        },
                        and_then: Box::new((**and_then).clone()),
                    },
                    ExecutableContext::PushValue { expr, and_then } => ExecutableContext::PushValue {
                        expr: match expr {
                            Some(e) => Some(Box::new((**e).clone())),
                            None => None,
                        },
                        and_then: Box::new((**and_then).clone()),
                    },
                },
            ),
            ExecutableExpression::Dynamic(value) => ExecutableExpression::Dynamic(value.clone()),
            ExecutableExpression::IO(id) => ExecutableExpression::IO(*id),
            ExecutableExpression::Cache(id) => ExecutableExpression::Cache(*id),
            ExecutableExpression::Path(expr, path) => ExecutableExpression::Path(
                match expr {
                    Some(e) => Some(Box::new((**e).clone())),
                    None => None,
                },
                clone_path(path),
            ),
            ExecutableExpression::Protect(expr) => ExecutableExpression::Protect(
                Box::new((**expr).clone()),
            ),
            ExecutableExpression::Debug(prefix) => ExecutableExpression::Debug(prefix.clone()),
        }
    }
}

/// The upstream calls of an expression, in the order in which they are met.
pub open spec fn ios_of(e: ExpressionModel) -> Seq<IO>
    decreases e,
{
    match e {
        ExpressionModel::PushArgs(expr, and_then) => ios_of(*expr) + ios_of(*and_then),
        ExpressionModel::PushValue(expr, and_then) => ios_of(*expr) + ios_of(*and_then),
        ExpressionModel::IO(io) => seq![io],
        ExpressionModel::Path(expr, _) => ios_of(*expr),
        ExpressionModel::Protect(expr) => ios_of(*expr),
        _ => Seq::empty(),
    }
}

/// The cached upstream calls of an expression, in the order in which they are met.
pub open spec fn caches_of(e: ExpressionModel) -> Seq<Cache>
    decreases e,
{
    match e {
        ExpressionModel::PushArgs(expr, and_then) => caches_of(*expr) + caches_of(*and_then),
        ExpressionModel::PushValue(expr, and_then) => caches_of(*expr) + caches_of(*and_then),
        ExpressionModel::Cache(cache) => seq![cache],
        ExpressionModel::Path(expr, _) => caches_of(*expr),
        ExpressionModel::Protect(expr) => caches_of(*expr),
        _ => Seq::empty(),
    }
}

/// The executable form of an expression whose upstream calls are numbered from `io` on and whose
/// cached ones are numbered from `cache` on.
pub open spec fn compiled(e: ExpressionModel, io: nat, cache: nat) -> ExecutableModel
    decreases e,
{
    match e {
        ExpressionModel::ContextValue => ExecutableModel::ContextValue,
        ExpressionModel::ContextPath(path) => ExecutableModel::ContextPath(path),
        ExpressionModel::PushArgs(expr, and_then) => ExecutableModel::PushArgs(
            Box::new(compiled(*expr, io, cache)),
            Box::new(
                compiled(*and_then, io + ios_of(*expr).len(), cache + caches_of(*expr).len()),
            ),
        ),
        ExpressionModel::PushValue(expr, and_then) => ExecutableModel::PushValue(
            Box::new(compiled(*expr, io, cache)),
            Box::new(
                compiled(*and_then, io + ios_of(*expr).len(), cache + caches_of(*expr).len()),
            ),
        ),
        ExpressionModel::Dynamic(value) => ExecutableModel::Dynamic(value),
        ExpressionModel::IO(_) => ExecutableModel::IO(io),
        ExpressionModel::Cache(_) => ExecutableModel::Cache(cache),
        ExpressionModel::Path(expr, path) => ExecutableModel::Path(
            Box::new(compiled(*expr, io, cache)),
            path,
        ),
        ExpressionModel::Protect(expr) => ExecutableModel::Protect(
            Box::new(compiled(*expr, io, cache)),
        ),
        ExpressionModel::Debug(prefix) => ExecutableModel::Debug(prefix),
    }
}

/// Whether an executable expression is one to start from: nothing in it counts as computed, and
/// it refers to no more than `ios` upstream calls and `caches` cached ones.
pub open spec fn runnable(e: ExecutableModel, ios: nat, caches: nat) -> bool
    decreases e,
{
    match e {
        ExecutableModel::PushArgs(expr, and_then) => runnable(*expr, ios, caches) && runnable(
            *and_then,
            ios,
            caches,
        ),
        ExecutableModel::PushValue(expr, and_then) => runnable(*expr, ios, caches) && runnable(
            *and_then,
            ios,
            caches,
        ),
        ExecutableModel::ThenArgs(_) => false,
        ExecutableModel::ThenValue(_) => false,
        ExecutableModel::ThenPath(_) => false,
        ExecutableModel::IO(id) => id < ios,
        ExecutableModel::Cache(id) => id < caches,
        ExecutableModel::Path(expr, _) => runnable(*expr, ios, caches),
        ExecutableModel::Protect(expr) => runnable(*expr, ios, caches),
        _ => true,
    }
}

/// The executable form of an expression can be run with the calls that the expression holds.
pub proof fn lemma_compiled_runnable(e: ExpressionModel, io: nat, cache: nat, ios: nat, caches: nat)
    requires
        io + ios_of(e).len() <= ios,
        cache + caches_of(e).len() <= caches,
    ensures
        runnable(compiled(e, io, cache), ios, caches),
    decreases e,
{
    match e {
        ExpressionModel::PushArgs(expr, and_then) => {
            lemma_compiled_runnable(*expr, io, cache, ios, caches);
            lemma_compiled_runnable(
                *and_then,
                io + ios_of(*expr).len(),
                cache + caches_of(*expr).len(),
                ios,
                caches,
            );
        },
        ExpressionModel::PushValue(expr, and_then) => {
            lemma_compiled_runnable(*expr, io, cache, ios, caches);
            lemma_compiled_runnable(
                *and_then,
                io + ios_of(*expr).len(),
                cache + caches_of(*expr).len(),
                ios,
                caches,
            );
        },
        ExpressionModel::Path(expr, _) => {
            lemma_compiled_runnable(*expr, io, cache, ios, caches);
        },
        ExpressionModel::Protect(expr) => {
            lemma_compiled_runnable(*expr, io, cache, ios, caches);
        },
        _ => {},
    }
}

/// An executable expression with the upstream calls that it refers to.
#[derive(Debug, PartialEq, Eq)]
pub struct Executable {
    pub(crate) expression: ExecutableExpression,
    pub(crate) ios: Vec<IO>,
    pub(crate) caches: Vec<Cache>,
}

impl Executable {
    /// The expression.
    pub closed spec fn expression_spec(&self) -> ExecutableModel {
        self.expression@
    }

    /// The upstream calls.
    pub closed spec fn ios_spec(&self) -> Seq<IO> {
        self.ios@
    }

    /// The cached upstream calls.
    pub closed spec fn caches_spec(&self) -> Seq<Cache> {
        self.caches@
    }

    /// The tables, and how what they hold may be called.
    pub open spec fn tables(&self, conc: Concurrent) -> Tables {
        Tables { ios: self.ios_spec(), caches: self.caches_spec(), conc }
    }

    /// Whether the expression can be run with the calls in the tables.
    pub open spec fn wf(&self) -> bool {
        runnable(self.expression_spec(), self.ios_spec().len(), self.caches_spec().len())
    }
}

impl Expression {
    /// The arguments of `next` are what `self` evaluates to.
    pub fn and_then(self, next: Expression) -> (res: Expression)
        ensures
            res@ == ExpressionModel::PushArgs(Box::new(self@), Box::new(next@)),
    {
        Expression::Context(Context::PushArgs { expr: Box::new(self), and_then: Box::new(next) })
    }

    /// The arguments of `self` are what `args` evaluates to.
    pub fn with_args(self, args: Expression) -> (res: Expression)
        ensures
            res@ == ExpressionModel::PushArgs(Box::new(args@), Box::new(self@)),
    {
        Expression::Context(Context::PushArgs { expr: Box::new(args), and_then: Box::new(self) })
    }

    /// The text that the expression is shown as.
    pub fn to_string(&self) -> (res: String)
        ensures
            res@ == label(self@),
        decreases self,
    {
        match self {
            Expression::Context(_) => "Context".to_string(),
            Expression::Dynamic(_) => "Literal".to_string(),
            Expression::IO(io) => io.name.clone(),
            Expression::Cache(_) => "Cache".to_string(),
            Expression::Path(_, _) => "Input".to_string(),
            Expression::Protect(expr) => {
                let mut res = "Protected(".to_string();
                res.append(expr.to_string().as_str());
                res.append(")");
                res
            },
            Expression::Debug(_) => "Debug".to_string(),
        }
    }

    /// Compiles the expression, with tables of its own.
    pub fn into_executable(self) -> (res: Executable)
        ensures
            res.expression_spec() == compiled(self@, 0, 0),
            res.ios_spec() == ios_of(self@),
            res.caches_spec() == caches_of(self@),
            res.wf(),
    {
        let mut executable = Executable {
            expression: ExecutableExpression::Dynamic(DynamicValue::Value(Value::Null)),
            ios: Vec::new(),
            caches: Vec::new(),
        };
        let ghost before = self@;
        let expression = self.into_executable_expression(&mut executable);
        executable.expression = *expression;
        proof {
            assert(executable.ios@ =~= ios_of(before));
            assert(executable.caches@ =~= caches_of(before));
            lemma_compiled_runnable(before, 0, 0, ios_of(before).len(), caches_of(before).len());
        }
        executable
    }

    /// Compiles the expression. The upstream calls that it holds are added to the tables of
    /// `executable`, and the result refers to them there.
    pub fn into_executable_expression(self, executable: &mut Executable) -> (res: Box<
        ExecutableExpression,
    >)
        ensures
            res@ == compiled(self@, old(executable).ios_spec().len(), old(executable).caches_spec().len()),
            final(executable).ios_spec() == old(executable).ios_spec() + ios_of(self@),
            final(executable).caches_spec() == old(executable).caches_spec() + caches_of(self@),
            final(executable).expression_spec() == old(executable).expression_spec(),
        decreases self,
    {
        let ghost ios = executable.ios@;
        let ghost caches = executable.caches@;
        let ghost whole = self@;
        let res = match self {
            Expression::Context(context) => match context {
                Context::Value => ExecutableExpression::Context(ExecutableContext::Value),
                Context::Path(path) => ExecutableExpression::Context(ExecutableContext::Path(path)),
                Context::PushArgs { expr, and_then } => {
                    let expr = (*expr).into_executable_expression(executable);
                    let and_then = (*and_then).into_executable_expression(executable);
                    ExecutableExpression::Context(
                        ExecutableContext::PushArgs { expr: Some(expr), and_then },
                    )
                },
                Context::PushValue { expr, and_then } => {
                    let expr = (*expr).into_executable_expression(executable);
                    let and_then = (*and_then).into_executable_expression(executable);
                    ExecutableExpression::Context(
                        ExecutableContext::PushValue { expr: Some(expr), and_then },
                    )
                },
            },
            Expression::Dynamic(value) => ExecutableExpression::Dynamic(value),
            Expression::IO(io) => {
                let id: usize = executable.ios.len();
                executable.ios.push(io);
                ExecutableExpression::IO(id)
            },
            Expression::Cache(cache) => {
                let id: usize = executable.caches.len();
                executable.caches.push(cache);
                ExecutableExpression::Cache(id)
            },
            Expression::Path(expr, path) => {
                let expr = (*expr).into_executable_expression(executable);
                ExecutableExpression::Path(Some(expr), path)
            },
            Expression::Protect(expr) => {
                let expr = (*expr).into_executable_expression(executable);
                ExecutableExpression::Protect(expr)
            },
            Expression::Debug(prefix) => ExecutableExpression::Debug(prefix),
        };
        proof {
            assert(executable.ios@ =~= ios + ios_of(whole));
            assert(executable.caches@ =~= caches + caches_of(whole));
        }
        Box::new(res)
    }
}

/// Copies a table of upstream calls.
fn clone_ios(ios: &Vec<IO>) -> (res: Vec<IO>)
    ensures
        res@ == ios@,
{
    let mut res: Vec<IO> = Vec::new();
    for i in 0..ios.len()
        invariant
            res@ == ios@.take(i as int),
    {
        res.push(ios[i].clone());
        proof {
            assert(ios@.take(i + 1) =~= ios@.take(i as int).push(ios@[i as int]));
        }
    }
    proof {
        assert(ios@.take(ios@.len() as int) =~= ios@);
    }
    res
}

/// Copies a table of cached upstream calls.
fn clone_caches(caches: &Vec<Cache>) -> (res: Vec<Cache>)
    ensures
        res@ == caches@,
{
    let mut res: Vec<Cache> = Vec::new();
    for i in 0..caches.len()
        invariant
            res@ == caches@.take(i as int),
    {
        res.push(caches[i]);
        proof {
            assert(caches@.take(i + 1) =~= caches@.take(i as int).push(caches@[i as int]));
        }
    }
    proof {
        assert(caches@.take(caches@.len() as int) =~= caches@);
    }
    res
}

impl Executable {
    /// Runs the expression in a context, as far as it goes without outside work, and with one
    /// upstream call after the other. Whatever replies come, the run ends as the expression
    /// evaluates.
    pub fn execute<'a, Ctx: ResolverContextLike>(&self, ctx: EvaluationContext<'a, Ctx>) -> (res:
        Progress<'a, Ctx>)
        requires
            self.wf(),
        ensures
            res.wf(),
            forall|replies: Seq<ReplyModel>| #[trigger]
                res.outcome(replies) == executed(
                    self.expression_spec(),
                    self.tables(Concurrent::Sequential),
                    ctx@,
                    replies,
                ),
    {
        Execution::start(
            ctx,
            self.expression.clone(),
            clone_ios(&self.ios),
            clone_caches(&self.caches),
            Concurrent::Sequential,
        )
    }
}

impl Expression {
    /// Evaluates the expression in a context, as far as it goes without outside work. Whatever
    /// replies come, the run ends as the expression evaluates.
    pub fn eval<'a, Ctx: ResolverContextLike>(
        &self,
        ctx: EvaluationContext<'a, Ctx>,
        conc: Concurrent,
    ) -> (res: Progress<'a, Ctx>)
        ensures
            res.wf(),
            forall|replies: Seq<ReplyModel>| #[trigger]
                res.outcome(replies) == evaluated(self@, ctx@, conc, replies),
    {
        let executable = self.clone().into_executable();
        proof {
            let tables = executable.tables(conc);
            assert forall|replies: Seq<ReplyModel>| #[trigger]
                executed(executable.expression_spec(), tables, ctx@, replies) == evaluated(
                    self@,
                    ctx@,
                    conc,
                    replies,
                ) by {
                law_compiling_keeps_meaning(self@, 0, 0, tables, ctx@, replies);
            }
        }
        let Executable { expression, ios, caches } = executable;
        Execution::start(ctx, expression, ios, caches, conc)
    }
}

} // verus!
