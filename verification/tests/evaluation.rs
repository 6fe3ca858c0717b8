use tailcall::http::request_context::RequestContext;
use tailcall::lambda::error::EvaluationError;
use tailcall::lambda::evaluation_context::EvaluationContext;
use tailcall::lambda::execution::{Concurrent, Failure, Progress, Reply, Request};
use tailcall::lambda::expression::{Cache, Context, DynamicValue, Expression, IO};
use tailcall::lambda::resolver_context::{EmptyResolverContext, ResolverContext};
use tailcall::valid::{Cause, ValidationError};
use tailcall::value::{get_path_value, Value};

fn text(s: &str) -> Value {
    Value::String(s.to_string())
}

fn number(s: &str) -> Value {
    Value::Number(s.to_string())
}

fn object(members: &[(&str, Value)]) -> Value {
    Value::Object(members.iter().map(|(k, v)| (k.to_string(), v.clone())).collect())
}

fn strings(items: &[&str]) -> Vec<String> {
    items.iter().map(|s| s.to_string()).collect()
}

fn io(id: u64) -> Expression {
    Expression::IO(IO { name: format!("io{id}"), id })
}

fn resolver(value: Option<Value>) -> ResolverContext {
    ResolverContext { value, args: None, field: None }
}

#[test]
fn test_path_value() {
    let value = object(&[("a", object(&[("b", object(&[("c", text("d"))]))]))]);

    let path = strings(&["a", "b", "c"]);
    let result = get_path_value(&value, &path);
    assert!(result.is_some());
    assert_eq!(result.unwrap(), &Value::String("d".to_string()));
}

#[test]
fn test_path_not_found() {
    let value = object(&[("a", object(&[("b", text("c"))]))]);

    let path = strings(&["a", "b", "c"]);
    let result = get_path_value(&value, &path);
    assert!(result.is_none());
}

#[test]
fn test_numeric_path() {
    let value = object(&[("a", Value::List(vec![object(&[("b", text("c"))])]))]);

    let path = strings(&["a", "0", "b"]);
    let result = get_path_value(&value, &path);
    assert!(result.is_some());
    assert_eq!(result.unwrap(), &Value::String("c".to_string()));
}

#[test]
fn indices_are_read_as_numbers() {
    let list = Value::List(vec![number("7"), number("8")]);
    assert_eq!(get_path_value(&list, &strings(&["+1"])), Some(&number("8")));
    assert_eq!(get_path_value(&list, &strings(&["01"])), Some(&number("8")));
    for bad in ["2", "-1", "", "+", "x", "1 ", "99999999999999999999999"] {
        assert_eq!(get_path_value(&list, &strings(&[bad])), None, "{bad}");
    }
    assert_eq!(get_path_value(&list, &[]), Some(&list));
}

#[test]
fn values_are_written_as_graphql() {
    let value = object(&[
        ("a", Value::List(vec![number("1"), Value::Null, Value::Boolean(true)])),
        ("b", text("say \"hi\"\n")),
        ("c", Value::Enum("RED".to_string())),
        ("d", Value::Binary(vec![1, 20])),
        ("e", Value::Boolean(false)),
    ]);
    assert_eq!(
        value.to_string(),
        "{a: [1, null, true], b: \"say \\\"hi\\\"\\n\", c: RED, d: [1, 20], e: false}"
    );
    assert_eq!(Value::List(vec![]).to_string(), "[]");
    assert_eq!(
        text("\r\n\t\"\\\u{0}\u{1f}\u{7f}\u{85}\u{a0}\u{e9}/").to_string(),
        "\"\\r\\n\\t\\\"\\\\\\u0000\\u0031\\u0127\\u0133\u{a0}\u{e9}/\""
    );
}

#[test]
fn context_reads_the_request_and_the_operation() {
    let mut request = RequestContext::default();
    request.req_headers.insert("x-foo", hyper::header::HeaderValue::from_static("bar"));
    request.req_headers.insert("x-raw", hyper::header::HeaderValue::from_bytes(&[200]).unwrap());
    request.server.vars.insert("v".to_string(), "w".to_string());
    let resolver = ResolverContext {
        value: Some(object(&[("a", number("1"))])),
        args: Some(vec![("id".to_string(), object(&[("n", number("2"))]))]),
        field: None,
    };
    let ctx = EvaluationContext::new(&request, &resolver);

    assert_eq!(ctx.timeout, 5);
    assert_eq!(ctx.header("X-Foo"), Some("bar"));
    assert_eq!(ctx.header("x-raw"), None);
    assert_eq!(ctx.header("x-none"), None);
    assert_eq!(ctx.headers().len(), 2);
    assert_eq!(ctx.var("v"), Some("w"));
    assert_eq!(ctx.var("x"), None);
    assert_eq!(ctx.path_value(&strings(&["a"])), Some(&number("1")));
    assert_eq!(ctx.arg(&strings(&["id", "n"])), Some(&number("2")));
    assert_eq!(ctx.arg(&strings(&["nope"])), None);

    let pushed = ctx.with_args(object(&[("id", number("3"))])).with_value(number("4"));
    assert_eq!(pushed.arg(&strings(&["id"])), Some(&number("3")));
    assert_eq!(pushed.value(), Some(&number("4")));
    assert_eq!(ctx.arg(&strings(&["id", "n"])), Some(&number("2")));
}

#[test]
fn empty_context_shows_nothing() {
    let request = RequestContext::default();
    let ctx = EvaluationContext::new(&request, &EmptyResolverContext);
    assert_eq!(ctx.value(), None);
    assert_eq!(ctx.arg(&strings(&["a"])), None);
    assert_eq!(ctx.arg(&[]), None);
    assert_eq!(ctx.path_value(&strings(&["a"])), None);
    assert_eq!(ctx.selection_set(None, false), None);
}

/// Runs an expression; `answer` replies to what it asks for and notes it down.
fn run(
    expr: &Expression,
    resolver: &ResolverContext,
    answer: &mut dyn FnMut(&Request<ResolverContext>) -> Reply<String>,
) -> Result<Value, String> {
    let request = RequestContext::default();
    let ctx = EvaluationContext::new(&request, resolver);
    let mut progress = expr.eval(ctx, Concurrent::Parallel);
    loop {
        match progress {
            Progress::Done(value) => return Ok(value),
            Progress::Asks { request, execution } => {
                let reply = answer(&request);
                match execution.resume(reply) {
                    Ok(next) => progress = next,
                    Err(Failure::Outside(error)) => return Err(error),
                    Err(Failure::Unauthorized(message)) => return Err(message),
                }
            }
        }
    }
}

fn no_answer(_: &Request<ResolverContext>) -> Reply<String> {
    panic!("nothing should be asked for")
}

#[test]
fn context_expressions_need_no_outside_work() {
    let value = object(&[("a", Value::List(vec![number("1")]))]);
    let shown = resolver(Some(value.clone()));
    let hidden = resolver(None);
    let whole = Expression::Context(Context::Value);
    let part = Expression::Context(Context::Path(strings(&["a", "0"])));
    assert_eq!(run(&whole, &shown, &mut no_answer), Ok(value));
    assert_eq!(run(&whole, &hidden, &mut no_answer), Ok(Value::Null));
    assert_eq!(run(&part, &shown, &mut no_answer), Ok(number("1")));
    assert_eq!(run(&part, &hidden, &mut no_answer), Ok(Value::Null));
}

#[test]
fn arguments_come_from_the_expression_before() {
    let mut seen = Vec::new();
    let mut answer = |request: &Request<ResolverContext>| match request {
        Request::IO { io, ctx, .. } => {
            seen.push((io.id, ctx.arg(&strings(&["x"])).cloned()));
            Reply::Value(object(&[("x", number(&io.id.to_string()))]))
        }
        _ => panic!("unexpected request"),
    };
    let chain = io(1).and_then(io(2)).and_then(io(3));
    let result = run(&chain, &resolver(None), &mut answer);
    assert_eq!(result, Ok(object(&[("x", number("3"))])));
    assert_eq!(seen, vec![(1, None), (2, Some(number("1"))), (3, Some(number("2")))]);
}

#[test]
fn grouping_of_a_chain_does_not_matter() {
    let run_chain = |chain: Expression| {
        let mut seen = Vec::new();
        let mut answer = |request: &Request<ResolverContext>| match request {
            Request::IO { io, ctx, .. } => {
                seen.push((io.id, ctx.arg(&strings(&["x"])).cloned()));
                Reply::Value(object(&[("x", number(&io.id.to_string()))]))
            }
            _ => panic!("unexpected request"),
        };
        let result = run(&chain, &resolver(None), &mut answer);
        (result, seen)
    };
    let left = run_chain(io(1).and_then(io(2)).and_then(io(3)));
    let right = run_chain(io(1).and_then(io(2).and_then(io(3))));
    assert_eq!(left, right);
    assert_eq!(io(1).with_args(io(2)), io(2).and_then(io(1)));
}

#[test]
fn pushed_value_is_what_follows_sees() {
    let expr = Expression::Path(
        Box::new(Expression::Context(Context::PushValue {
            expr: Box::new(io(1)),
            and_then: Box::new(Expression::Context(Context::Path(strings(&["p"])))),
        })),
        strings(&["q"]),
    );
    let mut answer = |_: &Request<ResolverContext>| {
        Reply::Value(object(&[("p", object(&[("q", number("9"))]))]))
    };
    assert_eq!(run(&expr, &resolver(Some(Value::Null)), &mut answer), Ok(number("9")));
    let mut empty = |_: &Request<ResolverContext>| Reply::Value(Value::Null);
    assert_eq!(run(&expr, &resolver(Some(Value::Null)), &mut empty), Ok(Value::Null));
}

#[test]
fn each_sort_of_work_is_asked_for() {
    let mut seen = Vec::new();
    let mut answer = |request: &Request<ResolverContext>| {
        seen.push(match request {
            Request::Render { value, .. } => format!("render {value:?}"),
            Request::IO { io, conc, .. } => format!("io {} {conc:?}", io.id),
            Request::Cache { cache, conc, .. } => format!("cache {} {conc:?}", cache.id),
            Request::Debug { prefix, .. } => format!("debug {prefix}"),
            Request::Validate { .. } => "validate".to_string(),
        });
        match request {
            Request::Validate { .. } => Reply::Admitted,
            _ => Reply::Value(Value::Null),
        }
    };
    let expr = Expression::Dynamic(DynamicValue::Mustache("{{a}}".to_string()))
        .and_then(Expression::Debug("here".to_string()))
        .and_then(Expression::Protect(Box::new(Expression::Cache(Cache { id: 5 }))))
        .and_then(io(6));
    assert_eq!(run(&expr, &resolver(None), &mut answer), Ok(Value::Null));
    assert_eq!(
        seen,
        vec![
            "render Mustache(\"{{a}}\")",
            "debug here",
            "validate",
            "cache 5 Parallel",
            "io 6 Parallel",
        ]
    );
}

#[test]
fn failed_work_ends_the_run() {
    let mut count = 0;
    let mut answer = |_: &Request<ResolverContext>| {
        count += 1;
        Reply::Failure("down".to_string())
    };
    let expr = io(1).and_then(io(2));
    assert_eq!(run(&expr, &resolver(None), &mut answer), Err("down".to_string()));
    assert_eq!(count, 1);
}

#[test]
fn refused_request_sees_nothing() {
    let mut answer = |request: &Request<ResolverContext>| match request {
        Request::Validate { .. } => Reply::Refused("Auth validation failed".to_string()),
        _ => panic!("nothing protected may be asked for"),
    };
    let expr = Expression::Protect(Box::new(io(1)));
    assert_eq!(
        run(&expr, &resolver(None), &mut answer),
        Err("Authentication Failure: Auth validation failed".to_string())
    );
}

#[test]
fn executable_can_run_more_than_once() {
    let executable = io(1).and_then(io(2)).into_executable();
    let request = RequestContext::default();
    let shown = resolver(None);
    for _ in 0..2 {
        let ctx = EvaluationContext::new(&request, &shown);
        let mut ids = Vec::new();
        let mut progress = executable.execute(ctx);
        let value = loop {
            match progress {
                Progress::Done(value) => break value,
                Progress::Asks { request, execution } => {
                    if let Request::IO { io, conc, .. } = &request {
                        assert_eq!(*conc, Concurrent::Sequential);
                        ids.push(io.id);
                    }
                    let reply: Reply<String> = Reply::Value(number("1"));
                    progress = match execution.resume(reply) {
                        Ok(next) => next,
                        Err(_) => panic!("the run goes on"),
                    };
                }
            }
        };
        assert_eq!(value, number("1"));
        assert_eq!(ids, vec![1, 2]);
    }
}

#[test]
fn calls_are_numbered_in_the_order_in_which_they_are_met() {
    let cache = |id| Expression::Cache(Cache { id });
    let expr = io(7).and_then(cache(8)).and_then(io(9));
    let compiled = format!("{:?}", expr.into_executable());
    assert!(compiled.contains("expr: Some(IO(0))"), "{compiled}");
    assert!(compiled.contains("and_then: Cache(0)"), "{compiled}");
    assert!(compiled.contains("and_then: IO(1)"), "{compiled}");
    assert!(compiled.contains("caches: [Cache { id: 8 }]"), "{compiled}");
}

#[test]
fn expressions_have_labels() {
    let context = Expression::Context(Context::Value);
    assert_eq!(context.to_string(), "Context");
    assert_eq!(Expression::Dynamic(DynamicValue::Value(Value::Null)).to_string(), "Literal");
    assert_eq!(io(3).to_string(), "io3");
    assert_eq!(Expression::Cache(Cache { id: 1 }).to_string(), "Cache");
    assert_eq!(Expression::Path(Box::new(context), vec![]).to_string(), "Input");
    assert_eq!(Expression::Protect(Box::new(io(4))).to_string(), "Protected(io4)");
}

#[test]
fn evaluation_errors_have_messages() {
    let io = EvaluationError::from_failure(Err("boom".to_string()));
    assert_eq!(io, EvaluationError::IOException("boom".to_string()));
    assert_eq!(io.message(), "IOException: boom");
    assert_eq!(EvaluationError::from_failure(Ok(io.clone())), io);
    assert_eq!(io.extensions(), vec![]);

    let grpc = EvaluationError::GRPCError {
        grpc_code: -3,
        grpc_description: "bad".to_string(),
        grpc_status_message: "msg".to_string(),
        grpc_status_details: Value::Null,
    };
    assert_eq!(
        grpc.message(),
        "gRPC Error: status: -3, description: `bad`, message: `msg`"
    );
    assert_eq!(
        grpc.extensions(),
        vec![
            ("grpc_code".to_string(), number("-3")),
            ("grpc_description".to_string(), text("bad")),
            ("grpc_status_message".to_string(), text("msg")),
            ("grpc_status_details".to_string(), Value::Null),
        ]
    );

    let expr = EvaluationError::ExprEvalError("a\"b".to_string());
    assert_eq!(expr.message(), "ExprEvalError: \"a\\\"b\"");
}

#[test]
fn validation_errors_become_evaluation_errors() {
    let cause = |message: &str| Cause { message: message.to_string(), trace: vec![] };
    let invalid = ValidationError { causes: vec![cause("one"), cause("t\two")] };
    let error = EvaluationError::from_validation(&invalid);
    assert_eq!(
        error,
        EvaluationError::APIValidationError(vec!["one".to_string(), "t\two".to_string()])
    );
    let messages = vec!["one", "t\two"];
    assert_eq!(error.message(), format!("APIValidationError: {messages:?}"));
    assert_eq!(
        EvaluationError::APIValidationError(vec![]).message(),
        "APIValidationError: []"
    );
}
