use tailcall::blueprint::operators::call::{compile_call, update_call};
use tailcall::blueprint::types::{
    Blueprint, Definition, FieldDefinition, ObjectTypeDefinition, SchemaDefinition,
};
use tailcall::config::types::{Call, Field, Step};
use tailcall::lambda::expression::{Expression, IO};
use tailcall::valid::Cause;

fn io(id: u64) -> Expression {
    Expression::IO(IO { name: format!("io{id}"), id })
}

fn field(name: &str, resolver: Option<Expression>, steps: Option<Vec<Step>>) -> FieldDefinition {
    let mut source = Field::default();
    source.call = steps.map(|steps| Call { steps });
    FieldDefinition { name: name.to_string(), resolver, source: (name.to_string(), source) }
}

fn operation(name: &str) -> Step {
    Step::Operation(name.to_string())
}

fn object(name: &str, fields: Vec<FieldDefinition>) -> ObjectTypeDefinition {
    ObjectTypeDefinition { name: name.to_string(), fields }
}

fn query() -> ObjectTypeDefinition {
    object(
        "Query",
        vec![
            field("user", Some(io(1)), None),
            field("post", Some(io(2)), None),
            field("bare", None, None),
        ],
    )
}

fn mutation() -> ObjectTypeDefinition {
    object(
        "Mutation",
        vec![field("add", Some(io(3)), None), field("bare", Some(io(4)), None)],
    )
}

fn cause(message: &str, trace: &[&str]) -> Cause {
    Cause {
        message: message.to_string(),
        trace: trace.iter().map(|s| s.to_string()).collect(),
    }
}

#[test]
fn steps_are_chained() {
    let (query, mutation) = (query(), mutation());
    let steps = vec![operation("user"), operation("add"), Step::Debug("d".to_string())];
    let compiled = compile_call(Some(&query), Some(&mutation), &steps).to_result().unwrap();
    assert_eq!(
        compiled,
        io(1).and_then(io(3)).and_then(Expression::Debug("d".to_string()))
    );
    let single = compile_call(Some(&query), None, &vec![operation("post")]);
    assert_eq!(single.to_result(), Ok(io(2)));
}

#[test]
fn missing_operations_are_all_reported() {
    let (query, mutation) = (query(), mutation());
    let steps = vec![operation("nope"), operation("user"), operation("bare")];
    let failed = compile_call(Some(&query), Some(&mutation), &steps).to_result();
    assert_eq!(
        failed.err().unwrap().causes,
        vec![cause("No operation found", &[]), cause("No operation found", &[])]
    );
    let empty = compile_call(Some(&query), Some(&mutation), &vec![]).to_result();
    assert_eq!(empty.err().unwrap().causes, vec![cause("Operation list is empty", &[])]);
    assert!(compile_call(None, None, &vec![operation("user")]).to_result().is_err());
}

fn blueprint(extra: Vec<ObjectTypeDefinition>) -> Blueprint {
    let mut definitions = vec![
        Definition::Other("Scalar".to_string()),
        Definition::Object(query()),
        Definition::Object(mutation()),
    ];
    definitions.extend(extra.into_iter().map(Definition::Object));
    Blueprint {
        schema: SchemaDefinition {
            query: "Query".to_string(),
            mutation: Some("Mutation".to_string()),
        },
        definitions,
    }
}

#[test]
fn update_sets_the_resolvers_of_calls_only() {
    let kept = field("own", Some(io(9)), None);
    let called = field("posts", None, Some(vec![operation("user"), operation("post")]));
    let updated = update_call(blueprint(vec![object(
        "User",
        vec![kept.clone(), called.clone()],
    )]))
    .to_result()
    .unwrap();
    let mut resolved = called;
    resolved.resolver = Some(io(1).and_then(io(2)));
    assert_eq!(updated, blueprint(vec![object("User", vec![kept, resolved])]));
}

#[test]
fn failed_calls_are_traced_to_their_field() {
    let failed = update_call(blueprint(vec![
        object("A", vec![field("x", None, Some(vec![])), field("ok", None, None)]),
        object(
            "B",
            vec![field("y", None, Some(vec![operation("no"), operation("none")]))],
        ),
    ]))
    .to_result();
    assert_eq!(
        failed.err().unwrap().causes,
        vec![
            cause("Operation list is empty", &["A", "x"]),
            cause("No operation found", &["B", "y"]),
            cause("No operation found", &["B", "y"]),
        ]
    );
}
