//! Fields that resolve by calling queries and mutations.
use vstd::prelude::*;

use crate::blueprint::types::{
    definitions_model, field_in, fields_model, option_object, Blueprint, BlueprintModel, Definition,
    DefinitionModel, FieldDefinition, FieldDefinitionModel, ObjectModel, ObjectTypeDefinition,
};
use crate::config::types::{steps_model, Step, StepModel};
use crate::lambda::expression::{Expression, ExpressionModel};
use crate::valid::{
    append_causes, causes_in, causes_model, explained, gathered, law_gathered,
    law_gathered_in_order, sole_cause, traced, values_in, Cause, CauseModel, Valid,
};

verus! {

/// The field called `name` of an object that may be missing.
pub open spec fn field_of(object: Option<ObjectModel>, name: Seq<char>) -> Option<FieldDefinitionModel> {
    match object {
        Some(o) => field_in(o.fields, name),
        None => None,
    }
}

/// What one step does: a query of the name given, else a mutation of that name, if it has a
/// resolver.
pub open spec fn step_resolved(
    query: Option<ObjectModel>,
    mutation: Option<ObjectModel>,
    step: StepModel,
) -> Result<ExpressionModel, Seq<CauseModel>> {
    match step {
        StepModel::Debug(prefix) => Ok(ExpressionModel::Debug(prefix)),
        StepModel::Operation(name) => {
            let field = match field_of(query, name) {
                Some(f) => Some(f),
                None => field_of(mutation, name),
            };
            match field {
                Some(f) => match f.resolver {
                    Some(e) => Ok(e),
                    None => Err(sole_cause("No operation found"@)),
                },
                None => Err(sole_cause("No operation found"@)),
            }
        },
    }
}

/// What each of the steps does.
pub open spec fn steps_resolved(
    query: Option<ObjectModel>,
    mutation: Option<ObjectModel>,
    steps: Seq<StepModel>,
) -> Seq<Result<ExpressionModel, Seq<CauseModel>>> {
    steps.map_values(|s: StepModel| step_resolved(query, mutation, s))
}

/// Expressions chained so that each gets its arguments from the one before.
pub open spec fn chained(exprs: Seq<ExpressionModel>) -> ExpressionModel
    decreases exprs.len(),
{
    if exprs.len() <= 1 {
        exprs[0]
    } else {
        ExpressionModel::PushArgs(Box::new(chained(exprs.drop_last())), Box::new(exprs.last()))
    }
}

/// What the steps of a call do together.
pub open spec fn call_compiled(
    query: Option<ObjectModel>,
    mutation: Option<ObjectModel>,
    steps: Seq<StepModel>,
) -> Result<ExpressionModel, Seq<CauseModel>> {
    match gathered(steps_resolved(query, mutation, steps)) {
        Err(causes) => Err(causes),
        Ok(exprs) => if exprs.len() == 0 {
            Err(sole_cause("Operation list is empty"@))
        } else {
            Ok(chained(exprs))
        },
    }
}

/// Whether a validated value is what should come out, where `view` gives the contents of it.
pub open spec fn agrees<A, M>(
    valid: Valid<A>,
    expected: Result<M, Seq<CauseModel>>,
    view: spec_fn(A) -> M,
) -> bool {
    match (valid.result(), expected) {
        (Ok(value), Ok(m)) => view(value) == m,
        (Err(e), Err(causes)) => e@ == causes,
        _ => false,
    }
}

/// Finds what one step does.
fn resolve_step(
    query: Option<&ObjectTypeDefinition>,
    mutation: Option<&ObjectTypeDefinition>,
    step: &Step,
) -> (res: Valid<Expression>)
    ensures
        agrees(
            res,
            step_resolved(option_object(query), option_object(mutation), step@),
            |e: Expression| e@,
        ),
{
    match step {
        Step::Debug(prefix) => Valid::succeed(Expression::Debug(prefix.clone())),
        Step::Operation(name) => {
            let in_query = match query {
                Some(object) => object.find_field(name.as_str()),
                None => None,
            };
            let field = match in_query {
                Some(f) => Some(f),
                None => match mutation {
                    Some(object) => object.find_field(name.as_str()),
                    None => None,
                },
            };
            match field {
                Some(f) => match &f.resolver {
                    Some(e) => Valid::succeed(e.clone()),
                    None => Valid::fail("No operation found"),
                },
                None => Valid::fail("No operation found"),
            }
        },
    }
}

/// Compiles the steps of a call.
pub fn compile_call(
    query: Option<&ObjectTypeDefinition>,
    mutation: Option<&ObjectTypeDefinition>,
    steps: &Vec<Step>,
) -> (res: Valid<Expression>)
    ensures
        agrees(
            res,
            call_compiled(option_object(query), option_object(mutation), steps_model(steps@)),
            |e: Expression| e@,
        ),
{
    let ghost q = option_object(query);
    let ghost m = option_object(mutation);
    let ghost results = steps_resolved(q, m, steps_model(steps@));
    let mut chain: Option<Expression> = None;
    let mut causes: Vec<Cause> = Vec::new();
    proof {
        assert(causes_model(causes@) =~= Seq::empty());
        assert(results.take(0) =~= Seq::empty());
    }
    for i in 0..steps.len()
        invariant
            q == option_object(query),
            m == option_object(mutation),
            results == steps_resolved(q, m, steps_model(steps@)),
            causes_model(causes@) == causes_in(results.take(i as int)),
            match chain {
                Some(e) => values_in(results.take(i as int)).len() > 0 && e@ == chained(
                    values_in(results.take(i as int)),
                ),
                None => values_in(results.take(i as int)).len() == 0,
            },
    {
        let step = resolve_step(query, mutation, &steps[i]);
        let ghost before = values_in(results.take(i as int));
        proof {
            assert(results.take(i + 1).drop_last() =~= results.take(i as int));
            assert(results.take(i + 1).last() == step_resolved(q, m, steps@[i as int]@));
        }
        match step.to_result() {
            Ok(expr) => {
                proof {
                    let values = before.push(expr@);
                    assert(values.drop_last() =~= before);
                    assert(values_in(results.take(i + 1)) == values);
                }
                chain = Some(
                    match chain {
                        Some(first) => first.and_then(expr),
                        None => expr,
                    },
                );
            },
            Err(error) => {
                append_causes(&mut causes, error);
            },
        }
    }
    proof {
        assert(results.take(steps@.len() as int) =~= results);
        assert(causes_model(causes@).len() == causes@.len());
    }
    if causes.len() > 0 {
        return Valid::fail_with(causes);
    }
    match chain {
        Some(expr) => Valid::succeed(expr),
        None => Valid::fail("Operation list is empty"),
    }
}

/// A field whose configuration has a call: its resolver is the call compiled.
pub open spec fn field_updated(
    query: Option<ObjectModel>,
    mutation: Option<ObjectModel>,
    field: FieldDefinitionModel,
) -> Result<FieldDefinitionModel, Seq<CauseModel>> {
    match field.source.1.call {
        None => Ok(field),
        Some(steps) => match call_compiled(query, mutation, steps) {
            Ok(e) => Ok(FieldDefinitionModel { resolver: Some(e), ..field }),
            Err(causes) => Err(traced(causes, field.name)),
        },
    }
}

/// An object: each of its fields.
pub open spec fn object_updated(
    query: Option<ObjectModel>,
    mutation: Option<ObjectModel>,
    object: ObjectModel,
) -> Result<ObjectModel, Seq<CauseModel>> {
    match gathered(
        object.fields.map_values(|f: FieldDefinitionModel| field_updated(query, mutation, f)),
    ) {
        Ok(fields) => Ok(ObjectModel { fields, ..object }),
        Err(causes) => Err(traced(causes, object.name)),
    }
}

/// A definition: the object that it is, or itself.
pub open spec fn definition_updated(
    query: Option<ObjectModel>,
    mutation: Option<ObjectModel>,
    definition: DefinitionModel,
) -> Result<DefinitionModel, Seq<CauseModel>> {
    match definition {
        DefinitionModel::Object(object) => match object_updated(query, mutation, object) {
            Ok(updated) => Ok(DefinitionModel::Object(updated)),
            Err(causes) => Err(causes),
        },
        DefinitionModel::Other(_) => Ok(definition),
    }
}

/// A blueprint with the calls of all fields compiled against it.
pub open spec fn blueprint_updated(blueprint: BlueprintModel) -> Result<
    BlueprintModel,
    Seq<CauseModel>,
> {
    let query = blueprint.query_def();
    let mutation = blueprint.mutation_def();
    match gathered(
        blueprint.definitions.map_values(
            |d: DefinitionModel| definition_updated(query, mutation, d),
        ),
    ) {
        Ok(definitions) => Ok(BlueprintModel { definitions, ..blueprint }),
        Err(causes) => Err(causes),
    }
}

/// Compiles the call of a field, if it has one.
fn update_field(
    query: Option<&ObjectTypeDefinition>,
    mutation: Option<&ObjectTypeDefinition>,
    field: &FieldDefinition,
) -> (res: Valid<FieldDefinition>)
    ensures
        agrees(
            res,
            field_updated(option_object(query), option_object(mutation), field@),
            |f: FieldDefinition| f@,
        ),
{
    match &field.source.1.call {
        None => Valid::succeed(field.clone()),
        Some(call) => {
            match compile_call(query, mutation, &call.steps).trace(field.name.as_str()).to_result() {
                Ok(expr) => {
                    let mut updated = field.clone();
                    updated.resolver = Some(expr);
                    Valid::succeed(updated)
                },
                Err(error) => Valid::fail_with(error.causes),
            }
        },
    }
}

/// Compiles the calls of an object.
fn update_object(
    query: Option<&ObjectTypeDefinition>,
    mutation: Option<&ObjectTypeDefinition>,
    object: &ObjectTypeDefinition,
) -> (res: Valid<ObjectTypeDefinition>)
    ensures
        agrees(
            res,
            object_updated(option_object(query), option_object(mutation), object@),
            |o: ObjectTypeDefinition| o@,
        ),
{
    let ghost q = option_object(query);
    let ghost m = option_object(mutation);
    let ghost results = object@.fields.map_values(|f: FieldDefinitionModel| field_updated(q, m, f));
    let mut fields: Vec<FieldDefinition> = Vec::new();
    let mut causes: Vec<Cause> = Vec::new();
    proof {
        assert(causes_model(causes@) =~= Seq::empty());
        assert(fields_model(fields@) =~= Seq::empty());
        assert(results.take(0) =~= Seq::empty());
    }
    for i in 0..object.fields.len()
        invariant
            q == option_object(query),
            m == option_object(mutation),
            results == object@.fields.map_values(
                |f: FieldDefinitionModel| field_updated(q, m, f),
            ),
            causes_model(causes@) == causes_in(results.take(i as int)),
            fields_model(fields@) == values_in(results.take(i as int)),
    {
        proof {
            assert(results.take(i + 1).drop_last() =~= results.take(i as int));
            assert(results.take(i + 1).last() == field_updated(q, m, object.fields@[i as int]@));
        }
        match update_field(query, mutation, &object.fields[i]).to_result() {
            Ok(field) => {
                proof {
                    assert(fields_model(fields@.push(field)) =~= fields_model(fields@).push(field@));
                }
                fields.push(field);
            },
            Err(error) => {
                append_causes(&mut causes, error);
            },
        }
    }
    proof {
        assert(results.take(object.fields@.len() as int) =~= results);
        assert(causes_model(causes@).len() == causes@.len());
    }
    let res: Valid<ObjectTypeDefinition> = if causes.len() > 0 {
        Valid::fail_with(causes)
    } else {
        Valid::succeed(ObjectTypeDefinition { name: object.name.clone(), fields })
    };
    res.trace(object.name.as_str())
}

/// Compiles the calls of a definition.
fn update_definition(
    query: Option<&ObjectTypeDefinition>,
    mutation: Option<&ObjectTypeDefinition>,
    definition: &Definition,
) -> (res: Valid<Definition>)
    ensures
        agrees(
            res,
            definition_updated(option_object(query), option_object(mutation), definition@),
            |d: Definition| d@,
        ),
{
    match definition {
        Definition::Object(object) => match update_object(query, mutation, object).to_result() {
            Ok(updated) => Valid::succeed(Definition::Object(updated)),
            Err(error) => Valid::fail_with(error.causes),
        },
        Definition::Other(name) => Valid::succeed(Definition::Other(name.clone())),
    }
}

/// Compiles the calls of all fields against the queries and mutations of the blueprint.
pub fn update_call(blueprint: Blueprint) -> (res: Valid<Blueprint>)
    ensures
        agrees(res, blueprint_updated(blueprint@), |b: Blueprint| b@),
{
    let ghost whole = blueprint@;
    let ghost q = blueprint@.query_def();
    let ghost m = blueprint@.mutation_def();
    let ghost results = whole.definitions.map_values(|d: DefinitionModel| definition_updated(q, m, d));
    let mut definitions: Vec<Definition> = Vec::new();
    let mut causes: Vec<Cause> = Vec::new();
    proof {
        assert(causes_model(causes@) =~= Seq::empty());
        assert(definitions_model(definitions@) =~= Seq::empty());
        assert(results.take(0) =~= Seq::empty());
    }
    let query = blueprint.query_def();
    let mutation = blueprint.mutation_def();
    for i in 0..blueprint.definitions.len()
        invariant
            whole == blueprint@,
            q == option_object(query),
            m == option_object(mutation),
            results == whole.definitions.map_values(
                |d: DefinitionModel| definition_updated(q, m, d),
            ),
            causes_model(causes@) == causes_in(results.take(i as int)),
            definitions_model(definitions@) == values_in(results.take(i as int)),
    {
        proof {
            assert(results.take(i + 1).drop_last() =~= results.take(i as int));
            assert(results.take(i + 1).last() == definition_updated(
                q,
                m,
                blueprint.definitions@[i as int]@,
            ));
        }
        match update_definition(query, mutation, &blueprint.definitions[i]).to_result() {
            Ok(definition) => {
                proof {
                    assert(definitions_model(definitions@.push(definition)) =~= definitions_model(
                        definitions@,
                    ).push(definition@));
                }
                definitions.push(definition);
            },
            Err(error) => {
                append_causes(&mut causes, error);
            },
        }
    }
    proof {
        assert(results.take(blueprint.definitions@.len() as int) =~= results);
        assert(causes_model(causes@).len() == causes@.len());
    }
    if causes.len() > 0 {
        Valid::fail_with(causes)
    } else {
        Valid::succeed(Blueprint { schema: blueprint.schema, definitions })
    }
}

/// Whether the call of a field, if it has one, can be compiled.
pub open spec fn field_compiles(
    query: Option<ObjectModel>,
    mutation: Option<ObjectModel>,
    field: FieldDefinitionModel,
) -> bool {
    field.source.1.call matches Some(steps) ==> call_compiled(query, mutation, steps) is Ok
}

/// Whether the calls of all fields of an object can be compiled.
pub open spec fn object_compiles(
    query: Option<ObjectModel>,
    mutation: Option<ObjectModel>,
    object: ObjectModel,
) -> bool {
    forall|i: int|
        0 <= i < object.fields.len() ==> field_compiles(query, mutation, #[trigger] object.fields[i])
}

/// Whether the calls of all fields of a definition can be compiled.
pub open spec fn definition_compiles(
    query: Option<ObjectModel>,
    mutation: Option<ObjectModel>,
    definition: DefinitionModel,
) -> bool {
    match definition {
        DefinitionModel::Object(object) => object_compiles(query, mutation, object),
        DefinitionModel::Other(_) => true,
    }
}

/// Whether a field was changed in nothing but its resolver, and not at all where it has no call.
pub open spec fn field_kept(before: FieldDefinitionModel, after: FieldDefinitionModel) -> bool {
    &&& after.name == before.name
    &&& after.source == before.source
    &&& before.source.1.call is None ==> after == before
}

/// Whether a definition was changed in nothing but the resolvers of its fields.
pub open spec fn definition_kept(before: DefinitionModel, after: DefinitionModel) -> bool {
    match (before, after) {
        (DefinitionModel::Object(a), DefinitionModel::Object(b)) => {
            &&& a.name == b.name
            &&& a.fields.len() == b.fields.len()
            &&& forall|i: int|
                0 <= i < a.fields.len() ==> field_kept(#[trigger] a.fields[i], #[trigger] b.fields[i])
        },
        (DefinitionModel::Other(a), DefinitionModel::Other(b)) => a == b,
        _ => false,
    }
}

proof fn lemma_causes_explained(
    query: Option<ObjectModel>,
    mutation: Option<ObjectModel>,
    steps: Seq<StepModel>,
)
    ensures
        call_compiled(query, mutation, steps) matches Err(causes) ==> causes.len() > 0,
{
}

proof fn lemma_object_kept(
    query: Option<ObjectModel>,
    mutation: Option<ObjectModel>,
    object: ObjectModel,
)
    ensures
        object_updated(query, mutation, object) is Ok <==> object_compiles(query, mutation, object),
        match object_updated(query, mutation, object) {
            Ok(after) => definition_kept(
                DefinitionModel::Object(object),
                DefinitionModel::Object(after),
            ),
            Err(causes) => causes.len() > 0,
        },
{
    let results = object.fields.map_values(
        |f: FieldDefinitionModel| field_updated(query, mutation, f),
    );
    assert forall|i: int| 0 <= i < results.len() implies ((#[trigger] results[i]) is Ok
        <==> field_compiles(query, mutation, object.fields[i])) && (results[i] is Err
        ==> results[i]->Err_0.len() > 0) by {
        if let Some(steps) = object.fields[i].source.1.call {
            lemma_causes_explained(query, mutation, steps);
        }
    }
    law_gathered(results);
    if object_compiles(query, mutation, object) {
        assert forall|i: int| 0 <= i < results.len() implies (#[trigger] results[i]) is Ok by {
            assert(field_compiles(query, mutation, object.fields[i]));
        }
    }
    match gathered(results) {
        Ok(fields) => {
            assert forall|i: int| 0 <= i < object.fields.len() implies field_compiles(
                query,
                mutation,
                #[trigger] object.fields[i],
            ) && field_kept(object.fields[i], fields[i]) by {
                assert(results[i] is Ok);
            }
        },
        Err(_) => {},
    }
}

/// An update succeeds exactly where the call of every field that has one can be compiled. It then
/// changes nothing but the resolvers of those fields.
pub proof fn law_update_changes_calls_only(blueprint: BlueprintModel)
    ensures
        blueprint_updated(blueprint) is Ok <==> forall|i: int|
            0 <= i < blueprint.definitions.len() ==> definition_compiles(
                blueprint.query_def(),
                blueprint.mutation_def(),
                #[trigger] blueprint.definitions[i],
            ),
        blueprint_updated(blueprint) matches Ok(after) ==> {
            &&& after.query == blueprint.query
            &&& after.mutation == blueprint.mutation
            &&& after.definitions.len() == blueprint.definitions.len()
            &&& forall|i: int|
                0 <= i < blueprint.definitions.len() ==> definition_kept(
                    #[trigger] blueprint.definitions[i],
                    #[trigger] after.definitions[i],
                )
        },
{
    let query = blueprint.query_def();
    let mutation = blueprint.mutation_def();
    let results = blueprint.definitions.map_values(
        |d: DefinitionModel| definition_updated(query, mutation, d),
    );
    assert forall|i: int| 0 <= i < results.len() implies ((#[trigger] results[i]) is Ok
        <==> definition_compiles(query, mutation, blueprint.definitions[i])) && (results[i] is Err
        ==> results[i]->Err_0.len() > 0) && (results[i] matches Ok(after) ==> definition_kept(
        blueprint.definitions[i],
        after,
    )) by {
        if let DefinitionModel::Object(object) = blueprint.definitions[i] {
            lemma_object_kept(query, mutation, object);
        }
    }
    law_gathered(results);
    if gathered(results) is Ok {
        assert forall|i: int| 0 <= i < blueprint.definitions.len() implies definition_compiles(
            query,
            mutation,
            #[trigger] blueprint.definitions[i],
        ) by {
            assert(results[i] is Ok);
        }
    }
}

/// A call of one step does what the step does: a debug step writes out under its prefix, and an
/// operation does what the first query of its name resolves to, or the first mutation of that name
/// where there is no such query. It fails where there is neither, and where what is found does not
/// resolve to anything. A call without steps fails.
pub proof fn law_call_of_one_step(
    query: Option<ObjectModel>,
    mutation: Option<ObjectModel>,
    name: Seq<char>,
    prefix: Seq<char>,
)
    ensures
        call_compiled(query, mutation, seq![StepModel::Debug(prefix)]) == Ok::<
            ExpressionModel,
            Seq<CauseModel>,
        >(ExpressionModel::Debug(prefix)),
        ({
            let in_query = match query {
                Some(object) => field_in(object.fields, name),
                None => None,
            };
            let in_mutation = match mutation {
                Some(object) => field_in(object.fields, name),
                None => None,
            };
            let found = if in_query is Some {
                in_query
            } else {
                in_mutation
            };
            let made = call_compiled(query, mutation, seq![StepModel::Operation(name)]);
            if found is Some && found->0.resolver is Some {
                made == Ok::<ExpressionModel, Seq<CauseModel>>(found->0.resolver->0)
            } else {
                &&& made is Err
                &&& made->Err_0.len() == 1
                &&& made->Err_0[0].message == "No operation found"@
                &&& made->Err_0[0].trace.len() == 0
            }
        }),
        ({
            let made = call_compiled(query, mutation, Seq::empty());
            &&& made is Err
            &&& made->Err_0.len() == 1
            &&& made->Err_0[0].message == "Operation list is empty"@
            &&& made->Err_0[0].trace.len() == 0
        }),
{
    let none = Seq::<StepModel>::empty();
    lemma_one_step(query, mutation, StepModel::Debug(prefix));
    lemma_one_step(query, mutation, StepModel::Operation(name));
    assert(steps_resolved(query, mutation, none) =~= Seq::empty());
}

proof fn lemma_one_step(query: Option<ObjectModel>, mutation: Option<ObjectModel>, step: StepModel)
    ensures
        call_compiled(query, mutation, seq![step]) == step_resolved(query, mutation, step),
{
    let resolved = step_resolved(query, mutation, step);
    assert(steps_resolved(query, mutation, seq![step]) =~= seq![resolved]);
    match resolved {
        Ok(e) => {
            law_gathered_in_order(Seq::empty(), Seq::empty(), e, Seq::empty());
        },
        Err(causes) => {
            law_gathered_in_order(Seq::empty(), Seq::empty(), ExpressionModel::ContextValue, causes);
        },
    }
}

/// A step behind others gets its arguments from them. Where it fails, or they do, all causes are told,
/// theirs first.
pub proof fn law_steps_are_chained(
    query: Option<ObjectModel>,
    mutation: Option<ObjectModel>,
    steps: Seq<StepModel>,
    step: StepModel,
)
    requires
        steps.len() > 0,
    ensures
        call_compiled(query, mutation, steps.push(step)) == match (
            call_compiled(query, mutation, steps),
            call_compiled(query, mutation, seq![step]),
        ) {
            (Ok(first), Ok(last)) => Ok::<ExpressionModel, Seq<CauseModel>>(
                ExpressionModel::PushArgs(Box::new(first), Box::new(last)),
            ),
            (Ok(_), Err(causes)) => Err(causes),
            (Err(causes), Ok(_)) => Err(causes),
            (Err(causes), Err(more)) => Err(causes + more),
        },
{
    let before = steps_resolved(query, mutation, steps);
    let one = steps_resolved(query, mutation, seq![step]);
    assert(steps_resolved(query, mutation, steps.push(step)) =~= before + one);
    lemma_one_step(query, mutation, step);
    let resolved = step_resolved(query, mutation, step);
    assert(one =~= seq![resolved]);
    match resolved {
        Ok(e) => {
            law_gathered_in_order(before, one, e, Seq::empty());
        },
        Err(causes) => {
            law_gathered_in_order(before, one, ExpressionModel::ContextValue, causes);
        },
    }
    lemma_steps_explained(query, mutation, steps);
    law_gathered(before);
    if let Ok(values) = gathered(before) {
        if let Ok(e) = resolved {
            assert((values + seq![e]).drop_last() =~= values);
            assert((values + seq![e]).last() == e);
        }
    }
}

proof fn lemma_steps_explained(
    query: Option<ObjectModel>,
    mutation: Option<ObjectModel>,
    steps: Seq<StepModel>,
)
    ensures
        explained(steps_resolved(query, mutation, steps)),
{
}

/// Where an update succeeds, a field with a call resolves to its call, compiled against the objects
/// that queries and mutations start from before the update.
pub proof fn law_update_sets_the_resolvers(blueprint: BlueprintModel, i: int, j: int)
    requires
        blueprint_updated(blueprint) is Ok,
        0 <= i < blueprint.definitions.len(),
        blueprint.definitions[i] is Object,
        0 <= j < blueprint.definitions[i]->Object_0.fields.len(),
        blueprint.definitions[i]->Object_0.fields[j].source.1.call is Some,
    ensures
        ({
            let steps = blueprint.definitions[i]->Object_0.fields[j].source.1.call->0;
            let after = blueprint_updated(blueprint)->Ok_0.definitions[i];
            &&& after is Object
            &&& call_compiled(blueprint.query_def(), blueprint.mutation_def(), steps) is Ok
            &&& after->Object_0.fields[j].resolver == Some(
                call_compiled(blueprint.query_def(), blueprint.mutation_def(), steps)->Ok_0,
            )
        }),
{
    let query = blueprint.query_def();
    let mutation = blueprint.mutation_def();
    law_update_changes_calls_only(blueprint);
    let results = blueprint.definitions.map_values(
        |d: DefinitionModel| definition_updated(query, mutation, d),
    );
    assert(explained(results)) by {
        assert forall|k: int| 0 <= k < results.len() implies ((#[trigger] results[k]) is Err
            ==> results[k]->Err_0.len() > 0) by {
            if let DefinitionModel::Object(object) = blueprint.definitions[k] {
                lemma_object_kept(query, mutation, object);
            }
        }
    }
    law_gathered(results);
    let object = blueprint.definitions[i]->Object_0;
    assert(definition_compiles(query, mutation, blueprint.definitions[i]));
    lemma_object_kept(query, mutation, object);
    assert(results[i] == definition_updated(query, mutation, blueprint.definitions[i]));
    let values = gathered(results)->Ok_0;
    assert(results[i] == Ok::<DefinitionModel, Seq<CauseModel>>(values[i]));
    let inner = object.fields.map_values(
        |f: FieldDefinitionModel| field_updated(query, mutation, f),
    );
    assert(explained(inner)) by {
        assert forall|k: int| 0 <= k < inner.len() implies ((#[trigger] inner[k]) is Err
            ==> inner[k]->Err_0.len() > 0) by {
            if let Some(steps) = object.fields[k].source.1.call {
                lemma_causes_explained(query, mutation, steps);
            }
        }
    }
    law_gathered(inner);
    let fields = gathered(inner)->Ok_0;
    assert(inner[j] == Ok::<FieldDefinitionModel, Seq<CauseModel>>(fields[j]));
    assert(field_compiles(query, mutation, object.fields[j]));
}

/// Where one definition is an object with one field whose call fails, the causes are those of the
/// call, found at the field of the object. The causes of more definitions, and of more fields, are
/// told one after the other.
pub proof fn law_causes_tell_the_place(
    query: Option<ObjectModel>,
    mutation: Option<ObjectModel>,
    name: Seq<char>,
    field: FieldDefinitionModel,
    causes: Seq<CauseModel>,
    a: ObjectModel,
    b: ObjectModel,
)
    requires
        field.source.1.call is Some,
        call_compiled(query, mutation, field.source.1.call->0) == Err::<
            ExpressionModel,
            Seq<CauseModel>,
        >(causes),
        a.name == b.name,
    ensures
        ({
            let object = ObjectModel { name, fields: seq![field] };
            let made = object_updated(query, mutation, object);
            &&& made is Err
            &&& made->Err_0.len() == causes.len()
            &&& forall|i: int|
                0 <= i < causes.len() ==> (#[trigger] made->Err_0[i]).message == causes[i].message
                    && made->Err_0[i].trace == seq![name, field.name] + causes[i].trace
        }),
        ({
            let both = ObjectModel { name: a.name, fields: a.fields + b.fields };
            object_updated(query, mutation, both) == match (
                object_updated(query, mutation, a),
                object_updated(query, mutation, b),
            ) {
                (Ok(x), Ok(y)) => Ok::<ObjectModel, Seq<CauseModel>>(
                    ObjectModel { name: a.name, fields: x.fields + y.fields },
                ),
                (Ok(_), Err(y)) => Err(y),
                (Err(x), Ok(_)) => Err(x),
                (Err(x), Err(y)) => Err(x + y),
            }
        }),
{
    let f = |g: FieldDefinitionModel| field_updated(query, mutation, g);
    let one = seq![field].map_values(f);
    lemma_causes_explained(query, mutation, field.source.1.call->0);
    let inner = traced(causes, field.name);
    assert(one =~= seq![Err::<FieldDefinitionModel, Seq<CauseModel>>(inner)]);
    law_gathered_in_order(one, one, field, inner);
    let object = ObjectModel { name, fields: seq![field] };
    let made = object_updated(query, mutation, object);
    assert(made == Err::<ObjectModel, Seq<CauseModel>>(traced(inner, name)));
    assert forall|i: int| 0 <= i < causes.len() implies (#[trigger] made->Err_0[i]).message
        == causes[i].message && made->Err_0[i].trace == seq![name, field.name] + causes[i].trace by {
        assert(seq![name] + (seq![field.name] + causes[i].trace) =~= seq![name, field.name]
            + causes[i].trace);
    }
    let ra = a.fields.map_values(f);
    let rb = b.fields.map_values(f);
    assert((a.fields + b.fields).map_values(f) =~= ra + rb);
    law_gathered_in_order(ra, rb, field, inner);
    let ca = causes_in(ra);
    let cb = causes_in(rb);
    assert(traced(ca + cb, a.name) =~= traced(ca, a.name) + traced(cb, a.name));
}

/// Definitions are updated one by one; objects as such, and others not at all. All causes are told,
/// one definition after the other.
pub proof fn law_definitions_are_updated_one_by_one(blueprint: BlueprintModel)
    ensures
        forall|i: int|
            0 <= i < blueprint.definitions.len() && blueprint_updated(blueprint) is Ok
                && blueprint.definitions[i] is Object ==> object_updated(
                blueprint.query_def(),
                blueprint.mutation_def(),
                (#[trigger] blueprint.definitions[i])->Object_0,
            ) == Ok::<ObjectModel, Seq<CauseModel>>(
                blueprint_updated(blueprint)->Ok_0.definitions[i]->Object_0,
            ),
        blueprint_updated(blueprint) matches Err(causes) ==> causes == object_causes(
            blueprint.query_def(),
            blueprint.mutation_def(),
            blueprint.definitions,
        ),
{
    let query = blueprint.query_def();
    let mutation = blueprint.mutation_def();
    law_update_changes_calls_only(blueprint);
    let results = blueprint.definitions.map_values(
        |d: DefinitionModel| definition_updated(query, mutation, d),
    );
    assert(explained(results)) by {
        assert forall|k: int| 0 <= k < results.len() implies ((#[trigger] results[k]) is Err
            ==> results[k]->Err_0.len() > 0) by {
            if let DefinitionModel::Object(object) = blueprint.definitions[k] {
                lemma_object_kept(query, mutation, object);
            }
        }
    }
    law_gathered(results);
    lemma_object_causes(query, mutation, blueprint.definitions);
    if let Ok(values) = gathered(results) {
        assert forall|i: int|
            0 <= i < blueprint.definitions.len() && blueprint.definitions[i] is Object implies object_updated(
            query,
            mutation,
            (#[trigger] blueprint.definitions[i])->Object_0,
        ) == Ok::<ObjectModel, Seq<CauseModel>>(values[i]->Object_0) by {
            assert(results[i] == Ok::<DefinitionModel, Seq<CauseModel>>(values[i]));
        }
    }
}

/// The causes for which objects cannot be updated, one object after the other.
pub open spec fn object_causes(
    query: Option<ObjectModel>,
    mutation: Option<ObjectModel>,
    definitions: Seq<DefinitionModel>,
) -> Seq<CauseModel>
    decreases definitions.len(),
{
    if definitions.len() == 0 {
        Seq::empty()
    } else {
        object_causes(query, mutation, definitions.drop_last()) + match definitions.last() {
            DefinitionModel::Object(object) => match object_updated(query, mutation, object) {
                Err(causes) => causes,
                Ok(_) => Seq::empty(),
            },
            DefinitionModel::Other(_) => Seq::empty(),
        }
    }
}

proof fn lemma_object_causes(
    query: Option<ObjectModel>,
    mutation: Option<ObjectModel>,
    definitions: Seq<DefinitionModel>,
)
    ensures
        causes_in(definitions.map_values(|d: DefinitionModel| definition_updated(query, mutation, d)))
            == object_causes(query, mutation, definitions),
    decreases definitions.len(),
{
    if definitions.len() > 0 {
        let f = |d: DefinitionModel| definition_updated(query, mutation, d);
        lemma_object_causes(query, mutation, definitions.drop_last());
        assert(definitions.map_values(f).drop_last() =~= definitions.drop_last().map_values(f));
        assert(causes_in(definitions.map_values(f)) =~= object_causes(query, mutation, definitions));
    }
}

} // verus!
