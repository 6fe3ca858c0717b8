//! Results that collect every cause of failure instead of stopping at the first.
use vstd::prelude::*;

use crate::text::views;

verus! {

/// One cause of failure: what is wrong, and where, from the outside in.
#[derive(Debug, PartialEq, Eq)]
pub struct Cause {
    pub message: String,
    pub trace: Vec<String>,
}

/// What a [`Cause`] holds.
pub struct CauseModel {
    pub message: Seq<char>,
    pub trace: Seq<Seq<char>>,
}

impl View for Cause {
    type V = CauseModel;

    open spec fn view(&self) -> CauseModel {
        CauseModel { message: self.message@, trace: views(self.trace@) }
    }
}

/// The contents of a list of causes.
pub open spec fn causes_model(causes: Seq<Cause>) -> Seq<CauseModel> {
    causes.map_values(|c: Cause| c@)
}

/// The causes of a failure.
#[derive(Debug, PartialEq, Eq)]
pub struct ValidationError {
    pub causes: Vec<Cause>,
}

impl View for ValidationError {
    type V = Seq<CauseModel>;

    open spec fn view(&self) -> Seq<CauseModel> {
        causes_model(self.causes@)
    }
}

/// A value, or the causes for which there is none.
#[derive(Debug, PartialEq, Eq)]
pub struct Valid<A> {
    outcome: Result<A, ValidationError>,
}

/// The one cause with the message, found nowhere in particular.
pub open spec fn sole_cause(message: Seq<char>) -> Seq<CauseModel> {
    seq![CauseModel { message, trace: Seq::empty() }]
}

/// The causes, each found one place further in.
pub open spec fn traced(causes: Seq<CauseModel>, place: Seq<char>) -> Seq<CauseModel> {
    causes.map_values(
        |c: CauseModel| CauseModel { message: c.message, trace: seq![place] + c.trace },
    )
}

/// The values of those results that have one.
pub open spec fn values_in<A>(results: Seq<Result<A, Seq<CauseModel>>>) -> Seq<A>
    decreases results.len(),
{
    if results.len() == 0 {
        Seq::empty()
    } else {
        match results.last() {
            Ok(value) => values_in(results.drop_last()).push(value),
            Err(_) => values_in(results.drop_last()),
        }
    }
}

/// The causes of those results that have no value.
pub open spec fn causes_in<A>(results: Seq<Result<A, Seq<CauseModel>>>) -> Seq<CauseModel>
    decreases results.len(),
{
    if results.len() == 0 {
        Seq::empty()
    } else {
        match results.last() {
            Ok(_) => causes_in(results.drop_last()),
            Err(causes) => causes_in(results.drop_last()) + causes,
        }
    }
}

/// All values in order, or all causes in order where there is one.
pub open spec fn gathered<A>(results: Seq<Result<A, Seq<CauseModel>>>) -> Result<
    Seq<A>,
    Seq<CauseModel>,
> {
    if causes_in(results).len() == 0 {
        Ok(values_in(results))
    } else {
        Err(causes_in(results))
    }
}

impl<A> Valid<A> {
    /// The value or the causes.
    pub closed spec fn result(self) -> Result<A, ValidationError> {
        self.outcome
    }

    /// A value.
    pub fn succeed(value: A) -> (res: Valid<A>)
        ensures
            res.result() == Ok::<A, ValidationError>(value),
    {
        Valid { outcome: Ok(value) }
    }

    /// No value, for the cause with the message.
    pub fn fail(message: &str) -> (res: Valid<A>)
        ensures
            res.result() is Err,
            res.result()->Err_0@ == sole_cause(message@),
    {
        let mut causes: Vec<Cause> = Vec::new();
        let cause = Cause { message: message.to_string(), trace: Vec::new() };
        proof {
            assert(cause@.trace =~= Seq::empty());
        }
        causes.push(cause);
        proof {
            assert(causes_model(causes@) =~= sole_cause(message@));
        }
        Valid { outcome: Err(ValidationError { causes }) }
    }

    /// No value, for the causes.
    pub fn fail_with(causes: Vec<Cause>) -> (res: Valid<A>)
        ensures
            res.result() is Err,
            res.result()->Err_0@ == causes_model(causes@),
    {
        Valid { outcome: Err(ValidationError { causes }) }
    }

    /// Where there is no value, says that the causes were found at `place`.
    pub fn trace(self, place: &str) -> (res: Valid<A>)
        ensures
            match self.result() {
                Ok(value) => res.result() == Ok::<A, ValidationError>(value),
                Err(e) => res.result() is Err && res.result()->Err_0@ == traced(e@, place@),
            },
    {
        match self.outcome {
            Ok(value) => Valid { outcome: Ok(value) },
            Err(error) => {
                let mut rest = error.causes;
                let ghost all = causes_model(rest@);
                let mut causes: Vec<Cause> = Vec::new();
                let n: usize = rest.len();
                for i in 0..n
                    invariant
                        n == all.len(),
                        rest.len() == n - i,
                        causes_model(rest@) == all.skip(i as int),
                        causes_model(causes@) == traced(all, place@).take(i as int),
                {
                    let ghost before = rest@;
                    let ghost done = causes@;
                    let mut cause = rest.remove(0);
                    let ghost trace = cause.trace@;
                    proof {
                        assert(cause@ == causes_model(before)[0]);
                        assert(causes_model(rest@) =~= causes_model(before).skip(1));
                        assert(all.skip(i as int).skip(1) =~= all.skip(i + 1));
                    }
                    cause.trace.insert(0, place.to_string());
                    proof {
                        assert(views(cause.trace@) =~= seq![place@] + views(trace));
                    }
                    causes.push(cause);
                    proof {
                        assert(causes_model(causes@) =~= causes_model(done).push(cause@));
                        assert(traced(all, place@).take(i + 1) =~= traced(all, place@).take(
                            i as int,
                        ).push(cause@));
                    }
                }
                proof {
                    assert(traced(all, place@).take(n as int) =~= traced(all, place@));
                }
                Valid { outcome: Err(ValidationError { causes }) }
            },
        }
    }

    /// The value or the causes.
    pub fn to_result(self) -> (res: Result<A, ValidationError>)
        ensures
            res == self.result(),
    {
        self.outcome
    }
}

/// Adds causes behind others.
pub(crate) fn append_causes(causes: &mut Vec<Cause>, error: ValidationError)
    ensures
        causes_model(final(causes)@) == causes_model(old(causes)@) + error@,
{
    let mut more = error.causes;
    causes.append(&mut more);
    proof {
        assert(causes_model(causes@) =~= causes_model(old(causes)@) + error@);
    }
}

/// Whether each of the results that has no value says why.
pub open spec fn explained<A>(results: Seq<Result<A, Seq<CauseModel>>>) -> bool {
    forall|i: int| 0 <= i < results.len() ==> ((#[trigger] results[i]) is Err ==> results[i]->Err_0.len() > 0)
}

/// All results have a value exactly where the values are gathered, and then each stands at the
/// place of its result.
pub proof fn law_gathered<A>(results: Seq<Result<A, Seq<CauseModel>>>)
    requires
        explained(results),
    ensures
        gathered(results) is Ok <==> forall|i: int| 0 <= i < results.len() ==> (#[trigger] results[i]) is Ok,
        gathered(results) matches Ok(values) ==> {
            &&& values.len() == results.len()
            &&& forall|i: int|
                0 <= i < results.len() ==> results[i] == Ok::<A, Seq<CauseModel>>(#[trigger] values[i])
        },
    decreases results.len(),
{
    if results.len() > 0 {
        let rest = results.drop_last();
        assert(forall|i: int| 0 <= i < rest.len() ==> #[trigger] rest[i] == results[i]);
        law_gathered(rest);
        assert(results.last() == results[results.len() - 1]);
        if gathered(results) is Ok {
            assert forall|i: int| 0 <= i < results.len() implies (#[trigger] results[i]) is Ok by {
                if i < rest.len() {
                    assert(rest[i] is Ok);
                }
            }
        }
    }
}

/// A failure for one message is one cause with that message, found nowhere in particular. A place
/// goes before the places of each cause and changes nothing else of it.
pub proof fn law_places_go_before(causes: Seq<CauseModel>, place: Seq<char>, message: Seq<char>)
    ensures
        sole_cause(message).len() == 1,
        sole_cause(message)[0].message == message,
        sole_cause(message)[0].trace.len() == 0,
        traced(causes, place).len() == causes.len(),
        forall|i: int|
            0 <= i < causes.len() ==> (#[trigger] traced(causes, place)[i]).message == causes[i].message
                && traced(causes, place)[i].trace == seq![place] + causes[i].trace,
{
}

/// What is gathered from two lists of results is what is gathered from the first followed by what is
/// gathered from the second: all values where neither fails, and else all causes of both. One result
/// alone is gathered as it is.
pub proof fn law_gathered_in_order<A>(
    a: Seq<Result<A, Seq<CauseModel>>>,
    b: Seq<Result<A, Seq<CauseModel>>>,
    value: A,
    causes: Seq<CauseModel>,
)
    ensures
        gathered(seq![Ok::<A, Seq<CauseModel>>(value)]) == Ok::<Seq<A>, Seq<CauseModel>>(seq![value]),
        causes.len() > 0 ==> gathered(seq![Err::<A, Seq<CauseModel>>(causes)]) == Err::<
            Seq<A>,
            Seq<CauseModel>,
        >(causes),
        gathered(a + b) == match (gathered(a), gathered(b)) {
            (Ok(x), Ok(y)) => Ok::<Seq<A>, Seq<CauseModel>>(x + y),
            (Ok(_), Err(y)) => Err(y),
            (Err(x), Ok(_)) => Err(x),
            (Err(x), Err(y)) => Err(x + y),
        },
{
    lemma_gathered_parts(a, b);
    reveal_with_fuel(values_in, 2);
    reveal_with_fuel(causes_in, 2);
    let one = seq![Ok::<A, Seq<CauseModel>>(value)];
    assert(one.drop_last() =~= Seq::empty());
    assert(values_in(one) =~= seq![value]);
    let other = seq![Err::<A, Seq<CauseModel>>(causes)];
    assert(other.drop_last() =~= Seq::empty());
    assert(causes_in(other) =~= causes);
    let ca = causes_in(a);
    let cb = causes_in(b);
    if ca.len() == 0 {
        assert(ca + cb =~= cb);
    }
    if cb.len() == 0 {
        assert(ca + cb =~= ca);
    }
}

proof fn lemma_gathered_parts<A>(
    a: Seq<Result<A, Seq<CauseModel>>>,
    b: Seq<Result<A, Seq<CauseModel>>>,
)
    ensures
        values_in(a + b) == values_in(a) + values_in(b),
        causes_in(a + b) == causes_in(a) + causes_in(b),
    decreases b.len(),
{
    if b.len() > 0 {
        assert((a + b).drop_last() =~= a + b.drop_last());
        assert((a + b).last() == b.last());
        lemma_gathered_parts(a, b.drop_last());
        assert(values_in(a + b) =~= values_in(a) + values_in(b));
        assert(causes_in(a + b) =~= causes_in(a) + causes_in(b));
    } else {
        assert(a + b =~= a);
        assert(values_in(a) + values_in(b) =~= values_in(a));
        assert(causes_in(a) + causes_in(b) =~= causes_in(a));
    }
}

/// The causes of a failure stand in order, each with its message and the places where it was found.
pub proof fn law_causes_stand_in_order(error: ValidationError, i: int)
    requires
        0 <= i < error.causes@.len(),
    ensures
        error@.len() == error.causes@.len(),
        error@[i].message == error.causes@[i].message@,
        error@[i].trace == Seq::new(
            error.causes@[i].trace@.len(),
            |k: int| error.causes@[i].trace@[k]@,
        ),
{
    assert(error@[i].trace =~= Seq::new(
        error.causes@[i].trace@.len(),
        |k: int| error.causes@[i].trace@[k]@,
    ));
}

} // verus!
