//! The responses to requests, one for each request.
use vstd::prelude::*;

use crate::http::data_loader_request::{
    DataLoaderRequest, DataLoaderRequestModel, Response, ResponseModel,
};

verus! {

/// The contents of a list of answered requests.
pub open spec fn pairs_model(pairs: Seq<(DataLoaderRequest, Response)>) -> Seq<
    (DataLoaderRequestModel, ResponseModel),
> {
    pairs.map_values(|p: (DataLoaderRequest, Response)| (p.0@, p.1@))
}

/// Whether no request occurs twice.
pub open spec fn distinct(pairs: Seq<(DataLoaderRequestModel, ResponseModel)>) -> bool {
    forall|i: int, j: int|
        0 <= i < j < pairs.len() ==> (#[trigger] pairs[i]).0 != (#[trigger] pairs[j]).0
}

/// `answers` with more added one by one; of those to the same request the later one counts.
pub open spec fn with_answers(
    answers: Map<DataLoaderRequestModel, ResponseModel>,
    more: Seq<(DataLoaderRequestModel, ResponseModel)>,
) -> Map<DataLoaderRequestModel, ResponseModel>
    decreases more.len(),
{
    if more.len() == 0 {
        answers
    } else {
        with_answers(answers, more.drop_last()).insert(more.last().0, more.last().1)
    }
}

/// The map that a list of answered requests writes down.
pub open spec fn answers_in(pairs: Seq<(DataLoaderRequestModel, ResponseModel)>) -> Map<
    DataLoaderRequestModel,
    ResponseModel,
> {
    with_answers(Map::empty(), pairs)
}

proof fn lemma_answers_in(pairs: Seq<(DataLoaderRequestModel, ResponseModel)>)
    requires
        distinct(pairs),
    ensures
        answers_in(pairs).dom().finite(),
        answers_in(pairs).len() == pairs.len(),
        forall|i: int|
            0 <= i < pairs.len() ==> answers_in(pairs).contains_key((#[trigger] pairs[i]).0)
                && answers_in(pairs)[pairs[i].0] == pairs[i].1,
        forall|k: DataLoaderRequestModel| #[trigger]
            answers_in(pairs).contains_key(k) ==> exists|i: int|
                0 <= i < pairs.len() && (#[trigger] pairs[i]).0 == k,
    decreases pairs.len(),
{
    if pairs.len() > 0 {
        let rest = pairs.drop_last();
        let last = pairs.len() - 1;
        assert(forall|i: int| 0 <= i < rest.len() ==> #[trigger] rest[i] == pairs[i]);
        assert(distinct(rest)) by {
            assert forall|i: int, j: int| 0 <= i < j < rest.len() implies (#[trigger] rest[i]).0 != (
            #[trigger] rest[j]).0 by {
                assert(pairs[i].0 != pairs[j].0);
            }
        }
        lemma_answers_in(rest);
        assert(!answers_in(rest).contains_key(pairs[last].0)) by {
            if answers_in(rest).contains_key(pairs[last].0) {
                let i = choose|i: int| 0 <= i < rest.len() && (#[trigger] rest[i]).0 == pairs[last].0;
                assert(pairs[i].0 != pairs[last].0);
            }
        }
        assert forall|i: int| 0 <= i < pairs.len() implies answers_in(pairs).contains_key(
            (#[trigger] pairs[i]).0,
        ) && answers_in(pairs)[pairs[i].0] == pairs[i].1 by {
            if i < last {
                assert(rest[i] == pairs[i]);
                assert(pairs[i].0 != pairs[last].0);
            }
        }
        assert forall|k: DataLoaderRequestModel| #[trigger]
            answers_in(pairs).contains_key(k) implies exists|i: int|
            0 <= i < pairs.len() && (#[trigger] pairs[i]).0 == k by {
            if k == pairs[last].0 {
            } else {
                assert(answers_in(rest).contains_key(k));
                let i = choose|i: int| 0 <= i < rest.len() && (#[trigger] rest[i]).0 == k;
                assert(pairs[i].0 == k);
            }
        }
    }
}

/// The responses to requests, one for each request.
#[derive(Debug)]
pub struct ResponseMap {
    entries: Vec<(DataLoaderRequest, Response)>,
}

impl View for ResponseMap {
    type V = Map<DataLoaderRequestModel, ResponseModel>;

    closed spec fn view(&self) -> Map<DataLoaderRequestModel, ResponseModel> {
        answers_in(pairs_model(self.entries@))
    }
}

impl ResponseMap {
    #[verifier::type_invariant]
    spec fn each_once(self) -> bool {
        distinct(pairs_model(self.entries@))
    }

    /// No responses.
    pub fn new() -> (res: ResponseMap)
        ensures
            res@ == Map::<DataLoaderRequestModel, ResponseModel>::empty(),
    {
        ResponseMap { entries: Vec::new() }
    }

    /// The number of requests that have a response.
    pub fn len(&self) -> (res: usize)
        ensures
            res == self@.len(),
    {
        proof {
            use_type_invariant(&*self);
            lemma_answers_in(pairs_model(self.entries@));
        }
        self.entries.len()
    }

    /// The response to a request.
    pub fn get(&self, request: &DataLoaderRequest) -> (res: Option<&Response>)
        ensures
            match res {
                Some(response) => self@.contains_key(request@) && self@[request@] == response@,
                None => !self@.contains_key(request@),
            },
    {
        let ghost pairs = pairs_model(self.entries@);
        proof {
            use_type_invariant(&*self);
            lemma_answers_in(pairs);
        }
        for i in 0..self.entries.len()
            invariant
                pairs == pairs_model(self.entries@),
                forall|i: int|
                    0 <= i < pairs.len() ==> answers_in(pairs).contains_key((#[trigger] pairs[i]).0)
                        && answers_in(pairs)[pairs[i].0] == pairs[i].1,
                forall|k: int| 0 <= k < i ==> (#[trigger] pairs[k]).0 != request@,
        {
            proof {
                assert(pairs[i as int].0 == self.entries@[i as int].0@);
            }
            if self.entries[i].0.same(request) {
                return Some(&self.entries[i].1);
            }
        }
        None
    }

    /// Sets the response to a request, in place of the one that it may have had.
    pub fn insert(&mut self, request: DataLoaderRequest, response: Response)
        ensures
            final(self)@ == old(self)@.insert(request@, response@),
    {
        proof {
            use_type_invariant(&*self);
        }
        let mut entries: Vec<(DataLoaderRequest, Response)> = Vec::new();
        std::mem::swap(&mut entries, &mut self.entries);
        let ghost before = pairs_model(entries@);
        let ghost key = request@;
        let ghost value = response@;
        let mut at: usize = 0;
        while at < entries.len() && !entries[at].0.same(&request)
            invariant
                before == pairs_model(entries@),
                key == request@,
                at <= entries.len(),
                forall|k: int| 0 <= k < at ==> (#[trigger] before[k]).0 != key,
            decreases entries.len() - at,
        {
            proof {
                assert(before[at as int].0 == entries@[at as int].0@);
            }
            at = at + 1;
        }
        proof {
            lemma_answers_in(before);
        }
        if at < entries.len() {
            proof {
                assert(before[at as int].0 == key);
            }
            entries.set(at, (request, response));
            proof {
                let after = pairs_model(entries@);
                assert(after =~= before.update(at as int, (key, value)));
                assert forall|i: int, j: int| 0 <= i < j < after.len() implies (#[trigger] after[i]).0
                    != (#[trigger] after[j]).0 by {
                    assert(before[i].0 != before[j].0);
                }
                lemma_answers_in(after);
                lemma_same_answers(before, after, at as int, key, value);
            }
        } else {
            entries.push((request, response));
            proof {
                let after = pairs_model(entries@);
                assert(after =~= before.push((key, value)));
                assert(after.drop_last() =~= before);
                assert forall|i: int, j: int| 0 <= i < j < after.len() implies (#[trigger] after[i]).0
                    != (#[trigger] after[j]).0 by {
                    assert(before[i].0 == after[i].0);
                    if j < before.len() {
                        assert(before[i].0 != before[j].0);
                    }
                }
            }
        }
        self.entries = entries;
    }

    /// The requests with their responses, no request twice.
    pub fn into_pairs(self) -> (res: Vec<(DataLoaderRequest, Response)>)
        ensures
            distinct(pairs_model(res@)),
            answers_in(pairs_model(res@)) == self@,
    {
        proof {
            use_type_invariant(&self);
        }
        self.entries
    }
}

proof fn lemma_same_answers(
    before: Seq<(DataLoaderRequestModel, ResponseModel)>,
    after: Seq<(DataLoaderRequestModel, ResponseModel)>,
    at: int,
    key: DataLoaderRequestModel,
    value: ResponseModel,
)
    requires
        distinct(before),
        distinct(after),
        0 <= at < before.len(),
        before[at].0 == key,
        after == before.update(at, (key, value)),
    ensures
        answers_in(after) == answers_in(before).insert(key, value),
{
    lemma_answers_in(before);
    lemma_answers_in(after);
    let target = answers_in(before).insert(key, value);
    assert(after[at].0 == key);
    assert forall|k: DataLoaderRequestModel| #[trigger]
        answers_in(after).contains_key(k) == target.contains_key(k) && (target.contains_key(k)
            ==> answers_in(after)[k] == target[k]) by {
        if answers_in(after).contains_key(k) {
            let i = choose|i: int| 0 <= i < after.len() && (#[trigger] after[i]).0 == k;
            assert(before[i].0 == k);
            if i != at {
                if i < at {
                    assert(before[i].0 != before[at].0);
                } else {
                    assert(before[at].0 != before[i].0);
                }
            }
        }
        if target.contains_key(k) && k != key {
            assert(answers_in(before).contains_key(k));
            let i = choose|i: int| 0 <= i < before.len() && (#[trigger] before[i]).0 == k;
            assert(after[i].0 == k);
        }
    }
    assert(answers_in(after) =~= target);
}

/// Pairs in which no request occurs twice write down the map from each request to its response, and
/// nothing else.
pub proof fn law_pairs_write_down_the_map(
    pairs: Seq<(DataLoaderRequestModel, ResponseModel)>,
    request: DataLoaderRequestModel,
)
    requires
        forall|i: int, j: int|
            0 <= i < j < pairs.len() ==> (#[trigger] pairs[i]).0 != (#[trigger] pairs[j]).0,
    ensures
        distinct(pairs),
        forall|i: int|
            0 <= i < pairs.len() ==> answers_in(pairs).contains_key((#[trigger] pairs[i]).0)
                && answers_in(pairs)[pairs[i].0] == pairs[i].1,
        answers_in(pairs).contains_key(request) ==> exists|i: int|
            0 <= i < pairs.len() && (#[trigger] pairs[i]).0 == request,
{
    lemma_answers_in(pairs);
}

} // verus!
