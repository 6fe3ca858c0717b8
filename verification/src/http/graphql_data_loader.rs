//! Batching of GraphQL requests: those to the same address are sent as one.
use vstd::prelude::*;
use vstd::string::*;
use vstd::utf8::*;

use crate::http::data_loader_request::{
    requests_model, DataLoaderRequest, DataLoaderRequestModel, Response, ResponseModel,
};
use crate::http::response_map::{with_answers, ResponseMap};
use crate::string_map::{lemma_rising_distinct, precedes, rising, StringMap};
use crate::text;
use crate::text::{joined, views};
use crate::value::{Value, ValueModel};

verus! {

/// Loads batches through a client.
pub struct GraphqlDataLoader<C> {
    pub client: C,
}

impl<C> GraphqlDataLoader<C> {
    /// The loader for a client.
    pub fn new(client: C) -> (res: GraphqlDataLoader<C>)
        ensures
            res.client == client,
    {
        GraphqlDataLoader { client }
    }
}

/// The requests to the address `url`, in order.
pub open spec fn requests_to(requests: Seq<DataLoaderRequestModel>, url: Seq<char>) -> Seq<
    DataLoaderRequestModel,
>
    decreases requests.len(),
{
    if requests.len() == 0 {
        Seq::empty()
    } else if requests.last().url == url {
        requests_to(requests.drop_last(), url).push(requests.last())
    } else {
        requests_to(requests.drop_last(), url)
    }
}

/// Whether there is a request to the address `url`.
pub open spec fn is_addressed(requests: Seq<DataLoaderRequestModel>, url: Seq<char>) -> bool {
    requests_to(requests, url).len() > 0
}

/// The requests of each group.
pub open spec fn groups_model(groups: Map<Seq<char>, Vec<DataLoaderRequest>>) -> Map<
    Seq<char>,
    Seq<DataLoaderRequestModel>,
> {
    groups.map_values(|g: Vec<DataLoaderRequest>| requests_model(g@))
}

/// The requests in groups, one for each address that there is a request to.
pub open spec fn grouped(requests: Seq<DataLoaderRequestModel>) -> Map<
    Seq<char>,
    Seq<DataLoaderRequestModel>,
> {
    Map::new(|url: Seq<char>| is_addressed(requests, url), |url: Seq<char>| requests_to(requests, url))
}

/// Copies a group of requests.
fn clone_group(group: &Vec<DataLoaderRequest>) -> (res: Vec<DataLoaderRequest>)
    ensures
        requests_model(res@) == requests_model(group@),
{
    let mut res: Vec<DataLoaderRequest> = Vec::new();
    for i in 0..group.len()
        invariant
            res.len() == i,
            forall|k: int| 0 <= k < i ==> (#[trigger] res@[k])@ == group@[k]@,
    {
        res.push(group[i].clone());
    }
    proof {
        assert(requests_model(res@) =~= requests_model(group@));
    }
    res
}

/// Groups requests by their address. A group keeps the order in which its requests came.
pub fn group_requests_by_url(dataloader_requests: &[DataLoaderRequest]) -> (res: StringMap<
    Vec<DataLoaderRequest>,
>)
    ensures
        groups_model(res@) == grouped(requests_model(dataloader_requests@)),
{
    let ghost all = requests_model(dataloader_requests@);
    let mut groups: StringMap<Vec<DataLoaderRequest>> = StringMap::new();
    proof {
        assert(groups_model(groups@) =~= grouped(all.take(0)));
    }
    for i in 0..dataloader_requests.len()
        invariant
            all == requests_model(dataloader_requests@),
            groups_model(groups@) == grouped(all.take(i as int)),
    {
        let request = &dataloader_requests[i];
        let ghost url = request.url@;
        let ghost before = groups@;
        let ghost sofar = all.take(i as int);
        let mut group = match groups.get(request.url.as_str()) {
            Some(group) => clone_group(group),
            None => Vec::new(),
        };
        proof {
            assert(groups_model(before).contains_key(url) == is_addressed(sofar, url));
            if before.contains_key(url) {
                assert(groups_model(before)[url] == requests_model(before[url]@));
                assert(requests_model(group@) == requests_to(sofar, url));
            } else {
                assert(requests_model(group@) =~= Seq::empty());
                assert(requests_to(sofar, url) =~= Seq::empty());
            }
        }
        let ghost old_group = group@;
        group.push(request.clone());
        let ghost new_group = group@;
        groups.insert(request.url.clone(), group);
        proof {
            let next = all.take(i + 1);
            assert(next.drop_last() =~= sofar);
            assert(next.last() == request@);
            assert(requests_model(new_group) =~= requests_model(old_group).push(request@));
            assert(requests_to(next, url) == requests_to(sofar, url).push(request@));
            assert forall|u: Seq<char>| u != url implies #[trigger] requests_to(next, u) == requests_to(
                sofar,
                u,
            ) by {}
            assert forall|u: Seq<char>| #[trigger]
                groups_model(groups@).contains_key(u) == grouped(next).contains_key(u) && (
                grouped(next).contains_key(u) ==> groups_model(groups@)[u] == grouped(next)[u]) by {
                assert(groups_model(before).contains_key(u) == grouped(sofar).contains_key(u));
                if u != url {
                    assert(requests_to(next, u) == requests_to(sofar, u));
                    if before.contains_key(u) {
                        assert(groups_model(before)[u] == grouped(sofar)[u]);
                    }
                }
            }
            assert(groups_model(groups@) =~= grouped(next));
        }
    }
    proof {
        assert(all.take(all.len() as int) =~= all);
    }
    groups
}

/// The text of a body: empty where there is none or where it is not valid UTF-8.
pub open spec fn body_text(body: Option<Seq<u8>>) -> Seq<char> {
    match body {
        Some(bytes) => if valid_utf8(bytes) {
            decode_utf8(bytes)
        } else {
            ""@
        },
        None => ""@,
    }
}

/// The bodies of requests as one list.
pub open spec fn batched_body(requests: Seq<DataLoaderRequestModel>) -> Seq<char> {
    "["@ + joined(requests.map_values(|r: DataLoaderRequestModel| body_text(r.body)), ","@) + "]"@
}

/// Puts the bodies of requests into one list.
pub fn collect_request_bodies(dataloader_requests: &[DataLoaderRequest]) -> (res: String)
    ensures
        res@ == batched_body(requests_model(dataloader_requests@)),
{
    let ghost all = requests_model(dataloader_requests@).map_values(
        |r: DataLoaderRequestModel| body_text(r.body),
    );
    let mut bodies: Vec<String> = Vec::new();
    for i in 0..dataloader_requests.len()
        invariant
            all == requests_model(dataloader_requests@).map_values(
                |r: DataLoaderRequestModel| body_text(r.body),
            ),
            views(bodies@) == all.take(i as int),
    {
        let body = match &dataloader_requests[i].body {
            Some(bytes) => match text::from_utf8(bytes.as_slice()) {
                Some(s) => s.to_string(),
                None => "".to_string(),
            },
            None => "".to_string(),
        };
        proof {
            assert(all[i as int] == body@);
            assert(views(bodies@.push(body)) =~= views(bodies@).push(body@));
            assert(all.take(i + 1) =~= all.take(i as int).push(body@));
        }
        bodies.push(body);
    }
    proof {
        assert(all.take(all.len() as int) =~= all);
    }
    let mut res = "[".to_string();
    res.append(text::join(&bodies, ",").as_str());
    res.append("]");
    res
}

/// The one request that stands for a group: the first, with the bodies of all.
pub open spec fn batched(requests: Seq<DataLoaderRequestModel>) -> DataLoaderRequestModel {
    DataLoaderRequestModel { body: Some(encode_utf8(batched_body(requests))), ..requests[0] }
}

/// Makes the one request that stands for a group.
pub fn create_batched_request(dataloader_requests: &[DataLoaderRequest]) -> (res: DataLoaderRequest)
    requires
        dataloader_requests@.len() > 0,
    ensures
        res@ == batched(requests_model(dataloader_requests@)),
{
    let batched_query = collect_request_bodies(dataloader_requests);
    let mut batched_req = dataloader_requests[0].clone();
    batched_req.body = Some(batched_query.as_str().as_bytes_vec());
    batched_req
}

/// Makes the requests to send, one for each group, with the address of the group.
pub fn batched_requests(groups: &StringMap<Vec<DataLoaderRequest>>) -> (res: Vec<
    (String, DataLoaderRequest),
>)
    requires
        forall|url: Seq<char>| #[trigger] groups@.contains_key(url) ==> groups@[url]@.len() > 0,
    ensures
        rising(res@),
        forall|i: int|
            0 <= i < res@.len() ==> {
                &&& groups@.contains_key((#[trigger] res@[i]).0@)
                &&& res@[i].1@ == batched(requests_model(groups@[res@[i].0@]@))
            },
        forall|url: Seq<char>| #[trigger]
            groups@.contains_key(url) ==> exists|i: int|
                0 <= i < res@.len() && (#[trigger] res@[i]).0@ == url,
{
    let n: usize = groups.len();
    let mut res: Vec<(String, DataLoaderRequest)> = Vec::new();
    for i in 0..n
        invariant
            n == groups.pairs().len(),
            rising(groups.pairs()),
            forall|url: Seq<char>| #[trigger] groups@.contains_key(url) ==> groups@[url]@.len() > 0,
            forall|i: int|
                0 <= i < groups.pairs().len() ==> groups@.contains_key(
                    (#[trigger] groups.pairs()[i]).0@,
                ) && groups@[groups.pairs()[i].0@] == groups.pairs()[i].1,
            res.len() == i,
            forall|k: int|
                0 <= k < i ==> (#[trigger] res@[k]).0@ == groups.pairs()[k].0@ && res@[k].1@ == batched(
                    requests_model(groups@[res@[k].0@]@),
                ),
    {
        proof {
            assert(groups@.contains_key(groups.pairs()[i as int].0@));
        }
        let url = groups.key_at(i).clone();
        let request = create_batched_request(groups.value_at(i).as_slice());
        res.push((url, request));
    }
    proof {
        assert forall|i: int, j: int| 0 <= i < j < res@.len() implies precedes(
            (#[trigger] res@[i]).0@,
            (#[trigger] res@[j]).0@,
        ) by {
            assert(precedes(groups.pairs()[i].0@, groups.pairs()[j].0@));
        }
        assert forall|i: int| 0 <= i < res@.len() implies groups@.contains_key(
            (#[trigger] res@[i]).0@,
        ) by {
            assert(groups@.contains_key(groups.pairs()[i].0@));
        }
        assert forall|url: Seq<char>| #[trigger] groups@.contains_key(url) implies exists|i: int|
            0 <= i < res@.len() && (#[trigger] res@[i]).0@ == url by {
            let i = choose|i: int| 0 <= i < groups.pairs().len() && (#[trigger] groups.pairs()[i]).0@ == url;
            assert(res@[i].0@ == url);
        }
    }
    res
}

/// The response to the request at position `i` of a group: the item at that position, or null where
/// the response has no such item.
pub open spec fn share(response: ResponseModel, items: Seq<ValueModel>, i: int) -> ResponseModel {
    ResponseModel {
        body: if 0 <= i < items.len() {
            items[i]
        } else {
            ValueModel::Null
        },
        ..response
    }
}

/// The requests of a group, each with its share of the response to all; none where the response is
/// no list.
pub open spec fn shares(group: Seq<DataLoaderRequestModel>, response: ResponseModel) -> Seq<
    (DataLoaderRequestModel, ResponseModel),
> {
    match response.body {
        ValueModel::List(items) => Seq::new(
            group.len(),
            |i: int| (group[i], share(response, items, i)),
        ),
        _ => Seq::empty(),
    }
}

/// The requests to an address, none where there is no group for it.
pub open spec fn group_of(
    groups: Map<Seq<char>, Seq<DataLoaderRequestModel>>,
    url: Seq<char>,
) -> Seq<DataLoaderRequestModel> {
    if groups.contains_key(url) {
        groups[url]
    } else {
        Seq::empty()
    }
}

/// What comes of each address: the response, unless the request failed.
pub open spec fn results_model<E>(results: Seq<(String, Result<Response, E>)>) -> Seq<
    (Seq<char>, Option<ResponseModel>),
> {
    results.map_values(
        |r: (String, Result<Response, E>)|
            (
                r.0@,
                match r.1 {
                    Ok(response) => Some(response@),
                    Err(_) => None,
                },
            ),
    )
}

/// The requests that have been answered, each with its share of the response for its group. Where a
/// request occurs more than once, its last share counts.
pub open spec fn individual_responses(
    results: Seq<(Seq<char>, Option<ResponseModel>)>,
    groups: Map<Seq<char>, Seq<DataLoaderRequestModel>>,
) -> Map<DataLoaderRequestModel, ResponseModel>
    decreases results.len(),
{
    if results.len() == 0 {
        Map::empty()
    } else {
        let before = individual_responses(results.drop_last(), groups);
        match results.last().1 {
            Some(response) => with_answers(
                before,
                shares(group_of(groups, results.last().0), response),
            ),
            None => before,
        }
    }
}

/// Hands the requests of a group their shares of the response.
fn insert_shares(answers: &mut ResponseMap, group: &Vec<DataLoaderRequest>, response: &Response)
    ensures
        final(answers)@ == with_answers(old(answers)@, shares(requests_model(group@), response@)),
{
    let ghost before = answers@;
    let ghost expected = shares(requests_model(group@), response@);
    if let Value::List(values) = &response.body {
        let ghost items = response@.body->List_0;
        for i in 0..group.len()
            invariant
                before == old(answers)@,
                response.body == Value::List(*values),
                items == response@.body->List_0,
                expected == shares(requests_model(group@), response@),
                answers@ == with_answers(before, expected.take(i as int)),
        {
            let body = if i < values.len() {
                values[i].clone()
            } else {
                Value::Null
            };
            let request = group[i].clone();
            let answer = response.with_body(body);
            proof {
                assert(expected[i as int] == (request@, answer@));
                assert(expected.take(i + 1).drop_last() =~= expected.take(i as int));
            }
            answers.insert(request, answer);
        }
        proof {
            assert(expected.take(group@.len() as int) =~= expected);
        }
    }
}

/// Hands each request its share of the response for its group. A request comes out only where the
/// request for its group succeeded and was answered with a list.
pub fn extract_individual_responses<E>(
    results: Vec<(String, Result<Response, E>)>,
    request_groups: &StringMap<Vec<DataLoaderRequest>>,
) -> (res: ResponseMap)
    ensures
        res@ == individual_responses(results_model(results@), groups_model(request_groups@)),
{
    let ghost all = results_model(results@);
    let ghost groups = groups_model(request_groups@);
    let mut answers = ResponseMap::new();
    for i in 0..results.len()
        invariant
            all == results_model(results@),
            groups == groups_model(request_groups@),
            answers@ == individual_responses(all.take(i as int), groups),
    {
        proof {
            assert(all.take(i + 1).drop_last() =~= all.take(i as int));
            assert(all.take(i + 1).last() == all[i as int]);
        }
        if let Ok(response) = &results[i].1 {
            match request_groups.get(results[i].0.as_str()) {
                Some(group) => {
                    insert_shares(&mut answers, group, response);
                },
                None => {
                    proof {
                        assert(shares(Seq::empty(), response@) =~= Seq::empty());
                    }
                },
            }
        }
    }
    proof {
        assert(all.take(all.len() as int) =~= all);
    }
    answers
}

/// Groups requests by their address and makes the requests to send, one for each address.
pub fn plan_batches(keys: &[DataLoaderRequest]) -> (res: (
    StringMap<Vec<DataLoaderRequest>>,
    Vec<(String, DataLoaderRequest)>,
))
    ensures
        groups_model(res.0@) == grouped(requests_model(keys@)),
        is_plan(res.1@, requests_model(keys@)),
{
    let groups = group_requests_by_url(keys);
    let ghost requests = requests_model(keys@);
    proof {
        assert forall|url: Seq<char>| #[trigger] groups@.contains_key(url) implies groups@[url]@.len()
            > 0 by {
            assert(groups_model(groups@).contains_key(url));
            assert(groups_model(groups@)[url] == requests_model(groups@[url]@));
            assert(requests_model(groups@[url]@).len() == groups@[url]@.len());
        }
    }
    let batches = batched_requests(&groups);
    proof {
        assert forall|i: int| 0 <= i < batches@.len() implies is_addressed(
            requests,
            (#[trigger] batches@[i]).0@,
        ) && batches@[i].1@ == batched(requests_to(requests, batches@[i].0@)) by {
            let url = batches@[i].0@;
            assert(groups_model(groups@).contains_key(url));
            assert(groups_model(groups@)[url] == requests_model(groups@[url]@));
        }
        assert forall|url: Seq<char>| #[trigger] is_addressed(requests, url) implies exists|i: int|
            0 <= i < batches@.len() && (#[trigger] batches@[i]).0@ == url by {
            assert(grouped(requests).contains_key(url));
            assert(groups_model(groups@).contains_key(url));
            assert(groups@.contains_key(url));
        }
    }
    (groups, batches)
}

/// Whether the batches are those for the requests: in the order of their addresses, one for each
/// address that there is a request to.
pub open spec fn is_plan(
    batches: Seq<(String, DataLoaderRequest)>,
    requests: Seq<DataLoaderRequestModel>,
) -> bool {
    &&& rising(batches)
    &&& forall|i: int|
        0 <= i < batches.len() ==> is_addressed(requests, (#[trigger] batches[i]).0@)
            && batches[i].1@ == batched(requests_to(requests, batches[i].0@))
    &&& forall|url: Seq<char>| #[trigger]
        is_addressed(requests, url) ==> exists|i: int|
            0 <= i < batches.len() && (#[trigger] batches[i]).0@ == url
}

/// However many requests there are to an address, one is sent to it.
pub proof fn law_one_batch_per_address(
    batches: Seq<(String, DataLoaderRequest)>,
    requests: Seq<DataLoaderRequestModel>,
    url: Seq<char>,
)
    requires
        is_plan(batches, requests),
        is_addressed(requests, url),
    ensures
        exists|i: int|
            0 <= i < batches.len() && (#[trigger] batches[i]).0@ == url && forall|j: int|
                0 <= j < batches.len() && (#[trigger] batches[j]).0@ == url ==> j == i,
{
    let i = choose|i: int| 0 <= i < batches.len() && (#[trigger] batches[i]).0@ == url;
    assert forall|j: int| 0 <= j < batches.len() && (#[trigger] batches[j]).0@ == url implies j == i by {
        if j != i {
            lemma_rising_distinct(batches, i, j);
        }
    }
}

/// Every request stands in the group for its address, and a group holds requests to its address
/// only.
pub proof fn law_groups_partition(requests: Seq<DataLoaderRequestModel>, url: Seq<char>)
    ensures
        forall|r: DataLoaderRequestModel| #[trigger]
            requests_to(requests, url).contains(r) <==> requests.contains(r) && r.url == url,
    decreases requests.len(),
{
    if requests.len() > 0 {
        let rest = requests.drop_last();
        let last = requests.last();
        law_groups_partition(rest, url);
        assert forall|r: DataLoaderRequestModel| #[trigger]
            requests_to(requests, url).contains(r) <==> requests.contains(r) && r.url == url by {
            let group = requests_to(requests, url);
            let before = requests_to(rest, url);
            if group.contains(r) {
                let i = choose|i: int| 0 <= i < group.len() && group[i] == r;
                if i < before.len() {
                    assert(before[i] == r);
                    assert(before.contains(r));
                    let k = choose|k: int| 0 <= k < rest.len() && rest[k] == r;
                    assert(requests[k] == r);
                } else {
                    assert(requests[requests.len() - 1] == r);
                }
            }
            if requests.contains(r) && r.url == url {
                let k = choose|k: int| 0 <= k < requests.len() && requests[k] == r;
                if k < rest.len() {
                    assert(rest[k] == r);
                    assert(rest.contains(r));
                    assert(before.contains(r));
                    let i = choose|i: int| 0 <= i < before.len() && before[i] == r;
                    assert(group[i] == r);
                } else {
                    assert(group[group.len() - 1] == r);
                }
            }
        }
    }
}

proof fn lemma_answers_to_others(
    answers: Map<DataLoaderRequestModel, ResponseModel>,
    more: Seq<(DataLoaderRequestModel, ResponseModel)>,
    request: DataLoaderRequestModel,
)
    requires
        forall|i: int| 0 <= i < more.len() ==> (#[trigger] more[i]).0 != request,
    ensures
        with_answers(answers, more).contains_key(request) == answers.contains_key(request),
        answers.contains_key(request) ==> with_answers(answers, more)[request] == answers[request],
    decreases more.len(),
{
    if more.len() > 0 {
        assert(more.last() == more[more.len() - 1]);
        assert forall|i: int| 0 <= i < more.drop_last().len() implies (
        #[trigger] more.drop_last()[i]).0 != request by {
            assert(more.drop_last()[i] == more[i]);
        }
        lemma_answers_to_others(answers, more.drop_last(), request);
    }
}

proof fn lemma_last_answer(
    answers: Map<DataLoaderRequestModel, ResponseModel>,
    more: Seq<(DataLoaderRequestModel, ResponseModel)>,
    at: int,
)
    requires
        0 <= at < more.len(),
        forall|i: int| at < i < more.len() ==> (#[trigger] more[i]).0 != more[at].0,
    ensures
        with_answers(answers, more).contains_key(more[at].0),
        with_answers(answers, more)[more[at].0] == more[at].1,
    decreases more.len(),
{
    assert(more.last() == more[more.len() - 1]);
    if at < more.len() - 1 {
        let rest = more.drop_last();
        assert forall|i: int| at < i < rest.len() implies (#[trigger] rest[i]).0 != rest[at].0 by {
            assert(rest[i] == more[i]);
        }
        lemma_last_answer(answers, rest, at);
    }
}

proof fn lemma_answered_keys(
    answers: Map<DataLoaderRequestModel, ResponseModel>,
    more: Seq<(DataLoaderRequestModel, ResponseModel)>,
    request: DataLoaderRequestModel,
)
    requires
        with_answers(answers, more).contains_key(request),
        !answers.contains_key(request),
    ensures
        exists|i: int| 0 <= i < more.len() && (#[trigger] more[i]).0 == request,
    decreases more.len(),
{
    if more.len() > 0 {
        assert(more.last() == more[more.len() - 1]);
        if more.last().0 != request {
            lemma_answered_keys(answers, more.drop_last(), request);
            let i = choose|i: int|
                0 <= i < more.drop_last().len() && (#[trigger] more.drop_last()[i]).0 == request;
            assert(more[i].0 == request);
        }
    }
}

/// Whether the request at position `at` of a group does not occur again behind it.
pub open spec fn is_last(group: Seq<DataLoaderRequestModel>, at: int) -> bool {
    0 <= at < group.len() && forall|i: int| at < i < group.len() ==> #[trigger] group[i] != group[at]
}

proof fn lemma_last_position(group: Seq<DataLoaderRequestModel>, request: DataLoaderRequestModel)
    requires
        group.contains(request),
    ensures
        exists|at: int| #[trigger] is_last(group, at) && group[at] == request,
    decreases group.len(),
{
    let last = group.len() - 1;
    if group[last] == request {
        assert(is_last(group, last));
    } else {
        let rest = group.drop_last();
        let i = choose|i: int| 0 <= i < group.len() && group[i] == request;
        assert(rest[i] == request);
        lemma_last_position(rest, request);
        let at = choose|at: int| #[trigger] is_last(rest, at) && rest[at] == request;
        assert forall|i: int| at < i < group.len() implies #[trigger] group[i] != group[at] by {
            if i < last {
                assert(rest[i] != rest[at]);
            }
        }
        assert(is_last(group, at));
    }
}

/// Where the request for an address succeeded and was answered with a list, and nothing came for
/// that address later, every request to the address has the item at its last position in the group,
/// with the status and the headers of the response.
pub proof fn law_answered_address_answers_all(
    requests: Seq<DataLoaderRequestModel>,
    results: Seq<(Seq<char>, Option<ResponseModel>)>,
    request: DataLoaderRequestModel,
    k: int,
)
    requires
        requests.contains(request),
        0 <= k < results.len(),
        results[k].0 == request.url,
        results[k].1 matches Some(response) && response.body is List,
        forall|j: int| k < j < results.len() ==> (#[trigger] results[j]).0 != request.url,
    ensures
        individual_responses(results, grouped(requests)).contains_key(request),
        exists|at: int| #[trigger]
            is_last(requests_to(requests, request.url), at) && requests_to(
                requests,
                request.url,
            )[at] == request && individual_responses(results, grouped(requests))[request] == share(
                results[k].1->0,
                results[k].1->0.body->List_0,
                at,
            ),
    decreases results.len(),
{
    let groups = grouped(requests);
    let rest = results.drop_last();
    let before = individual_responses(rest, groups);
    let last = results.len() - 1;
    assert(results.last() == results[last]);
    if k < last {
        assert(rest[k] == results[k]);
        assert forall|j: int| k < j < rest.len() implies (#[trigger] rest[j]).0 != request.url by {
            assert(rest[j] == results[j]);
        }
        law_answered_address_answers_all(requests, rest, request, k);
        if let Some(response) = results[last].1 {
            let url = results[last].0;
            let more = shares(group_of(groups, url), response);
            law_groups_partition(requests, url);
            assert forall|i: int| 0 <= i < more.len() implies (#[trigger] more[i]).0 != request by {
                let group = group_of(groups, url);
                assert(more[i].0 == group[i]);
                assert(requests_to(requests, url).contains(group[i]));
                assert(url != request.url);
            }
            lemma_answers_to_others(before, more, request);
        }
    } else {
        law_groups_partition(requests, request.url);
        let group = requests_to(requests, request.url);
        assert(group.contains(request));
        lemma_last_position(group, request);
        let at = choose|at: int| #[trigger] is_last(group, at) && group[at] == request;
        assert(groups.contains_key(request.url));
        let response = results[k].1->0;
        let more = shares(group, response);
        assert forall|i: int| at < i < more.len() implies (#[trigger] more[i]).0 != more[at].0 by {
            assert(group[i] != group[at]);
        }
        lemma_last_answer(before, more, at);
    }
}

/// Only requests that were made are answered.
pub proof fn law_only_requests_are_answered(
    requests: Seq<DataLoaderRequestModel>,
    results: Seq<(Seq<char>, Option<ResponseModel>)>,
    request: DataLoaderRequestModel,
)
    requires
        individual_responses(results, grouped(requests)).contains_key(request),
    ensures
        requests.contains(request),
    decreases results.len(),
{
    if results.len() > 0 {
        let before = individual_responses(results.drop_last(), grouped(requests));
        if before.contains_key(request) {
            law_only_requests_are_answered(requests, results.drop_last(), request);
        } else {
            let url = results.last().0;
            let group = group_of(grouped(requests), url);
            let more = shares(group, results.last().1->0);
            lemma_answered_keys(before, more, request);
            let i = choose|i: int| 0 <= i < more.len() && (#[trigger] more[i]).0 == request;
            law_groups_partition(requests, url);
            assert(requests_to(requests, url).contains(group[i]));
        }
    }
}

/// Bodies become a list in brackets, with commas between their texts: a body that is valid UTF-8 is
/// its own text, and any other counts as empty.
pub proof fn law_bodies_become_a_list(
    requests: Seq<DataLoaderRequestModel>,
    texts: Seq<Seq<char>>,
)
    requires
        texts.len() == requests.len(),
        forall|i: int|
            0 <= i < texts.len() ==> match requests[i].body {
                Some(bytes) => if valid_utf8(bytes) {
                    encode_utf8(#[trigger] texts[i]) == bytes
                } else {
                    texts[i].len() == 0
                },
                None => texts[i].len() == 0,
            },
    ensures
        batched_body(requests) == "["@ + joined(texts, ","@) + "]"@,
{
    let bodies = requests.map_values(|r: DataLoaderRequestModel| body_text(r.body));
    reveal_strlit("");
    assert forall|i: int| 0 <= i < texts.len() implies #[trigger] bodies[i] == texts[i] by {
        if let Some(bytes) = requests[i].body {
            if valid_utf8(bytes) {
                encode_utf8_decode_utf8(texts[i]);
            } else {
                assert(texts[i] =~= ""@);
            }
        } else {
            assert(texts[i] =~= ""@);
        }
    }
    assert(bodies =~= texts);
}

/// The request sent for a group has the method, the address and the headers of the first request of
/// the group, and the bodies of all as its body.
pub proof fn law_batch_is_sent_as_the_first(
    first: DataLoaderRequestModel,
    others: Seq<DataLoaderRequestModel>,
)
    ensures
        batched(seq![first] + others).method == first.method,
        batched(seq![first] + others).url == first.url,
        batched(seq![first] + others).headers == first.headers,
        batched(seq![first] + others).body == Some(encode_utf8(batched_body(seq![first] + others))),
{
    assert((seq![first] + others)[0] == first);
}

/// The requests to an address among those of two lists are those among the first and then those
/// among the second. A request is to its own address and to no other.
pub proof fn law_groups_keep_the_order(
    a: Seq<DataLoaderRequestModel>,
    b: Seq<DataLoaderRequestModel>,
    one: DataLoaderRequestModel,
    url: Seq<char>,
)
    ensures
        requests_to(a + b, url) == requests_to(a, url) + requests_to(b, url),
        requests_to(seq![one], one.url) == seq![one],
        url != one.url ==> requests_to(seq![one], url).len() == 0,
    decreases b.len(),
{
    reveal_with_fuel(requests_to, 2);
    assert(seq![one].drop_last() =~= Seq::empty());
    assert(requests_to(seq![one], one.url) =~= seq![one]);
    if b.len() > 0 {
        assert((a + b).drop_last() =~= a + b.drop_last());
        assert((a + b).last() == b.last());
        law_groups_keep_the_order(a, b.drop_last(), one, url);
        assert(requests_to(a + b, url) =~= requests_to(a, url) + requests_to(b, url));
    } else {
        assert(a + b =~= a);
        assert(requests_to(a, url) + requests_to(b, url) =~= requests_to(a, url));
    }
}

/// There is a group for an address exactly where there is a request to it, and it holds the requests
/// to it.
pub proof fn law_group_for_each_address(requests: Seq<DataLoaderRequestModel>, url: Seq<char>)
    ensures
        grouped(requests).contains_key(url) <==> exists|i: int|
            0 <= i < requests.len() && (#[trigger] requests[i]).url == url,
        is_addressed(requests, url) <==> exists|i: int|
            0 <= i < requests.len() && (#[trigger] requests[i]).url == url,
        grouped(requests).contains_key(url) ==> grouped(requests)[url] == requests_to(requests, url),
{
    law_groups_partition(requests, url);
    let group = requests_to(requests, url);
    if group.len() > 0 {
        assert(group.contains(group[0]));
        assert(requests.contains(group[0]));
        let i = choose|i: int| 0 <= i < requests.len() && requests[i] == group[0];
        assert(requests[i].url == url);
    }
    if exists|i: int| 0 <= i < requests.len() && (#[trigger] requests[i]).url == url {
        let i = choose|i: int| 0 <= i < requests.len() && (#[trigger] requests[i]).url == url;
        assert(requests.contains(requests[i]));
        assert(group.contains(requests[i]));
    }
}

/// Each request that is sent has the address that it is planned for, and the method and the headers
/// of the first of the requests to that address. It stands for the group of that address.
pub proof fn law_plan_sends_to_the_address(
    batches: Seq<(String, DataLoaderRequest)>,
    requests: Seq<DataLoaderRequestModel>,
    i: int,
)
    requires
        is_plan(batches, requests),
        0 <= i < batches.len(),
    ensures
        batches[i].1.url@ == batches[i].0@,
        batches[i].1@ == batched(grouped(requests)[batches[i].0@]),
        exists|k: int| #[trigger]
            first_at(requests, batches[i].0@, k) && batches[i].1.method@ == requests[k].method
                && batches[i].1@.headers == requests[k].headers,
{
    let url = batches[i].0@;
    assert(is_addressed(requests, url));
    lemma_first_of_group(requests, url);
    law_groups_partition(requests, url);
    let group = requests_to(requests, url);
    assert(group.contains(group[0]));
    assert(batches[i].1@ == batched(group));
}

/// Whether the request at position `k` is the first to the address.
pub open spec fn first_at(requests: Seq<DataLoaderRequestModel>, url: Seq<char>, k: int) -> bool {
    &&& 0 <= k < requests.len()
    &&& requests[k].url == url
    &&& forall|j: int| 0 <= j < k ==> (#[trigger] requests[j]).url != url
}

proof fn lemma_first_of_group(requests: Seq<DataLoaderRequestModel>, url: Seq<char>)
    requires
        is_addressed(requests, url),
    ensures
        exists|k: int| #[trigger]
            first_at(requests, url, k) && requests[k] == requests_to(requests, url)[0],
    decreases requests.len(),
{
    let rest = requests.drop_last();
    let last = requests.len() - 1;
    if is_addressed(rest, url) {
        lemma_first_of_group(rest, url);
        let k = choose|k: int| #[trigger]
            first_at(rest, url, k) && rest[k] == requests_to(rest, url)[0];
        assert forall|j: int| 0 <= j < k implies (#[trigger] requests[j]).url != url by {
            assert(rest[j] == requests[j]);
        }
        assert(first_at(requests, url, k));
    } else {
        assert forall|j: int| 0 <= j < last implies (#[trigger] requests[j]).url != url by {
            assert(rest[j] == requests[j]);
            if requests[j].url == url {
                law_groups_partition(rest, url);
                assert(rest.contains(rest[j]));
                assert(requests_to(rest, url).contains(rest[j]));
            }
        }
        assert(requests_to(rest, url) =~= Seq::empty());
        assert(first_at(requests, url, last));
    }
}

/// The share of a request at some position of its group is the item at that position of the list
/// that came for the group, or null where the list is too short, with the status and the headers of
/// what came for the group. A request that occurs more than once has the share of its last position.
/// What came for the group is the last list for its address.
pub proof fn law_share_is_the_item_at_the_position(
    requests: Seq<DataLoaderRequestModel>,
    results: Seq<(Seq<char>, Option<ResponseModel>)>,
    at: int,
    url: Seq<char>,
    k: int,
    response: ResponseModel,
    items: Seq<ValueModel>,
)
    requires
        0 <= at < requests_to(requests, url).len(),
        forall|i: int|
            at < i < requests_to(requests, url).len() ==> #[trigger] requests_to(requests, url)[i]
                != requests_to(requests, url)[at],
        0 <= k < results.len(),
        results[k].0 == url,
        results[k].1 == Some(response),
        response.body == ValueModel::List(items),
        forall|j: int|
            k < j < results.len() && (#[trigger] results[j]).0 == url ==> match results[j].1 {
                Some(later) => !(later.body is List),
                None => true,
            },
    ensures
        ({
            let request = requests_to(requests, url)[at];
            let answers = individual_responses(results, grouped(requests));
            &&& answers.contains_key(request)
            &&& answers[request].status == response.status
            &&& answers[request].headers == response.headers
            &&& answers[request].body == if at < items.len() {
                items[at]
            } else {
                ValueModel::Null
            }
        }),
    decreases results.len(),
{
    let groups = grouped(requests);
    let group = requests_to(requests, url);
    let request = group[at];
    let rest = results.drop_last();
    let before = individual_responses(rest, groups);
    let last = results.len() - 1;
    assert(results.last() == results[last]);
    law_groups_partition(requests, url);
    assert(group.contains(request));
    assert(request.url == url);
    assert(groups.contains_key(url));
    if k < last {
        assert(rest[k] == results[k]);
        assert forall|j: int| k < j < rest.len() && (#[trigger] rest[j]).0 == url implies match rest[j].1 {
            Some(later) => !(later.body is List),
            None => true,
        } by {
            assert(rest[j] == results[j]);
        }
        law_share_is_the_item_at_the_position(requests, rest, at, url, k, response, items);
        if let Some(later) = results[last].1 {
            let other = results[last].0;
            let more = shares(group_of(groups, other), later);
            law_groups_partition(requests, other);
            assert forall|i: int| 0 <= i < more.len() implies (#[trigger] more[i]).0 != request by {
                let theirs = group_of(groups, other);
                assert(more[i].0 == theirs[i]);
                assert(requests_to(requests, other).contains(theirs[i]));
            }
            lemma_answers_to_others(before, more, request);
        }
    } else {
        let more = shares(group, response);
        assert forall|i: int| at < i < more.len() implies (#[trigger] more[i]).0 != more[at].0 by {
            assert(group[i] != group[at]);
        }
        assert(more[at].0 == request);
        lemma_last_answer(before, more, at);
    }
}

/// A request to an address for which no list came has no response.
pub proof fn law_without_a_list_nothing_is_answered(
    requests: Seq<DataLoaderRequestModel>,
    results: Seq<(Seq<char>, Option<ResponseModel>)>,
    request: DataLoaderRequestModel,
)
    requires
        forall|j: int|
            0 <= j < results.len() && (#[trigger] results[j]).0 == request.url ==> match results[j].1 {
                Some(response) => !(response.body is List),
                None => true,
            },
    ensures
        !individual_responses(results, grouped(requests)).contains_key(request),
    decreases results.len(),
{
    if results.len() > 0 {
        let rest = results.drop_last();
        let last = results.len() - 1;
        assert(results.last() == results[last]);
        assert forall|j: int| 0 <= j < rest.len() && (#[trigger] rest[j]).0 == request.url implies match rest[j].1 {
            Some(response) => !(response.body is List),
            None => true,
        } by {
            assert(rest[j] == results[j]);
        }
        law_without_a_list_nothing_is_answered(requests, rest, request);
        if let Some(response) = results[last].1 {
            let url = results[last].0;
            let group = group_of(grouped(requests), url);
            let more = shares(group, response);
            law_groups_partition(requests, url);
            assert forall|i: int| 0 <= i < more.len() implies (#[trigger] more[i]).0 != request by {
                assert(more[i].0 == group[i]);
                assert(requests_to(requests, url).contains(group[i]));
            }
            lemma_answers_to_others(individual_responses(rest, grouped(requests)), more, request);
        }
    }
}

/// What came of a request is its response, whatever the status, unless the request failed. A group
/// holds its requests in order.
pub proof fn law_results_are_taken_as_they_came<E>(
    results: Seq<(String, Result<Response, E>)>,
    groups: Map<Seq<char>, Vec<DataLoaderRequest>>,
    i: int,
    url: Seq<char>,
)
    requires
        0 <= i < results.len(),
    ensures
        results_model(results).len() == results.len(),
        results_model(results)[i].0 == results[i].0@,
        results[i].1 matches Ok(response) ==> results_model(results)[i].1 == Some(response@),
        results[i].1 is Err ==> results_model(results)[i].1 is None,
        groups_model(groups).contains_key(url) <==> groups.contains_key(url),
        groups.contains_key(url) ==> groups_model(groups)[url] == requests_model(groups[url]@),
{
}

} // verus!
