use tailcall::http::response_map::ResponseMap;
use tailcall::http::data_loader_request::{DataLoaderRequest, Response};
use tailcall::http::graphql_data_loader::{
    batched_requests, collect_request_bodies, create_batched_request,
    extract_individual_responses, group_requests_by_url, plan_batches, GraphqlDataLoader,
};
use tailcall::value::Value;

fn request(url: &str, body: &str) -> DataLoaderRequest {
    DataLoaderRequest {
        method: "GET".to_string(),
        url: url.to_string(),
        headers: vec![("x-from".to_string(), body.as_bytes().to_vec())],
        body: Some(body.as_bytes().to_vec()),
    }
}

fn number(n: usize) -> Value {
    Value::Number(n.to_string())
}

fn response(body: Value) -> Response {
    Response { status: 201, headers: vec![("h".to_string(), b"v".to_vec())], body }
}

#[test]
fn test_group_requests_by_url() {
    let url1 = "http://example1.com";
    let url2 = "http://example2.com";

    let dl_req1 = request(url1, "a");
    let dl_req2 = request(url1, "b");
    let dl_req3 = request(url2, "c");

    let grouped = group_requests_by_url(&[dl_req1, dl_req2, dl_req3]);

    assert_eq!(grouped.len(), 2);
    assert_eq!(grouped.get(url1).unwrap().len(), 2);
    assert_eq!(grouped.get(url2).unwrap().len(), 1);
}

#[test]
fn test_collect_request_bodies() {
    let url = "http://example.com";
    let dl_req1 = request(url, "a");
    let dl_req2 = request(url, "b");
    let dl_req3 = request(url, "c");

    let body = collect_request_bodies(&[dl_req1, dl_req2, dl_req3]);
    assert_eq!(body, "[a,b,c]");
}

#[test]
fn bodies_that_are_no_text_are_left_empty() {
    let mut raw = request("u", "a");
    raw.body = Some(vec![0xff, 0xfe]);
    let mut none = request("u", "b");
    none.body = None;
    assert_eq!(collect_request_bodies(&[raw, none, request("u", "\u{e9}")]), "[,,\u{e9}]");
    assert_eq!(collect_request_bodies(&[]), "[]");
}

#[test]
fn batch_is_the_first_request_with_all_bodies() {
    let batch = create_batched_request(&[request("u", "a"), request("u", "b")]);
    assert_eq!(batch.url, "u");
    assert_eq!(batch.headers, vec![("x-from".to_string(), b"a".to_vec())]);
    assert_eq!(batch.body, Some(b"[a,b]".to_vec()));
}

#[test]
fn one_batch_goes_to_each_address() {
    let mut keys = Vec::new();
    for i in 1..10 {
        keys.push(request("http://example.com", &format!("a{i}")));
        keys.push(request("http://a.com", &format!("b{i}")));
    }
    let (groups, batches) = plan_batches(&keys);
    let urls: Vec<&str> = batches.iter().map(|(url, _)| url.as_str()).collect();
    assert_eq!(urls, vec!["http://a.com", "http://example.com"]);
    assert_eq!(batches[1].1.body, Some(b"[a1,a2,a3,a4,a5,a6,a7,a8,a9]".to_vec()));
    assert_eq!(batched_requests(&groups), batches);
}

#[test]
fn groups_keep_the_order_of_their_requests() {
    let keys = [request("u", "a"), request("v", "b"), request("u", "c"), request("u", "a")];
    let groups = group_requests_by_url(&keys);
    let bodies: Vec<_> = groups.get("u").unwrap().iter().map(|r| r.body.clone().unwrap()).collect();
    assert_eq!(bodies, vec![b"a".to_vec(), b"c".to_vec(), b"a".to_vec()]);
    assert!(groups.get("v").unwrap().iter().all(|r| r.url == "v"));
    assert!(groups.get("w").is_none());
}

#[test]
fn each_request_gets_its_share() {
    let keys = [request("u", "a"), request("v", "b"), request("u", "c")];
    let (groups, _) = plan_batches(&keys);
    let results: Vec<(String, Result<Response, String>)> = vec![
        ("v".to_string(), Ok(response(Value::List(vec![number(7), number(8)])))),
        ("u".to_string(), Ok(response(Value::List(vec![number(1)])))),
        ("w".to_string(), Ok(response(Value::List(vec![number(9)])))),
    ];
    let answered = extract_individual_responses(results, &groups);
    assert_eq!(answered.len(), 3);
    assert_eq!(answered.get(&request("v", "b")), Some(&response(number(7))));
    assert_eq!(answered.get(&request("u", "a")), Some(&response(number(1))));
    assert_eq!(answered.get(&request("u", "c")), Some(&response(Value::Null)));
    assert_eq!(answered.get(&request("w", "a")), None);
}

#[test]
fn request_made_twice_has_its_last_share() {
    let keys = [request("u", "a"), request("u", "b"), request("u", "a")];
    let (groups, _) = plan_batches(&keys);
    let results: Vec<(String, Result<Response, String>)> = vec![
        ("u".to_string(), Ok(response(Value::List(vec![number(1), number(2), number(3)])))),
    ];
    let answered = extract_individual_responses(results, &groups);
    assert_eq!(answered.len(), 2);
    assert_eq!(
        answered.into_pairs(),
        vec![(request("u", "a"), response(number(3))), (request("u", "b"), response(number(2)))]
    );
}

#[test]
fn later_result_for_an_address_counts() {
    let keys = [request("u", "a")];
    let (groups, _) = plan_batches(&keys);
    let results: Vec<(String, Result<Response, String>)> = vec![
        ("u".to_string(), Ok(response(Value::List(vec![number(1)])))),
        ("u".to_string(), Err("down".to_string())),
        ("u".to_string(), Ok(response(Value::List(vec![number(2)])))),
    ];
    let answered = extract_individual_responses(results, &groups);
    assert_eq!(answered.into_pairs(), vec![(request("u", "a"), response(number(2)))]);
}

#[test]
fn requests_are_alike_in_every_part() {
    let first = request("u", "a");
    assert!(first.same(&request("u", "a")));
    assert!(!first.same(&request("v", "a")));
    assert!(!first.same(&request("u", "b")));
    let mut other = request("u", "a");
    other.body = None;
    assert!(!first.same(&other));
    let mut other = request("u", "a");
    other.method = "PUT".to_string();
    assert!(!first.same(&other));
    let mut other = request("u", "a");
    other.headers.push(("x".to_string(), vec![]));
    assert!(!first.same(&other));
    let mut other = request("u", "a");
    other.headers[0].1 = b"c".to_vec();
    assert!(!first.same(&other));
}

#[test]
fn responses_are_kept_one_for_each_request() {
    let mut responses = ResponseMap::new();
    assert_eq!(responses.len(), 0);
    assert_eq!(responses.get(&request("u", "a")), None);
    responses.insert(request("u", "a"), response(number(1)));
    responses.insert(request("u", "b"), response(number(2)));
    responses.insert(request("u", "a"), response(number(3)));
    assert_eq!(responses.len(), 2);
    assert_eq!(responses.get(&request("u", "a")), Some(&response(number(3))));
    assert_eq!(responses.get(&request("u", "b")), Some(&response(number(2))));
}

#[test]
fn failed_batches_answer_nothing() {
    let keys = [request("u", "a"), request("v", "b")];
    let (groups, _) = plan_batches(&keys);
    let results: Vec<(String, Result<Response, String>)> = vec![
        ("u".to_string(), Err("down".to_string())),
        ("v".to_string(), Ok(response(number(1)))),
    ];
    assert_eq!(extract_individual_responses(results, &groups).into_pairs(), vec![]);
}

#[test]
fn loader_keeps_its_client() {
    assert_eq!(GraphqlDataLoader::new("client").client, "client");
}
