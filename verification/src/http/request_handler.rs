//! Handling of incoming requests: which part answers, and what it answers with.
use hyper::HeaderMap;
use vstd::prelude::*;
use vstd::string::*;

use crate::http::cors::at_most;
use crate::http::headers;
use crate::http::headers::{
    appended, bytes_list, has_room, header_entries, valid_name, valid_value, MAX_NAMES,
};
use crate::text;
use crate::text::{
    ascii_lowered, begins_with, law_begins_and_contains, law_removed, removed, result_text, views,
};

verus! {

/// What the paths of REST requests begin with.
pub const API_URL_PREFIX: &'static str = "/api";

/// Which part answers a request.
#[derive(Debug, PartialEq, Eq)]
pub enum Route {
    /// The metrics that have been gathered.
    Metrics,
    /// The inner handler, with headers for the browser added.
    Cors,
    /// The GraphQL schema.
    GraphQl,
    /// The REST endpoints, for the path given.
    Rest(String),
    /// The inner handler.
    Inner,
}

/// What a [`Route`] holds.
pub enum RouteModel {
    Metrics,
    Cors,
    GraphQl,
    Rest(Seq<char>),
    Inner,
}

impl View for Route {
    type V = RouteModel;

    open spec fn view(&self) -> RouteModel {
        match self {
            Route::Metrics => RouteModel::Metrics,
            Route::Cors => RouteModel::Cors,
            Route::GraphQl => RouteModel::GraphQl,
            Route::Rest(path) => RouteModel::Rest(path@),
            Route::Inner => RouteModel::Inner,
        }
    }
}

/// Which part answers a request to `path`, where `cors` says whether headers for the browser are
/// called for. The path of a REST request loses every occurrence of its prefix.
pub open spec fn routed(path: Seq<char>, cors: bool) -> RouteModel {
    if path == "/metrics"@ {
        RouteModel::Metrics
    } else if cors {
        RouteModel::Cors
    } else if path == "/graphql"@ {
        RouteModel::GraphQl
    } else if begins_with(path, API_URL_PREFIX@) {
        RouteModel::Rest(removed(path, API_URL_PREFIX@))
    } else {
        RouteModel::Inner
    }
}

/// Finds the part that answers a request.
pub fn route(path: &str, cors: bool) -> (res: Route)
    ensures
        res@ == routed(path@, cors),
{
    if text::same(path, "/metrics") {
        Route::Metrics
    } else if cors {
        Route::Cors
    } else if text::same(path, "/graphql") {
        Route::GraphQl
    } else if text::starts_with(path, API_URL_PREFIX) {
        proof {
            reveal_strlit("/api");
        }
        Route::Rest(text::remove_all(path, API_URL_PREFIX))
    } else {
        Route::Inner
    }
}

/// The text of the URI that a string is read as, or the reason for which it is none.
pub uninterp spec fn uri_text(s: Seq<char>) -> Result<Seq<char>, Seq<char>>;

/// What comes of reading an empty string as a URI.
pub open spec fn empty_uri() -> Result<Seq<char>, Seq<char>> {
    Err("empty string"@)
}

/// Reads a string as a `Uri` of `hyper`. The text of the URI, or of the error, depends on the string
/// alone. An empty string is no URI.
#[verifier::external_body]
fn read_uri(s: &str) -> (res: Result<String, String>)
    ensures
        result_text(res) == uri_text(s@),
        s@.len() == 0 ==> result_text(res) == empty_uri(),
{
    s.parse::<hyper::Uri>().map(|uri| uri.to_string()).map_err(|error| error.to_string())
}

/// The URI that a REST request goes on with, from what is left of its path without the prefix. Fails
/// exactly where that is no URI, as where nothing is left.
pub fn rest_target(path: &str) -> (res: Result<String, String>)
    ensures
        result_text(res) == uri_text(path@),
        path@.len() == 0 ==> result_text(res) == empty_uri(),
{
    read_uri(path)
}

/// How metrics are written.
#[derive(Clone, Copy, Debug, PartialEq, Eq)]
pub enum PrometheusFormat {
    Text,
    Protobuf,
}

/// The content type of metrics.
pub open spec fn metrics_type(format: PrometheusFormat) -> Seq<char> {
    match format {
        PrometheusFormat::Text => "text/plain; version=0.0.4"@,
        PrometheusFormat::Protobuf =>
            "application/vnd.google.protobuf; proto=io.prometheus.client.MetricFamily; encoding=delimited"@,
    }
}

/// Reads `TEXT_FORMAT` of `prometheus`, the content type of metrics as text.
#[verifier::external_body]
fn text_format() -> (res: &'static str)
    ensures
        res@ == "text/plain; version=0.0.4"@,
{
    prometheus::TEXT_FORMAT
}

/// Reads `PROTOBUF_FORMAT` of `prometheus`, the content type of metrics as protocol buffers.
#[verifier::external_body]
fn protobuf_format() -> (res: &'static str)
    ensures
        res@
            == "application/vnd.google.protobuf; proto=io.prometheus.client.MetricFamily; encoding=delimited"@,
{
    prometheus::PROTOBUF_FORMAT
}

/// The content type of metrics.
pub fn metrics_content_type(format: PrometheusFormat) -> (res: &'static str)
    ensures
        res@ == metrics_type(format),
{
    match format {
        PrometheusFormat::Text => text_format(),
        PrometheusFormat::Protobuf => protobuf_format(),
    }
}

/// The message for a GraphQL request that could not be read, for the reason given.
pub fn unexpected_request(reason: &str) -> (res: String)
    ensures
        res@ == "Unexpected GraphQL Request: "@ + reason@,
{
    let mut res = "Unexpected GraphQL Request: ".to_string();
    res.append(reason);
    res
}

/// What a REST request is answered with.
#[derive(Debug, PartialEq, Eq)]
pub enum RestAnswer {
    /// The response of the endpoint. The request is counted under the route, and its handling is
    /// traced under the name.
    Endpoint { http_route: String, span_name: String },
    /// The response that there is no such endpoint.
    NotFound,
}

/// What a [`RestAnswer`] holds.
pub enum RestAnswerModel {
    Endpoint { http_route: Seq<char>, span_name: Seq<char> },
    NotFound,
}

impl View for RestAnswer {
    type V = RestAnswerModel;

    open spec fn view(&self) -> RestAnswerModel {
        match self {
            RestAnswer::Endpoint { http_route, span_name } => RestAnswerModel::Endpoint {
                http_route: http_route@,
                span_name: span_name@,
            },
            RestAnswer::NotFound => RestAnswerModel::NotFound,
        }
    }
}

/// What a REST request is answered with, given the path of the endpoint that it matches, if it
/// matches one.
pub open spec fn rest_answered(method: Seq<char>, endpoint: Option<Seq<char>>) -> RestAnswerModel {
    match endpoint {
        Some(path) => RestAnswerModel::Endpoint {
            http_route: API_URL_PREFIX@ + path,
            span_name: "REST "@ + method + " "@ + path,
        },
        None => RestAnswerModel::NotFound,
    }
}

/// Decides what a REST request is answered with.
pub fn answer_rest(method: &str, endpoint: Option<&str>) -> (res: RestAnswer)
    ensures
        res@ == rest_answered(
            method@,
            match endpoint {
                Some(path) => Some(path@),
                None => None,
            },
        ),
{
    match endpoint {
        Some(path) => {
            let mut http_route = API_URL_PREFIX.to_string();
            http_route.append(path);
            let mut span_name = "REST ".to_string();
            span_name.append(method);
            span_name.append(" ");
            span_name.append(path);
            RestAnswer::Endpoint { http_route, span_name }
        },
        None => RestAnswer::NotFound,
    }
}

/// Whether a header name, in lower case, is among the names given in any case.
pub open spec fn is_allowed(allowed: Seq<Seq<char>>, name: Seq<char>) -> bool {
    exists|i: int| 0 <= i < allowed.len() && ascii_lowered(#[trigger] allowed[i]) == name
}

/// The headers whose names are among those given.
pub open spec fn allowed_headers(
    entries: Map<Seq<char>, Seq<Seq<u8>>>,
    allowed: Seq<Seq<char>>,
) -> Map<Seq<char>, Seq<Seq<u8>>> {
    entries.restrict(Set::new(|name: Seq<char>| is_allowed(allowed, name)))
}

proof fn lemma_append_grows(
    entries: Map<Seq<char>, Seq<Seq<u8>>>,
    name: Seq<char>,
    value: Seq<u8>,
)
    requires
        entries.dom().finite(),
    ensures
        appended(entries, name, value).dom() == entries.dom().insert(name),
        appended(entries, name, value).dom().finite(),
        entries.dom().contains(name) ==> appended(entries, name, value).dom().len() == entries.dom().len(),
        appended(entries, name, value).dom().len() <= entries.dom().len() + 1,
{
    assert(appended(entries, name, value).dom() =~= entries.dom().insert(name));
}

/// Adds values of a name that the map does not have yet.
fn append_all(map: &mut HeaderMap, name: &str, values: &Vec<Vec<u8>>)
    requires
        valid_name(name@),
        forall|i: int| 0 <= i < values@.len() ==> valid_value((#[trigger] values@[i])@),
        values@.len() > 0,
        has_room(header_entries(*old(map)), 2),
        !header_entries(*old(map)).contains_key(ascii_lowered(name@)),
    ensures
        header_entries(*final(map)) == header_entries(*old(map)).insert(
            ascii_lowered(name@),
            bytes_list(values@),
        ),
{
    let ghost before = header_entries(*map);
    let ghost key = ascii_lowered(name@);
    let ghost all = bytes_list(values@);
    for i in 0..values.len()
        invariant
            valid_name(name@),
            forall|i: int| 0 <= i < values@.len() ==> valid_value((#[trigger] values@[i])@),
            has_room(before, 2),
            before == header_entries(*old(map)),
            key == ascii_lowered(name@),
            all == bytes_list(values@),
            !before.contains_key(key),
            i == 0 ==> header_entries(*map) == before,
            i > 0 ==> header_entries(*map) == before.insert(key, all.take(i as int)),
    {
        let ghost now = header_entries(*map);
        proof {
            assert(before.insert(key, all.take(i as int)).dom() =~= before.dom().insert(key));
            if i > 0 {
                lemma_append_grows(now, key, values@[i as int]@);
                assert(now.dom().len() == before.dom().len() + 1);
            }
        }
        let _ = headers::try_append(map, name, values[i].as_slice());
        proof {
            let value = values@[i as int]@;
            if i == 0 {
                assert(Seq::empty().push(value) =~= all.take(1));
            } else {
                assert(all.take(i as int).push(value) =~= all.take(i + 1));
            }
            assert(header_entries(*map) =~= before.insert(key, all.take(i + 1)));
        }
    }
    proof {
        assert(all.take(all.len() as int) =~= all);
    }
}

proof fn lemma_allowed_key(
    entries: Map<Seq<char>, Seq<Seq<u8>>>,
    allowed: Seq<Seq<char>>,
    name: Seq<char>,
)
    ensures
        allowed_headers(entries, allowed).contains_key(name) == (entries.contains_key(name)
            && is_allowed(allowed, name)),
        allowed_headers(entries, allowed).contains_key(name) ==> allowed_headers(entries, allowed)[name]
            == entries[name],
{
    let keys = Set::new(|name: Seq<char>| is_allowed(allowed, name));
    assert(allowed_headers(entries, allowed).dom() =~= entries.dom().intersect(keys));
}

/// While the headers for one more name are still to be copied, fewer names have been copied than
/// will be in the end.
proof fn lemma_copies_fit(
    entries: Map<Seq<char>, Seq<Seq<u8>>>,
    allowed: Seq<Seq<char>>,
    i: int,
)
    requires
        0 <= i < allowed.len(),
        entries.contains_key(ascii_lowered(allowed[i])),
        !allowed_headers(entries, allowed.take(i)).contains_key(ascii_lowered(allowed[i])),
        allowed_headers(entries, allowed).dom().finite(),
    ensures
        allowed_headers(entries, allowed.take(i)).dom().finite(),
        allowed_headers(entries, allowed.take(i)).dom().len() < allowed_headers(
            entries,
            allowed,
        ).dom().len(),
{
    let key = ascii_lowered(allowed[i]);
    let now = allowed_headers(entries, allowed.take(i)).dom();
    let all = allowed_headers(entries, allowed).dom();
    assert(is_allowed(allowed, key));
    lemma_allowed_key(entries, allowed, key);
    assert forall|n: Seq<char>| #[trigger] now.contains(n) implies all.contains(n) && n != key by {
        lemma_allowed_key(entries, allowed.take(i), n);
        lemma_allowed_key(entries, allowed, n);
        let k = choose|k: int| 0 <= k < i && ascii_lowered(#[trigger] allowed.take(i)[k]) == n;
        assert(allowed[k] == allowed.take(i)[k]);
    }
    assert(now.subset_of(all.remove(key)));
    vstd::set_lib::lemma_len_subset(now, all.remove(key));
}

/// Copies the headers whose names are among those given, in any case.
///
/// Either the names that are given or the headers that are copied must be fewer than what a map
/// always has room for.
pub fn create_allowed_headers(headers: &HeaderMap, allowed: &[String]) -> (res: HeaderMap)
    requires
        allowed@.len() < MAX_NAMES || has_room(
            allowed_headers(header_entries(*headers), views(allowed@)),
            1,
        ),
    ensures
        header_entries(res) == allowed_headers(header_entries(*headers), views(allowed@)),
{
    let mut new_headers = headers::empty();
    let ghost entries = header_entries(*headers);
    let ghost names = views(allowed@);
    proof {
        assert(header_entries(new_headers) =~= allowed_headers(entries, names.take(0)));
    }
    for i in 0..allowed.len()
        invariant
            allowed@.len() < MAX_NAMES || has_room(allowed_headers(entries, names), 1),
            entries == header_entries(*headers),
            names == views(allowed@),
            header_entries(new_headers) == allowed_headers(entries, names.take(i as int)),
            at_most(header_entries(new_headers), i as nat),
    {
        let name = allowed[i].as_str();
        let ghost key = ascii_lowered(name@);
        let ghost sofar = header_entries(new_headers);
        let ghost next = names.take(i + 1);
        proof {
            assert(next[i as int] == name@);
            assert forall|n: Seq<char>| #[trigger] is_allowed(next, n) == (is_allowed(
                names.take(i as int),
                n,
            ) || n == key) by {
                if is_allowed(names.take(i as int), n) {
                    let k = choose|k: int|
                        0 <= k < i && ascii_lowered(#[trigger] names.take(i as int)[k]) == n;
                    assert(next[k] == names.take(i as int)[k]);
                }
                if is_allowed(next, n) && n != key {
                    let k = choose|k: int| 0 <= k < i + 1 && ascii_lowered(#[trigger] next[k]) == n;
                    assert(next[k] == names.take(i as int)[k]);
                }
            }
        }
        let values = headers::get_all(headers, name);
        let present = headers::get_all(&new_headers, name);
        proof {
            assert(bytes_list(values@).len() == values@.len());
            assert(bytes_list(present@).len() == present@.len());
            assert((values@.len() > 0) == entries.contains_key(key));
            assert((present@.len() > 0) == sofar.contains_key(key));
        }
        if values.len() > 0 && present.len() == 0 {
            proof {
                if allowed@.len() >= MAX_NAMES {
                    lemma_copies_fit(entries, names, i as int);
                }
            }
            append_all(&mut new_headers, name, &values);
            proof {
                assert(header_entries(new_headers).dom() =~= sofar.dom().insert(key));
            }
        }
        proof {
            assert forall|n: Seq<char>| #[trigger]
                header_entries(new_headers).contains_key(n) == allowed_headers(entries, next).contains_key(
                    n,
                ) && (header_entries(new_headers).contains_key(n) ==> header_entries(new_headers)[n]
                    == allowed_headers(entries, next)[n]) by {
                assert(is_allowed(next, n) == (is_allowed(names.take(i as int), n) || n == key));
                lemma_allowed_key(entries, names.take(i as int), n);
                lemma_allowed_key(entries, next, n);
            }
            assert(header_entries(new_headers) =~= allowed_headers(entries, next));
        }
    }
    proof {
        assert(names.take(names.len() as int) =~= names);
    }
    new_headers
}

/// The path `/metrics` is answered with metrics, and no other is.
pub proof fn law_metrics_have_one_path(path: Seq<char>, cors: bool)
    ensures
        routed("/metrics"@, cors) == RouteModel::Metrics,
        routed(path, cors) == RouteModel::Metrics ==> path == "/metrics"@,
{
}

/// Where headers for the browser are called for, every request whose path is not `/metrics` is
/// answered with them, whatever its path. Where they are not called for, none is.
pub proof fn law_browser_headers_go_with_every_path(path: Seq<char>)
    ensures
        path != "/metrics"@ ==> routed(path, true) == RouteModel::Cors,
        routed(path, false) != RouteModel::Cors,
{
}

/// Without headers for the browser, `/graphql` is answered by the schema, and no other path is. A
/// path that begins with `/api` is answered by the REST endpoints, and no other is; they get what is
/// left of it without any `/api`. All else goes to the inner handler.
pub proof fn law_paths_without_browser_headers(path: Seq<char>)
    ensures
        routed(path, false) == RouteModel::GraphQl <==> path == "/graphql"@,
        routed(path, false) is Rest <==> exists|rest: Seq<char>| path == #[trigger] ("/api"@ + rest),
        routed(path, false) matches RouteModel::Rest(left) ==> left == removed(path, "/api"@),
        routed(path, false) == RouteModel::Inner <==> path != "/metrics"@ && path != "/graphql"@
            && !(exists|rest: Seq<char>| path == #[trigger] ("/api"@ + rest)),
{
    law_begins_and_contains(path, "/api"@);
    reveal_strlit("/metrics");
    reveal_strlit("/graphql");
    reveal_strlit("/api");
    if exists|rest: Seq<char>| path == #[trigger] ("/api"@ + rest) {
        assert(path[1] == 'a');
        assert("/metrics"@[1] == 'm');
        assert("/graphql"@[1] == 'g');
    }
    assert("/metrics"@.len() == 8);
    assert("/metrics"@[1] != "/graphql"@[1]);
}

/// The path of a REST request that holds `/api` at its front alone is what follows it.
pub proof fn law_rest_path_follows_the_prefix(rest: Seq<char>)
    requires
        forall|at: int|
            0 <= at && at + 4 <= rest.len() ==> #[trigger] rest.subrange(at, at + 4) != "/api"@,
    ensures
        routed("/api"@ + rest, false) == RouteModel::Rest(rest),
{
    reveal_strlit("/api");
    let pat = "/api"@;
    law_paths_without_browser_headers(pat + rest);
    assert(Seq::<char>::empty() + pat + rest =~= pat + rest);
    assert forall|at: int| 0 <= at && at + pat.len() <= rest.len() implies #[trigger] rest.subrange(
        at,
        at + pat.len(),
    ) != pat by {
        assert(rest.subrange(at, at + 4) != pat);
    }
    law_removed(Seq::empty(), rest, pat);
    assert(Seq::<char>::empty() + removed(rest, pat) =~= removed(rest, pat));
}

/// A REST request that matches an endpoint is counted under the path of the endpoint behind `/api`
/// and traced under its method and that path; one that matches none is not found.
pub proof fn law_rest_is_answered_by_its_endpoint(method: Seq<char>, path: Seq<char>)
    ensures
        rest_answered(method, Some(path)) is Endpoint,
        rest_answered(method, Some(path))->http_route == "/api"@ + path,
        rest_answered(method, Some(path))->span_name == "REST "@ + method + " "@ + path,
        rest_answered(method, None) is NotFound,
{
}

/// A header is copied exactly where one of the names given is its name in some case, and then with
/// all of its values.
pub proof fn law_allowed_headers_are_copied_whole(
    entries: Map<Seq<char>, Seq<Seq<u8>>>,
    allowed: Seq<Seq<char>>,
    name: Seq<char>,
)
    ensures
        allowed_headers(entries, allowed).contains_key(name) <==> entries.contains_key(name)
            && exists|i: int| 0 <= i < allowed.len() && ascii_lowered(#[trigger] allowed[i]) == name,
        allowed_headers(entries, allowed).contains_key(name) ==> allowed_headers(entries, allowed)[name]
            == entries[name],
{
    lemma_allowed_key(entries, allowed, name);
}

/// Metrics have the content type of the format that they are written in.
pub proof fn law_metrics_type_is_that_of_the_format(format: PrometheusFormat)
    ensures
        metrics_type(format) == if format is Text {
            "text/plain; version=0.0.4"@
        } else {
            "application/vnd.google.protobuf; proto=io.prometheus.client.MetricFamily; encoding=delimited"@
        },
{
}

} // verus!
