use hyper::header::{HeaderMap, HeaderValue};
use tailcall::http::cors::{is_preflight, preflight, share, CorsHeaders, HeaderPair};
use tailcall::http::request_handler::{
    answer_rest, create_allowed_headers, metrics_content_type, rest_target, route,
    unexpected_request, PrometheusFormat, RestAnswer, Route,
};

#[test]
fn test_create_allowed_headers() {
    let mut headers = HeaderMap::new();
    headers.insert("X-foo", HeaderValue::from_static("bar"));
    headers.insert("x-bar", HeaderValue::from_static("foo"));
    headers.insert("x-baz", HeaderValue::from_static("baz"));

    let allowed = vec!["x-foo".to_string(), "X-bar".to_string()];

    let new_headers = create_allowed_headers(&headers, &allowed);
    assert_eq!(new_headers.len(), 2);
    assert_eq!(new_headers.get("x-foo").unwrap(), "bar");
    assert_eq!(new_headers.get("x-bar").unwrap(), "foo");
}

#[test]
fn allowed_headers_keep_all_their_values_once() {
    let mut headers = HeaderMap::new();
    headers.append("a", HeaderValue::from_static("1"));
    headers.append("a", HeaderValue::from_static("2"));
    let allowed = vec!["a".to_string(), "A".to_string(), "no such name".to_string()];
    let kept = create_allowed_headers(&headers, &allowed);
    let values: Vec<_> = kept.get_all("a").iter().collect();
    assert_eq!(values, vec!["1", "2"]);
    assert_eq!(kept.len(), 2);
    assert!(create_allowed_headers(&headers, &[]).is_empty());
}

#[test]
fn requests_are_routed_by_their_path() {
    assert_eq!(route("/metrics", false), Route::Metrics);
    assert_eq!(route("/metrics", true), Route::Metrics);
    assert_eq!(route("/graphql", true), Route::Cors);
    assert_eq!(route("/graphql", false), Route::GraphQl);
    assert_eq!(route("/api/posts", false), Route::Rest("/posts".to_string()));
    assert_eq!(route("/api", false), Route::Rest("".to_string()));
    assert_eq!(route("/api/v1/api/x", false), Route::Rest("/v1/x".to_string()));
    assert_eq!(route("/apix", false), Route::Rest("x".to_string()));
    assert_eq!(route("/api/api/apiz", false), Route::Rest("z".to_string()));
    assert_eq!(route("/", false), Route::Inner);
    assert_eq!(route("/v1/api", false), Route::Inner);
    assert_eq!(route("/ap", false), Route::Inner);
}

#[test]
fn rest_requests_are_answered_by_their_endpoint() {
    assert_eq!(
        answer_rest("GET", Some("/users/{id}")),
        RestAnswer::Endpoint {
            http_route: "/api/users/{id}".to_string(),
            span_name: "REST GET /users/{id}".to_string(),
        }
    );
    assert_eq!(answer_rest("GET", None), RestAnswer::NotFound);
}

#[test]
fn metrics_have_a_content_type() {
    assert_eq!(metrics_content_type(PrometheusFormat::Text), "text/plain; version=0.0.4");
    assert_eq!(
        metrics_content_type(PrometheusFormat::Protobuf),
        "application/vnd.google.protobuf; proto=io.prometheus.client.MetricFamily; encoding=delimited"
    );
}

#[test]
fn unreadable_requests_are_reported() {
    assert_eq!(unexpected_request("EOF"), "Unexpected GraphQL Request: EOF");
}

#[test]
fn rest_requests_go_on_with_a_uri() {
    assert_eq!(rest_target("/posts/1"), Ok("/posts/1".to_string()));
    assert_eq!(rest_target("/a#b"), Ok("/a".to_string()));
    assert_eq!(rest_target(""), Err("empty string".to_string()));
    assert_eq!(rest_target("/a b"), Err("invalid uri character".to_string()));
}

fn pair(name: &str, value: &str) -> Option<HeaderPair> {
    Some(HeaderPair::new(name.to_string(), value.as_bytes().to_vec()).unwrap())
}

fn cors() -> CorsHeaders {
    CorsHeaders {
        allow_origin: pair("access-control-allow-origin", "https://example.com"),
        allow_credentials: pair("Access-Control-Allow-Credentials", "true"),
        allow_private_network: None,
        vary: pair("vary", "origin"),
        allow_methods: pair("access-control-allow-methods", "PUT"),
        allow_headers: None,
        max_age: pair("access-control-max-age", "60"),
        expose_headers: pair("access-control-expose-headers", "x-y"),
    }
}

fn all(headers: &HeaderMap, name: &str) -> Vec<String> {
    headers.get_all(name).iter().map(|v| v.to_str().unwrap().to_string()).collect()
}

#[test]
fn header_pairs_are_checked() {
    assert!(HeaderPair::new("x y".to_string(), vec![]).is_none());
    assert!(HeaderPair::new("".to_string(), vec![]).is_none());
    assert!(HeaderPair::new("x".to_string(), vec![10]).is_none());
    assert!(HeaderPair::new("x".to_string(), vec![127]).is_none());
    assert!(HeaderPair::new("X-!~^`|".to_string(), vec![9, 32, 255]).is_some());
    for byte in 0u8..=255 {
        let name = (byte as char).to_string();
        assert_eq!(
            HeaderPair::new(name.clone(), vec![]).is_some(),
            hyper::header::HeaderName::from_bytes(name.as_bytes()).is_ok(),
            "{byte}"
        );
        assert_eq!(
            HeaderPair::new("x".to_string(), vec![byte]).is_some(),
            HeaderValue::from_bytes(&[byte]).is_ok(),
            "{byte}"
        );
    }
}

#[test]
fn preflight_tells_what_is_allowed() {
    assert!(is_preflight("OPTIONS"));
    assert!(!is_preflight("GET"));
    let headers = preflight(&cors());
    assert_eq!(all(&headers, "access-control-allow-origin"), vec!["https://tailcall.run"]);
    assert_eq!(all(&headers, "access-control-allow-headers"), vec!["*"]);
    assert_eq!(all(&headers, "access-control-allow-methods"), vec!["GET, POST, OPTIONS"]);
    assert_eq!(all(&headers, "access-control-allow-credentials"), vec!["true"]);
    assert_eq!(all(&headers, "access-control-max-age"), vec!["60"]);
    assert_eq!(all(&headers, "vary"), vec!["origin"]);
    assert!(headers.get("access-control-expose-headers").is_none());
}

#[test]
fn response_gains_headers_for_the_browser() {
    let mut headers = HeaderMap::new();
    headers.append("vary", HeaderValue::from_static("accept"));
    headers.append("x-own", HeaderValue::from_static("kept"));
    headers.append("access-control-expose-headers", HeaderValue::from_static("1"));
    headers.append("access-control-expose-headers", HeaderValue::from_static("2"));
    headers.append("access-control-allow-origin", HeaderValue::from_static("other"));
    let headers = share(headers, &cors()).unwrap();
    assert_eq!(all(&headers, "vary"), vec!["accept", "origin"]);
    assert_eq!(all(&headers, "x-own"), vec!["kept"]);
    assert_eq!(all(&headers, "access-control-expose-headers"), vec!["x-y"]);
    assert_eq!(all(&headers, "access-control-allow-origin"), vec!["https://tailcall.run"]);
    assert_eq!(all(&headers, "access-control-allow-headers"), vec!["*"]);
    assert_eq!(all(&headers, "access-control-allow-methods"), vec!["GET, POST, OPTIONS"]);
    assert_eq!(all(&headers, "access-control-allow-credentials"), vec!["true"]);
    assert!(headers.get("access-control-max-age").is_none());
}

fn named(count: usize) -> HeaderMap {
    let mut headers = HeaderMap::new();
    for i in 0..count {
        let name = hyper::header::HeaderName::from_bytes(format!("x-{i}").as_bytes()).unwrap();
        headers.insert(name, HeaderValue::from_static("v"));
    }
    headers
}

#[test]
fn response_gains_headers_up_to_the_limit_of_its_map() {
    let headers = share(HeaderMap::new(), &cors()).unwrap();
    assert_eq!(all(&headers, "vary"), vec!["origin"]);
    let headers = share(named(10000), &cors()).unwrap();
    assert_eq!(headers.len(), 10006);
    assert_eq!(all(&headers, "x-9999"), vec!["v"]);
    assert!(share(named(24576), &cors()).is_none());
}

#[test]
fn headers_of_one_name_are_moved_together() {
    let mut settings = cors();
    settings.allow_credentials = pair("X-Both", "1");
    settings.allow_private_network = pair("vary", "second");
    settings.expose_headers = pair("x-both", "2");
    let mut headers = HeaderMap::new();
    headers.append("x-both", HeaderValue::from_static("old"));
    let headers = share(headers, &settings).unwrap();
    assert_eq!(all(&headers, "x-both"), vec!["1", "2"]);
    assert_eq!(all(&headers, "vary"), vec!["second"]);
}
