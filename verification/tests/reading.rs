use prost::Message;
use tailcall::config::reader::grpc_fetch::{
    file_descriptor, reflection_method, reflection_template, service_names, template_of,
    CustomResponse, FileDescriptorProtoResponse, ListServicesResponse, ReflectionError,
    ReflectionRequest, Service, UrlShape,
};
use tailcall::config::reader_context::{ConfigReaderContext, Source};
use tailcall::grpc::{frame, unframe};
use tailcall::string_map::StringMap;
use tailcall::EnvIO;

struct TestEnvIO {
    vars: Vec<(String, String)>,
}

impl EnvIO for TestEnvIO {
    fn get(&self, key: &str) -> Option<String> {
        self.vars.iter().find(|(k, _)| k == key).map(|(_, v)| v.clone())
    }
}

fn path(items: &[&str]) -> Vec<String> {
    items.iter().map(|s| s.to_string()).collect()
}

#[test]
fn path_string() {
    let mut vars = StringMap::new();
    vars.insert("VAR_1".to_owned(), "VAR_VAL".to_owned());
    let reader_context = ConfigReaderContext {
        env: TestEnvIO { vars: vec![("ENV_1".to_owned(), "ENV_VAL".to_owned())] },
        vars: &vars,
        headers: Default::default(),
    };

    assert_eq!(
        reader_context.path_string(&path(&["env", "ENV_1"])),
        Some("ENV_VAL".to_string())
    );
    assert_eq!(reader_context.path_string(&path(&["env", "ENV_5"])), None);
    assert_eq!(
        reader_context.path_string(&path(&["vars", "VAR_1"])),
        Some("VAR_VAL".to_string())
    );
    assert_eq!(reader_context.path_string(&path(&["vars", "VAR_6"])), None);
    assert_eq!(reader_context.path_string(&path(&["unknown", "unknown"])), None);
}

#[test]
fn sources_are_told_apart() {
    let mut vars = StringMap::new();
    vars.insert("a".to_owned(), "b".to_owned());
    let context = ConfigReaderContext {
        env: TestEnvIO { vars: vec![] },
        vars: &vars,
        headers: Default::default(),
    };
    assert!(matches!(context.source(&[]), Source::Nowhere));
    assert!(matches!(context.source(&path(&["other"])), Source::Nowhere));
    assert!(matches!(context.source(&path(&["vars", "z", "y"])), Source::Nowhere));
    let found = path(&["vars", "a", "more"]);
    assert!(matches!(context.source(&found), Source::Variable(v) if v == "b"));
    let env = path(&["env", "HOME"]);
    assert!(matches!(context.source(&env), Source::Environment("HOME")));
    assert!(context.headers().is_empty());
}

#[test]
fn requests_are_sent_to_the_reflection_service() {
    let template = |request: ReflectionRequest| {
        reflection_template("http://localhost:50051/old?q=1", &request).unwrap()
    };
    let list = template(ReflectionRequest::ListServices);
    assert_eq!(
        list.url,
        "http://localhost:50051/grpc.reflection.v1alpha.ServerReflection/ServerReflectionInfo?q=1"
    );
    assert_eq!(
        list.headers,
        vec![("content-type".to_string(), "application/grpc+proto".to_string())]
    );
    assert_eq!(list.body, "{\"list_services\":\"\"}");
    let symbol = template(ReflectionRequest::FileContainingSymbol("news.NewsService"));
    assert_eq!(symbol.body, "{\"file_containing_symbol\":\"news.NewsService\"}");
    let file = template(ReflectionRequest::FileByFilename("a\"b.proto"));
    assert_eq!(file.body, "{\"file_by_filename\":\"a\\\"b.proto\"}");
    let odd = template(ReflectionRequest::FileByFilename("\u{8}\t\n\u{c}\r\u{0}\u{1f}\\/\u{7f}\u{e9}"));
    assert_eq!(
        odd.body,
        "{\"file_by_filename\":\"\\b\\t\\n\\f\\r\\u0000\\u001f\\\\/\u{7f}\u{e9}\"}"
    );
    assert_eq!(
        reflection_method(),
        "grpc.reflection.v1alpha.ServerReflection.ServerReflectionInfo"
    );
}

#[test]
fn templates_carry_their_texts() {
    let template = template_of("u".to_string(), "b".to_string());
    assert_eq!((template.url.as_str(), template.body.as_str()), ("u", "b"));
    assert_eq!(template.headers.len(), 1);
}

#[test]
fn address_must_be_a_url() {
    let failed = reflection_template("not a url", &ReflectionRequest::ListServices);
    let error = failed.err().unwrap();
    assert!(matches!(error, ReflectionError::Url(_)));
    assert_eq!(error.message(), "relative URL without a base");
    let long = ReflectionError::LongUrl;
    assert_eq!(long.message(), "URLs more than 4 GB are not supported");
}

#[test]
fn path_of_each_sort_of_url_can_be_set() {
    let path = "grpc.reflection.v1alpha.ServerReflection/ServerReflectionInfo";
    for (url, before, slash, after) in [
        ("http://h:1/a/b?q#f", "http://h:1", "/", "?q#f"),
        ("http://u:p@h", "http://u:p@h", "/", ""),
        ("http://h/#f", "http://h", "/", "#f"),
        ("file:///a", "file://", "/", ""),
        ("file://host/a", "file://host", "/", ""),
        ("foo:/a", "foo:", "/", ""),
        ("foo://h", "foo://h", "/", ""),
        ("mailto:a@b?q", "mailto:", "", "?q"),
    ] {
        let template = reflection_template(url, &ReflectionRequest::ListServices).unwrap();
        assert_eq!(template.url, format!("{before}{slash}{path}{after}"));
    }
}

#[test]
fn positions_in_a_url_have_four_bytes() {
    let last = u32::MAX as usize;
    let short = UrlShape { path_start: 8, path_end: 9, query_end: 9, end: 9, opaque: false };
    assert!(short.fits(61));
    assert!(UrlShape { path_end: last, query_end: last, end: last, ..short }.fits(61));
    // A query may go beyond, a path may not.
    assert!(UrlShape { query_end: last + 9, end: last + 9, ..short }.fits(61));
    assert!(!UrlShape { path_end: last + 1, query_end: last + 1, end: last + 1, ..short }.fits(61));
    // What stands before the path may leave no room for it; a path of segments takes a slash more.
    let start = last - 61;
    let full = UrlShape { path_start: start, path_end: start, query_end: start, end: start, opaque: true };
    assert!(full.fits(61));
    assert!(!full.fits(62));
    assert!(!UrlShape { opaque: false, ..full }.fits(61));
    assert!(UrlShape { opaque: false, ..full }.fits(60));
    // A fragment must not start beyond either.
    let query_end = last - 61;
    assert!(UrlShape { query_end, end: query_end + 1, ..short }.fits(61));
    assert!(!UrlShape { query_end: last, end: last + 1, ..short }.fits(61));
}

fn reply(services: Option<Vec<&str>>, files: Option<Vec<&str>>) -> CustomResponse {
    CustomResponse {
        list_services_response: services.map(|names| ListServicesResponse {
            service: names.iter().map(|n| Service { name: n.to_string() }).collect(),
        }),
        file_descriptor_response: files.map(|files| FileDescriptorProtoResponse {
            file_descriptor_proto: files.iter().map(|f| f.to_string()).collect(),
        }),
    }
}

#[test]
fn services_are_listed() {
    let names = service_names(reply(
        Some(vec!["news.NewsService", "grpc.reflection.v1alpha.ServerReflection"]),
        None,
    ));
    assert_eq!(
        names,
        Ok(vec![
            "news.NewsService".to_string(),
            "grpc.reflection.v1alpha.ServerReflection".to_string()
        ])
    );
    let missing = service_names(reply(None, None)).err().unwrap();
    assert_eq!(missing, ReflectionError::NoServices);
    assert_eq!(missing.message(), "Expected listServicesResponse but found none");
}

#[test]
fn first_file_is_decoded() {
    let written = prost_reflect::prost_types::FileDescriptorProto {
        name: Some("news.proto".to_string()),
        package: Some("news".to_string()),
        ..Default::default()
    };
    let bytes = written.encode_to_vec();
    let text = base64::Engine::encode(&base64::prelude::BASE64_STANDARD, &bytes);
    let response = reply(None, Some(vec![text.as_str(), "ignored"]));
    let read = file_descriptor(response).unwrap();
    assert_eq!(read, written);
    assert_eq!(read.name(), "news.proto");

    let files = FileDescriptorProtoResponse { file_descriptor_proto: vec![text] };
    assert_eq!(files.get(), Ok(bytes));
}

#[test]
fn files_that_cannot_be_read_are_reported() {
    let error = |files: Option<Vec<&str>>| file_descriptor(reply(None, files)).err().unwrap();
    assert_eq!(error(None), ReflectionError::NoFile);
    assert_eq!(error(None).message(), "Expected fileDescriptorResponse but found none");
    assert_eq!(error(Some(vec![])), ReflectionError::EmptyFile);
    assert_eq!(error(Some(vec![])).message(), "Received empty fileDescriptorProto");
    let base64 = error(Some(vec!["???"]));
    assert!(matches!(base64, ReflectionError::Base64(_)));
    assert!(base64.message().contains("Invalid"));
    let descriptor = error(Some(vec!["////"]));
    assert!(matches!(descriptor, ReflectionError::Descriptor(_)));
    assert!(!descriptor.message().is_empty());
}

#[test]
fn frames_give_their_message_back() {
    assert_eq!(frame(b":\0"), b"\0\0\0\0\x02:\0".to_vec());
    assert_eq!(frame(b"\x1a\nnews.proto"), b"\0\0\0\0\x0c\x1a\nnews.proto".to_vec());
    assert_eq!(frame(b"\"\x10news.NewsService"), b"\0\0\0\0\x12\"\x10news.NewsService".to_vec());
    let long = vec![7u8; 0x0102_03];
    let framed = frame(&long);
    assert_eq!(&framed[..5], &[0, 0, 1, 2, 3]);
    assert_eq!(unframe(&framed), Some(long));
    assert_eq!(unframe(&[0, 0, 0, 0]), None);
    assert_eq!(unframe(&[0, 0, 0, 0, 0]), Some(vec![]));
}
