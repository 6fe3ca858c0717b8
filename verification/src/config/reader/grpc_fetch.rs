//! Descriptors fetched from the reflection service of a gRPC server.
use base64::prelude::BASE64_STANDARD;
use base64::Engine;
use prost::Message;
use prost_reflect::prost_types::FileDescriptorProto;
use vstd::prelude::*;
use vstd::string::*;

use crate::text::{result_text, views};

verus! {

/// Declares `prost_types::FileDescriptorProto`.
#[verifier::external_type_specification]
#[verifier::external_body]
pub struct ExFileDescriptorProto(prost_reflect::prost_types::FileDescriptorProto);

/// Why a descriptor was not fetched.
#[derive(Debug, PartialEq, Eq)]
pub enum ReflectionError {
    /// The address is no URL, for the reason given.
    Url(String),
    /// The address is longer than a URL can be.
    LongUrl,
    /// The reply does not list services.
    NoServices,
    /// The reply holds no file.
    NoFile,
    /// The reply holds an empty list of files.
    EmptyFile,
    /// The file is not written in base 64, for the reason given.
    Base64(String),
    /// The file is no descriptor, for the reason given.
    Descriptor(String),
}

/// The message of an error.
pub open spec fn reflection_message(e: ReflectionError) -> Seq<char> {
    match e {
        ReflectionError::Url(reason) => reason@,
        ReflectionError::LongUrl => "URLs more than 4 GB are not supported"@,
        ReflectionError::NoServices => "Expected listServicesResponse but found none"@,
        ReflectionError::NoFile => "Expected fileDescriptorResponse but found none"@,
        ReflectionError::EmptyFile => "Received empty fileDescriptorProto"@,
        ReflectionError::Base64(reason) => reason@,
        ReflectionError::Descriptor(reason) => reason@,
    }
}

impl ReflectionError {
    /// The message of the error.
    pub fn message(&self) -> (res: String)
        ensures
            res@ == reflection_message(*self),
    {
        match self {
            ReflectionError::Url(reason) => reason.clone(),
            ReflectionError::LongUrl => "URLs more than 4 GB are not supported".to_string(),
            ReflectionError::NoServices => "Expected listServicesResponse but found none".to_string(),
            ReflectionError::NoFile => "Expected fileDescriptorResponse but found none".to_string(),
            ReflectionError::EmptyFile => "Received empty fileDescriptorProto".to_string(),
            ReflectionError::Base64(reason) => reason.clone(),
            ReflectionError::Descriptor(reason) => reason.clone(),
        }
    }
}

/// What the reflection service is asked for.
pub enum ReflectionRequest<'a> {
    /// The names of all services.
    ListServices,
    /// The file that declares the symbol.
    FileContainingSymbol(&'a str),
    /// The file of that name.
    FileByFilename(&'a str),
}

/// The member of the message that a request is written as, by its name and value.
pub open spec fn request_member(request: ReflectionRequest) -> (Seq<char>, Seq<char>) {
    match request {
        ReflectionRequest::ListServices => ("list_services"@, ""@),
        ReflectionRequest::FileContainingSymbol(symbol) => ("file_containing_symbol"@, symbol@),
        ReflectionRequest::FileByFilename(name) => ("file_by_filename"@, name@),
    }
}

/// A request before the values that it refers to are filled in.
pub struct RequestTemplate {
    pub url: String,
    pub headers: Vec<(String, String)>,
    pub body: String,
}

/// The method that answers reflection requests.
pub fn reflection_method() -> (res: &'static str)
    ensures
        res@ == "grpc.reflection.v1alpha.ServerReflection.ServerReflectionInfo"@,
{
    "grpc.reflection.v1alpha.ServerReflection.ServerReflectionInfo"
}

/// The path of the reflection service.
pub open spec fn reflection_path() -> Seq<char> {
    "grpc.reflection.v1alpha.ServerReflection/ServerReflectionInfo"@
}

/// The last position in a URL: positions have four bytes.
pub const MAX_POSITION: usize = 0xFFFF_FFFF;

/// Where the parts of a URL lie in its text, in bytes.
#[derive(Clone, Copy, Debug, PartialEq, Eq)]
pub struct UrlShape {
    pub path_start: usize,
    pub path_end: usize,
    /// Where the query ends, or the path where there is none. A fragment follows unless the text
    /// ends there too.
    pub query_end: usize,
    pub end: usize,
    /// Whether the path is not made of segments, as that of `mailto:` is not.
    pub opaque: bool,
}

impl UrlShape {
    /// The position behind a path of `len` plain characters that takes the place of the path. A path
    /// of segments begins with a slash.
    pub open spec fn new_path_end(self, len: nat) -> int {
        self.path_start + len + if self.opaque {
            0int
        } else {
            1int
        }
    }

    /// Whether no position goes beyond the last one when the path is replaced by one of `len` plain
    /// characters: neither the end of the path, old or new, nor the start of a fragment.
    pub open spec fn takes_path(self, len: nat) -> bool {
        &&& self.path_end <= MAX_POSITION
        &&& self.new_path_end(len) <= MAX_POSITION
        &&& self.query_end < self.end ==> self.new_path_end(len) + (self.query_end - self.path_end)
            <= MAX_POSITION
    }

    /// Whether the path can be replaced by one of `len` plain characters.
    pub fn fits(&self, len: usize) -> (res: bool)
        ensures
            res == self.takes_path(len as nat),
    {
        let slash: u128 = if self.opaque {
            0
        } else {
            1
        };
        let new_end: u128 = self.path_start as u128 + len as u128 + slash;
        let last: u128 = MAX_POSITION as u128;
        self.path_end <= MAX_POSITION && new_end <= last && (self.query_end >= self.end || new_end
            + self.query_end as u128 <= last + self.path_end as u128)
    }
}

/// The shape of the URL that a string is read as, or the reason for which it is none.
pub uninterp spec fn parsed_url(url: Seq<char>) -> Result<UrlShape, Seq<char>>;

/// The text of a URL with another path, or the reason for which there is none.
pub uninterp spec fn url_with_path(url: Seq<char>, path: Seq<char>) -> Result<Seq<char>, Seq<char>>;

/// The contents of a result of reading a URL.
pub open spec fn shape_or_reason(res: Result<UrlShape, String>) -> Result<UrlShape, Seq<char>> {
    match res {
        Ok(shape) => Ok(shape),
        Err(e) => Err(e@),
    }
}

/// Whether setting the path of a URL gives a text where reading the URL gave one, and else the same
/// reason.
pub open spec fn fails_alike(a: Result<Seq<char>, Seq<char>>, b: Result<UrlShape, Seq<char>>) -> bool {
    match (a, b) {
        (Ok(_), Ok(_)) => true,
        (Err(x), Err(y)) => x == y,
        _ => false,
    }
}

/// Calls `Url::parse` of `url` and reads off where the parts of the URL lie. That, or the text of
/// the error, depends on the string alone.
#[verifier::external_body]
fn parse_url(url: &str) -> (res: Result<UrlShape, String>)
    ensures
        shape_or_reason(res) == parsed_url(url@),
{
    let url = url::Url::parse(url).map_err(|error| error.to_string())?;
    Ok(UrlShape {
        path_start: url[..url::Position::BeforePath].len(),
        path_end: url[..url::Position::AfterPath].len(),
        query_end: url[..url::Position::AfterQuery].len(),
        end: url.as_str().len(),
        opaque: url.cannot_be_a_base(),
    })
}

/// Calls `Url::set_path` of `url` on the URL that a string is read as. The text of the URL, or of
/// the error of reading it, depends on the two strings alone. A string that cannot be read gives the
/// error of `Url::parse`, and any other gives a URL. The path is the one of the reflection service,
/// which stands in a URL as it is, so that the positions behind it are known beforehand.
#[verifier::external_body]
fn set_url_path(url: &str, path: &str) -> (res: Result<String, String>)
    requires
        path@ == reflection_path(),
        parsed_url(url@) matches Ok(shape) ==> shape.takes_path(path@.len()),
    ensures
        result_text(res) == url_with_path(url@, path@),
        fails_alike(result_text(res), parsed_url(url@)),
{
    let mut url = url::Url::parse(url).map_err(|error| error.to_string())?;
    url.set_path(path);
    Ok(url.to_string())
}

/// The digit of a number below sixteen, in lower case.
pub open spec fn hex_char(n: int) -> char {
    "0123456789abcdef"@[n]
}

/// How a character of a string is written in JSON.
pub open spec fn json_char(c: char) -> Seq<char> {
    if c == '"' {
        "\\\""@
    } else if c == '\\' {
        "\\\\"@
    } else if c as int == 8 {
        "\\b"@
    } else if c == '\t' {
        "\\t"@
    } else if c == '\n' {
        "\\n"@
    } else if c as int == 12 {
        "\\f"@
    } else if c == '\r' {
        "\\r"@
    } else if (c as int) < 32 {
        "\\u00"@ + seq![hex_char(c as int / 16), hex_char(c as int % 16)]
    } else {
        seq![c]
    }
}

/// How the characters of a string are written in JSON.
pub open spec fn json_chars(s: Seq<char>) -> Seq<char>
    decreases s.len(),
{
    if s.len() == 0 {
        Seq::empty()
    } else {
        json_chars(s.drop_last()) + json_char(s.last())
    }
}

/// A JSON object with one member, whose value is a string.
pub open spec fn json_object(key: Seq<char>, value: Seq<char>) -> Seq<char> {
    "{\""@ + json_chars(key) + "\":\""@ + json_chars(value) + "\"}"@
}

/// Writes a `serde_json::Value`, an object with one member, by its `Display`. Both strings stand in
/// quotes, with a colon in between and braces around. Quotes, backslashes and the control characters
/// that have a letter follow a backslash, and other control characters are written as `\u00` with
/// their number in two hexadecimal digits.
#[verifier::external_body]
fn write_json_object(key: &str, value: &str) -> (res: String)
    ensures
        res@ == json_object(key@, value@),
{
    let mut object = serde_json::Map::new();
    object.insert(key.to_string(), serde_json::Value::String(value.to_string()));
    serde_json::Value::Object(object).to_string()
}

/// Whether a string stands in JSON as it is, between quotes.
pub open spec fn is_plain_json(s: Seq<char>) -> bool {
    forall|i: int|
        0 <= i < s.len() ==> (#[trigger] s[i]) as int >= 32 && s[i] != '"' && s[i] != '\\'
}

/// A string that needs no escape stands in JSON as it is.
pub proof fn law_plain_text_stays(s: Seq<char>)
    requires
        is_plain_json(s),
    ensures
        json_chars(s) == s,
    decreases s.len(),
{
    if s.len() > 0 {
        let rest = s.drop_last();
        assert forall|i: int| 0 <= i < rest.len() implies (#[trigger] rest[i]) as int >= 32 && rest[i]
            != '"' && rest[i] != '\\' by {
            assert(rest[i] == s[i]);
        }
        law_plain_text_stays(rest);
        assert(s.last() == s[s.len() - 1]);
        assert(rest + seq![s.last()] =~= s);
    } else {
        assert(s =~= Seq::empty());
    }
}

/// The one header that a reflection request is sent with.
pub open spec fn has_grpc_header(headers: Seq<(String, String)>) -> bool {
    &&& headers.len() == 1
    &&& headers[0].0@ == "content-type"@
    &&& headers[0].1@ == "application/grpc+proto"@
}

/// Puts the template of a reflection request together from the text of its URL and of its body.
pub fn template_of(url: String, body: String) -> (res: RequestTemplate)
    ensures
        res.url@ == url@,
        has_grpc_header(res.headers@),
        res.body@ == body@,
{
    let mut headers: Vec<(String, String)> = Vec::new();
    headers.push(("content-type".to_string(), "application/grpc+proto".to_string()));
    RequestTemplate { url, headers, body }
}

/// Whether a URL is too long for the path of the reflection service to be set.
pub open spec fn is_long(parsed: Result<UrlShape, Seq<char>>) -> bool {
    parsed matches Ok(shape) && !shape.takes_path(reflection_path().len())
}

proof fn lemma_members_plain()
    ensures
        is_plain_json("list_services"@),
        is_plain_json("file_containing_symbol"@),
        is_plain_json("file_by_filename"@),
{
    reveal_strlit("list_services");
    reveal_strlit("file_containing_symbol");
    reveal_strlit("file_by_filename");
}

/// The template of a reflection request to a server. Fails exactly where the address of the server
/// is no URL, and where its URL is too long for a path to be set.
pub fn reflection_template(url: &str, request: &ReflectionRequest) -> (res: Result<
    RequestTemplate,
    ReflectionError,
>)
    ensures
        match res {
            Ok(template) => {
                &&& !is_long(parsed_url(url@))
                &&& parsed_url(url@) is Ok
                &&& url_with_path(url@, reflection_path()) == Ok::<Seq<char>, Seq<char>>(template.url@)
                &&& has_grpc_header(template.headers@)
                &&& template.body@ == json_object(request_member(*request).0, request_member(*request).1)
                &&& is_plain_json(request_member(*request).1) ==> template.body@ == "{\""@
                    + request_member(*request).0 + "\":\""@ + request_member(*request).1 + "\"}"@
            },
            Err(ReflectionError::Url(reason)) => parsed_url(url@) == Err::<UrlShape, Seq<char>>(
                reason@,
            ),
            Err(ReflectionError::LongUrl) => is_long(parsed_url(url@)),
            _ => false,
        },
{
    proof {
        lemma_members_plain();
    }
    let path = "grpc.reflection.v1alpha.ServerReflection/ServerReflectionInfo";
    match parse_url(url) {
        Ok(shape) => {
            if !shape.fits(path.unicode_len()) {
                return Err(ReflectionError::LongUrl);
            }
        },
        Err(reason) => {
            return Err(ReflectionError::Url(reason));
        },
    }
    let target = match set_url_path(url, path) {
        Ok(target) => target,
        Err(reason) => {
            return Err(ReflectionError::Url(reason));
        },
    };
    let body = match request {
        ReflectionRequest::ListServices => write_json_object("list_services", ""),
        ReflectionRequest::FileContainingSymbol(symbol) => write_json_object(
            "file_containing_symbol",
            symbol,
        ),
        ReflectionRequest::FileByFilename(name) => write_json_object("file_by_filename", name),
    };
    proof {
        let member = request_member(*request);
        law_plain_text_stays(member.0);
        if is_plain_json(member.1) {
            law_plain_text_stays(member.1);
        }
    }
    Ok(template_of(target, body))
}

/// A service by its name.
pub struct Service {
    pub name: String,
}

/// The services of a server.
pub struct ListServicesResponse {
    pub service: Vec<Service>,
}

/// The names of services.
pub open spec fn names_of(services: Seq<Service>) -> Seq<Seq<char>> {
    services.map_values(|s: Service| s.name@)
}

/// Files, each written in base 64.
pub struct FileDescriptorProtoResponse {
    pub file_descriptor_proto: Vec<String>,
}

/// The result of decoding a string that is written in base 64: the bytes, or the reason for which
/// there are none.
pub uninterp spec fn base64_decoded(s: Seq<char>) -> Result<Seq<u8>, Seq<char>>;

/// The contents of a result of bytes.
pub open spec fn result_bytes(res: Result<Vec<u8>, String>) -> Result<Seq<u8>, Seq<char>> {
    match res {
        Ok(bytes) => Ok(bytes@),
        Err(e) => Err(e@),
    }
}

/// Calls `Engine::decode` of `base64` on its `BASE64_STANDARD`. The bytes, or the text of the
/// error, depend on the string alone.
#[verifier::external_body]
fn decode_base64(s: &str) -> (res: Result<Vec<u8>, String>)
    ensures
        result_bytes(res) == base64_decoded(s@),
{
    BASE64_STANDARD.decode(s).map_err(|error| error.to_string())
}

/// Whether a result is the bytes of the file, or the error with the reason for which there are
/// none.
pub open spec fn is_decoded(
    res: Result<Vec<u8>, ReflectionError>,
    decoded: Result<Seq<u8>, Seq<char>>,
) -> bool {
    match (res, decoded) {
        (Ok(bytes), Ok(expected)) => bytes@ == expected,
        (Err(ReflectionError::Base64(reason)), Err(expected)) => reason@ == expected,
        _ => false,
    }
}

impl FileDescriptorProtoResponse {
    /// The bytes of the first file.
    pub fn get(self) -> (res: Result<Vec<u8>, ReflectionError>)
        ensures
            if self.file_descriptor_proto@.len() == 0 {
                res matches Err(ReflectionError::EmptyFile)
            } else {
                is_decoded(res, base64_decoded(self.file_descriptor_proto@[0]@))
            },
    {
        if self.file_descriptor_proto.len() == 0 {
            return Err(ReflectionError::EmptyFile);
        }
        match decode_base64(self.file_descriptor_proto[0].as_str()) {
            Ok(bytes) => Ok(bytes),
            Err(reason) => Err(ReflectionError::Base64(reason)),
        }
    }
}

/// A reply of the reflection service.
pub struct CustomResponse {
    pub list_services_response: Option<ListServicesResponse>,
    pub file_descriptor_response: Option<FileDescriptorProtoResponse>,
}

/// The names of the services that a reply lists.
pub fn service_names(response: CustomResponse) -> (res: Result<Vec<String>, ReflectionError>)
    ensures
        match response.list_services_response {
            Some(list) => res matches Ok(names) && views(names@) == names_of(list.service@),
            None => res matches Err(ReflectionError::NoServices),
        },
{
    match response.list_services_response {
        None => Err(ReflectionError::NoServices),
        Some(list) => {
            let services = list.service;
            let ghost all = names_of(services@);
            let mut names: Vec<String> = Vec::new();
            for i in 0..services.len()
                invariant
                    all == names_of(services@),
                    views(names@) == all.take(i as int),
            {
                let name = services[i].name.clone();
                proof {
                    assert(views(names@.push(name)) =~= views(names@).push(name@));
                    assert(all.take(i + 1) =~= all.take(i as int).push(name@));
                }
                names.push(name);
            }
            proof {
                assert(all.take(all.len() as int) =~= all);
            }
            Ok(names)
        },
    }
}

/// The result of decoding the bytes of a file: the descriptor, or the reason for which there is
/// none.
pub uninterp spec fn file_decoded(bytes: Seq<u8>) -> Result<FileDescriptorProto, Seq<char>>;

/// The contents of a result of a descriptor.
pub open spec fn result_file(res: Result<FileDescriptorProto, String>) -> Result<
    FileDescriptorProto,
    Seq<char>,
> {
    match res {
        Ok(file) => Ok(file),
        Err(e) => Err(e@),
    }
}

/// Calls `Message::decode` of `prost` for `FileDescriptorProto`. The descriptor, or the text of the
/// error, depends on the bytes alone.
#[verifier::external_body]
fn decode_file(bytes: &[u8]) -> (res: Result<FileDescriptorProto, String>)
    ensures
        result_file(res) == file_decoded(bytes@),
{
    FileDescriptorProto::decode(bytes).map_err(|error| error.to_string())
}

/// The descriptor in the bytes of a file.
fn descriptor_in(bytes: &Vec<u8>) -> (res: Result<FileDescriptorProto, ReflectionError>)
    ensures
        match (res, file_decoded(bytes@)) {
            (Ok(file), Ok(expected)) => file == expected,
            (Err(ReflectionError::Descriptor(reason)), Err(expected)) => reason@ == expected,
            _ => false,
        },
{
    match decode_file(bytes.as_slice()) {
        Ok(file) => Ok(file),
        Err(reason) => Err(ReflectionError::Descriptor(reason)),
    }
}

/// The descriptor of the first file that a reply holds.
pub fn file_descriptor(response: CustomResponse) -> (res: Result<FileDescriptorProto, ReflectionError>)
    ensures
        match response.file_descriptor_response {
            None => res matches Err(ReflectionError::NoFile),
            Some(files) => if files.file_descriptor_proto@.len() == 0 {
                res matches Err(ReflectionError::EmptyFile)
            } else {
                match base64_decoded(files.file_descriptor_proto@[0]@) {
                    Err(reason) => res matches Err(ReflectionError::Base64(s)) && s@ == reason,
                    Ok(bytes) => match file_decoded(bytes) {
                        Err(reason) => res matches Err(ReflectionError::Descriptor(s)) && s@ == reason,
                        Ok(file) => res == Ok::<FileDescriptorProto, ReflectionError>(file),
                    },
                }
            },
        },
{
    match response.file_descriptor_response {
        None => Err(ReflectionError::NoFile),
        Some(files) => match files.get() {
            Err(e) => Err(e),
            Ok(bytes) => descriptor_in(&bytes),
        },
    }
}

/// A request for all services names nothing; one for a symbol, or for a file, names it under the
/// member for that.
pub proof fn law_requests_name_what_is_asked_for(name: &str)
    ensures
        request_member(ReflectionRequest::ListServices).0 == "list_services"@,
        request_member(ReflectionRequest::ListServices).1.len() == 0,
        request_member(ReflectionRequest::FileContainingSymbol(name)) == (
            "file_containing_symbol"@,
            name@,
        ),
        request_member(ReflectionRequest::FileByFilename(name)) == ("file_by_filename"@, name@),
{
    reveal_strlit("");
}

/// The errors of outside work are told by their own texts, and what a reply lacks is told by what it
/// lacks.
pub proof fn law_reflection_messages(reason: String)
    ensures
        reflection_message(ReflectionError::Url(reason)) == reason@,
        reflection_message(ReflectionError::Base64(reason)) == reason@,
        reflection_message(ReflectionError::Descriptor(reason)) == reason@,
        reflection_message(ReflectionError::LongUrl) == "URLs more than 4 GB are not supported"@,
        reflection_message(ReflectionError::NoServices)
            == "Expected listServicesResponse but found none"@,
        reflection_message(ReflectionError::NoFile)
            == "Expected fileDescriptorResponse but found none"@,
        reflection_message(ReflectionError::EmptyFile) == "Received empty fileDescriptorProto"@,
{
}

/// The names of services stand in the order of the services, and the template of a request has the one
/// header that tells what its body is.
pub proof fn law_services_are_named_in_order(
    services: Seq<Service>,
    headers: Seq<(String, String)>,
)
    ensures
        names_of(services).len() == services.len(),
        forall|i: int| 0 <= i < services.len() ==> #[trigger] names_of(services)[i] == services[i].name@,
        has_grpc_header(headers) <==> headers.len() == 1 && headers[0].0@ == "content-type"@
            && headers[0].1@ == "application/grpc+proto"@,
{
}

} // verus!
