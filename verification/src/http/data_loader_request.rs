//! Requests to an upstream that can be batched, and the responses to them.
use vstd::prelude::*;

use crate::text;
use crate::value::{Value, ValueModel};

verus! {

/// The contents of a list of headers.
pub open spec fn header_list(headers: Seq<(String, Vec<u8>)>) -> Seq<(Seq<char>, Seq<u8>)> {
    headers.map_values(|h: (String, Vec<u8>)| (h.0@, h.1@))
}

/// Copies a list of headers.
fn clone_headers(headers: &Vec<(String, Vec<u8>)>) -> (res: Vec<(String, Vec<u8>)>)
    ensures
        header_list(res@) == header_list(headers@),
{
    let mut res: Vec<(String, Vec<u8>)> = Vec::new();
    for i in 0..headers.len()
        invariant
            res.len() == i,
            forall|k: int|
                0 <= k < i ==> (#[trigger] res@[k]).0@ == headers@[k].0@ && res@[k].1@ == headers@[k].1@,
    {
        res.push((headers[i].0.clone(), headers[i].1.clone()));
    }
    proof {
        assert(header_list(res@) =~= header_list(headers@));
    }
    res
}

/// A request to an upstream.
#[derive(Debug, PartialEq, Eq, Hash)]
pub struct DataLoaderRequest {
    pub method: String,
    pub url: String,
    pub headers: Vec<(String, Vec<u8>)>,
    /// The body, where there is one that can be read at once.
    pub body: Option<Vec<u8>>,
}

/// What a [`DataLoaderRequest`] holds.
pub struct DataLoaderRequestModel {
    pub method: Seq<char>,
    pub url: Seq<char>,
    pub headers: Seq<(Seq<char>, Seq<u8>)>,
    pub body: Option<Seq<u8>>,
}

impl View for DataLoaderRequest {
    type V = DataLoaderRequestModel;

    open spec fn view(&self) -> DataLoaderRequestModel {
        DataLoaderRequestModel {
            method: self.method@,
            url: self.url@,
            headers: header_list(self.headers@),
            body: match self.body {
                Some(bytes) => Some(bytes@),
                None => None,
            },
        }
    }
}

impl Clone for DataLoaderRequest {
    fn clone(&self) -> (res: DataLoaderRequest)
        ensures
            res@ == self@,
    {
        DataLoaderRequest {
            method: self.method.clone(),
            url: self.url.clone(),
            headers: clone_headers(&self.headers),
            body: match &self.body {
                Some(bytes) => Some(bytes.clone()),
                None => None,
            },
        }
    }
}

/// Whether two lists hold the same bytes.
fn same_bytes(a: &Vec<u8>, b: &Vec<u8>) -> (res: bool)
    ensures
        res == (a@ == b@),
{
    if a.len() != b.len() {
        return false;
    }
    for i in 0..a.len()
        invariant
            a.len() == b.len(),
            forall|k: int| 0 <= k < i ==> a@[k] == b@[k],
    {
        if a[i] != b[i] {
            return false;
        }
    }
    proof {
        assert(a@ =~= b@);
    }
    true
}

/// Whether two lists hold the same headers in the same order.
fn same_headers(a: &Vec<(String, Vec<u8>)>, b: &Vec<(String, Vec<u8>)>) -> (res: bool)
    ensures
        res == (header_list(a@) == header_list(b@)),
{
    proof {
        assert(header_list(a@).len() == a@.len());
        assert(header_list(b@).len() == b@.len());
    }
    if a.len() != b.len() {
        return false;
    }
    for i in 0..a.len()
        invariant
            a.len() == b.len(),
            forall|k: int| 0 <= k < i ==> header_list(a@)[k] == header_list(b@)[k],
    {
        if !text::same(a[i].0.as_str(), b[i].0.as_str()) || !same_bytes(&a[i].1, &b[i].1) {
            proof {
                assert(header_list(a@)[i as int] != header_list(b@)[i as int]);
            }
            return false;
        }
    }
    proof {
        assert(header_list(a@) =~= header_list(b@));
    }
    true
}

impl DataLoaderRequest {
    /// Whether two requests are alike in every part.
    pub fn same(&self, other: &DataLoaderRequest) -> (res: bool)
        ensures
            res == (self@ == other@),
    {
        let same_body = match (&self.body, &other.body) {
            (Some(a), Some(b)) => same_bytes(a, b),
            (None, None) => true,
            _ => false,
        };
        same_body && text::same(self.method.as_str(), other.method.as_str()) && text::same(
            self.url.as_str(),
            other.url.as_str(),
        ) && same_headers(&self.headers, &other.headers)
    }
}

/// The contents of a list of requests.
pub open spec fn requests_model(requests: Seq<DataLoaderRequest>) -> Seq<DataLoaderRequestModel> {
    requests.map_values(|r: DataLoaderRequest| r@)
}

/// A response of an upstream.
#[derive(Debug, PartialEq, Eq)]
pub struct Response {
    pub status: u16,
    pub headers: Vec<(String, Vec<u8>)>,
    pub body: Value,
}

/// What a [`Response`] holds.
pub struct ResponseModel {
    pub status: u16,
    pub headers: Seq<(Seq<char>, Seq<u8>)>,
    pub body: ValueModel,
}

impl View for Response {
    type V = ResponseModel;

    open spec fn view(&self) -> ResponseModel {
        ResponseModel {
            status: self.status,
            headers: header_list(self.headers@),
            body: self.body@,
        }
    }
}

impl Response {
    /// The response with another body.
    pub fn with_body(&self, body: Value) -> (res: Response)
        ensures
            res@ == (ResponseModel { body: body@, ..self@ }),
    {
        Response { status: self.status, headers: clone_headers(&self.headers), body }
    }
}

/// A request, and a response, hold their parts; headers stand in order.
pub proof fn law_requests_hold_their_parts(
    request: DataLoaderRequest,
    response: Response,
    requests: Seq<DataLoaderRequest>,
)
    ensures
        request@.method == request.method@,
        request@.url == request.url@,
        request@.headers == Seq::new(
            request.headers@.len(),
            |i: int| (request.headers@[i].0@, request.headers@[i].1@),
        ),
        request.body matches Some(bytes) ==> request@.body == Some(bytes@),
        request.body is None ==> request@.body is None,
        response@.status == response.status,
        response@.headers == Seq::new(
            response.headers@.len(),
            |i: int| (response.headers@[i].0@, response.headers@[i].1@),
        ),
        response@.body == response.body@,
        requests_model(requests).len() == requests.len(),
        forall|i: int| 0 <= i < requests.len() ==> #[trigger] requests_model(requests)[i] == requests[i]@,
{
    assert(request@.headers =~= Seq::new(
        request.headers@.len(),
        |i: int| (request.headers@[i].0@, request.headers@[i].1@),
    ));
    assert(response@.headers =~= Seq::new(
        response.headers@.len(),
        |i: int| (response.headers@[i].0@, response.headers@[i].1@),
    ));
}

} // verus!
