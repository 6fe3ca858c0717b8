//! What the resolvers of one incoming request share.
use hyper::HeaderMap;
use vstd::prelude::*;

use crate::http::headers;
use crate::http::headers::{header_entries, no_headers};
use crate::string_map::StringMap;

verus! {

/// The server settings that resolvers read.
pub struct Server {
    /// The variables of the configuration.
    pub vars: StringMap<String>,
}

/// What the resolvers of one incoming request share.
pub struct RequestContext {
    /// The headers of the incoming request.
    pub req_headers: HeaderMap,
    pub server: Server,
}

impl Default for RequestContext {
    /// A request without headers, to a server without variables.
    fn default() -> (res: RequestContext)
        ensures
            header_entries(res.req_headers) == no_headers(),
            res.server.vars@ == Map::<Seq<char>, String>::empty(),
    {
        RequestContext { req_headers: headers::empty(), server: Server { vars: StringMap::new() } }
    }
}

} // verus!
