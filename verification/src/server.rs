//! The connection handler's decision: what response a connection writes
//! back, given the outcome of parsing and of the static-file probe. The
//! socket reads and writes themselves, and the probe of the filesystem,
//! happen outside this crate; this fixes the fallback order they must
//! follow: a failed parse answers 400, a static-file candidate is served
//! before the router is consulted, and everything else is routed.

use vstd::prelude::*;

use crate::request::{HttpRequest, ParseRequestError};
use crate::response::{spec_bad_request, spec_static_response, HttpResponse};
use crate::router::{spec_resolve, Handler, Router};

verus! {

/// The view of optional file contents.
pub open spec fn opt_string_view(c: Option<String>) -> Option<Seq<char>> {
    match c {
        Some(s) => Some(s@),
        None => None,
    }
}

/// The response for one connection. `parsed` is what the raw message
/// parsed to; `static_file` is the static probe's outcome for a parsed
/// request: `None` when the request addresses no existing file, and
/// otherwise the result of reading the file it addresses.
pub fn respond<H: Handler>(
    router: &Router<H>,
    parsed: Result<HttpRequest, ParseRequestError>,
    static_file: Option<Option<String>>,
) -> (r: HttpResponse)
    ensures
        parsed is Err ==> r@ == spec_bad_request(),
        parsed matches Ok(req) ==> match static_file {
            Some(contents) => r@ == spec_static_response(req.path@, opt_string_view(contents)),
            None => r@ == spec_resolve(router.route_map(), req@),
        },
{
    match parsed {
        Err(_) => HttpResponse::bad_request(),
        Ok(req) => match static_file {
            Some(contents) => HttpResponse::serve_static_file(&req, contents),
            None => router.resolve(&req),
        },
    }
}

} // verus!
