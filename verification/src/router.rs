//! The router: an exact-match table from (method, path) to a handler,
//! with registration, overwrite-on-re-registration, and a fixed 404
//! not-found fallback.

use vstd::prelude::*;

use crate::request::{HttpRequest, Method, ReqV};
use crate::response::{byte_len, HttpResponse, RespV};
use crate::strutil::{dec_chars, str_eq, usize_to_dec};

verus! {

broadcast use vstd::slice::axiom_spec_len;

/// A request handler. A handler states the response it computes in
/// [`Handler::spec_handle`] and proves that [`Handler::handle`] returns
/// exactly that; the router then returns handler output unchanged.
pub trait Handler: Sized {
    /// The response this handler computes for a request.
    spec fn spec_handle(&self, req: ReqV) -> RespV;

    /// Handle a request.
    fn handle(&self, req: &HttpRequest) -> (r: HttpResponse)
        ensures
            r@ == self.spec_handle(req@),
    ;
}

/// A handler that returns one fixed, precomputed response, whatever the
/// request says.
pub struct FixedHandler {
    pub response: HttpResponse,
}

impl FixedHandler {
    /// A handler that always answers with `response`.
    pub fn new(response: HttpResponse) -> (h: FixedHandler)
        ensures
            h.response == response,
    {
        FixedHandler { response }
    }
}

impl Handler for FixedHandler {
    open spec fn spec_handle(&self, req: ReqV) -> RespV {
        self.response@
    }

    fn handle(&self, req: &HttpRequest) -> (r: HttpResponse) {
        self.response.duplicate()
    }
}

/// The views of a sequence of route entries.
pub open spec fn entry_views<H: Handler>(s: Seq<(Method, String, H)>) -> Seq<
    (Method, Seq<char>, H),
> {
    s.map_values(|e: (Method, String, H)| (e.0, e.1@, e.2))
}

/// The table a list of registrations denotes: entries are added in order,
/// so a later registration of the same (method, path) key overwrites an
/// earlier one.
pub open spec fn route_table<H: Handler>(entries: Seq<(Method, Seq<char>, H)>) -> Map<
    (Method, Seq<char>),
    H,
>
    decreases entries.len(),
{
    if entries.len() == 0 {
        Map::empty()
    } else {
        route_table(entries.drop_last()).insert(
            (entries.last().0, entries.last().1),
            entries.last().2,
        )
    }
}

/// The fixed not-found response: a 404 carrying a small HTML notice.
pub open spec fn spec_not_found() -> RespV {
    RespV {
        status: 404,
        headers: seq![
            ("content-type"@, "text/html"@),
            ("content-length"@, dec_chars(byte_len("<h1>404 Not Found</h1>"@) as int)),
        ],
        body: "<h1>404 Not Found</h1>"@,
    }
}

/// What resolution returns: the registered handler's own response on an
/// exact (method, path) hit, and the fixed not-found response on a miss.
pub open spec fn spec_resolve<H: Handler>(
    routes: Map<(Method, Seq<char>), H>,
    req: ReqV,
) -> RespV {
    if routes.contains_key((req.method, req.path)) {
        routes[(req.method, req.path)].spec_handle(req)
    } else {
        spec_not_found()
    }
}

/// An exact-match route table: no path parameters, no wildcards, no
/// prefix matching. Registration overwrites; resolution of an
/// unregistered key falls back to the fixed 404.
pub struct Router<H: Handler> {
    routes: Vec<(Method, String, H)>,
}

/// An entry matching a key, with no later entry matching it, decides the
/// lookup.
proof fn lemma_route_table_hit<H: Handler>(
    entries: Seq<(Method, Seq<char>, H)>,
    k: (Method, Seq<char>),
    i: int,
)
    requires
        0 <= i < entries.len(),
        (entries[i].0, entries[i].1) == k,
        forall|j: int| i < j < entries.len() ==> ((#[trigger] entries[j]).0, entries[j].1) != k,
    ensures
        route_table(entries).contains_key(k),
        route_table(entries)[k] == entries[i].2,
    decreases entries.len(),
{
    if i == entries.len() - 1 {
    } else {
        lemma_route_table_hit(entries.drop_last(), k, i);
    }
}

/// A key no entry matches is not in the table.
proof fn lemma_route_table_miss<H: Handler>(
    entries: Seq<(Method, Seq<char>, H)>,
    k: (Method, Seq<char>),
)
    requires
        forall|j: int|
            0 <= j < entries.len() ==> ((#[trigger] entries[j]).0, entries[j].1) != k,
    ensures
        !route_table(entries).contains_key(k),
    decreases entries.len(),
{
    if entries.len() > 0 {
        lemma_route_table_miss(entries.drop_last(), k);
    }
}

impl<H: Handler> Router<H> {
    /// The table this router holds: what was registered, later
    /// registrations of a key overwriting earlier ones.
    pub closed spec fn route_map(&self) -> Map<(Method, Seq<char>), H> {
        route_table(entry_views(self.routes@))
    }

    /// An empty router: every resolution falls back to not-found.
    pub fn new() -> (r: Self)
        ensures
            r.route_map() == Map::<(Method, Seq<char>), H>::empty(),
    {
        let r = Router { routes: Vec::new() };
        proof {
            assert(entry_views(r.routes@) =~= Seq::<(Method, Seq<char>, H)>::empty());
        }
        r
    }

    /// Register `handler` for an exact (method, path) key, replacing any
    /// earlier handler for that key.
    fn route(&mut self, method: Method, path: &str, handler: H)
        ensures
            final(self).route_map() == old(self).route_map().insert((method, path@), handler),
    {
        let ghost prev = entry_views(self.routes@);
        self.routes.push((method, path.to_owned(), handler));
        proof {
            assert(entry_views(self.routes@).drop_last() =~= prev);
            assert(entry_views(self.routes@).last() == (method, path@, handler));
        }
    }

    /// Register a handler for `GET` requests to `path`.
    pub fn get(&mut self, path: &str, handler: H)
        ensures
            final(self).route_map() == old(self).route_map().insert(
                (Method::GET, path@),
                handler,
            ),
    {
        self.route(Method::GET, path, handler);
    }

    /// Register a handler for `POST` requests to `path`.
    pub fn post(&mut self, path: &str, handler: H)
        ensures
            final(self).route_map() == old(self).route_map().insert(
                (Method::POST, path@),
                handler,
            ),
    {
        self.route(Method::POST, path, handler);
    }

    /// Register a handler for `PUT` requests to `path`.
    pub fn put(&mut self, path: &str, handler: H)
        ensures
            final(self).route_map() == old(self).route_map().insert(
                (Method::PUT, path@),
                handler,
            ),
    {
        self.route(Method::PUT, path, handler);
    }

    /// Register a handler for `PATCH` requests to `path`.
    pub fn patch(&mut self, path: &str, handler: H)
        ensures
            final(self).route_map() == old(self).route_map().insert(
                (Method::PATCH, path@),
                handler,
            ),
    {
        self.route(Method::PATCH, path, handler);
    }

    /// Register a handler for `DELETE` requests to `path`.
    pub fn delete(&mut self, path: &str, handler: H)
        ensures
            final(self).route_map() == old(self).route_map().insert(
                (Method::DELETE, path@),
                handler,
            ),
    {
        self.route(Method::DELETE, path, handler);
    }

    /// Resolve a request: an exact lookup of (method, path). A hit invokes
    /// the registered handler and returns its response unchanged; a miss
    /// returns the fixed not-found response.
    #[verifier::loop_isolation(false)]
    pub fn resolve(&self, req: &HttpRequest) -> (r: HttpResponse)
        ensures
            r@ == spec_resolve(self.route_map(), req@),
    {
        let ghost k = (req.method, req.path@);
        let mut i = self.routes.len();
        while i > 0
            invariant
                0 <= i <= self.routes@.len(),
                forall|j: int|
                    i <= j < self.routes@.len() ==> ((#[trigger] entry_views(self.routes@)[j]).0,
                    entry_views(self.routes@)[j].1) != k,
            decreases i,
        {
            i -= 1;
            let entry = &self.routes[i];
            if entry.0 == req.method && str_eq(entry.1.as_str(), req.path.as_str()) {
                proof {
                    lemma_route_table_hit(entry_views(self.routes@), k, i as int);
                }
                return entry.2.handle(req);
            }
        }
        proof {
            lemma_route_table_miss(entry_views(self.routes@), k);
        }
        Self::not_found(req)
    }

    /// The built-in not-found handler: a fixed 404 with an HTML notice.
    fn not_found(_req: &HttpRequest) -> (r: HttpResponse)
        ensures
            r@ == spec_not_found(),
    {
        let body = "<h1>404 Not Found</h1>";
        let len_str = usize_to_dec(body.as_bytes().len());
        let r = HttpResponse::new(404).header("content-type", "text/html").header(
            "content-length",
            len_str.as_str(),
        ).body(body.to_owned()).build();
        proof {
            assert(r@ =~= spec_not_found());
        }
        r
    }
}

/// Law: registering a handler and then resolving a request with that
/// method and path invokes exactly that handler: resolution returns the
/// handler's own response.
pub proof fn lemma_register_then_resolve<H: Handler>(
    routes: Map<(Method, Seq<char>), H>,
    method: Method,
    path: Seq<char>,
    h: H,
    req: ReqV,
)
    requires
        req.method == method,
        req.path == path,
    ensures
        spec_resolve(routes.insert((method, path), h), req) == h.spec_handle(req),
{
}

/// Law: resolving a request whose (method, path) was never registered
/// yields the fixed not-found response.
pub proof fn lemma_resolve_unregistered<H: Handler>(
    routes: Map<(Method, Seq<char>), H>,
    req: ReqV,
)
    requires
        !routes.contains_key((req.method, req.path)),
    ensures
        spec_resolve(routes, req) == spec_not_found(),
{
}

/// Law: re-registering a (method, path) key replaces the earlier handler;
/// subsequent resolution uses only the second one.
pub proof fn lemma_reregister_overwrites<H: Handler>(
    routes: Map<(Method, Seq<char>), H>,
    method: Method,
    path: Seq<char>,
    h1: H,
    h2: H,
    req: ReqV,
)
    requires
        req.method == method,
        req.path == path,
    ensures
        spec_resolve(routes.insert((method, path), h1).insert((method, path), h2), req)
            == h2.spec_handle(req),
{
}

} // verus!
