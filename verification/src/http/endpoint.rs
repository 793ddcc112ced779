//! Endpoints: a handler registered for a path and a method, the table that
//! routes parsed requests to them, and what a client is answered.
use vstd::prelude::*;
use crate::http::keyed_map::KeyedMap;
use crate::http::pattern::{
    CompiledPattern, trailing_escaped_nul_pattern, trailing_escaped_nuls,
};
use crate::http::request::{RequestError, header_text, parse_request, parse_request_text};
use crate::http::response::{build_response, header_pairs, response_text};
use crate::http::types::{HTTPMethod, HTTPRequest, Response, StringMap, method_name};
use crate::text::{chars_of, push_all, string_from_chars, utf8_lossy};

verus! {

/// A handler registered for a path.
pub struct EndPoint<H> {
    pub path: String,
    pub handler: H,
}

impl<H> EndPoint<H> {
    /// An endpoint for `path` served by `handler`.
    pub fn new(path: &str, handler: H) -> (e: EndPoint<H>)
        ensures
            e.path@ == path@,
            e.handler == handler,
    {
        let chars = chars_of(path);
        EndPoint { path: string_from_chars(chars.as_slice()), handler }
    }
}

/// The answer to a request that no endpoint serves: status 404, plain text,
/// empty body.
pub fn default_404<'a>(_req: &HTTPRequest) -> (r: Response<'a>)
    ensures
        r matches Ok(t) && t.0 == 404 && t.1@ == "text/plain"@ && t.2@ == ""@,
{
    Ok((404, "text/plain", ""))
}

/// The key under which an endpoint is registered: its path, a space and the
/// method's name.
pub open spec fn route_key(path: Seq<char>, method: HTTPMethod) -> Seq<char> {
    path + seq![' '] + method_name(method)
}

/// The routes `after` are the routes `before` with `handler` registered for
/// `path` and `method`: the endpoint under that key is replaced (or added) and
/// every other key keeps its endpoint.
pub open spec fn registers<H>(
    before: Map<Seq<char>, EndPoint<H>>,
    after: Map<Seq<char>, EndPoint<H>>,
    path: Seq<char>,
    method: HTTPMethod,
    handler: H,
) -> bool {
    let k = route_key(path, method);
    &&& after.dom() == before.dom().insert(k)
    &&& after[k].path@ == path
    &&& after[k].handler == handler
    &&& after.remove(k) == before.remove(k)
}

/// Law: once a handler is registered for a path and a method, requests for that
/// path and method are routed to it, and requests for any other path or method
/// are routed exactly as before.
pub proof fn law_register_then_route<H>(
    before: Map<Seq<char>, EndPoint<H>>,
    after: Map<Seq<char>, EndPoint<H>>,
    path: Seq<char>,
    method: HTTPMethod,
    handler: H,
    other_path: Seq<char>,
    other_method: HTTPMethod,
)
    requires
        registers(before, after, path, method, handler),
    ensures
        after.contains_key(route_key(path, method)),
        after[route_key(path, method)].handler == handler,
        after[route_key(path, method)].path@ == path,
        other_path != path || other_method != method ==> after.get(route_key(other_path, other_method))
            == before.get(route_key(other_path, other_method)),
{
    let k = route_key(path, method);
    let other = route_key(other_path, other_method);
    assert(after.dom().contains(k));
    law_route_keys_distinct(other_path, path, other_method, method);
    if other != k {
        assert(after.remove(k).contains_key(other) == after.contains_key(other));
        assert(before.remove(k).contains_key(other) == before.contains_key(other));
        if before.contains_key(other) {
            assert(after.remove(k)[other] == after[other]);
            assert(before.remove(k)[other] == before[other]);
        }
    }
}

/// Law: registering twice for the same path and method keeps only the second
/// handler, and leaves every other route as it was before the first.
pub proof fn law_register_twice<H>(
    first: Map<Seq<char>, EndPoint<H>>,
    second: Map<Seq<char>, EndPoint<H>>,
    third: Map<Seq<char>, EndPoint<H>>,
    path: Seq<char>,
    method: HTTPMethod,
    h1: H,
    h2: H,
)
    requires
        registers(first, second, path, method, h1),
        registers(second, third, path, method, h2),
    ensures
        third[route_key(path, method)].handler == h2,
        third.remove(route_key(path, method)) == first.remove(route_key(path, method)),
        third.dom() == first.dom().insert(route_key(path, method)),
{
    let k = route_key(path, method);
    assert(third.dom() =~= first.dom().insert(k));
}

/// Law: route keys tell requests apart: two keys are equal only for the same
/// path and the same method (method names hold no space, so the last space of
/// a key is the one before the method's name).
pub proof fn law_route_keys_distinct(p1: Seq<char>, p2: Seq<char>, m1: HTTPMethod, m2: HTTPMethod)
    ensures
        route_key(p1, m1) == route_key(p2, m2) ==> p1 == p2 && m1 == m2,
{
    if route_key(p1, m1) == route_key(p2, m2) {
        let k = route_key(p1, m1);
        let n1 = method_name(m1);
        let n2 = method_name(m2);
        assert(k.len() == p1.len() + 1 + n1.len());
        assert(k.len() == p2.len() + 1 + n2.len());
        assert(forall|i: int| 0 <= i < n1.len() ==> n1[i] != ' ');
        assert(forall|i: int| 0 <= i < n2.len() ==> n2[i] != ' ');
        if n1.len() < n2.len() {
            let at = k.len() - n1.len() - 1;
            assert(k[at] == ' ');
            assert(k[at] == n2[n2.len() - n1.len() - 1]);
        } else if n2.len() < n1.len() {
            let at = k.len() - n2.len() - 1;
            assert(k[at] == ' ');
            assert(k[at] == n1[n1.len() - n2.len() - 1]);
        }
        assert(n1.len() == n2.len());
        assert(n1 =~= k.skip(p1.len() + 1int));
        assert(n2 =~= k.skip(p2.len() + 1int));
        crate::http::types::law_method_name_roundtrip(m1);
        crate::http::types::law_method_name_roundtrip(m2);
        assert(p1 =~= k.take(p1.len() as int));
        assert(p2 =~= k.take(p2.len() as int));
    }
}

/// The key for `path` and `method` (exec).
fn route_key_exec(path: &str, method: HTTPMethod) -> (k: String)
    ensures
        k@ == route_key(path@, method),
{
    let mut chars = chars_of(path);
    chars.push(' ');
    push_all(&mut chars, chars_of(method.name()).as_slice());
    string_from_chars(chars.as_slice())
}

/// A handler can be called on any request.
pub open spec fn callable<H: Fn(&HTTPRequest) -> Response<'_>>(h: H) -> bool {
    forall|q: &HTTPRequest| call_requires(h, (q,))
}

/// What the server does with a request once it is read.
#[derive(Debug)]
pub enum Reply {
    /// Write this text back to the client.
    Send(String),
    /// The handler failed with this message; nothing is written back.
    HandlerError(String),
    /// No endpoint serves the request; the not-found handler ran and nothing is
    /// written back.
    NotFound,
}

/// `reply` is what the server does when a handler answered `out` to `request`.
pub open spec fn reply_answers(
    reply: Reply,
    out: Response,
    request: HTTPRequest,
    reasons: StringMap,
) -> bool {
    match out {
        Ok(t) => reply matches Reply::Send(s) && s@ == response_text(
            t.0 as int,
            header_pairs(request.headers),
            t.1@,
            t.2@,
            header_text(reasons),
        ),
        Err(e) => reply matches Reply::HandlerError(m) && m@ == e@,
    }
}

/// What the server does with a handler's answer `out` to `request`: a success
/// becomes the response text to send, a failure its message.
pub fn reply_for(out: Response, request: &HTTPRequest, reasons: &StringMap) -> (reply: Reply)
    requires
        reasons.wf(),
    ensures
        reply_answers(reply, out, *request, *reasons),
{
    match out {
        Ok((status_code, content_type, body)) => Reply::Send(
            build_response(status_code, &request.headers, content_type, body, reasons),
        ),
        Err(message) => {
            let chars = chars_of(message);
            Reply::HandlerError(string_from_chars(chars.as_slice()))
        },
    }
}

/// The endpoints of a server, the handler for requests none of them serves, and
/// the pattern that trims request bodies.
pub struct EndPointPool<H> {
    endpoints: KeyedMap<EndPoint<H>>,
    endpoint_404: Option<H>,
    pattern: CompiledPattern,
}

impl<H> EndPointPool<H> {
    /// The registered endpoints by route key.
    pub closed spec fn routes(&self) -> Map<Seq<char>, EndPoint<H>> {
        self.endpoints.view()
    }

    /// The handler for requests no endpoint serves; `None` stands for `default_404`.
    pub closed spec fn not_found_handler(&self) -> Option<H> {
        self.endpoint_404
    }

    /// The pool's internal consistency.
    pub closed spec fn wf(&self) -> bool {
        &&& self.endpoints.wf()
        &&& self.pattern.pattern() == trailing_escaped_nul_pattern()
    }

    /// A pool with no endpoints that answers unserved requests with
    /// `default_404`; the body-trimming pattern is compiled with it.
    pub fn new() -> (p: EndPointPool<H>)
        ensures
            p.wf(),
            p.routes() == Map::<Seq<char>, EndPoint<H>>::empty(),
            p.not_found_handler() is None,
    {
        EndPointPool { endpoints: KeyedMap::new(), endpoint_404: None, pattern: trailing_escaped_nuls() }
    }

    /// The registered endpoints, each under its route key (the path, a space and
    /// the method's name).
    pub fn endpoints(&self) -> (m: &KeyedMap<EndPoint<H>>)
        requires
            self.wf(),
        ensures
            m.wf(),
            m.view() == self.routes(),
    {
        &self.endpoints
    }

    /// Serves unserved requests with `handler` from now on.
    pub fn set404(&mut self, handler: H)
        requires
            old(self).wf(),
        ensures
            final(self).wf(),
            final(self).routes() == old(self).routes(),
            final(self).not_found_handler() == Some(handler),
    {
        self.endpoint_404 = Some(handler);
    }

    /// Registers `handler` for requests with `method` on `path`, replacing any
    /// endpoint registered for the same path and method.
    pub fn register_endpoint(&mut self, path: &str, method: HTTPMethod, handler: H)
        requires
            old(self).wf(),
        ensures
            final(self).wf(),
            final(self).not_found_handler() == old(self).not_found_handler(),
            registers(old(self).routes(), final(self).routes(), path@, method, handler),
    {
        let endpoint = EndPoint::new(path, handler);
        let key = route_key_exec(path, method);
        let ghost k = key@;
        let ghost before = self.endpoints.view();
        self.endpoints.insert(key, endpoint);
        assert(self.endpoints.view().remove(k) =~= before.remove(k));
    }

    /// The request in the bytes a client sent (see `parse_request_text`).
    pub fn process_request(&self, raw: &[u8]) -> (r: Result<HTTPRequest, RequestError>)
        requires
            self.wf(),
        ensures
            r matches Ok(req) ==> parse_request_text(utf8_lossy(raw@)) == Ok::<
                crate::http::request::RequestView,
                RequestError,
            >(req.view()),
            r matches Err(e) ==> parse_request_text(utf8_lossy(raw@)) == Err::<
                crate::http::request::RequestView,
                RequestError,
            >(e),
    {
        parse_request(raw, &self.pattern)
    }

    /// The endpoint registered for the request's path and method.
    pub fn endpoint_for(&self, request: &HTTPRequest) -> (r: Option<&EndPoint<H>>)
        requires
            self.wf(),
        ensures
            r matches Some(e) ==> self.routes().contains_key(
                route_key(request.path@, request.method),
            ) && *e == self.routes()[route_key(request.path@, request.method)],
            r is None ==> !self.routes().contains_key(route_key(request.path@, request.method)),
    {
        let key = route_key_exec(request.path.as_str(), request.method);
        self.endpoints.get(key.as_str())
    }
}

impl<H: Fn(&HTTPRequest) -> Response<'_>> EndPointPool<H> {
    /// Every registered handler, and the not-found handler, accept any request.
    pub open spec fn handlers_callable(&self) -> bool {
        &&& forall|k: Seq<char>| #[trigger]
            self.routes().contains_key(k) ==> callable(self.routes()[k].handler)
        &&& self.not_found_handler() matches Some(h) ==> callable(h)
    }

    /// Reads the request in the bytes a client sent and decides the answer: the
    /// registered endpoint's handler answers it, and a success is turned into
    /// the response text; with no endpoint the not-found handler is run and its
    /// answer dropped.
    pub fn handle_client(&self, raw: &[u8], reasons: &StringMap) -> (r: Result<
        (HTTPRequest, Reply),
        RequestError,
    >)
        requires
            self.wf(),
            self.handlers_callable(),
            reasons.wf(),
        ensures
            r matches Err(e) ==> parse_request_text(utf8_lossy(raw@)) == Err::<
                crate::http::request::RequestView,
                RequestError,
            >(e),
            r matches Ok((req, reply)) ==> {
                &&& parse_request_text(utf8_lossy(raw@)) == Ok::<
                    crate::http::request::RequestView,
                    RequestError,
                >(req.view())
                &&& if self.routes().contains_key(route_key(req.path@, req.method)) {
                    exists|out: Result<(i32, &str, &str), &str>|
                        call_ensures(
                            self.routes()[route_key(req.path@, req.method)].handler,
                            (&req,),
                            out,
                        ) && reply_answers(reply, out, req, *reasons)
                } else {
                    &&& reply is NotFound
                    &&& self.not_found_handler() matches Some(h) ==> exists|
                        out: Result<(i32, &str, &str), &str>,
                    | call_ensures(h, (&req,), out)
                }
            },
    {
        let req = match self.process_request(raw) {
            Ok(req) => req,
            Err(e) => {
                return Err(e);
            },
        };
        let reply = match self.endpoint_for(&req) {
            None => {
                match &self.endpoint_404 {
                    Some(h) => {
                        let _ = h(&req);
                    },
                    None => {
                        let _ = default_404(&req);
                    },
                }
                Reply::NotFound
            },
            Some(endpoint) => {
                let out = (endpoint.handler)(&req);
                reply_for(out, &req, reasons)
            },
        };
        Ok((req, reply))
    }
}

} // verus!
