//! The client-side pipeline: request building, the ordered middleware
//! chain, in-process direct dispatch, and response interpretation.

use vstd::prelude::*;

verus! {

use vstd::string::StrSliceExecFns;
use vstd::string::StringExecFns;
use crate::endpoint::{BaseUrl, spec_url_string};
use crate::error::{TwirpErrorResponse, spec_code_from_status};
use crate::json::sp_parse_error;

/// An outgoing request as the pipeline carries it: the structured target
/// URL, headers, and the already-encoded body.
#[derive(Debug)]
pub struct ClientRequest {
    /// URL scheme, e.g. `http`.
    pub scheme: String,
    /// Target host.
    pub host: String,
    /// Target port, when one is spelled out.
    pub port: Option<u16>,
    /// Full request path.
    pub path: String,
    /// Request headers.
    pub headers: Vec<(String, String)>,
    /// Raw request body.
    pub body: Vec<u8>,
}

impl ClientRequest {
    /// The serialized URL of this request.
    pub fn url(&self) -> (r: String)
        ensures
            r@ == spec_url_string(self.scheme@, self.host@, self.port, self.path@),
    {
        proof {
            reveal_strlit("://");
            reveal_strlit(":");
        }
        let mut out = self.scheme.clone();
        out.append("://");
        out.append(self.host.as_str());
        match self.port {
            Some(p) => {
                out.append(":");
                let digits = crate::text::u64_to_string(p as u64);
                out.append(digits.as_str());
            },
            None => {},
        }
        out.append(self.path.as_str());
        proof {
            assert(out@ =~= spec_url_string(self.scheme@, self.host@, self.port, self.path@));
        }
        out
    }
}

/// A response as the terminal stage hands it back: status, content type,
/// headers, and the raw body.
#[derive(Debug)]
pub struct ClientResponse {
    /// HTTP status.
    pub status: u16,
    /// `Content-Type` header, if present.
    pub content_type: Option<String>,
    /// Response headers.
    pub headers: Vec<(String, String)>,
    /// Raw response body.
    pub body: Vec<u8>,
}

/// An in-process stand-in for a network-reachable service: answers one
/// service's methods directly, with zero network I/O.
pub trait DirectHandler {
    /// The fully-qualified service name this handler answers for.
    fn service(&self) -> &str;

    /// Answers one call of `method` on this service.
    fn handle(&self, method: &str, req: ClientRequest) -> Result<
        ClientResponse,
        TwirpErrorResponse,
    >;
}

/// The registry key for a handler: `host/service`.
pub open spec fn handler_key(host: Seq<char>, service: Seq<char>) -> Seq<char> {
    host + "/"@ + service
}

/// Looks a key up in a sequence of keyed handlers, first match wins.
pub open spec fn reg_lookup<H>(entries: Seq<(Seq<char>, H)>, key: Seq<char>) -> Option<H>
    decreases entries.len(),
{
    if entries.len() == 0 {
        None
    } else if entries[0].0 == key {
        Some(entries[0].1)
    } else {
        reg_lookup(entries.drop_first(), key)
    }
}

/// Whether `post` is `pre` with `handler` registered under `host` and
/// some service name: the new key resolves to the handler and every other
/// key resolves as before.
pub open spec fn spec_registered<H>(
    pre: Seq<(Seq<char>, H)>,
    post: Seq<(Seq<char>, H)>,
    host: Seq<char>,
    handler: H,
) -> bool {
    exists|svc: Seq<char>|
        {
            &&& #[trigger] reg_lookup(post, handler_key(host, svc)) == Some(handler)
            &&& forall|k: Seq<char>|
                k != handler_key(host, svc) ==> reg_lookup(post, k) == reg_lookup(pre, k)
        }
}

/// A map of `host/service` keys to direct handlers.
#[derive(Clone)]
pub struct RequestHandlers<H> {
    handlers: Vec<(String, H)>,
}

impl<H: DirectHandler> RequestHandlers<H> {
    /// The registered handlers.
    pub closed spec fn view_entries(&self) -> Seq<(Seq<char>, H)> {
        Seq::new(self.handlers@.len(), |i: int| (self.handlers@[i].0@, self.handlers@[i].1))
    }

    /// Well-formedness: every key is stored at most once.
    pub open spec fn wf(&self) -> bool {
        forall|i: int, j: int|
            0 <= i < j < self.view_entries().len() ==> self.view_entries()[i].0
                != self.view_entries()[j].0
    }

    /// An empty registry.
    pub fn new() -> (r: RequestHandlers<H>)
        ensures
            r.view_entries() =~= Seq::<(Seq<char>, H)>::empty(),
            r.wf(),
    {
        RequestHandlers { handlers: Vec::new() }
    }

    /// Whether no handler is registered.
    pub fn is_empty(&self) -> (r: bool)
        ensures
            r == (self.view_entries().len() == 0),
    {
        self.handlers.len() == 0
    }

    /// Index of the entry holding `key`, if any.
    fn position(&self, key: &str) -> (r: Option<usize>)
        ensures
            match r {
                Some(i) => 0 <= i < self.view_entries().len() && self.view_entries()[i as int].0
                    == key@,
                None => forall|i: int|
                    0 <= i < self.view_entries().len() ==> self.view_entries()[i].0 != key@,
            },
    {
        let mut i: usize = 0;
        while i < self.handlers.len()
            invariant
                0 <= i <= self.view_entries().len(),
                forall|j: int| 0 <= j < i ==> self.view_entries()[j].0 != key@,
            decreases self.view_entries().len() - i,
        {
            if crate::text::str_eq(self.handlers[i].0.as_str(), key) {
                return Some(i);
            }
            i += 1;
        }
        None
    }

    /// Registers `handler` for its service under `host`, replacing any
    /// earlier registration of the same `host/service` key; every other
    /// registration is untouched.
    pub fn add(&mut self, host: &str, handler: H)
        requires
            old(self).wf(),
        ensures
            final(self).wf(),
            spec_registered(
                old(self).view_entries(),
                final(self).view_entries(),
                host@,
                handler,
            ),
    {
        proof {
            reveal_strlit("/");
        }
        let mut key = host.to_owned();
        key.append("/");
        let service = handler.service();
        let ghost svcv = service@;
        key.append(service);
        let ghost keyv = key@;
        proof {
            assert(keyv =~= handler_key(host@, svcv));
        }
        let pos = self.position(key.as_str());
        match pos {
            Some(i) => {
                self.handlers.remove(i);
                self.handlers.insert(i, (key, handler));
                proof {
                    assert(self.view_entries() =~= old(self).view_entries().update(
                        i as int,
                        (keyv, handler),
                    ));
                    assert(forall|m: int|
                        0 <= m < self.view_entries().len() ==> self.view_entries()[m].0 == old(
                            self,
                        ).view_entries()[m].0);
                    lemma_reg_lookup_found(self.view_entries(), keyv, i as int);
                    assert forall|k: Seq<char>| k != keyv implies reg_lookup(
                        self.view_entries(),
                        k,
                    ) == reg_lookup(old(self).view_entries(), k) by {
                        lemma_reg_lookup_update_other(
                            old(self).view_entries(),
                            i as int,
                            (keyv, handler),
                            k,
                        );
                    }
                }
            },
            None => {
                self.handlers.push((key, handler));
                proof {
                    assert(self.view_entries() =~= old(self).view_entries().push(
                        (keyv, handler),
                    ));
                    lemma_reg_lookup_absent(old(self).view_entries(), keyv);
                    lemma_reg_lookup_push(old(self).view_entries(), (keyv, handler), keyv);
                    assert forall|k: Seq<char>| k != keyv implies reg_lookup(
                        self.view_entries(),
                        k,
                    ) == reg_lookup(old(self).view_entries(), k) by {
                        lemma_reg_lookup_push(old(self).view_entries(), (keyv, handler), k);
                    }
                }
            },
        }
    }

    /// The handler registered for `host` and `service`, if any.
    pub fn get(&self, host: &str, service: &str) -> (r: Option<&H>)
        ensures
            match r {
                Some(h) => reg_lookup(self.view_entries(), handler_key(host@, service@)) == Some(
                    *h,
                ),
                None => reg_lookup(self.view_entries(), handler_key(host@, service@)) is None,
            },
    {
        proof {
            reveal_strlit("/");
        }
        let mut key = host.to_owned();
        key.append("/");
        key.append(service);
        assert(key@ =~= handler_key(host@, service@));
        let mut i: usize = 0;
        proof {
            assert(self.view_entries().skip(0) =~= self.view_entries());
        }
        while i < self.handlers.len()
            invariant
                0 <= i <= self.view_entries().len(),
                key@ == handler_key(host@, service@),
                reg_lookup(self.view_entries(), key@) == reg_lookup(
                    self.view_entries().skip(i as int),
                    key@,
                ),
            decreases self.view_entries().len() - i,
        {
            proof {
                assert(self.view_entries().skip(i as int).drop_first()
                    =~= self.view_entries().skip(i + 1));
            }
            if crate::text::str_eq(self.handlers[i].0.as_str(), key.as_str()) {
                assert(self.view_entries().skip(i as int)[0] == self.view_entries()[i as int]);
                return Some(&self.handlers[i].1);
            }
            i += 1;
        }
        assert(self.view_entries().skip(self.view_entries().len() as int) =~= Seq::<
            (Seq<char>, H),
        >::empty());
        None
    }
}

/// If the entry holding `key` stands at `i` and keys are unique, lookup
/// returns its handler.
proof fn lemma_reg_lookup_found<H>(entries: Seq<(Seq<char>, H)>, key: Seq<char>, i: int)
    requires
        0 <= i < entries.len(),
        entries[i].0 == key,
        forall|j: int, k: int| 0 <= j < k < entries.len() ==> entries[j].0 != entries[k].0,
    ensures
        reg_lookup(entries, key) == Some(entries[i].1),
    decreases entries.len(),
{
    if i == 0 {
    } else {
        assert(entries.drop_first()[i - 1] == entries[i]);
        lemma_reg_lookup_found(entries.drop_first(), key, i - 1);
    }
}

/// If no entry holds `key`, lookup fails.
proof fn lemma_reg_lookup_absent<H>(entries: Seq<(Seq<char>, H)>, key: Seq<char>)
    requires
        forall|i: int| 0 <= i < entries.len() ==> entries[i].0 != key,
    ensures
        reg_lookup(entries, key) is None,
    decreases entries.len(),
{
    if entries.len() > 0 {
        lemma_reg_lookup_absent(entries.drop_first(), key);
    }
}

/// Appending an entry only affects lookups of its own key.
proof fn lemma_reg_lookup_push<H>(
    entries: Seq<(Seq<char>, H)>,
    entry: (Seq<char>, H),
    key: Seq<char>,
)
    ensures
        reg_lookup(entries.push(entry), key) == if reg_lookup(entries, key) is Some {
            reg_lookup(entries, key)
        } else if entry.0 == key {
            Some(entry.1)
        } else {
            None
        },
    decreases entries.len(),
{
    if entries.len() == 0 {
        assert(entries.push(entry)[0] == entry);
        assert(entries.push(entry).drop_first() =~= Seq::<(Seq<char>, H)>::empty());
    } else {
        assert(entries.push(entry)[0] == entries[0]);
        assert(entries.push(entry).drop_first() =~= entries.drop_first().push(entry));
        lemma_reg_lookup_push(entries.drop_first(), entry, key);
    }
}

/// Replacing the entry at `i` does not affect lookups of other keys.
proof fn lemma_reg_lookup_update_other<H>(
    entries: Seq<(Seq<char>, H)>,
    i: int,
    entry: (Seq<char>, H),
    key: Seq<char>,
)
    requires
        0 <= i < entries.len(),
        entries[i].0 == entry.0,
        key != entry.0,
    ensures
        reg_lookup(entries.update(i, entry), key) == reg_lookup(entries, key),
    decreases entries.len(),
{
    if i == 0 {
        assert(entries.update(0, entry).drop_first() =~= entries.drop_first());
    } else {
        assert(entries.update(i, entry)[0] == entries[0]);
        assert(entries.update(i, entry).drop_first() =~= entries.drop_first().update(
            i - 1,
            entry,
        ));
        lemma_reg_lookup_update_other(entries.drop_first(), i - 1, entry, key);
    }
}

/// An interceptor of outgoing calls: it receives the request and the rest
/// of the chain, and may act before the continuation, after it returns,
/// or instead of calling it.
pub trait Middleware<H: DirectHandler>: Sized {
    /// Handles one request, usually by calling `next.run`.
    fn handle(&self, req: ClientRequest, next: Next<'_, Self, H>) -> Result<
        ClientResponse,
        TwirpErrorResponse,
    >;
}

/// The unit type stands for "no direct handler": it answers no service and
/// refuses every call.
impl DirectHandler for () {
    fn service(&self) -> &str {
        ""
    }

    fn handle(&self, _method: &str, _req: ClientRequest) -> Result<
        ClientResponse,
        TwirpErrorResponse,
    > {
        Err(crate::error::bad_route("no handler"))
    }
}

/// The remainder of the middleware chain: the middlewares not yet run and
/// the terminal stage (direct dispatch when a registry is configured).
pub struct Next<'a, M, H> {
    /// The whole middleware list.
    pub middlewares: &'a [M],
    /// Index of the next middleware to run.
    pub pos: usize,
    /// The direct-handler registry, when one is configured.
    pub handlers: Option<&'a RequestHandlers<H>>,
}

impl<'a, M: Middleware<H>, H: DirectHandler> Next<'a, M, H> {
    /// Runs the rest of the chain: the next middleware if one remains,
    /// else the terminal stage. Without a registry this synchronous
    /// pipeline has no transport of its own, and the terminal stage
    /// reports the service unavailable.
    pub fn run(self, req: ClientRequest) -> (r: Result<ClientResponse, TwirpErrorResponse>)
        ensures
            (self.pos >= self.middlewares@.len() && self.handlers is None) ==> (r matches Err(e)
                && e.code == crate::error::TwirpErrorCode::Unavailable),
            (self.pos >= self.middlewares@.len() && (self.handlers matches Some(h) && (
            !vstd::utf8::is_ascii_chars(req.path@) || spec_split_last_two(req.path@) is None)))
                ==> (r matches Err(e) && e.code == crate::error::TwirpErrorCode::BadRoute),
            (self.pos >= self.middlewares@.len() && (self.handlers matches Some(h)
                && vstd::utf8::is_ascii_chars(req.path@) && (spec_split_last_two(req.path@)
                matches Some(p) && reg_lookup(
                h.view_entries(),
                handler_key(req.host@, p.0),
            ) is None))) ==> (r matches Err(e) && e.code
                == crate::error::TwirpErrorCode::BadRoute),
    {
        if self.pos < self.middlewares.len() {
            let m = &self.middlewares[self.pos];
            let rest = Next { middlewares: self.middlewares, pos: self.pos + 1, handlers: self.handlers };
            m.handle(req, rest)
        } else {
            match self.handlers {
                Some(handlers) => execute_handlers(req, handlers),
                None => Err(
                    crate::error::unavailable("no transport is configured for this client"),
                ),
            }
        }
    }
}

/// The position of the last slash of `s`, if any.
pub open spec fn spec_last_slash(s: Seq<char>) -> Option<int>
    decreases s.len(),
{
    if s.len() == 0 {
        None
    } else if s.last() == '/' {
        Some(s.len() - 1)
    } else {
        spec_last_slash(s.drop_last())
    }
}

/// The last two segments of a slash-separated path: the piece between the
/// last two slashes, and the piece after the last slash.
pub open spec fn spec_split_last_two(s: Seq<char>) -> Option<(Seq<char>, Seq<char>)> {
    match spec_last_slash(s) {
        Some(j) => match spec_last_slash(s.take(j)) {
            Some(i) => Some((s.subrange(i + 1, j), s.subrange(j + 1, s.len() as int))),
            None => None,
        },
        None => None,
    }
}

/// Finds the position of the last slash at or before `upto` (exclusive).
fn last_slash_before(path: &str, upto: usize) -> (r: Option<usize>)
    requires
        path.is_ascii(),
        upto <= path@.len(),
    ensures
        match r {
            Some(i) => spec_last_slash(path@.take(upto as int)) == Some(i as int) && i < upto,
            None => spec_last_slash(path@.take(upto as int)) is None,
        },
{
    proof {
        reveal_strlit("/");
    }
    let mut i = upto;
    while i > 0
        invariant
            0 <= i <= upto <= path@.len(),
            path.is_ascii(),
            spec_last_slash(path@.take(upto as int)) == spec_last_slash(path@.take(i as int)),
        decreases i,
    {
        i -= 1;
        proof {
            assert(path@.take(i + 1).last() == path@[i as int]);
            assert(path@.take(i + 1).drop_last() =~= path@.take(i as int));
        }
        let c = path.get_ascii(i);
        if c == 47 {
            proof {
                assert(path@[i as int] == '/');
            }
            return Some(i);
        }
        proof {
            assert(path@[i as int] != '/');
        }
    }
    proof {
        assert(path@.take(0) =~= Seq::<char>::empty());
    }
    None
}

/// Splits the last two segments off a slash-separated ASCII path:
/// the service (between the last two slashes) and the method (after the
/// last slash).
pub fn split_last_two(path: &str) -> (r: Option<(String, String)>)
    ensures
        path.is_ascii() ==> match r {
            Some(p) => spec_split_last_two(path@) == Some((p.0@, p.1@)),
            None => spec_split_last_two(path@) is None,
        },
        !path.is_ascii() ==> r is None,
{
    if !path.is_ascii() {
        return None;
    }
    let n = path.unicode_len();
    proof {
        assert(path@.take(n as int) =~= path@);
    }
    let j = match last_slash_before(path, n) {
        Some(j) => j,
        None => {
            return None;
        },
    };
    let i = match last_slash_before(path, j) {
        Some(i) => i,
        None => {
            return None;
        },
    };
    let service = path.substring_ascii(i + 1, j).to_owned();
    let method = path.substring_ascii(j + 1, n).to_owned();
    Some((service, method))
}

/// Dispatches a request to the registered direct handler for its host and
/// service, resolved from the last two path segments. An unroutable path
/// or an unregistered service yields `BadRoute`.
pub fn execute_handlers<H: DirectHandler>(
    req: ClientRequest,
    request_handlers: &RequestHandlers<H>,
) -> (r: Result<ClientResponse, TwirpErrorResponse>)
    ensures
        (!vstd::utf8::is_ascii_chars(req.path@) || spec_split_last_two(req.path@) is None) ==> (
        r matches Err(e) && e.code == crate::error::TwirpErrorCode::BadRoute && e.msg@
            == "invalid request to "@ + spec_url_string(req.scheme@, req.host@, req.port, req.path@)
            + ": method and service required"@),
        (vstd::utf8::is_ascii_chars(req.path@) && (spec_split_last_two(req.path@) matches Some(p)
            && reg_lookup(
            request_handlers.view_entries(),
            handler_key(req.host@, p.0),
        ) is None)) ==> (r matches Err(e) && e.code == crate::error::TwirpErrorCode::BadRoute
            && (spec_split_last_two(req.path@) matches Some(p) && e.msg@
                == "no handler found for host: '"@ + req.host@ + "', service: '"@ + p.0 + "'"@)),
{
    let parts = match split_last_two(req.path.as_str()) {
        Some(p) => p,
        None => {
            let mut msg = "invalid request to ".to_owned();
            let url = req.url();
            msg.append(url.as_str());
            msg.append(": method and service required");
            return Err(crate::error::bad_route(msg.as_str()));
        },
    };
    let (service, method) = parts;
    let handler = match request_handlers.get(req.host.as_str(), service.as_str()) {
        Some(h) => h,
        None => {
            let mut msg = "no handler found for host: '".to_owned();
            msg.append(req.host.as_str());
            msg.append("', service: '");
            msg.append(service.as_str());
            msg.append("'");
            return Err(crate::error::bad_route(msg.as_str()));
        },
    };
    handler.handle(method.as_str(), req)
}

/// Interprets the terminal stage's response to a request for `path`: a
/// success status with the expected binary content type passes through;
/// an error status with a JSON body is decoded as the protocol's error
/// envelope; any other combination becomes a fallback error carrying the
/// observed status and content type and naming the request path, never
/// silently swallowed.
pub fn interpret_response(path: &str, resp: ClientResponse) -> (r: Result<
    ClientResponse,
    TwirpErrorResponse,
>)
    ensures
        (200 <= resp.status < 300 && (resp.content_type matches Some(c) && c@
            == "application/protobuf"@)) ==> (r matches Ok(out) && out == resp),
        (400 <= resp.status < 600 && (resp.content_type matches Some(c) && c@
            == "application/json"@)) ==> (r matches Err(e) && (match sp_parse_error(resp.body@) {
            Some(p) => {
                &&& e.code == p.0
                &&& e.msg@ == p.1
                &&& e.meta@ == p.2
                &&& e.retry_after is None
                &&& e.rust_error is None
            },
            None => e.code == crate::error::TwirpErrorCode::Internal,
        })),
        (!(200 <= resp.status < 300 && (resp.content_type matches Some(c) && c@
            == "application/protobuf"@)) && !(400 <= resp.status < 600 && (resp.content_type
            matches Some(c) && c@ == "application/json"@))) ==> (r matches Err(e) && e.code
            == spec_code_from_status(resp.status) && e.msg@ == "unexpected content type: "@ + (
        match resp.content_type {
            Some(c) => c@,
            None => "none"@,
        }) + " for request path "@ + path@),
{
    let success = 200 <= resp.status && resp.status < 300;
    let error_status = 400 <= resp.status && resp.status < 600;
    let is_protobuf = match &resp.content_type {
        Some(c) => crate::text::str_eq(c.as_str(), "application/protobuf"),
        None => false,
    };
    let is_json = match &resp.content_type {
        Some(c) => crate::text::str_eq(c.as_str(), "application/json"),
        None => false,
    };
    if success && is_protobuf {
        Ok(resp)
    } else if error_status && is_json {
        match crate::json::parse_error_response(resp.body.as_slice()) {
            Some(err) => Err(err),
            None => Err(crate::error::internal("invalid twirp error envelope")),
        }
    } else {
        let code = crate::error::TwirpErrorCode::from(resp.status);
        let mut msg = "unexpected content type: ".to_owned();
        match &resp.content_type {
            Some(c) => msg.append(c.as_str()),
            None => msg.append("none"),
        }
        msg.append(" for request path ");
        msg.append(path);
        Err(crate::error::TwirpErrorResponse::new(code, msg))
    }
}

/// A protocol client: the base endpoint, an optional per-call host
/// override, the ordered middleware list, and an optional registry of
/// in-process handlers that replaces the network transport.
pub struct Client<M, H> {
    base_url: BaseUrl,
    host: Option<String>,
    middlewares: Vec<M>,
    handlers: Option<RequestHandlers<H>>,
}

impl<M: Middleware<H>, H: DirectHandler> Client<M, H> {
    /// A client over the given base URL, middleware list and optional
    /// direct-handler registry. The base path is normalized to end with a
    /// slash, so that joining a method path never doubles or drops one.
    pub fn new(
        base_url: BaseUrl,
        middlewares: Vec<M>,
        handlers: Option<RequestHandlers<H>>,
    ) -> (r: Client<M, H>)
        requires
            base_url.wf(),
        ensures
            r.base_view().wf(),
            r.base_view().scheme@ == base_url.scheme@,
            r.base_view().host@ == base_url.host@,
            r.base_view().port == base_url.port,
            r.base_view().path@ == if base_url.path@.last() == '/' {
                base_url.path@
            } else {
                base_url.path@.push('/')
            },
            r.base_view().path@.last() == '/',
            r.host_view() is None,
            r.middlewares_view() == middlewares@,
            r.has_handlers() == (handlers is Some),
            r.handlers_view() == (match handlers {
                Some(h) => h.view_entries(),
                None => Seq::<(Seq<char>, H)>::empty(),
            }),
    {
        Client { base_url: base_url.normalize(), host: None, middlewares, handlers }
    }

    /// A client over the given base URL with no middleware and no direct
    /// handlers.
    pub fn from_base_url(base_url: BaseUrl) -> (r: Client<M, H>)
        requires
            base_url.wf(),
        ensures
            r.base_view().wf(),
            r.base_view().scheme@ == base_url.scheme@,
            r.base_view().host@ == base_url.host@,
            r.base_view().port == base_url.port,
            r.base_view().path@.last() == '/',
            r.base_view().path@ == if base_url.path@.last() == '/' {
                base_url.path@
            } else {
                base_url.path@.push('/')
            },
            r.host_view() is None,
            r.middlewares_view().len() == 0,
            !r.has_handlers(),
    {
        Client::new(base_url, Vec::new(), None)
    }

    /// The normalized base URL of the service this client calls.
    pub closed spec fn base_view(&self) -> BaseUrl {
        self.base_url
    }

    /// The per-call host override, if one is set.
    pub closed spec fn host_view(&self) -> Option<Seq<char>> {
        match self.host {
            Some(h) => Some(h@),
            None => None,
        }
    }

    /// The middleware list.
    pub closed spec fn middlewares_view(&self) -> Seq<M> {
        self.middlewares@
    }

    /// Whether a direct-handler registry is configured.
    pub closed spec fn has_handlers(&self) -> bool {
        self.handlers is Some
    }

    /// The entries of the configured registry; empty when none is
    /// configured.
    pub closed spec fn handlers_view(&self) -> Seq<(Seq<char>, H)> {
        match self.handlers {
            Some(h) => h.view_entries(),
            None => Seq::empty(),
        }
    }

    /// The normalized base URL of the service this client calls.
    pub fn base_url(&self) -> (r: &BaseUrl)
        ensures
            *r == self.base_view(),
    {
        &self.base_url
    }

    /// The effective host of the next call: the override when one is set,
    /// the base URL's host otherwise.
    pub open spec fn spec_effective_host(&self) -> Seq<char> {
        match self.host_view() {
            Some(h) => h,
            None => self.base_view().host@,
        }
    }

    /// Builds the outgoing request for one call: the method path joined
    /// onto the base URL's path, the host override applied, the caller's
    /// headers kept in order, and the binary content type appended.
    pub fn build_request(
        &self,
        path: &str,
        headers: Vec<(String, String)>,
        body: Vec<u8>,
    ) -> (req: ClientRequest)
        ensures
            req.scheme@ == self.base_view().scheme@,
            req.host@ == self.spec_effective_host(),
            req.port == self.base_view().port,
            req.path@ == self.base_view().path@ + path@,
            req.body@ == body@,
            req.headers@.len() == headers@.len() + 1,
            forall|i: int| 0 <= i < headers@.len() ==> req.headers@[i] == headers@[i],
            req.headers@.last().0@ == "Content-Type"@,
            req.headers@.last().1@ == "application/protobuf"@,
    {
        let host = match &self.host {
            Some(h) => h.clone(),
            None => self.base_url.host.clone(),
        };
        let mut full_path = self.base_url.path.clone();
        full_path.append(path);
        let mut all_headers = headers;
        all_headers.push(("Content-Type".to_owned(), "application/protobuf".to_owned()));
        ClientRequest {
            scheme: self.base_url.scheme.clone(),
            host,
            port: self.base_url.port,
            path: full_path,
            headers: all_headers,
            body,
        }
    }

    /// Makes one call: joins the method path onto the base URL, applies
    /// the host override, and drives the request through the middleware
    /// chain into the terminal stage; the response is then interpreted
    /// into a success, a protocol error, or a fallback error.
    pub fn request(&self, path: &str, body: Vec<u8>) -> (r: Result<
        ClientResponse,
        TwirpErrorResponse,
    >)
        requires
            self.base_view().wf(),
        ensures
            (self.middlewares_view().len() == 0 && !self.has_handlers()) ==> (r matches Err(e)
                && e.code == crate::error::TwirpErrorCode::Unavailable),
            (self.middlewares_view().len() == 0 && self.has_handlers() && (
            !vstd::utf8::is_ascii_chars(self.base_view().path@ + path@) || spec_split_last_two(
                self.base_view().path@ + path@,
            ) is None)) ==> (r matches Err(e) && e.code
                == crate::error::TwirpErrorCode::BadRoute),
            (self.middlewares_view().len() == 0 && self.has_handlers()
                && vstd::utf8::is_ascii_chars(self.base_view().path@ + path@) && (
            spec_split_last_two(self.base_view().path@ + path@) matches Some(p) && reg_lookup(
                self.handlers_view(),
                handler_key(self.spec_effective_host(), p.0),
            ) is None)) ==> (r matches Err(e) && e.code
                == crate::error::TwirpErrorCode::BadRoute),
            r matches Ok(resp) ==> 200 <= resp.status < 300 && (resp.content_type matches Some(c)
                && c@ == "application/protobuf"@),
    {
        self.request_with_headers(path, Vec::new(), body)
    }

    /// Like `request`, with caller-supplied headers forwarded on the
    /// outgoing call ahead of the content type.
    pub fn request_with_headers(
        &self,
        path: &str,
        headers: Vec<(String, String)>,
        body: Vec<u8>,
    ) -> (r: Result<ClientResponse, TwirpErrorResponse>)
        requires
            self.base_view().wf(),
        ensures
            (self.middlewares_view().len() == 0 && !self.has_handlers()) ==> (r matches Err(e)
                && e.code == crate::error::TwirpErrorCode::Unavailable),
            (self.middlewares_view().len() == 0 && self.has_handlers() && (
            !vstd::utf8::is_ascii_chars(self.base_view().path@ + path@) || spec_split_last_two(
                self.base_view().path@ + path@,
            ) is None)) ==> (r matches Err(e) && e.code
                == crate::error::TwirpErrorCode::BadRoute),
            (self.middlewares_view().len() == 0 && self.has_handlers()
                && vstd::utf8::is_ascii_chars(self.base_view().path@ + path@) && (
            spec_split_last_two(self.base_view().path@ + path@) matches Some(p) && reg_lookup(
                self.handlers_view(),
                handler_key(self.spec_effective_host(), p.0),
            ) is None)) ==> (r matches Err(e) && e.code
                == crate::error::TwirpErrorCode::BadRoute),
            r matches Ok(resp) ==> 200 <= resp.status < 300 && (resp.content_type matches Some(c)
                && c@ == "application/protobuf"@),
    {
        let req = self.build_request(path, headers, body);
        let diag_path = req.path.clone();
        let next = Next {
            middlewares: self.middlewares.as_slice(),
            pos: 0,
            handlers: self.handlers.as_ref(),
        };
        let resp = match next.run(req) {
            Ok(resp) => resp,
            Err(e) => {
                return Err(e);
            },
        };
        interpret_response(diag_path.as_str(), resp)
    }
}

impl<M: Middleware<H>, H: DirectHandler> Client<M, H> {
    /// The same client retargeted at a different host for its subsequent
    /// calls: the base URL, the middleware list and the handler registry
    /// are kept as they are, only the per-call host override changes.
    pub fn with_host(self, host: &str) -> (r: Client<M, H>)
        ensures
            r.base_view() == self.base_view(),
            r.host_view() matches Some(h) && h == host@,
            r.middlewares_view() == self.middlewares_view(),
            r.handlers_view() == self.handlers_view(),
            r.has_handlers() == self.has_handlers(),
    {
        Client {
            base_url: self.base_url,
            host: Some(host.to_owned()),
            middlewares: self.middlewares,
            handlers: self.handlers,
        }
    }
}

/// A builder of clients: collects the base URL, the middleware list and
/// the direct handlers, then builds the client.
pub struct ClientBuilder<M, H> {
    base_url: BaseUrl,
    handlers: RequestHandlers<H>,
    middleware: Vec<M>,
}

impl<M: Middleware<H>, H: DirectHandler> ClientBuilder<M, H> {
    /// The collected base URL.
    pub closed spec fn base_view(&self) -> BaseUrl {
        self.base_url
    }

    /// The collected middleware list.
    pub closed spec fn middleware_view(&self) -> Seq<M> {
        self.middleware@
    }

    /// The collected handler registry.
    pub closed spec fn handlers_view(&self) -> Seq<(Seq<char>, H)> {
        self.handlers.view_entries()
    }

    /// Whether the base URL and the collected registry are well formed.
    pub closed spec fn wf(&self) -> bool {
        &&& self.base_url.wf()
        &&& self.handlers.wf()
    }

    /// A builder over the given base URL.
    pub fn new(base_url: BaseUrl) -> (r: ClientBuilder<M, H>)
        requires
            base_url.wf(),
        ensures
            r.wf(),
            r.base_view() == base_url,
            r.middleware_view().len() == 0,
            r.handlers_view().len() == 0,
    {
        ClientBuilder { base_url, handlers: RequestHandlers::new(), middleware: Vec::new() }
    }

    /// A builder suitable for registering direct handlers instead of
    /// making network calls, over a default local base URL.
    pub fn direct() -> (r: ClientBuilder<M, H>)
        ensures
            r.wf(),
            r.base_view().scheme@ == "http"@,
            r.base_view().host@ == "localhost"@,
            r.base_view().port is None,
            r.base_view().path@ == "/"@,
            r.middleware_view().len() == 0,
            r.handlers_view().len() == 0,
    {
        proof {
            reveal_strlit("http");
            reveal_strlit("localhost");
            reveal_strlit("/");
        }
        let base_url = BaseUrl {
            scheme: "http".to_owned(),
            host: "localhost".to_owned(),
            port: None,
            path: "/".to_owned(),
        };
        ClientBuilder { base_url, handlers: RequestHandlers::new(), middleware: Vec::new() }
    }

    /// Adds one middleware; middlewares run in the order they were added.
    pub fn with_middleware(self, middleware: M) -> (r: ClientBuilder<M, H>)
        requires
            self.wf(),
        ensures
            r.wf(),
            r.base_view() == self.base_view(),
            r.middleware_view() == self.middleware_view().push(middleware),
            r.handlers_view() == self.handlers_view(),
    {
        let mut mw = self.middleware;
        mw.push(middleware);
        ClientBuilder { base_url: self.base_url, handlers: self.handlers, middleware: mw }
    }

    /// Registers a direct handler for its service under the default host.
    pub fn with_handler(self, handler: H) -> (r: ClientBuilder<M, H>)
        requires
            self.wf(),
        ensures
            r.wf(),
            r.base_view() == self.base_view(),
            r.middleware_view() == self.middleware_view(),
            spec_registered(self.handlers_view(), r.handlers_view(), "localhost"@, handler),
    {
        self.with_handler_for_host("localhost", handler)
    }

    /// Registers a direct handler for its service under a specific host.
    pub fn with_handler_for_host(self, host: &str, handler: H) -> (r: ClientBuilder<M, H>)
        requires
            self.wf(),
        ensures
            r.wf(),
            r.base_view() == self.base_view(),
            r.middleware_view() == self.middleware_view(),
            spec_registered(self.handlers_view(), r.handlers_view(), host@, handler),
    {
        let mut handlers = self.handlers;
        handlers.add(host, handler);
        ClientBuilder { base_url: self.base_url, handlers, middleware: self.middleware }
    }

    /// Builds the client: the registry becomes the terminal stage when at
    /// least one handler was registered, otherwise the client has no
    /// in-process transport.
    pub fn build(self) -> (r: Client<M, H>)
        requires
            self.wf(),
        ensures
            r.base_view().wf(),
            r.base_view().scheme@ == self.base_view().scheme@,
            r.base_view().host@ == self.base_view().host@,
            r.base_view().port == self.base_view().port,
            r.base_view().path@.last() == '/',
            r.host_view() is None,
            r.middlewares_view() == self.middleware_view(),
            r.handlers_view() == self.handlers_view(),
            r.has_handlers() == (self.handlers_view().len() > 0),
    {
        let handlers = if self.handlers.is_empty() {
            None
        } else {
            Some(self.handlers)
        };
        Client::new(self.base_url, self.middleware, handlers)
    }
}

} // verus!