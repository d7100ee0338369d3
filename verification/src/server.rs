//! The server-side router: route registration and lookup, content
//! negotiation, the decode/invoke/encode/error-catch pipeline, and timing
//! instrumentation.

use vstd::prelude::*;

verus! {

use vstd::string::StringExecFns;
use crate::context::{Context, Extensions};
use crate::error::{TwirpErrorResponse, spec_http_status};
use crate::json::{spec_encode_error, spec_encode_error_parts};

/// The canonical path prefix of the protocol.
pub fn default_twirp_path_prefix() -> (r: &'static str)
    ensures
        r@ == "/twirp"@,
{
    "/twirp"
}

/// Timing milestones of one request, in caller-supplied monotonic ticks.
/// Each milestone is recorded at most once; derived durations are
/// saturating, so a non-monotonic clock yields zero rather than nonsense.
#[derive(Clone, Copy, Debug)]
pub struct Timings {
    /// When the request started.
    pub start: u64,
    /// When the request (headers and body) was received.
    pub request_received: Option<u64>,
    /// When the request body was parsed.
    pub request_parsed: Option<u64>,
    /// When the response handler returned.
    pub response_handled: Option<u64>,
    /// When the response was written.
    pub response_written: Option<u64>,
}

/// Difference of two tick values, zero when they are out of order.
pub open spec fn spec_tick_delta(later: u64, earlier: u64) -> u64 {
    if later >= earlier {
        (later - earlier) as u64
    } else {
        0
    }
}

/// Difference of two tick values, zero when they are out of order.
fn tick_delta(later: u64, earlier: u64) -> (r: u64)
    ensures
        r == spec_tick_delta(later, earlier),
{
    if later >= earlier {
        later - earlier
    } else {
        0
    }
}

impl Timings {
    /// Fresh timings with only the start milestone set.
    pub fn new(start: u64) -> (r: Timings)
        ensures
            r.start == start,
            r.request_received is None,
            r.request_parsed is None,
            r.response_handled is None,
            r.response_written is None,
    {
        Timings {
            start,
            request_received: None,
            request_parsed: None,
            response_handled: None,
            response_written: None,
        }
    }

    fn set_received(&mut self, now: u64)
        ensures
            *final(self) == (Timings { request_received: Some(now), ..*old(self) }),
    {
        self.request_received = Some(now);
    }

    fn set_parsed(&mut self, now: u64)
        ensures
            *final(self) == (Timings { request_parsed: Some(now), ..*old(self) }),
    {
        self.request_parsed = Some(now);
    }

    fn set_response_handled(&mut self, now: u64)
        ensures
            *final(self) == (Timings { response_handled: Some(now), ..*old(self) }),
    {
        self.response_handled = Some(now);
    }

    fn set_response_written(&mut self, now: u64)
        ensures
            *final(self) == (Timings { response_written: Some(now), ..*old(self) }),
    {
        self.response_written = Some(now);
    }

    /// Ticks from start until the request was received.
    pub fn received(&self) -> (r: Option<u64>)
        ensures
            r == match self.request_received {
                Some(t) => Some(spec_tick_delta(t, self.start)),
                None => None::<u64>,
            },
    {
        match self.request_received {
            Some(t) => Some(tick_delta(t, self.start)),
            None => None,
        }
    }

    /// Ticks from receipt until the body was parsed.
    pub fn parsed(&self) -> (r: Option<u64>)
        ensures
            r == match (self.request_parsed, self.request_received) {
                (Some(p), Some(rcv)) => Some(spec_tick_delta(p, rcv)),
                _ => None::<u64>,
            },
    {
        match (self.request_parsed, self.request_received) {
            (Some(p), Some(rcv)) => Some(tick_delta(p, rcv)),
            _ => None,
        }
    }

    /// Ticks from parsing until the handler returned.
    pub fn response_handled(&self) -> (r: Option<u64>)
        ensures
            r == match (self.response_handled, self.request_parsed) {
                (Some(h), Some(p)) => Some(spec_tick_delta(h, p)),
                _ => None::<u64>,
            },
    {
        match (self.response_handled, self.request_parsed) {
            (Some(h), Some(p)) => Some(tick_delta(h, p)),
            _ => None,
        }
    }

    /// Ticks from the handler returning until the response was written,
    /// falling back to the parse or receipt milestone when earlier ones
    /// were never recorded.
    pub fn response_written(&self) -> (r: Option<u64>)
        ensures
            r == match (self.response_written, self.response_handled) {
                (Some(w), Some(h)) => Some(spec_tick_delta(w, h)),
                (Some(w), None) => match self.request_parsed {
                    Some(p) => Some(spec_tick_delta(w, p)),
                    None => match self.request_received {
                        Some(rcv) => Some(spec_tick_delta(w, rcv)),
                        None => None::<u64>,
                    },
                },
                _ => None::<u64>,
            },
    {
        match (self.response_written, self.response_handled) {
            (Some(w), Some(h)) => Some(tick_delta(w, h)),
            (Some(w), None) => match self.request_parsed {
                Some(p) => Some(tick_delta(w, p)),
                None => match self.request_received {
                    Some(rcv) => Some(tick_delta(w, rcv)),
                    None => None,
                },
            },
            _ => None,
        }
    }
}

/// A source of monotonic ticks. The serving loop supplies a real clock;
/// tests may supply a counter.
pub trait Clock {
    /// The current tick value.
    fn now(&mut self) -> u64;
}

/// The two body formats of the protocol.
#[derive(Clone, Copy, Debug, PartialEq, Eq, Structural)]
pub enum BodyFormat {
    /// JSON text.
    JsonPb,
    /// Binary protobuf.
    Pb,
}

/// The request format chosen from a `Content-Type` header: exactly
/// `application/protobuf` selects binary, anything else defaults to JSON.
pub open spec fn spec_body_format(content_type: Option<Seq<char>>) -> BodyFormat {
    match content_type {
        Some(ct) => if ct == "application/protobuf"@ {
            BodyFormat::Pb
        } else {
            BodyFormat::JsonPb
        },
        None => BodyFormat::JsonPb,
    }
}

/// The request format chosen from the `Content-Type` header.
pub fn body_format_from_content_type(content_type: Option<&String>) -> (r: BodyFormat)
    ensures
        r == spec_body_format(match content_type {
            Some(ct) => Some(ct@),
            None => None,
        }),
{
    match content_type {
        Some(ct) => {
            if crate::text::str_eq(ct.as_str(), "application/protobuf") {
                BodyFormat::Pb
            } else {
                BodyFormat::JsonPb
            }
        },
        None => BodyFormat::JsonPb,
    }
}

/// The response format: an explicit, supported `Accept` header wins,
/// otherwise the response mirrors the request's own format.
pub open spec fn spec_response_format(
    content_type: Option<Seq<char>>,
    accept: Option<Seq<char>>,
) -> BodyFormat {
    match accept {
        Some(a) => if a == "application/protobuf"@ {
            BodyFormat::Pb
        } else if a == "application/json"@ {
            BodyFormat::JsonPb
        } else {
            spec_body_format(content_type)
        },
        None => spec_body_format(content_type),
    }
}

/// Chooses the response format from the request headers.
pub fn response_format(content_type: Option<&String>, accept: Option<&String>) -> (r: BodyFormat)
    ensures
        r == spec_response_format(
            match content_type {
                Some(ct) => Some(ct@),
                None => None,
            },
            match accept {
                Some(a) => Some(a@),
                None => None,
            },
        ),
{
    match accept {
        Some(a) => {
            if crate::text::str_eq(a.as_str(), "application/protobuf") {
                BodyFormat::Pb
            } else if crate::text::str_eq(a.as_str(), "application/json") {
                BodyFormat::JsonPb
            } else {
                body_format_from_content_type(content_type)
            }
        },
        None => body_format_from_content_type(content_type),
    }
}

/// Without an `Accept` header the response format mirrors the request's
/// own format exactly.
pub proof fn lemma_response_mirrors_request(content_type: Option<Seq<char>>)
    ensures
        spec_response_format(content_type, None) == spec_body_format(content_type),
{
}

/// A supported `Accept` header decides the response format regardless of
/// the request's own format.
pub proof fn lemma_accept_wins(content_type: Option<Seq<char>>, accept: Seq<char>)
    requires
        accept == "application/protobuf"@ || accept == "application/json"@,
    ensures
        spec_response_format(content_type, Some(accept)) == (if accept
            == "application/protobuf"@ {
            BodyFormat::Pb
        } else {
            BodyFormat::JsonPb
        }),
{
    reveal_strlit("application/protobuf");
    reveal_strlit("application/json");
}

/// The `Content-Type` value a response in the given format carries.
pub open spec fn spec_content_type_for(format: BodyFormat) -> Seq<char> {
    match format {
        BodyFormat::Pb => "application/protobuf"@,
        BodyFormat::JsonPb => "application/json"@,
    }
}

/// The `Content-Type` value a response in the given format carries.
pub fn content_type_for(format: BodyFormat) -> (r: &'static str)
    ensures
        r@ == spec_content_type_for(format),
{
    match format {
        BodyFormat::Pb => "application/protobuf",
        BodyFormat::JsonPb => "application/json",
    }
}

/// An inbound request, reduced to the parts the router reads.
#[derive(Debug)]
pub struct ServerRequest {
    /// HTTP verb, e.g. `POST`.
    pub method: String,
    /// Request path.
    pub path: String,
    /// `Content-Type` header, if present.
    pub content_type: Option<String>,
    /// `Accept` header, if present.
    pub accept: Option<String>,
    /// Raw request body.
    pub body: Vec<u8>,
    /// Request-scope extensions handed to the handler's context.
    pub extensions: Extensions,
    /// Timings attached upstream, if any.
    pub timings: Option<Timings>,
}

/// An outbound response as the router builds it.
#[derive(Debug)]
pub struct ServerResponse {
    /// HTTP status.
    pub status: u16,
    /// `Content-Type` header, if one is set.
    pub content_type: Option<String>,
    /// `Retry-After` header value in seconds, if one is set.
    pub retry_after: Option<u64>,
    /// Raw response body.
    pub body: Vec<u8>,
    /// Response-scope extensions written by the handler.
    pub extensions: Extensions,
    /// Timings of this request, attached before the response is returned.
    pub timings: Option<Timings>,
}

/// What a bound method produced: an encoded response body, a failure to
/// decode the request (with the parser's diagnostic), or an application
/// error.
#[derive(Debug)]
pub enum MethodOutcome {
    /// The call succeeded; the body is already encoded in the negotiated
    /// format.
    Encoded(Vec<u8>),
    /// The request body could not be decoded; carries the parser's
    /// diagnostic text.
    DecodeFailure(String),
    /// The application returned a protocol error.
    Error(TwirpErrorResponse),
}

/// A method binding supplied by generated code or manual registration: it
/// decodes the body in the request format, invokes the application method
/// with the per-request context, and encodes the result in the negotiated
/// response format.
pub trait MethodHandler {
    /// Runs the bound method over the raw body.
    fn handle(
        &self,
        body: &Vec<u8>,
        request_format: BodyFormat,
        resp_format: BodyFormat,
        ctx: &mut Context,
    ) -> MethodOutcome;

    /// Answers a non-protocol route (e.g. a health check), bypassing the
    /// protocol pipeline.
    fn handle_raw(&self, req: &ServerRequest) -> ServerResponse;
}

/// One registered route.
pub struct Route<H> {
    /// HTTP verb the route answers.
    pub method: String,
    /// Full path of the route.
    pub path: String,
    /// The bound handler.
    pub handler: H,
    /// Whether this is a non-protocol route that bypasses the pipeline.
    pub raw: bool,
}

/// The route whose key matches, later registrations winning over earlier
/// ones.
pub open spec fn route_lookup<H>(
    routes: Seq<Route<H>>,
    method: Seq<char>,
    path: Seq<char>,
) -> Option<int>
    decreases routes.len(),
{
    if routes.len() == 0 {
        None
    } else if routes.last().method@ == method && routes.last().path@ == path {
        Some(routes.len() - 1)
    } else {
        route_lookup(routes.drop_last(), method, path)
    }
}

/// A router maps a request's (verb, path) key to a bound handler. Routes
/// are registered up front; lookups do not change it.
pub struct Router<H> {
    /// Path prefix of protocol routes, canonically `/twirp`.
    pub prefix: String,
    /// The registered routes, in registration order.
    pub routes: Vec<Route<H>>,
}

impl<H> Router<H> {
    /// The registered routes.
    pub open spec fn routes_view(&self) -> Seq<Route<H>> {
        self.routes@
    }

    /// A router with the given path prefix and no routes.
    pub fn new(prefix: &str) -> (r: Router<H>)
        ensures
            r.prefix@ == prefix@,
            r.routes_view() =~= Seq::<Route<H>>::empty(),
    {
        Router { prefix: prefix.to_owned(), routes: Vec::new() }
    }

    /// Registers a protocol method at `prefix + "/" + path` for POST.
    /// The last registration of a key wins.
    pub fn add_method(&mut self, path: &str, handler: H)
        ensures
            final(self).prefix@ == old(self).prefix@,
            final(self).routes_view().len() == old(self).routes_view().len() + 1,
            final(self).routes_view().last().method@ == "POST"@,
            final(self).routes_view().last().path@ == old(self).prefix@ + "/"@ + path@,
            final(self).routes_view().last().handler == handler,
            !final(self).routes_view().last().raw,
            final(self).routes_view().drop_last() =~= old(self).routes_view(),
    {
        proof {
            reveal_strlit("/");
        }
        let mut full = self.prefix.clone();
        full.append("/");
        full.append(path);
        let route = Route { method: "POST".to_owned(), path: full, handler, raw: false };
        self.routes.push(route);
        proof {
            assert(self.routes_view().drop_last() =~= old(self).routes_view());
        }
    }

    /// Registers a non-protocol handler at the given verb and path, which
    /// bypasses the protocol pipeline. The last registration of a key
    /// wins.
    pub fn add_handler(&mut self, method: &str, path: &str, handler: H)
        ensures
            final(self).prefix@ == old(self).prefix@,
            final(self).routes_view().len() == old(self).routes_view().len() + 1,
            final(self).routes_view().last().method@ == method@,
            final(self).routes_view().last().path@ == path@,
            final(self).routes_view().last().handler == handler,
            final(self).routes_view().last().raw,
            final(self).routes_view().drop_last() =~= old(self).routes_view(),
    {
        let route = Route {
            method: method.to_owned(),
            path: path.to_owned(),
            handler,
            raw: true,
        };
        self.routes.push(route);
        proof {
            assert(self.routes_view().drop_last() =~= old(self).routes_view());
        }
    }

    /// Registers a synchronous non-protocol handler. In this runtime every
    /// handler is synchronous, so this is `add_handler` under the name the
    /// asynchronous convention uses for the synchronous case.
    pub fn add_sync_handler(&mut self, method: &str, path: &str, handler: H)
        ensures
            final(self).prefix@ == old(self).prefix@,
            final(self).routes_view().len() == old(self).routes_view().len() + 1,
            final(self).routes_view().last().method@ == method@,
            final(self).routes_view().last().path@ == path@,
            final(self).routes_view().last().handler == handler,
            final(self).routes_view().last().raw,
            final(self).routes_view().drop_last() =~= old(self).routes_view(),
    {
        self.add_handler(method, path, handler)
    }

    /// Index of the route answering the given key, if any.
    pub fn lookup(&self, method: &str, path: &str) -> (r: Option<usize>)
        ensures
            match r {
                Some(i) => i < self.routes_view().len() && route_lookup(
                    self.routes_view(),
                    method@,
                    path@,
                ) == Some(i as int),
                None => route_lookup(self.routes_view(), method@, path@) is None,
            },
    {
        let mut i = self.routes.len();
        proof {
            assert(self.routes_view().take(self.routes_view().len() as int)
                =~= self.routes_view());
        }
        while i > 0
            invariant
                0 <= i <= self.routes_view().len(),
                route_lookup(self.routes_view(), method@, path@) == route_lookup(
                    self.routes_view().take(i as int),
                    method@,
                    path@,
                ),
            decreases i,
        {
            i -= 1;
            let route = &self.routes[i];
            proof {
                assert(self.routes_view().take(i + 1).last() == self.routes_view()[i as int]);
                assert(self.routes_view().take(i + 1).drop_last() =~= self.routes_view().take(
                    i as int,
                ));
            }
            if crate::text::str_eq(route.method.as_str(), method) && crate::text::str_eq(
                route.path.as_str(),
                path,
            ) {
                return Some(i);
            }
        }
        proof {
            assert(self.routes_view().take(0) =~= Seq::<Route<H>>::empty());
        }
        None
    }

    /// The route at the given index.
    pub fn route_at(&self, i: usize) -> (r: &Route<H>)
        requires
            i < self.routes_view().len(),
        ensures
            *r == self.routes_view()[i as int],
    {
        &self.routes[i]
    }
}

impl<H> Default for Router<H> {
    /// A router at the canonical `/twirp` prefix with no routes.
    fn default() -> (r: Router<H>)
        ensures
            r.prefix@ == "/twirp"@,
            r.routes_view() == Seq::<Route<H>>::empty(),
    {
        Router::new(default_twirp_path_prefix())
    }
}

/// Serializes an error response to the wire: its mapped status, a JSON
/// body, and a `Retry-After` header when a retry hint is set. The debug
/// detail never appears in the result. For observability layers that run
/// after the router, the serialized envelope is also attached to the
/// response extensions under `twirp-error` (it parses back into the wire
/// fields of the error).
pub fn error_response_to_wire(err: &TwirpErrorResponse) -> (r: ServerResponse)
    ensures
        r.status == spec_http_status(err.code),
        r.content_type matches Some(ct) && ct@ == "application/json"@,
        r.retry_after == err.retry_after,
        r.body@ == spec_encode_error(*err),
        r.extensions.wf(),
        crate::context::ext_lookup(r.extensions@, "twirp-error"@) == Some(spec_encode_error(*err)),
        r.timings is None,
{
    let mut extensions = Extensions::new();
    extensions.insert("twirp-error".to_owned(), crate::json::encode_error_response(err));
    ServerResponse {
        status: err.http_status_code(),
        content_type: Some("application/json".to_owned()),
        retry_after: err.retry_after,
        body: crate::json::encode_error_response(err),
        extensions,
        timings: None,
    }
}

/// Whether `r` is the wire form of some method outcome under the given
/// response format.
pub open spec fn spec_serves_outcome(format: BodyFormat, r: ServerResponse) -> bool {
    exists|o: MethodOutcome| #[trigger] spec_written_response(o, format, r)
}

/// The wire shape `write_response` gives one outcome under one format:
/// status, content type, retry header and body. Extensions and timings
/// are attached by the caller afterwards.
pub open spec fn spec_written_response(
    outcome: MethodOutcome,
    format: BodyFormat,
    r: ServerResponse,
) -> bool {
    match outcome {
        MethodOutcome::Encoded(body) => {
            &&& r.status == 200
            &&& r.body@ == body@
            &&& r.retry_after is None
            &&& r.content_type matches Some(ct) && ct@ == spec_content_type_for(format)
        },
        MethodOutcome::DecodeFailure(diag) => {
            &&& r.status == 400
            &&& r.body@ == spec_encode_error_parts(
                crate::error::TwirpErrorCode::Malformed,
                "bad request"@,
                seq![("error"@, diag@)],
            )
            &&& r.retry_after is None
            &&& r.content_type matches Some(ct) && ct@ == "application/json"@
        },
        MethodOutcome::Error(err) => {
            &&& r.status == spec_http_status(err.code)
            &&& r.body@ == spec_encode_error(err)
            &&& r.retry_after == err.retry_after
            &&& r.content_type matches Some(ct) && ct@ == "application/json"@
        },
    }
}

/// Turns the outcome of a bound method into the wire response in the
/// negotiated format: success bodies pass through with the format's
/// content type, a decode failure becomes `Malformed` with the diagnostic
/// under `meta["error"]`, and an application error is serialized as the
/// protocol's error envelope.
pub fn write_response(outcome: MethodOutcome, format: BodyFormat) -> (r: ServerResponse)
    ensures
        spec_written_response(outcome, format, r),
        r.extensions.wf(),
        r.timings is None,
{
    match outcome {
        MethodOutcome::Encoded(body) => ServerResponse {
            status: 200,
            content_type: Some(content_type_for(format).to_owned()),
            retry_after: None,
            body,
            extensions: Extensions::new(),
            timings: None,
        },
        MethodOutcome::DecodeFailure(diag) => {
            let err = crate::error::malformed("bad request").with_meta("error", diag.as_str());
            proof {
                assert(err.meta@ =~= seq![("error"@, diag@)]) by {
                    crate::error::lemma_meta_lookup_some_exists(err.meta@, "error"@);
                }
            }
            error_response_to_wire(&err)
        },
        MethodOutcome::Error(err) => error_response_to_wire(&err),
    }
}

/// Serves one request: looks the route up, runs the pipeline, and attaches
/// timings. A miss answers `BadRoute` naming the requested path. A raw
/// route bypasses the pipeline. Any fault of the bound method itself is
/// already a value of `MethodOutcome`, so nothing escapes this boundary
/// unserialized.
#[verifier::loop_isolation(false)]
pub fn serve<H: MethodHandler, C: Clock>(
    router: &Router<H>,
    req: ServerRequest,
    clock: &mut C,
) -> (r: ServerResponse)
    ensures
        route_lookup(router.routes_view(), req.method@, req.path@) is None ==> {
            &&& r.status == 404
            &&& r.body@ == spec_encode_error_parts(
                crate::error::TwirpErrorCode::BadRoute,
                "not found: "@ + req.path@,
                Seq::<(Seq<char>, Seq<char>)>::empty(),
            )
        },
        (route_lookup(router.routes_view(), req.method@, req.path@) matches Some(i)
            && !router.routes_view()[i].raw) ==> spec_serves_outcome(
            spec_response_format(
                match req.content_type {
                    Some(c) => Some(c@),
                    None => None,
                },
                match req.accept {
                    Some(a) => Some(a@),
                    None => None,
                },
            ),
            r,
        ),
        r.timings matches Some(t) && t.response_written is Some,
        req.timings matches Some(t0) ==> (r.timings matches Some(t) && t.start == t0.start),
{
    let ghost req0 = req;
    let ServerRequest {
        method: req_method,
        path: req_path,
        content_type: req_content_type,
        accept: req_accept,
        body: req_body,
        extensions: req_extensions,
        timings: req_timings,
    } = req;
    let mut timings = match req_timings {
        Some(t) => t,
        None => Timings::new(clock.now()),
    };
    let index = router.lookup(req_method.as_str(), req_path.as_str());
    match index {
        None => {
            let mut msg = "not found: ".to_owned();
            msg.append(req_path.as_str());
            let err = crate::error::TwirpErrorResponse::new(
                crate::error::TwirpErrorCode::BadRoute,
                msg,
            );
            let mut resp = error_response_to_wire(&err);
            let now = clock.now();
            timings.set_response_written(now);
            resp.timings = Some(timings);
            proof {
                assert(err.meta@ =~= Seq::<(Seq<char>, Seq<char>)>::empty());
            }
            resp
        },
        Some(i) => {
            let route = router.route_at(i);
            if route.raw {
                let probe = ServerRequest {
                    method: req_method,
                    path: req_path,
                    content_type: req_content_type,
                    accept: req_accept,
                    body: req_body,
                    extensions: req_extensions,
                    timings: req_timings,
                };
                let mut resp = route.handler.handle_raw(&probe);
                let now = clock.now();
                timings.set_response_written(now);
                resp.timings = Some(timings);
                resp
            } else {
                let now = clock.now();
                timings.set_received(now);
                let format = response_format(req_content_type.as_ref(), req_accept.as_ref());
                let request_format = body_format_from_content_type(req_content_type.as_ref());
                let mut ctx = Context::new(req_extensions);
                let outcome = route.handler.handle(&req_body, request_format, format, &mut ctx);
                let ghost chosen_outcome = outcome;
                let now2 = clock.now();
                timings.set_parsed(now2);
                timings.set_response_handled(now2);
                let mut resp = write_response(outcome, format);
                // The handler's response-scope bag is merged into the
                // outgoing extensions; entries it wrote win on a clash.
                let mut bag = ctx.into_response_extensions().into_entries();
                while bag.len() > 0
                    invariant
                        resp.extensions.wf(),
                        spec_written_response(chosen_outcome, format, resp),
                    decreases bag@.len(),
                {
                    let entry = bag.remove(0);
                    resp.extensions.insert(entry.0, entry.1);
                }
                let now3 = clock.now();
                timings.set_response_written(now3);
                resp.timings = Some(timings);
                proof {
                    let negotiated = spec_response_format(
                        match req0.content_type {
                            Some(c) => Some(c@),
                            None => None,
                        },
                        match req0.accept {
                            Some(a) => Some(a@),
                            None => None,
                        },
                    );
                    assert(format == negotiated);
                    assert(spec_written_response(chosen_outcome, negotiated, resp));
                    assert(spec_serves_outcome(negotiated, resp));
                }
                resp
            }
        },
    }
}

} // verus!