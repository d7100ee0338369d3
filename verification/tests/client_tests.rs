use twirp::client::{
    execute_handlers, interpret_response, Client, ClientBuilder, ClientRequest, ClientResponse,
    DirectHandler, Middleware, Next, RequestHandlers,
};
use twirp::endpoint::parse_base_url;
use twirp::error::TwirpErrorCode;

/// A middleware that does nothing but continue the chain.
#[derive(Clone)]
struct PassThrough;

impl<H: DirectHandler> Middleware<H> for PassThrough {
    fn handle(
        &self,
        req: ClientRequest,
        next: Next<'_, Self, H>,
    ) -> Result<ClientResponse, twirp::error::TwirpErrorResponse> {
        next.run(req)
    }
}

/// An in-process test service: `Ping` echoes the body, anything else is an
/// unknown rpc.
#[derive(Clone)]
struct TestApiHandler;

impl DirectHandler for TestApiHandler {
    fn service(&self) -> &str {
        "test.TestAPI"
    }

    fn handle(
        &self,
        method: &str,
        req: ClientRequest,
    ) -> Result<ClientResponse, twirp::error::TwirpErrorResponse> {
        match method {
            "Ping" => Ok(ClientResponse {
                status: 200,
                content_type: Some("application/protobuf".to_string()),
                headers: vec![],
                body: req.body,
            }),
            _ => Err(twirp::error::bad_route(&format!(
                "unknown rpc `{}` for service `{}`, url: {}",
                method,
                self.service(),
                req.url()
            ))),
        }
    }
}

#[test]
fn test_base_url() {
    let url = parse_base_url("http://localhost:3001/twirp/").unwrap();
    let client: Client<PassThrough, TestApiHandler> = Client::from_base_url(url);
    assert_eq!(
        client.base_url().join(""),
        "http://localhost:3001/twirp/"
    );
    let url = parse_base_url("http://localhost:3001/twirp").unwrap();
    let client: Client<PassThrough, TestApiHandler> = Client::from_base_url(url);
    assert_eq!(
        client.base_url().join(""),
        "http://localhost:3001/twirp/"
    );
}

/// A middleware that checks the full request URL seen at its stage.
struct AssertRouting {
    expected_url: &'static str,
}

impl<H: DirectHandler> Middleware<H> for AssertRouting {
    fn handle(
        &self,
        req: ClientRequest,
        next: Next<'_, Self, H>,
    ) -> Result<ClientResponse, twirp::error::TwirpErrorResponse> {
        assert_eq!(self.expected_url, req.url());
        next.run(req)
    }
}

#[test]
fn test_routes() {
    let base_url = parse_base_url("http://localhost:3001/twirp/").unwrap();
    let client: Client<AssertRouting, TestApiHandler> = ClientBuilder::new(base_url)
        .with_middleware(AssertRouting {
            expected_url: "http://localhost:3001/twirp/test.TestAPI/Ping",
        })
        .build();
    // Without a registry the terminal stage reports the service unavailable.
    let err = client
        .request("test.TestAPI/Ping", b"hi".to_vec())
        .unwrap_err();
    assert_eq!(err.code, TwirpErrorCode::Unavailable);
}

/// A recording middleware: logs itself into a request header before the
/// continuation and into a response header after it.
struct Recorder(&'static str);

impl DirectHandler for Recorder {
    fn service(&self) -> &str {
        ""
    }

    fn handle(
        &self,
        _method: &str,
        _req: ClientRequest,
    ) -> Result<ClientResponse, twirp::error::TwirpErrorResponse> {
        Err(twirp::error::bad_route("unused"))
    }
}

impl Middleware<EchoLog> for Recorder {
    fn handle(
        &self,
        mut req: ClientRequest,
        next: Next<'_, Self, EchoLog>,
    ) -> Result<ClientResponse, twirp::error::TwirpErrorResponse> {
        req.headers
            .push(("log".to_string(), format!("{}-before", self.0)));
        let mut resp = next.run(req)?;
        resp.headers
            .push(("log".to_string(), format!("{}-after", self.0)));
        Ok(resp)
    }
}

/// The terminal service for the ordering test: it copies the request's log
/// headers into the response and appends its own mark.
struct EchoLog;

impl DirectHandler for EchoLog {
    fn service(&self) -> &str {
        "test.Log"
    }

    fn handle(
        &self,
        _method: &str,
        req: ClientRequest,
    ) -> Result<ClientResponse, twirp::error::TwirpErrorResponse> {
        let mut headers = req.headers.clone();
        headers.push(("log".to_string(), "terminal".to_string()));
        Ok(ClientResponse {
            status: 200,
            content_type: Some("application/protobuf".to_string()),
            headers,
            body: req.body,
        })
    }
}

#[test]
fn middleware_onion_ordering() {
    let client: Client<Recorder, EchoLog> = ClientBuilder::direct()
        .with_middleware(Recorder("A"))
        .with_middleware(Recorder("B"))
        .with_handler(EchoLog)
        .build();
    let resp = client.request("test.Log/Any", b"x".to_vec()).unwrap();
    let log: Vec<&str> = resp
        .headers
        .iter()
        .filter(|(k, _)| k == "log")
        .map(|(_, v)| v.as_str())
        .collect();
    assert_eq!(
        log,
        vec!["A-before", "B-before", "terminal", "B-after", "A-after"]
    );
}

#[test]
fn test_client_with_mocks() {
    let client: Client<PassThrough, TestApiHandler> = ClientBuilder::direct()
        .with_handler(TestApiHandler)
        .build();
    let resp = client
        .request("test.TestAPI/Ping", b"payload".to_vec())
        .unwrap();
    assert_eq!(resp.status, 200);
    assert_eq!(resp.body, b"payload".to_vec());

    let err = client
        .request("test.TestAPI/Frobnicate", b"payload".to_vec())
        .unwrap_err();
    assert_eq!(err.code, TwirpErrorCode::BadRoute);
    assert!(err.msg.contains("Frobnicate"));
    assert!(err.msg.contains("test.TestAPI"));
}

#[test]
fn unregistered_service_is_a_bad_route() {
    let client: Client<PassThrough, TestApiHandler> = ClientBuilder::direct()
        .with_handler(TestApiHandler)
        .build();
    let err = client
        .request("other.Service/Ping", b"payload".to_vec())
        .unwrap_err();
    assert_eq!(err.code, TwirpErrorCode::BadRoute);
    assert!(err.msg.contains("other.Service"));
}

#[test]
fn with_host_switches_the_direct_registry_key() {
    let base = parse_base_url("http://localhost/").unwrap();
    let mut handlers = RequestHandlers::new();
    handlers.add("tenant-a", TestApiHandler);
    let client: Client<PassThrough, TestApiHandler> =
        Client::new(base, Vec::new(), Some(handlers));
    // The default host has no handler registered.
    let err = client
        .request("test.TestAPI/Ping", b"x".to_vec())
        .unwrap_err();
    assert_eq!(err.code, TwirpErrorCode::BadRoute);
    // The per-call override reaches the registered tenant.
    let resp = client
        .with_host("tenant-a")
        .request("test.TestAPI/Ping", b"x".to_vec())
        .unwrap();
    assert_eq!(resp.status, 200);
}

#[test]
fn interpret_success_passes_through() {
    let resp = ClientResponse {
        status: 200,
        content_type: Some("application/protobuf".to_string()),
        headers: vec![],
        body: b"ok".to_vec(),
    };
    let out = interpret_response("/twirp/test.TestAPI/Ping", resp).unwrap();
    assert_eq!(out.body, b"ok".to_vec());
}

#[test]
fn interpret_error_envelope() {
    let body = twirp::json::encode_error_response(&twirp::error::not_found("missing thing"));
    let resp = ClientResponse {
        status: 404,
        content_type: Some("application/json".to_string()),
        headers: vec![],
        body,
    };
    let err = interpret_response("/twirp/test.TestAPI/Find", resp).unwrap_err();
    assert_eq!(err.code, TwirpErrorCode::NotFound);
    assert_eq!(err.msg, "missing thing");
}

#[test]
fn interpret_garbled_error_body() {
    let resp = ClientResponse {
        status: 500,
        content_type: Some("application/json".to_string()),
        headers: vec![],
        body: b"<html>oops</html>".to_vec(),
    };
    let err = interpret_response("/twirp/test.TestAPI/Ping", resp).unwrap_err();
    assert_eq!(err.code, TwirpErrorCode::Internal);
}

#[test]
fn interpret_unexpected_content_type() {
    let resp = ClientResponse {
        status: 503,
        content_type: Some("text/plain".to_string()),
        headers: vec![],
        body: b"gateway sad".to_vec(),
    };
    let err = interpret_response("/twirp/test.TestAPI/Ping", resp).unwrap_err();
    assert_eq!(err.code, TwirpErrorCode::Unavailable);
    assert_eq!(
        err.msg,
        "unexpected content type: text/plain for request path /twirp/test.TestAPI/Ping"
    );
}

#[test]
fn direct_dispatch_needs_two_path_segments() {
    let handlers: RequestHandlers<TestApiHandler> = {
        let mut h = RequestHandlers::new();
        h.add("localhost", TestApiHandler);
        h
    };
    let req = ClientRequest {
        scheme: "http".to_string(),
        host: "localhost".to_string(),
        port: None,
        path: "nosegments".to_string(),
        headers: vec![],
        body: vec![],
    };
    let err = execute_handlers(req, &handlers).unwrap_err();
    assert_eq!(err.code, TwirpErrorCode::BadRoute);
    assert!(err.msg.contains("method and service required"));
}

/// A handler whose response body carries a tag, to observe replacement.
#[derive(Clone)]
struct TaggedHandler(&'static str);

impl DirectHandler for TaggedHandler {
    fn service(&self) -> &str {
        "test.TestAPI"
    }

    fn handle(
        &self,
        _method: &str,
        _req: ClientRequest,
    ) -> Result<ClientResponse, twirp::error::TwirpErrorResponse> {
        Ok(ClientResponse {
            status: 200,
            content_type: Some("application/protobuf".to_string()),
            headers: vec![],
            body: self.0.as_bytes().to_vec(),
        })
    }
}

#[test]
fn re_registration_replaces_the_handler() {
    let mut handlers = RequestHandlers::new();
    handlers.add("localhost", TaggedHandler("first"));
    handlers.add("localhost", TaggedHandler("second"));
    let found = handlers.get("localhost", "test.TestAPI").unwrap();
    assert_eq!(found.0, "second");
}

#[test]
fn get_after_add_resolves_the_key() {
    let mut handlers = RequestHandlers::new();
    handlers.add("tenant-a", TaggedHandler("a"));
    assert!(handlers.get("tenant-a", "test.TestAPI").is_some());
    assert!(handlers.get("tenant-b", "test.TestAPI").is_none());
    assert!(handlers.get("tenant-a", "other.Service").is_none());
}

#[test]
fn caller_headers_are_forwarded() {
    let client: Client<PassThrough, EchoLog> = ClientBuilder::direct()
        .with_handler(EchoLog)
        .build();
    let resp = client
        .request_with_headers(
            "test.Log/Any",
            vec![("x-request-id".to_string(), "XYZ".to_string())],
            b"x".to_vec(),
        )
        .unwrap();
    // The terminal echoes the request headers back: the caller's header
    // arrives ahead of the content type the client appends.
    assert!(resp
        .headers
        .iter()
        .any(|(k, v)| k == "x-request-id" && v == "XYZ"));
    assert!(resp
        .headers
        .iter()
        .any(|(k, v)| k == "Content-Type" && v == "application/protobuf"));
}
