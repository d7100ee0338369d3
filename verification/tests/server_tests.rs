use twirp::context::{Context, Extensions};
use twirp::error::TwirpErrorCode;
use twirp::json::parse_error_response;
use twirp::server::{
    serve, BodyFormat, Clock, MethodHandler, MethodOutcome, Router, ServerRequest, ServerResponse,
    Timings,
};

/// A deterministic clock for tests: each call advances by 10 ticks.
struct TestClock(u64);

impl Clock for TestClock {
    fn now(&mut self) -> u64 {
        self.0 += 10;
        self.0
    }
}

/// A tiny ping/boom service: `Ping` echoes the JSON `name` field, `Boom`
/// always fails.
enum TestApi {
    Ping,
    Boom,
}

impl MethodHandler for TestApi {
    fn handle(
        &self,
        body: &Vec<u8>,
        request_format: BodyFormat,
        resp_format: BodyFormat,
        ctx: &mut Context,
    ) -> MethodOutcome {
        let name = match decode_name(body, request_format) {
            Ok(name) => name,
            Err(diag) => return MethodOutcome::DecodeFailure(diag),
        };
        match self {
            TestApi::Ping => {
                if let Some(rid) = ctx.get("x-request-id") {
                    ctx.insert("request-id-seen", rid.clone());
                }
                MethodOutcome::Encoded(encode_name(&name, resp_format))
            }
            TestApi::Boom => MethodOutcome::Error(twirp::error::internal("boom!")),
        }
    }

    fn handle_raw(&self, _req: &ServerRequest) -> ServerResponse {
        ServerResponse {
            status: 200,
            content_type: Some("text/plain".to_string()),
            retry_after: None,
            body: b"Pong\n".to_vec(),
            extensions: Extensions::new(),
            timings: None,
        }
    }
}

/// Decodes a `{name}` message: hand-rolled protobuf wire bytes (field 1,
/// length-delimited) in binary, serde elsewhere.
fn decode_name(body: &[u8], format: BodyFormat) -> Result<String, String> {
    match format {
        BodyFormat::Pb => {
            if body.len() >= 2 && body[0] == 0x0a && body[1] as usize == body.len() - 2 {
                String::from_utf8(body[2..].to_vec()).map_err(|e| e.to_string())
            } else {
                Err("invalid wire bytes".to_string())
            }
        }
        BodyFormat::JsonPb => {
            let value: serde_json::Value =
                serde_json::from_slice(body).map_err(|e| e.to_string())?;
            Ok(value
                .get("name")
                .and_then(|v| v.as_str())
                .unwrap_or("")
                .to_string())
        }
    }
}

/// Encodes a `{name}` message in the given format.
fn encode_name(name: &str, format: BodyFormat) -> Vec<u8> {
    match format {
        BodyFormat::Pb => {
            let mut out = vec![0x0a, name.len() as u8];
            out.extend_from_slice(name.as_bytes());
            out
        }
        BodyFormat::JsonPb => format!("{{\"name\":\"{}\"}}", name).into_bytes(),
    }
}

fn test_api_router() -> Router<TestApi> {
    let mut router: Router<TestApi> = Router::new("/twirp");
    router.add_method("test.TestAPI/Ping", TestApi::Ping);
    router.add_method("test.TestAPI/Boom", TestApi::Boom);
    router
}

fn json_request(path: &str, body: &str) -> ServerRequest {
    ServerRequest {
        method: "POST".to_string(),
        path: path.to_string(),
        content_type: Some("application/json".to_string()),
        accept: None,
        body: body.as_bytes().to_vec(),
        extensions: Extensions::new(),
        timings: None,
    }
}

#[test]
fn server_test_routes() {
    let router = test_api_router();
    assert!(router.lookup("POST", "/twirp/test.TestAPI/Ping").is_some());
    assert!(router.lookup("POST", "/twirp/test.TestAPI/Boom").is_some());
    assert!(router.lookup("GET", "/twirp/test.TestAPI/Ping").is_none());
    assert!(router.lookup("POST", "/twirp/test.TestAPI/Nope").is_none());
}

#[test]
fn default_router_uses_the_canonical_prefix() {
    let mut router: Router<TestApi> = Router::default();
    router.add_method("test.TestAPI/Ping", TestApi::Ping);
    assert!(router.lookup("POST", "/twirp/test.TestAPI/Ping").is_some());
}

#[test]
fn last_registration_wins() {
    let mut router: Router<TestApi> = Router::new("/twirp");
    router.add_method("test.TestAPI/Ping", TestApi::Boom);
    router.add_method("test.TestAPI/Ping", TestApi::Ping);
    let i = router.lookup("POST", "/twirp/test.TestAPI/Ping").unwrap();
    assert!(matches!(router.route_at(i).handler, TestApi::Ping));
}

#[test]
fn test_bad_route() {
    let router = test_api_router();
    let req = json_request("/nothing", "");
    let resp = serve(&router, req, &mut TestClock(0));
    assert_eq!(resp.status, 404);
    let err = parse_error_response(&resp.body).unwrap();
    assert_eq!(err.code, TwirpErrorCode::BadRoute);
    assert!(err.msg.contains("/nothing"));
}

#[test]
fn test_ping_success() {
    let router = test_api_router();
    let req = json_request("/twirp/test.TestAPI/Ping", "{\"name\":\"hi\"}");
    let resp = serve(&router, req, &mut TestClock(0));
    assert!((200..300).contains(&resp.status), "{:?}", resp.status);
    assert_eq!(resp.content_type.as_deref(), Some("application/json"));
    let value: serde_json::Value = serde_json::from_slice(&resp.body).unwrap();
    assert_eq!(value.get("name").and_then(|v| v.as_str()), Some("hi"));
}

#[test]
fn test_ping_invalid_request() {
    let router = test_api_router();
    let req = json_request("/twirp/test.TestAPI/Ping", "");
    let resp = serve(&router, req, &mut TestClock(0));
    assert!((400..500).contains(&resp.status), "{:?}", resp.status);
    let err = parse_error_response(&resp.body).unwrap();
    assert_eq!(err.code, TwirpErrorCode::Malformed);
    assert_eq!(err.msg, "bad request");
    assert_eq!(
        err.meta.get("error").map(|s| s.as_str()),
        Some("EOF while parsing a value at line 1 column 0")
    );
}

#[test]
fn test_boom() {
    let router = test_api_router();
    let req = json_request("/twirp/test.TestAPI/Boom", "{\"name\":\"hi\"}");
    let resp = serve(&router, req, &mut TestClock(0));
    assert!((500..600).contains(&resp.status), "{:?}", resp.status);
    let err = parse_error_response(&resp.body).unwrap();
    assert_eq!(err.code, TwirpErrorCode::Internal);
    assert_eq!(err.msg, "boom!");
}

#[test]
fn protobuf_content_type_selects_binary() {
    let router = test_api_router();
    let mut req = json_request("/twirp/test.TestAPI/Ping", "");
    req.content_type = Some("application/protobuf".to_string());
    req.body = encode_name("hi", BodyFormat::Pb);
    let resp = serve(&router, req, &mut TestClock(0));
    // The response mirrors the request format when no Accept header is set,
    // and the binary body decoded correctly.
    assert_eq!(resp.status, 200);
    assert_eq!(resp.content_type.as_deref(), Some("application/protobuf"));
    assert_eq!(resp.body, encode_name("hi", BodyFormat::Pb));
}

#[test]
fn accept_header_overrides_response_format() {
    let router = test_api_router();
    let mut req = json_request("/twirp/test.TestAPI/Ping", "{\"name\":\"hi\"}");
    req.accept = Some("application/protobuf".to_string());
    let resp = serve(&router, req, &mut TestClock(0));
    assert_eq!(resp.content_type.as_deref(), Some("application/protobuf"));
    assert_eq!(resp.body, encode_name("hi", BodyFormat::Pb));
}

#[test]
fn raw_routes_bypass_the_pipeline() {
    let mut router = test_api_router();
    router.add_handler("GET", "/_ping", TestApi::Ping);
    let mut req = json_request("/_ping", "");
    req.method = "GET".to_string();
    let resp = serve(&router, req, &mut TestClock(0));
    assert_eq!(resp.status, 200);
    assert_eq!(resp.body, b"Pong\n".to_vec());
    assert_eq!(resp.content_type.as_deref(), Some("text/plain"));
}

#[test]
fn context_passes_data_both_ways() {
    let router = test_api_router();
    let mut ext = Extensions::new();
    ext.insert("x-request-id".to_string(), b"req-7".to_vec());
    let mut req = json_request("/twirp/test.TestAPI/Ping", "{\"name\":\"hi\"}");
    req.extensions = ext;
    let resp = serve(&router, req, &mut TestClock(0));
    assert_eq!(
        resp.extensions.get("request-id-seen").map(|v| v.as_slice()),
        Some(b"req-7".as_slice())
    );
}

#[test]
fn timings_are_attached_and_derived() {
    let router = test_api_router();
    let req = json_request("/twirp/test.TestAPI/Ping", "{\"name\":\"hi\"}");
    let resp = serve(&router, req, &mut TestClock(0));
    let timings = resp.timings.unwrap();
    assert_eq!(timings.start, 10);
    assert_eq!(timings.received(), Some(10));
    assert_eq!(timings.parsed(), Some(10));
    assert_eq!(timings.response_handled(), Some(0));
    assert_eq!(timings.response_written(), Some(10));
}

#[test]
fn timing_deltas_saturate() {
    let t = {
        let mut t = Timings::new(50);
        t.request_received = Some(20);
        t
    };
    assert_eq!(t.received(), Some(0));
}

#[test]
fn error_responses_carry_the_envelope_in_extensions() {
    let wire = twirp::server::error_response_to_wire(&twirp::error::not_found("missing"));
    let attached = wire.extensions.get("twirp-error").unwrap();
    assert_eq!(attached, &wire.body);
    let parsed = parse_error_response(attached).unwrap();
    assert_eq!(parsed.code, TwirpErrorCode::NotFound);
}

#[test]
fn serve_preserves_an_attached_timings_start() {
    let router = test_api_router();
    let mut req = json_request("/twirp/test.TestAPI/Ping", "{\"name\":\"hi\"}");
    req.timings = Some(Timings::new(7));
    let resp = serve(&router, req, &mut TestClock(100));
    assert_eq!(resp.timings.unwrap().start, 7);
}
