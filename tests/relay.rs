use trgui_relay::http::{
    allowed_origins, cors, fetch_error, find_header, invalid_request, not_found, preflight,
    timed_out, Header, HttpRequest, HttpResponse,
};
use trgui_relay::proxy::{finish_proxy, find_url_param, prepare_proxy, split_at_char, FetchOutcome};
use trgui_relay::ipc::Ipc;
use trgui_relay::server::{args_ack, http_response, route, Dispatch, Route};

fn h(name: &str, value: &str) -> Header {
    Header { name: name.to_string(), value: value.to_string() }
}

fn pairs(hs: &[Header]) -> Vec<(String, String)> {
    hs.iter().map(|h| (h.name.clone(), h.value.clone())).collect()
}

fn request(method: &str, path: &str, query: Option<&str>, headers: Vec<Header>, body: &[u8]) -> HttpRequest {
    HttpRequest {
        method: method.to_string(),
        path: path.to_string(),
        query: query.map(|q| q.to_string()),
        headers,
        body: body.to_vec(),
    }
}

fn dev() -> Vec<String> {
    allowed_origins(false)
}

fn count(hs: &[Header], name: &str) -> usize {
    hs.iter().filter(|h| h.name == name).count()
}

#[test]
fn origins_per_build() {
    assert_eq!(allowed_origins(true), vec!["tauri://localhost".to_string(), "http://tauri.localhost".to_string()]);
    assert_eq!(dev(), vec!["http://localhost:8080".to_string()]);
}

#[test]
fn cors_refuses_foreign_origin() {
    let req = vec![h("origin", "http://evil.example")];
    let mut r = HttpResponse { status: 200, headers: vec![h("access-control-allow-origin", "*")], body: b"x".to_vec() };
    cors(&req, &mut r, &dev());
    assert_eq!(count(&r.headers, "access-control-allow-origin"), 0);
    assert_eq!(r.status, 200);
    assert_eq!(r.body, b"x".to_vec());
}

#[test]
fn cors_grants_listed_origin() {
    let req = vec![h("origin", "http://localhost:8080")];
    let mut r = HttpResponse { status: 409, headers: vec![h("x-transmission-session-id", "abc")], body: vec![] };
    cors(&req, &mut r, &dev());
    assert_eq!(
        pairs(&r.headers),
        vec![
            ("x-transmission-session-id".to_string(), "abc".to_string()),
            ("access-control-allow-origin".to_string(), "http://localhost:8080".to_string()),
            ("access-control-allow-headers".to_string(), "*".to_string()),
            ("access-control-expose-headers".to_string(), "X-Transmission-Session-Id".to_string()),
            ("access-control-allow-methods".to_string(), "POST, OPTIONS".to_string()),
        ]
    );
}

#[test]
fn cors_needs_exact_origin() {
    let req = vec![h("origin", "http://localhost:8080/")];
    let mut r = HttpResponse { status: 200, headers: vec![], body: vec![] };
    cors(&req, &mut r, &dev());
    assert_eq!(count(&r.headers, "access-control-allow-origin"), 0);
}

#[test]
fn cors_always_exposes_session_header() {
    let mut r = HttpResponse { status: 200, headers: vec![h("access-control-expose-headers", "X-Other")], body: vec![] };
    cors(&vec![], &mut r, &dev());
    let exposed: Vec<String> = r
        .headers
        .iter()
        .filter(|h| h.name == "access-control-expose-headers")
        .map(|h| h.value.clone())
        .collect();
    assert_eq!(exposed, vec!["X-Other".to_string(), "X-Transmission-Session-Id".to_string()]);
}

#[test]
fn error_responses() {
    let req = vec![h("origin", "http://localhost:8080")];
    let nf = not_found();
    assert_eq!((nf.status, nf.body.as_slice(), nf.headers.len()), (404, b"NOT FOUND".as_slice(), 0));
    let to = timed_out(&req, &dev());
    assert_eq!((to.status, to.body.as_slice()), (408, b"Request timed out".as_slice()));
    assert_eq!(find_header(&to.headers, "access-control-allow-origin"), Some("http://localhost:8080".to_string()));
    let fe = fetch_error(&req, &dev());
    assert_eq!((fe.status, fe.body.as_slice()), (503, b"Proxy fetch error".as_slice()));
    let ir = invalid_request(&req, "why", &dev());
    assert_eq!((ir.status, ir.body.as_slice()), (400, b"INVALID REQUEST: why".as_slice()));
    let pf = preflight(&req, &dev());
    assert_eq!((pf.status, pf.body.len()), (200, 0));
    assert_eq!(find_header(&pf.headers, "access-control-allow-methods"), Some("POST, OPTIONS".to_string()));
    let ack = args_ack();
    assert_eq!((ack.status, ack.body.as_slice()), (200, b"TrguiNG OK".as_slice()));
}

#[test]
fn splitting() {
    assert_eq!(split_at_char("a&b&&c", '&'), vec!["a", "b", "", "c"]);
    assert_eq!(split_at_char("", '&'), vec![""]);
    assert_eq!(split_at_char("x=", '='), vec!["x", ""]);
}

#[test]
fn url_parameter() {
    let found = |v: &str| Some(Some(v.to_string()));
    assert_eq!(find_url_param("url=http%3A%2F%2Fh%3A9091"), found("http%3A%2F%2Fh%3A9091"));
    assert_eq!(find_url_param("a=1&url=x&url=y"), found("x"));
    assert_eq!(find_url_param("a=1&b=2"), Some(None));
    assert_eq!(find_url_param("url"), None);
    assert_eq!(find_url_param("url=a=b"), found("a=b"));
    assert_eq!(find_url_param("foo&url=x"), None);
    assert_eq!(find_url_param("url=x&foo"), found("x"));
    assert_eq!(find_url_param("urlx=1&url="), found(""));
}

#[test]
fn prepare_decodes_target_and_copies_headers() {
    let req = request(
        "POST",
        "/torrentget",
        Some("url=http%3A%2F%2Fdaemon%3A9091%2Ftransmission%2Frpc"),
        vec![
            h("content-type", "application/json"),
            h("x-transmission-session-id", "tok"),
            h("authorization", "Basic eA=="),
            h("x-trguing-toast", ""),
        ],
        b"{\"method\":\"torrent-get\"}",
    );
    let plan = prepare_proxy(req, true, &dev()).ok().unwrap();
    assert_eq!(plan.url, "http://daemon:9091/transmission/rpc");
    assert_eq!(
        pairs(&plan.headers),
        vec![
            ("content-type".to_string(), "application/json".to_string()),
            ("x-transmission-session-id".to_string(), "tok".to_string()),
            ("authorization".to_string(), "Basic eA==".to_string()),
        ]
    );
    assert_eq!(plan.body, b"{\"method\":\"torrent-get\"}".to_vec());
    assert!(plan.inspect && plan.toast && !plan.sound);
}

#[test]
fn prepare_rejects_missing_url() {
    let r = prepare_proxy(request("POST", "/post", None, vec![], b""), false, &dev());
    let resp = r.err().unwrap();
    assert_eq!((resp.status, resp.body.as_slice()), (400, b"INVALID REQUEST: no query parameters".as_slice()));
    let r = prepare_proxy(request("POST", "/post", Some("x=1"), vec![], b""), false, &dev());
    let resp = r.err().unwrap();
    assert_eq!(resp.body, b"INVALID REQUEST: no url query parameter".to_vec());
    let r = prepare_proxy(request("POST", "/post", Some("foo&url=http://d"), vec![], b""), false, &dev());
    let resp = r.err().unwrap();
    assert_eq!((resp.status, resp.body.as_slice()), (400, b"INVALID REQUEST: malformed query".as_slice()));
    let r = prepare_proxy(request("POST", "/post", Some(""), vec![], b""), false, &dev());
    assert_eq!(r.err().unwrap().body, b"INVALID REQUEST: malformed query".to_vec());
    let r = prepare_proxy(request("POST", "/post", Some("url=%FF"), vec![], b""), false, &dev());
    let resp = r.err().unwrap();
    assert_eq!(resp.body, b"INVALID REQUEST: malformed url query parameter".to_vec());
}

fn plan_for(origin: &str) -> trgui_relay::proxy::ProxyPlan {
    let req = request("POST", "/torrentget", Some("url=http://d/rpc"), vec![h("origin", origin)], b"{}");
    prepare_proxy(req, true, &dev()).ok().unwrap()
}

#[test]
fn relay_returns_remote_body_unchanged() {
    let plan = plan_for("http://localhost:8080");
    let body = vec![0u8, 159, 146, 150, b'{', b'}'];
    let outcome = FetchOutcome::Received {
        status: 200,
        headers: vec![h("content-type", "application/json"), h("access-control-allow-origin", "*")],
        body: body.clone(),
    };
    let reply = finish_proxy(&plan, outcome, &dev());
    assert_eq!(reply.response.status, 200);
    assert_eq!(reply.response.body, body);
    assert!(reply.inspect);
    let hs = pairs(&reply.response.headers);
    assert_eq!(hs[0], ("content-type".to_string(), "application/json".to_string()));
    assert_eq!(hs[1], ("x-original-url".to_string(), "http://d/rpc".to_string()));
    assert_eq!(count(&reply.response.headers, "access-control-allow-origin"), 1);
    assert_eq!(find_header(&reply.response.headers, "access-control-allow-origin"), Some("http://localhost:8080".to_string()));
}

#[test]
fn relay_does_not_inspect_failures() {
    let plan = plan_for("x");
    let reply = finish_proxy(&plan, FetchOutcome::Received { status: 409, headers: vec![], body: vec![] }, &dev());
    assert_eq!(reply.response.status, 409);
    assert!(!reply.inspect);
}

#[test]
fn timeout_and_unreachable_are_told_apart() {
    let plan = plan_for("http://localhost:8080");
    let t = finish_proxy(&plan, FetchOutcome::TimedOut, &dev());
    assert_eq!(t.response.status, 408);
    assert_eq!(t.response.body, b"Request timed out".to_vec());
    let u = finish_proxy(&plan, FetchOutcome::Failed { code: None, message: "connection refused".to_string() }, &dev());
    assert_eq!(u.response.status, 503);
    assert_eq!(u.response.body, b"connection refused".to_vec());
    assert_eq!(find_header(&u.response.headers, "access-control-allow-origin"), Some("http://localhost:8080".to_string()));
    let s = finish_proxy(&plan, FetchOutcome::Failed { code: Some(502), message: "bad gateway".to_string() }, &dev());
    assert_eq!(s.response.status, 502);
    let b = finish_proxy(&plan, FetchOutcome::BodyFailed, &dev());
    assert_eq!((b.response.status, b.response.body.as_slice()), (503, b"Proxy fetch error".as_slice()));
    assert!(!t.inspect && !u.inspect && !s.inspect && !b.inspect);
}

#[test]
fn routing_table() {
    let json = || vec![h("content-type", "application/json")];
    assert_eq!(route(&request("POST", "/args", None, json(), b"")), Route::Args);
    assert_eq!(route(&request("OPTIONS", "/anything", None, vec![], b"")), Route::Preflight);
    assert_eq!(route(&request("POST", "/post", None, json(), b"")), Route::Post);
    assert_eq!(route(&request("POST", "/torrentget", None, json(), b"")), Route::TorrentGet);
    assert_eq!(route(&request("POST", "/iplookup", None, json(), b"")), Route::IpLookup);
    assert_eq!(route(&request("GET", "/args", None, json(), b"")), Route::NotFound);
    assert_eq!(route(&request("POST", "/args", None, vec![h("content-type", "text/plain")], b"")), Route::BadContentType);
    assert_eq!(route(&request("POST", "/nowhere", None, vec![], b"")), Route::BadContentType);
}

#[test]
fn dispatching() {
    let json = || vec![h("content-type", "application/json")];
    let mut ipc = Ipc::new();
    match http_response(request("POST", "/args", None, json(), b"[\"a\"]"), &dev(), &mut ipc) {
        Dispatch::DeliverArgs { delivered, held } => {
            assert_eq!(delivered, vec![b"[\"a\"]".to_vec()]);
            assert!(!held);
        }
        _ => panic!("args are delivered"),
    }
    match http_response(request("POST", "/post", Some("url=http://d"), json(), b"{}"), &dev(), &mut ipc) {
        Dispatch::Relay(plan) => assert!(!plan.inspect && plan.url == "http://d"),
        _ => panic!("post is relayed"),
    }
    match http_response(request("POST", "/torrentget", None, json(), b"{}"), &dev(), &mut ipc) {
        Dispatch::Respond(r) => assert_eq!(r.status, 400),
        _ => panic!("no query is refused"),
    }
    match http_response(request("PUT", "/x", None, json(), b""), &dev(), &mut ipc) {
        Dispatch::Respond(r) => assert_eq!(r.status, 404),
        _ => panic!("unknown route"),
    }
    match http_response(request("POST", "/post", None, vec![], b""), &dev(), &mut ipc) {
        Dispatch::Respond(r) => assert_eq!(r.body, b"INVALID REQUEST: unexpected content-type".to_vec()),
        _ => panic!("content type is checked first"),
    }
    match http_response(request("POST", "/iplookup", None, json(), b"[]"), &dev(), &mut ipc) {
        Dispatch::LookupIps(b) => assert_eq!(b, b"[]".to_vec()),
        _ => panic!("lookup"),
    }
}

#[test]
fn held_hand_off_waits_for_start() {
    let json = || vec![h("content-type", "application/json")];
    let mut ipc = Ipc::new();
    ipc.init(true);
    for body in [b"[\"a\"]".as_slice(), b"[\"b\"]".as_slice()] {
        match http_response(request("POST", "/args", None, json(), body), &dev(), &mut ipc) {
            Dispatch::DeliverArgs { delivered, held } => assert!(delivered.is_empty() && held),
            _ => panic!("args go through the latch"),
        }
    }
    assert_eq!(ipc.start(), vec![b"[\"a\"]".to_vec(), b"[\"b\"]".to_vec()]);
    match http_response(request("POST", "/args", None, json(), b"[\"c\"]"), &dev(), &mut ipc) {
        Dispatch::DeliverArgs { delivered, held } => {
            assert_eq!(delivered, vec![b"[\"c\"]".to_vec()]);
            assert!(!held);
        }
        _ => panic!("args go through the latch"),
    }
    ipc.pause();
    assert!(ipc.start().is_empty());
}
