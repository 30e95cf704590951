//! The routing table of the local control server.

use vstd::prelude::*;
use vstd::string::StringExecFns;
use vstd::utf8::encode_utf8;

use crate::http::{
    find_header, header_value, headers_view, invalid_request, is_decorated, not_found, preflight,
    strings_view, text_body, HttpRequest, HttpResponse, STATUS_BAD_REQUEST, STATUS_NOT_FOUND,
    STATUS_OK,
};
use crate::ipc::{latch_post, payloads_view, Ipc};
use crate::proxy::{prepare_proxy, prepared, ProxyPlan};

verus! {

/// Where a request of the local control server goes.
#[derive(Debug, Clone, Copy, PartialEq, Eq, Structural)]
pub enum Route {
    /// `POST /args`: arguments handed over by another instance.
    Args,
    /// `OPTIONS`, any path: a CORS preflight.
    Preflight,
    /// `POST /post`: relay without inspection.
    Post,
    /// `POST /torrentget`: relay with inspection.
    TorrentGet,
    /// `POST /iplookup`: geo-IP lookup of a list of addresses.
    IpLookup,
    /// A non-preflight request that does not declare JSON content.
    BadContentType,
    /// Anything else.
    NotFound,
}

/// Routing: the content type is checked before the path, on every request
/// but a preflight.
pub open spec fn route_of(method: Seq<char>, path: Seq<char>, content_type: Option<Seq<char>>) -> Route {
    if method != "OPTIONS"@ && content_type != Some("application/json"@) {
        Route::BadContentType
    } else if method == "POST"@ && path == "/args"@ {
        Route::Args
    } else if method == "OPTIONS"@ {
        Route::Preflight
    } else if method == "POST"@ && path == "/post"@ {
        Route::Post
    } else if method == "POST"@ && path == "/torrentget"@ {
        Route::TorrentGet
    } else if method == "POST"@ && path == "/iplookup"@ {
        Route::IpLookup
    } else {
        Route::NotFound
    }
}

pub open spec fn request_route(request: HttpRequest) -> Route {
    route_of(
        request.method@,
        request.path@,
        header_value(headers_view(request.headers@), "content-type"@),
    )
}

fn is(s: &String, lit: &str) -> (r: bool)
    ensures
        r == (s@ == lit@),
{
    *s == String::from_str(lit)
}

/// The route of `request`.
pub fn route(request: &HttpRequest) -> (r: Route)
    ensures
        r == request_route(*request),
{
    let json = match find_header(&request.headers, "content-type") {
        Some(ct) => is(&ct, "application/json"),
        None => false,
    };
    let post = is(&request.method, "POST");
    let options = is(&request.method, "OPTIONS");
    if !options && !json {
        Route::BadContentType
    } else if post && is(&request.path, "/args") {
        Route::Args
    } else if options {
        Route::Preflight
    } else if post && is(&request.path, "/post") {
        Route::Post
    } else if post && is(&request.path, "/torrentget") {
        Route::TorrentGet
    } else if post && is(&request.path, "/iplookup") {
        Route::IpLookup
    } else {
        Route::NotFound
    }
}

/// What the server does with a request.
pub enum Dispatch {
    /// Answer at once.
    Respond(HttpResponse),
    /// An argument hand-off went through the latch: emit `delivered` now;
    /// acknowledge with `args_ack` at once, or, when the payload was
    /// `held`, once `Ipc::start` delivers it.
    DeliverArgs { delivered: Vec<Vec<u8>>, held: bool },
    /// Make the planned call, then reply with its outcome.
    Relay(ProxyPlan),
    /// Look up the addresses listed in this body.
    LookupIps(Vec<u8>),
}

/// A relay dispatch is the outcome of planning the relay: the plan, or the
/// reply that refuses it.
pub open spec fn relays_as(d: Dispatch, request: HttpRequest, inspect: bool, allowed: Seq<Seq<char>>) -> bool {
    match d {
        Dispatch::Relay(p) => prepared(Ok(p), request, inspect, allowed),
        Dispatch::Respond(x) => prepared(Err(x), request, inspect, allowed),
        _ => false,
    }
}

/// The acknowledgement of an argument hand-off.
pub fn args_ack() -> (r: HttpResponse)
    ensures
        r.status == STATUS_OK,
        r.headers@.len() == 0,
        r.body@ == encode_utf8("TrguiNG OK"@),
{
    HttpResponse { status: STATUS_OK, headers: Vec::new(), body: text_body("TrguiNG OK") }
}

/// Dispatches one request of the local control server by its route.
pub fn http_response(request: HttpRequest, allowed: &Vec<String>, ipc: &mut Ipc) -> (r: Dispatch)
    ensures
        request_route(request) != Route::Args ==> *final(ipc) == *old(ipc),
        request_route(request) == Route::Args ==> {
            &&& r is DeliverArgs
            &&& (final(ipc).pending(), payloads_view(r->delivered@)) == latch_post(
                old(ipc).latched(),
                old(ipc).pending(),
                request.body@,
            )
            &&& r->held == old(ipc).latched()
            &&& final(ipc).latched() == old(ipc).latched()
            &&& final(ipc).holds_port() == old(ipc).holds_port()
            &&& final(ipc).serving() == old(ipc).serving()
        },
        ({
            let req = headers_view(request.headers@);
            let al = strings_view(allowed@);
            match request_route(request) {
                Route::BadContentType => r is Respond && is_decorated(
                    r->Respond_0,
                    STATUS_BAD_REQUEST,
                    encode_utf8("INVALID REQUEST: "@ + "unexpected content-type"@),
                    req,
                    al,
                ),
                Route::Args => true,
                Route::Preflight => r is Respond && is_decorated(r->Respond_0, STATUS_OK, Seq::empty(), req, al),
                Route::Post => relays_as(r, request, false, al),
                Route::TorrentGet => relays_as(r, request, true, al),
                Route::IpLookup => r == Dispatch::LookupIps(request.body),
                Route::NotFound => r is Respond && r->Respond_0.status == STATUS_NOT_FOUND
                    && r->Respond_0.headers@.len() == 0 && r->Respond_0.body@ == encode_utf8(
                    "NOT FOUND"@,
                ),
            }
        }),
{
    match route(&request) {
        Route::BadContentType => Dispatch::Respond(
            invalid_request(&request.headers, "unexpected content-type", allowed),
        ),
        Route::Args => {
            let held = ipc.is_latched();
            let delivered = ipc.post_args(request.body);
            Dispatch::DeliverArgs { delivered, held }
        },
        Route::Preflight => Dispatch::Respond(preflight(&request.headers, allowed)),
        Route::Post => match prepare_proxy(request, false, allowed) {
            Ok(plan) => Dispatch::Relay(plan),
            Err(response) => Dispatch::Respond(response),
        },
        Route::TorrentGet => match prepare_proxy(request, true, allowed) {
            Ok(plan) => Dispatch::Relay(plan),
            Err(response) => Dispatch::Respond(response),
        },
        Route::IpLookup => Dispatch::LookupIps(request.body),
        Route::NotFound => Dispatch::Respond(not_found()),
    }
}

} // verus!
