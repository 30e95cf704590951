//! Requests and responses of the local control server as plain values, and
//! the CORS decoration that every relayed response gets.

use vstd::prelude::*;
use vstd::string::{StrSliceExecFns, StringExecFns};
use vstd::utf8::encode_utf8;

verus! {

/// One header line. Names are held in lower case, as HTTP compares them
/// without regard to case.
pub struct Header {
    pub name: String,
    pub value: String,
}

pub open spec fn header_view(h: Header) -> (Seq<char>, Seq<char>) {
    (h.name@, h.value@)
}

pub open spec fn headers_view(hs: Seq<Header>) -> Seq<(Seq<char>, Seq<char>)> {
    hs.map_values(|h: Header| header_view(h))
}

/// A request to the local control server.
pub struct HttpRequest {
    pub method: String,
    pub path: String,
    pub query: Option<String>,
    pub headers: Vec<Header>,
    pub body: Vec<u8>,
}

/// A response of the local control server.
pub struct HttpResponse {
    pub status: u16,
    pub headers: Vec<Header>,
    pub body: Vec<u8>,
}

pub const STATUS_OK: u16 = 200;

pub const STATUS_BAD_REQUEST: u16 = 400;

pub const STATUS_NOT_FOUND: u16 = 404;

pub const STATUS_REQUEST_TIMEOUT: u16 = 408;

pub const STATUS_CONFLICT: u16 = 409;

pub const STATUS_SERVICE_UNAVAILABLE: u16 = 503;

pub open spec fn allow_origin_name() -> Seq<char> {
    "access-control-allow-origin"@
}

pub open spec fn allow_headers_name() -> Seq<char> {
    "access-control-allow-headers"@
}

pub open spec fn expose_headers_name() -> Seq<char> {
    "access-control-expose-headers"@
}

pub open spec fn allow_methods_name() -> Seq<char> {
    "access-control-allow-methods"@
}

pub open spec fn origin_name() -> Seq<char> {
    "origin"@
}

/// The session token header of the daemon, as it is exposed to the browser.
pub open spec fn session_header() -> Seq<char> {
    "X-Transmission-Session-Id"@
}

/// The name under which requests and responses carry the session token.
pub open spec fn session_header_name() -> Seq<char> {
    "x-transmission-session-id"@
}

/// The value of the first header named `n`, if any.
pub open spec fn header_value(hs: Seq<(Seq<char>, Seq<char>)>, n: Seq<char>) -> Option<Seq<char>>
    decreases hs.len(),
{
    if hs.len() == 0 {
        None
    } else if hs[0].0 == n {
        Some(hs[0].1)
    } else {
        header_value(hs.drop_first(), n)
    }
}

pub open spec fn has_header(hs: Seq<(Seq<char>, Seq<char>)>, n: Seq<char>) -> bool {
    exists|i: int| 0 <= i < hs.len() && hs[i].0 == n
}

/// `hs` without the headers named `n`, the others in order.
pub open spec fn without_header(hs: Seq<(Seq<char>, Seq<char>)>, n: Seq<char>) -> Seq<
    (Seq<char>, Seq<char>),
>
    decreases hs.len(),
{
    if hs.len() == 0 {
        hs
    } else if hs.last().0 == n {
        without_header(hs.drop_last(), n)
    } else {
        without_header(hs.drop_last(), n).push(hs.last())
    }
}

/// The request's declared origin is one of `allowed`, exactly.
pub open spec fn origin_allowed(
    request: Seq<(Seq<char>, Seq<char>)>,
    allowed: Seq<Seq<char>>,
) -> bool {
    &&& header_value(request, origin_name()) is Some
    &&& allowed.contains(header_value(request, origin_name())->0)
}

/// The headers of a response after CORS decoration: any allow-origin
/// header is dropped; the request's origin is allowed back only when it is
/// listed; all request headers and the methods `POST, OPTIONS` are allowed,
/// and the session header is exposed.
pub open spec fn cors_headers(
    hs: Seq<(Seq<char>, Seq<char>)>,
    request: Seq<(Seq<char>, Seq<char>)>,
    allowed: Seq<Seq<char>>,
) -> Seq<(Seq<char>, Seq<char>)> {
    without_header(hs, allow_origin_name()) + (if origin_allowed(request, allowed) {
        seq![(allow_origin_name(), header_value(request, origin_name())->0)]
    } else {
        Seq::empty()
    }) + seq![(allow_headers_name(), "*"@)] + seq![(expose_headers_name(), session_header())]
        + seq![(allow_methods_name(), "POST, OPTIONS"@)]
}

pub open spec fn strings_view(v: Seq<String>) -> Seq<Seq<char>> {
    v.map_values(|s: String| s@)
}

/// The origins that may read relayed responses: those of the packaged
/// webview, or that of the development server.
pub fn allowed_origins(packaged: bool) -> (r: Vec<String>)
    ensures
        packaged ==> strings_view(r@) == seq!["tauri://localhost"@, "http://tauri.localhost"@],
        !packaged ==> strings_view(r@) == seq!["http://localhost:8080"@],
{
    let mut r: Vec<String> = Vec::new();
    if packaged {
        r.push(String::from_str("tauri://localhost"));
        r.push(String::from_str("http://tauri.localhost"));
    } else {
        r.push(String::from_str("http://localhost:8080"));
    }
    assert(strings_view(r@) =~= if packaged {
        seq!["tauri://localhost"@, "http://tauri.localhost"@]
    } else {
        seq!["http://localhost:8080"@]
    });
    r
}

/// The value of the first header named `name`.
pub fn find_header(hs: &Vec<Header>, name: &str) -> (r: Option<String>)
    ensures
        match r {
            Some(v) => header_value(headers_view(hs@), name@) == Some(v@),
            None => header_value(headers_view(hs@), name@) is None,
        },
        r is Some <==> has_header(headers_view(hs@), name@),
{
    let n = String::from_str(name);
    let ghost hv = headers_view(hs@);
    assert(hv.subrange(0, hv.len() as int) =~= hv);
    let mut i: usize = 0;
    while i < hs.len()
        invariant
            hv == headers_view(hs@),
            n@ == name@,
            i <= hs@.len(),
            header_value(hv, n@) == header_value(hv.subrange(i as int, hv.len() as int), n@),
            forall|j: int| 0 <= j < i ==> hv[j].0 != n@,
        decreases hs@.len() - i,
    {
        let ghost rest = hv.subrange(i as int, hv.len() as int);
        assert(rest[0] == hv[i as int]);
        if hs[i].name == n {
            return Some(hs[i].value.clone());
        }
        assert(rest.drop_first() =~= hv.subrange(i + 1, hv.len() as int));
        i = i + 1;
    }
    assert(hv.subrange(i as int, hv.len() as int).len() == 0);
    None
}

fn contains_string(v: &Vec<String>, s: &String) -> (r: bool)
    ensures
        r == strings_view(v@).contains(s@),
{
    let mut i: usize = 0;
    while i < v.len()
        invariant
            i <= v@.len(),
            forall|j: int| 0 <= j < i ==> v@[j]@ != s@,
        decreases v@.len() - i,
    {
        if v[i] == *s {
            assert(strings_view(v@)[i as int] == s@);
            return true;
        }
        i = i + 1;
    }
    assert forall|j: int| 0 <= j < strings_view(v@).len() implies strings_view(v@)[j] != s@ by {}
    false
}

fn header(name: &str, value: String) -> (r: Header)
    ensures
        header_view(r) == (name@, value@),
{
    Header { name: String::from_str(name), value }
}

/// Decorates `response` for cross-origin reads by the front-end: see
/// `cors_headers`. Status and body are kept.
pub fn cors(request_headers: &Vec<Header>, response: &mut HttpResponse, allowed: &Vec<String>)
    ensures
        final(response).status == old(response).status,
        final(response).body@ == old(response).body@,
        headers_view(final(response).headers@) == cors_headers(
            headers_view(old(response).headers@),
            headers_view(request_headers@),
            strings_view(allowed@),
        ),
{
    let ghost hs = headers_view(response.headers@);
    let acao = String::from_str("access-control-allow-origin");
    let old_headers = &response.headers;
    let mut kept: Vec<Header> = Vec::new();
    let mut i: usize = 0;
    while i < old_headers.len()
        invariant
            hs == headers_view(old_headers@),
            acao@ == allow_origin_name(),
            i <= old_headers@.len(),
            headers_view(kept@) == without_header(hs.subrange(0, i as int), acao@),
        decreases old_headers@.len() - i,
    {
        let ghost pre = hs.subrange(0, i as int);
        assert(hs.subrange(0, i + 1).drop_last() =~= pre);
        if old_headers[i].name != acao {
            let h = Header { name: old_headers[i].name.clone(), value: old_headers[i].value.clone() };
            let ghost kv = kept@;
            kept.push(h);
            assert(headers_view(kept@) =~= headers_view(kv).push(header_view(h)));
        }
        i = i + 1;
    }
    assert(hs.subrange(0, hs.len() as int) =~= hs);
    let ghost base = headers_view(kept@);
    let ghost req = headers_view(request_headers@);
    let mut extra: Vec<Header> = Vec::new();
    match find_header(request_headers, "origin") {
        Some(origin) => {
            if contains_string(allowed, &origin) {
                extra.push(header("access-control-allow-origin", origin));
            }
        },
        None => {},
    }
    let ghost first = headers_view(extra@);
    extra.push(header("access-control-allow-headers", String::from_str("*")));
    extra.push(header("access-control-expose-headers", String::from_str("X-Transmission-Session-Id")));
    extra.push(header("access-control-allow-methods", String::from_str("POST, OPTIONS")));
    let ghost ev = extra@;
    kept.append(&mut extra);
    proof {
        assert(first =~= if origin_allowed(req, strings_view(allowed@)) {
            seq![(allow_origin_name(), header_value(req, origin_name())->0)]
        } else {
            Seq::empty()
        });
        assert(headers_view(ev) =~= first + seq![(allow_headers_name(), "*"@)] + seq![
            (expose_headers_name(), session_header()),
        ] + seq![(allow_methods_name(), "POST, OPTIONS"@)]);
        assert(headers_view(kept@) =~= base + headers_view(ev));
    }
    response.headers = kept;
}


proof fn lemma_without_header(hs: Seq<(Seq<char>, Seq<char>)>, n: Seq<char>)
    ensures
        !has_header(without_header(hs, n), n),
    decreases hs.len(),
{
    if hs.len() > 0 {
        lemma_without_header(hs.drop_last(), n);
        let w = without_header(hs, n);
        let p = without_header(hs.drop_last(), n);
        if hs.last().0 != n {
            assert forall|i: int| 0 <= i < w.len() implies w[i].0 != n by {
                if i < p.len() {
                    assert(w[i] == p[i]);
                }
            }
        }
    }
}

/// How many headers of `hs` are named `n`.
pub open spec fn header_count(hs: Seq<(Seq<char>, Seq<char>)>, n: Seq<char>) -> nat
    decreases hs.len(),
{
    if hs.len() == 0 {
        0
    } else {
        header_count(hs.drop_last(), n) + if hs.last().0 == n {
            1nat
        } else {
            0nat
        }
    }
}

proof fn lemma_count_absent(hs: Seq<(Seq<char>, Seq<char>)>, n: Seq<char>)
    requires
        !has_header(hs, n),
    ensures
        header_count(hs, n) == 0,
    decreases hs.len(),
{
    if hs.len() > 0 {
        assert(hs.last() == hs[hs.len() - 1]);
        assert(!has_header(hs.drop_last(), n)) by {
            if has_header(hs.drop_last(), n) {
                let i = choose|i: int| 0 <= i < hs.drop_last().len() && hs.drop_last()[i].0 == n;
                assert(hs[i].0 == n);
            }
        }
        lemma_count_absent(hs.drop_last(), n);
    }
}

proof fn lemma_count_concat(a: Seq<(Seq<char>, Seq<char>)>, b: Seq<(Seq<char>, Seq<char>)>, n: Seq<char>)
    ensures
        header_count(a + b, n) == header_count(a, n) + header_count(b, n),
    decreases b.len(),
{
    if b.len() > 0 {
        assert((a + b).drop_last() =~= a + b.drop_last());
        lemma_count_concat(a, b.drop_last(), n);
    } else {
        assert(a + b =~= a);
    }
}

/// The allow-origin header is granted exactly to the listed origins: a
/// response decorated for a request whose origin is not listed (or that
/// declares none) has no allow-origin header, and one for a listed origin
/// has exactly one, with that origin as its value, whatever allow-origin
/// headers the response had before.
pub proof fn lemma_cors_allow_origin(
    hs: Seq<(Seq<char>, Seq<char>)>,
    request: Seq<(Seq<char>, Seq<char>)>,
    allowed: Seq<Seq<char>>,
)
    ensures
        header_count(cors_headers(hs, request, allowed), allow_origin_name()) == if origin_allowed(
            request,
            allowed,
        ) {
            1nat
        } else {
            0nat
        },
        has_header(cors_headers(hs, request, allowed), allow_origin_name()) <==> origin_allowed(
            request,
            allowed,
        ),
        origin_allowed(request, allowed) ==> header_value(
            cors_headers(hs, request, allowed),
            allow_origin_name(),
        ) == header_value(request, origin_name()),
{
    let base = without_header(hs, allow_origin_name());
    let c = cors_headers(hs, request, allowed);
    lemma_without_header(hs, allow_origin_name());
    reveal_strlit("access-control-allow-origin");
    reveal_strlit("access-control-allow-headers");
    reveal_strlit("access-control-expose-headers");
    reveal_strlit("access-control-allow-methods");
    assert(allow_origin_name() != allow_headers_name()) by {
        assert(allow_origin_name().len() != allow_headers_name().len());
    }
    assert(allow_origin_name() != expose_headers_name()) by {
        assert(allow_origin_name().len() != expose_headers_name().len());
    }
    assert(allow_origin_name() != allow_methods_name()) by {
        assert(allow_origin_name().len() != allow_methods_name().len());
    }
    let x: Seq<(Seq<char>, Seq<char>)> = if origin_allowed(request, allowed) {
        seq![(allow_origin_name(), header_value(request, origin_name())->0)]
    } else {
        Seq::empty()
    };
    let h1 = seq![(allow_headers_name(), "*"@)];
    let h2 = seq![(expose_headers_name(), session_header())];
    let h3 = seq![(allow_methods_name(), "POST, OPTIONS"@)];
    assert(c == base + x + h1 + h2 + h3);
    lemma_count_absent(base, allow_origin_name());
    lemma_count_concat(base, x, allow_origin_name());
    lemma_count_concat(base + x, h1, allow_origin_name());
    lemma_count_concat(base + x + h1, h2, allow_origin_name());
    lemma_count_concat(base + x + h1 + h2, h3, allow_origin_name());
    assert(h1.drop_last() =~= Seq::<(Seq<char>, Seq<char>)>::empty());
    assert(h2.drop_last() =~= Seq::<(Seq<char>, Seq<char>)>::empty());
    assert(h3.drop_last() =~= Seq::<(Seq<char>, Seq<char>)>::empty());
    assert(header_count(Seq::<(Seq<char>, Seq<char>)>::empty(), allow_origin_name()) == 0);
    assert(header_count(h1, allow_origin_name()) == 0);
    assert(header_count(h2, allow_origin_name()) == 0);
    assert(header_count(h3, allow_origin_name()) == 0);
    if origin_allowed(request, allowed) {
        assert(x.drop_last() =~= Seq::<(Seq<char>, Seq<char>)>::empty());
        assert(header_count(x, allow_origin_name()) == 1);
    } else {
        assert(x =~= Seq::<(Seq<char>, Seq<char>)>::empty());
        assert(header_count(x, allow_origin_name()) == 0);
    }
    if origin_allowed(request, allowed) {
        assert(c[base.len() as int].0 == allow_origin_name());
        assert(c.subrange(0, base.len() as int) =~= base);
        lemma_header_value_after(base, c, allow_origin_name());
    } else {
        assert forall|i: int| 0 <= i < c.len() implies c[i].0 != allow_origin_name() by {
            if i < base.len() {
                assert(c[i] == base[i]);
            }
        }
    }
}

/// The first header named `n` in `c`, where `c` starts with `base` (which
/// has none) followed by one such header.
proof fn lemma_header_value_after(
    base: Seq<(Seq<char>, Seq<char>)>,
    c: Seq<(Seq<char>, Seq<char>)>,
    n: Seq<char>,
)
    requires
        !has_header(base, n),
        base.len() < c.len(),
        c.subrange(0, base.len() as int) == base,
        c[base.len() as int].0 == n,
    ensures
        header_value(c, n) == Some(c[base.len() as int].1),
    decreases base.len(),
{
    if base.len() > 0 {
        assert(c[0] == base[0]);
        assert(c.drop_first().subrange(0, base.len() - 1) =~= base.drop_first());
        assert(!has_header(base.drop_first(), n)) by {
            if has_header(base.drop_first(), n) {
                let i = choose|i: int| 0 <= i < base.drop_first().len() && base.drop_first()[i].0 == n;
                assert(base[i + 1].0 == n);
            }
        }
        lemma_header_value_after(base.drop_first(), c.drop_first(), n);
    }
}

/// The bytes of a text body.
pub fn text_body(s: &str) -> (r: Vec<u8>)
    ensures
        r@ == encode_utf8(s@),
{
    s.as_bytes_vec()
}

/// A response of status `status` and body `body`, decorated for the request
/// whose headers are `request`.
pub open spec fn is_decorated(
    r: HttpResponse,
    status: u16,
    body: Seq<u8>,
    request: Seq<(Seq<char>, Seq<char>)>,
    allowed: Seq<Seq<char>>,
) -> bool {
    &&& r.status == status
    &&& r.body@ == body
    &&& headers_view(r.headers@) == cors_headers(Seq::empty(), request, allowed)
}

fn decorated(status: u16, body: Vec<u8>, request_headers: &Vec<Header>, allowed: &Vec<String>) -> (r:
    HttpResponse)
    ensures
        is_decorated(r, status, body@, headers_view(request_headers@), strings_view(allowed@)),
{
    let mut r = HttpResponse { status, headers: Vec::new(), body };
    assert(headers_view(r.headers@) =~= Seq::empty());
    cors(request_headers, &mut r, allowed);
    r
}

/// 404 for a path that the server does not serve; no CORS decoration.
pub fn not_found() -> (r: HttpResponse)
    ensures
        r.status == STATUS_NOT_FOUND,
        r.headers@.len() == 0,
        r.body@ == encode_utf8("NOT FOUND"@),
{
    HttpResponse { status: STATUS_NOT_FOUND, headers: Vec::new(), body: text_body("NOT FOUND") }
}

/// 408: the remote did not answer in time.
pub fn timed_out(request_headers: &Vec<Header>, allowed: &Vec<String>) -> (r: HttpResponse)
    ensures
        is_decorated(
            r,
            STATUS_REQUEST_TIMEOUT,
            encode_utf8("Request timed out"@),
            headers_view(request_headers@),
            strings_view(allowed@),
        ),
{
    decorated(STATUS_REQUEST_TIMEOUT, text_body("Request timed out"), request_headers, allowed)
}

/// 503: the remote could not be reached or its answer not read.
pub fn fetch_error(request_headers: &Vec<Header>, allowed: &Vec<String>) -> (r: HttpResponse)
    ensures
        is_decorated(
            r,
            STATUS_SERVICE_UNAVAILABLE,
            encode_utf8("Proxy fetch error"@),
            headers_view(request_headers@),
            strings_view(allowed@),
        ),
{
    decorated(STATUS_SERVICE_UNAVAILABLE, text_body("Proxy fetch error"), request_headers, allowed)
}

/// 400 with the reason `msg`.
pub fn invalid_request(request_headers: &Vec<Header>, msg: &str, allowed: &Vec<String>) -> (r:
    HttpResponse)
    ensures
        is_decorated(
            r,
            STATUS_BAD_REQUEST,
            encode_utf8("INVALID REQUEST: "@ + msg@),
            headers_view(request_headers@),
            strings_view(allowed@),
        ),
{
    let text = String::from_str("INVALID REQUEST: ").concat(msg);
    decorated(STATUS_BAD_REQUEST, text_body(text.as_str()), request_headers, allowed)
}

/// 200 with an empty body: the answer to a CORS preflight.
pub fn preflight(request_headers: &Vec<Header>, allowed: &Vec<String>) -> (r: HttpResponse)
    ensures
        is_decorated(r, STATUS_OK, Seq::empty(), headers_view(request_headers@), strings_view(allowed@)),
{
    decorated(STATUS_OK, Vec::new(), request_headers, allowed)
}

} // verus!
