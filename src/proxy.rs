//! Relaying a front-end RPC call to a remote daemon: the target URL taken
//! from the query string, the outbound request, and the response handed
//! back, whatever became of the call.

use vstd::prelude::*;
use vstd::string::{StrSliceExecFns, StringExecFns};
use vstd::utf8::{decode_utf8, encode_utf8, valid_utf8};

use crate::http::{
    cors, cors_headers, fetch_error, without_header, find_header, has_header, header_value, headers_view,
    invalid_request, is_decorated, session_header_name, strings_view, text_body, timed_out, Header,
    HttpRequest, HttpResponse, STATUS_SERVICE_UNAVAILABLE,
};

verus! {

/// The pieces of `s` between the separators `sep`, in order; there is
/// always at least one, possibly empty.
pub open spec fn segments(s: Seq<char>, sep: char) -> Seq<Seq<char>>
    decreases s.len(),
{
    if s.len() == 0 {
        seq![Seq::empty()]
    } else {
        let p = segments(s.drop_last(), sep);
        if s.last() == sep {
            p.push(Seq::empty())
        } else {
            p.update(p.len() - 1, p.last().push(s.last()))
        }
    }
}

proof fn lemma_segments_nonempty(s: Seq<char>, sep: char)
    ensures
        segments(s, sep).len() >= 1,
    decreases s.len(),
{
    if s.len() > 0 {
        lemma_segments_nonempty(s.drop_last(), sep);
    }
}

/// Splits `s` at each `sep`.
pub fn split_at_char(s: &str, sep: char) -> (r: Vec<String>)
    ensures
        strings_view(r@) == segments(s@, sep),
{
    let n = s.unicode_len();
    let mut r: Vec<String> = Vec::new();
    let mut start: usize = 0;
    let mut i: usize = 0;
    assert(s@.subrange(0, 0) =~= Seq::<char>::empty());
    assert(strings_view(r@).push(s@.subrange(0, 0)) =~= segments(s@.subrange(0, 0), sep));
    while i < n
        invariant
            n == s@.len(),
            start <= i <= n,
            strings_view(r@).push(s@.subrange(start as int, i as int)) == segments(
                s@.subrange(0, i as int),
                sep,
            ),
        decreases n - i,
    {
        let c = s.get_char(i);
        let ghost pre = s@.subrange(0, i as int);
        let ghost post = s@.subrange(0, i + 1);
        assert(post.drop_last() =~= pre);
        assert(post.last() == c);
        proof {
            lemma_segments_nonempty(pre, sep);
        }
        if c == sep {
            let piece = String::from_str(s.substring_char(start, i));
            let ghost rv = strings_view(r@);
            r.push(piece);
            assert(strings_view(r@) =~= rv.push(s@.subrange(start as int, i as int)));
            start = i + 1;
            assert(s@.subrange(start as int, i + 1) =~= Seq::<char>::empty());
            assert(segments(post, sep) == segments(pre, sep).push(Seq::<char>::empty()));
            assert(strings_view(r@).push(s@.subrange(start as int, i + 1)) =~= segments(post, sep));
        } else {
            assert(s@.subrange(start as int, i + 1) =~= s@.subrange(start as int, i as int).push(c));
            let ghost p = segments(pre, sep);
            assert(p == strings_view(r@).push(s@.subrange(start as int, i as int)));
            assert(segments(post, sep) == p.update(p.len() - 1, p.last().push(c)));
            assert(strings_view(r@).push(s@.subrange(start as int, i + 1)) =~= segments(post, sep));
        }
        i = i + 1;
    }
    let last = String::from_str(s.substring_char(start, n));
    let ghost rv = strings_view(r@);
    r.push(last);
    assert(strings_view(r@) =~= rv.push(s@.subrange(start as int, n as int)));
    assert(s@.subrange(0, n as int) =~= s@);
    r
}

/// The first `url` parameter among `pairs`, read from the front: the text
/// after `url=`, or `Some(None)` when there is none. A pair without `=`
/// that comes first makes the query malformed: `None`.
pub open spec fn url_param_in(pairs: Seq<Seq<char>>) -> Option<Option<Seq<char>>>
    decreases pairs.len(),
{
    if pairs.len() == 0 {
        Some(None)
    } else if !pairs[0].contains('=') {
        None
    } else if pairs[0].len() >= 4 && pairs[0].subrange(0, 4) == "url="@ {
        Some(Some(pairs[0].subrange(4, pairs[0].len() as int)))
    } else {
        url_param_in(pairs.drop_first())
    }
}

pub open spec fn url_param(query: Seq<char>) -> Option<Option<Seq<char>>> {
    url_param_in(segments(query, '&'))
}

/// Whether `s` holds the character `c`.
fn has_char(s: &str, c: char) -> (r: bool)
    ensures
        r == s@.contains(c),
{
    let n = s.unicode_len();
    let mut i: usize = 0;
    while i < n
        invariant
            n == s@.len(),
            i <= n,
            forall|k: int| 0 <= k < i ==> s@[k] != c,
        decreases n - i,
    {
        if s.get_char(i) == c {
            return true;
        }
        i = i + 1;
    }
    false
}

/// Finds the `url` parameter of `query`, still percent-encoded: `None`
/// for a malformed query, `Some(None)` when there is no such parameter.
pub fn find_url_param(query: &str) -> (r: Option<Option<String>>)
    ensures
        match r {
            Some(Some(v)) => url_param(query@) == Some(Some(v@)),
            Some(None) => url_param(query@) == Some(None::<Seq<char>>),
            None => url_param(query@) is None,
        },
{
    let pairs = split_at_char(query, '&');
    let key = String::from_str("url=");
    let ghost pv = strings_view(pairs@);
    assert(pv.subrange(0, pv.len() as int) =~= pv);
    let mut i: usize = 0;
    while i < pairs.len()
        invariant
            pv == strings_view(pairs@),
            pv == segments(query@, '&'),
            key@ == "url="@,
            i <= pairs@.len(),
            url_param(query@) == url_param_in(pv.subrange(i as int, pv.len() as int)),
        decreases pairs@.len() - i,
    {
        let ghost rest = pv.subrange(i as int, pv.len() as int);
        assert(rest[0] == pairs@[i as int]@);
        assert(rest.drop_first() =~= pv.subrange(i + 1, pv.len() as int));
        let pair = pairs[i].as_str();
        if !has_char(pair, '=') {
            return None;
        }
        let n = pair.unicode_len();
        if n >= 4 {
            let head = String::from_str(pair.substring_char(0, 4));
            if head == key {
                return Some(Some(String::from_str(pair.substring_char(4, n))));
            }
        }
        i = i + 1;
    }
    Some(None)
}

/// The value of a hexadecimal digit, in either case.
pub open spec fn hex_value(b: u8) -> Option<int> {
    if 48 <= b <= 57 {
        Some(b - 48)
    } else if 65 <= b <= 70 {
        Some(b - 55)
    } else if 97 <= b <= 102 {
        Some(b - 87)
    } else {
        None
    }
}

/// Bytes with each `%` followed by two hexadecimal digits replaced by the
/// byte they write; any other `%` stays as it is.
pub open spec fn percent_decode_bytes(b: Seq<u8>) -> Seq<u8>
    decreases b.len(),
{
    if b.len() == 0 {
        b
    } else if b[0] == 37 && b.len() >= 3 && hex_value(b[1]) is Some && hex_value(b[2]) is Some {
        seq![(hex_value(b[1])->0 * 16 + hex_value(b[2])->0) as u8] + percent_decode_bytes(
            b.subrange(3, b.len() as int),
        )
    } else {
        seq![b[0]] + percent_decode_bytes(b.subrange(1, b.len() as int))
    }
}

/// A percent-encoded string decoded as `urlencoding::decode` does: the
/// escapes of its UTF-8 bytes decoded, the result read as UTF-8; nothing
/// when it is not UTF-8.
pub open spec fn percent_decoded(s: Seq<char>) -> Option<Seq<char>> {
    let bytes = percent_decode_bytes(encode_utf8(s));
    if valid_utf8(bytes) {
        Some(decode_utf8(bytes))
    } else {
        None
    }
}

/// Relies on `urlencoding::decode`: the decoded string, or an error when the
/// decoded bytes are not UTF-8; a string with no `%` comes back as it is.
#[verifier::external_body]
fn decode_percent(s: &str) -> (r: Option<String>)
    ensures
        crate::poller::opt_view(r) == percent_decoded(s@),
        !s@.contains('%') ==> (r is Some && r->0@ == s@),
{
    match urlencoding::decode(s) {
        Ok(d) => Some(d.into_owned()),
        Err(_) => None,
    }
}


/// The outbound call to a remote daemon.
pub struct ProxyPlan {
    /// The decoded target URL.
    pub url: String,
    pub headers: Vec<Header>,
    pub body: Vec<u8>,
    /// Successful responses are to be inspected.
    pub inspect: bool,
    /// The caller asked for a desktop notification on completion.
    pub toast: bool,
    /// The caller asked for a sound on completion.
    pub sound: bool,
    /// The headers of the inbound request, which the reply is decorated for.
    pub request_headers: Vec<Header>,
}

/// The outbound headers: JSON content, and the session token and the
/// credentials of the inbound request when it has them.
pub open spec fn outbound_headers(request: Seq<(Seq<char>, Seq<char>)>) -> Seq<
    (Seq<char>, Seq<char>),
> {
    seq![("content-type"@, "application/json"@)] + (match header_value(
        request,
        session_header_name(),
    ) {
        Some(v) => seq![(session_header_name(), v)],
        None => Seq::empty(),
    }) + (match header_value(request, "authorization"@) {
        Some(v) => seq![("authorization"@, v)],
        None => Seq::empty(),
    })
}

/// The call that relays an inbound request with headers `request_headers`
/// and body `body` to `url`.
pub fn proxy_plan(url: String, request_headers: Vec<Header>, body: Vec<u8>, inspect: bool) -> (r:
    ProxyPlan)
    ensures
        r.request_headers@ == request_headers@,
        r.url@ == url@,
        headers_view(r.headers@) == outbound_headers(headers_view(request_headers@)),
        r.body@ == body@,
        r.inspect == inspect,
        r.toast == has_header(headers_view(request_headers@), "x-trguing-toast"@),
        r.sound == has_header(headers_view(request_headers@), "x-trguing-sound"@),
{
    let ghost req = headers_view(request_headers@);
    let mut headers: Vec<Header> = Vec::new();
    headers.push(Header { name: String::from_str("content-type"), value: String::from_str("application/json") });
    let ghost h1 = headers_view(headers@);
    match find_header(&request_headers, "x-transmission-session-id") {
        Some(v) => headers.push(Header { name: String::from_str("x-transmission-session-id"), value: v }),
        None => {},
    }
    let ghost h2 = headers_view(headers@);
    match find_header(&request_headers, "authorization") {
        Some(v) => headers.push(Header { name: String::from_str("authorization"), value: v }),
        None => {},
    }
    assert(h1 =~= seq![("content-type"@, "application/json"@)]);
    assert(h2 =~= h1 + match header_value(req, session_header_name()) {
        Some(v) => seq![(session_header_name(), v)],
        None => Seq::empty(),
    });
    assert(headers_view(headers@) =~= outbound_headers(req));
    let toast = find_header(&request_headers, "x-trguing-toast").is_some();
    let sound = find_header(&request_headers, "x-trguing-sound").is_some();
    ProxyPlan { url, headers, body, inspect, toast, sound, request_headers }
}

/// How an inbound relay request turns out before anything is sent: the
/// plan for a request whose `url` parameter decodes, else the 400 that
/// names what is missing.
pub open spec fn rejected_for(
    r: Result<ProxyPlan, HttpResponse>,
    request: HttpRequest,
    allowed: Seq<Seq<char>>,
    msg: Seq<char>,
) -> bool {
    r is Err && is_decorated(
        r->Err_0,
        crate::http::STATUS_BAD_REQUEST,
        encode_utf8("INVALID REQUEST: "@ + msg),
        headers_view(request.headers@),
        allowed,
    )
}

/// What planning the relay of `request` yields: see `prepare_proxy`.
pub open spec fn prepared(
    r: Result<ProxyPlan, HttpResponse>,
    request: HttpRequest,
    inspect: bool,
    allowed: Seq<Seq<char>>,
) -> bool {
    match request.query {
        None => rejected_for(r, request, allowed, "no query parameters"@),
        Some(query) => match url_param(query@) {
            None => rejected_for(r, request, allowed, "malformed query"@),
            Some(None) => rejected_for(r, request, allowed, "no url query parameter"@),
            Some(Some(raw)) => match percent_decoded(raw) {
                Some(target) => r is Ok && {
                    let p = r->Ok_0;
                    &&& p.url@ == target
                    &&& p.request_headers@ == request.headers@
                    &&& headers_view(p.headers@) == outbound_headers(headers_view(request.headers@))
                    &&& p.body@ == request.body@
                    &&& p.inspect == inspect
                    &&& p.toast == has_header(headers_view(request.headers@), "x-trguing-toast"@)
                    &&& p.sound == has_header(headers_view(request.headers@), "x-trguing-sound"@)
                },
                None => rejected_for(r, request, allowed, "malformed url query parameter"@),
            },
        },
    }
}

/// Plans the relay of `request` (a `/post` or `/torrentget` call): the
/// target is the percent-decoded `url` parameter of its query string.
pub fn prepare_proxy(request: HttpRequest, inspect: bool, allowed: &Vec<String>) -> (r: Result<
    ProxyPlan,
    HttpResponse,
>)
    ensures
        prepared(r, request, inspect, strings_view(allowed@)),
{
    let HttpRequest { method: _, path: _, query, headers, body } = request;
    match query {
        None => Err(invalid_request(&headers, "no query parameters", allowed)),
        Some(query) => match find_url_param(query.as_str()) {
            None => Err(invalid_request(&headers, "malformed query", allowed)),
            Some(None) => Err(invalid_request(&headers, "no url query parameter", allowed)),
            Some(Some(raw)) => match decode_percent(raw.as_str()) {
                Some(url) => Ok(proxy_plan(url, headers, body, inspect)),
                None => Err(invalid_request(&headers, "malformed url query parameter", allowed)),
            },
        },
    }
}

/// What came of sending a relayed call.
pub enum FetchOutcome {
    /// The remote answered; its body was read whole.
    Received { status: u16, headers: Vec<Header>, body: Vec<u8> },
    /// The remote answered but its body could not be read.
    BodyFailed,
    /// A connect or read deadline passed.
    TimedOut,
    /// Any other failure: the status it carries, if any, and its message.
    Failed { code: Option<u16>, message: String },
}

/// The reply to the front-end, and whether its body is to be inspected.
pub struct ProxyReply {
    pub response: HttpResponse,
    pub inspect: bool,
}

pub open spec fn is_success_status(status: u16) -> bool {
    200 <= status < 300
}

/// The remote's headers as relayed: the decoded target is echoed in
/// `x-original-url`, then CORS decoration follows.
pub open spec fn relayed_headers(
    remote: Seq<(Seq<char>, Seq<char>)>,
    url: Seq<char>,
    request: Seq<(Seq<char>, Seq<char>)>,
    allowed: Seq<Seq<char>>,
) -> Seq<(Seq<char>, Seq<char>)> {
    cors_headers(remote.push(("x-original-url"@, url)), request, allowed)
}

/// A relayed response starts with the remote's headers in their order (but
/// any allow-origin header), followed by the echo of the target; only CORS
/// headers come after.
pub proof fn lemma_relay_keeps_remote_headers(
    remote: Seq<(Seq<char>, Seq<char>)>,
    url: Seq<char>,
    request: Seq<(Seq<char>, Seq<char>)>,
    allowed: Seq<Seq<char>>,
)
    ensures
        ({
            let kept = without_header(remote, crate::http::allow_origin_name()).push(("x-original-url"@, url));
            let r = relayed_headers(remote, url, request, allowed);
            &&& kept.len() <= r.len()
            &&& r.subrange(0, kept.len() as int) == kept
        }),
{
    reveal_strlit("x-original-url");
    reveal_strlit("access-control-allow-origin");
    let x = ("x-original-url"@, url);
    assert(x.0 != crate::http::allow_origin_name()) by {
        assert(x.0.len() != crate::http::allow_origin_name().len());
    }
    let pushed = remote.push(x);
    assert(pushed.drop_last() =~= remote);
    let kept = without_header(remote, crate::http::allow_origin_name()).push(x);
    assert(without_header(pushed, crate::http::allow_origin_name()) == kept);
    let r = relayed_headers(remote, url, request, allowed);
    assert(r.subrange(0, kept.len() as int) =~= kept);
}

/// Turns the outcome of a relayed call into the reply. A received response
/// keeps its status and its body byte for byte; a timeout gives 408; a
/// failure gives its own status or 503. Every reply is CORS-decorated, and
/// only a successful response of a call planned for inspection is
/// inspected.
pub fn finish_proxy(plan: &ProxyPlan, outcome: FetchOutcome, allowed: &Vec<String>) -> (r:
    ProxyReply)
    ensures
        ({
            let req = headers_view(plan.request_headers@);
            let al = strings_view(allowed@);
            match outcome {
                FetchOutcome::Received { status, headers, body } => {
                    &&& r.response.status == status
                    &&& r.response.body@ == body@
                    &&& headers_view(r.response.headers@) == relayed_headers(
                        headers_view(headers@),
                        plan.url@,
                        req,
                        al,
                    )
                    &&& r.inspect == (plan.inspect && is_success_status(status))
                },
                FetchOutcome::BodyFailed => {
                    &&& is_decorated(
                        r.response,
                        STATUS_SERVICE_UNAVAILABLE,
                        encode_utf8("Proxy fetch error"@),
                        req,
                        al,
                    )
                    &&& !r.inspect
                },
                FetchOutcome::TimedOut => {
                    &&& is_decorated(
                        r.response,
                        crate::http::STATUS_REQUEST_TIMEOUT,
                        encode_utf8("Request timed out"@),
                        req,
                        al,
                    )
                    &&& !r.inspect
                },
                FetchOutcome::Failed { code, message } => {
                    &&& is_decorated(
                        r.response,
                        match code {
                            Some(s) => s,
                            None => STATUS_SERVICE_UNAVAILABLE,
                        },
                        encode_utf8(message@),
                        req,
                        al,
                    )
                    &&& !r.inspect
                },
            }
        }),
{
    let request_headers = &plan.request_headers;
    match outcome {
        FetchOutcome::Received { status, headers, body } => {
            let mut headers = headers;
            let ghost hv = headers_view(headers@);
            headers.push(Header { name: String::from_str("x-original-url"), value: plan.url.clone() });
            assert(headers_view(headers@) =~= hv.push(("x-original-url"@, plan.url@)));
            let mut response = HttpResponse { status, headers, body };
            cors(request_headers, &mut response, allowed);
            ProxyReply { response, inspect: plan.inspect && 200 <= status && status < 300 }
        },
        FetchOutcome::BodyFailed => ProxyReply {
            response: fetch_error(request_headers, allowed),
            inspect: false,
        },
        FetchOutcome::TimedOut => ProxyReply {
            response: timed_out(request_headers, allowed),
            inspect: false,
        },
        FetchOutcome::Failed { code, message } => {
            let code = match code {
                Some(s) => s,
                None => STATUS_SERVICE_UNAVAILABLE,
            };
            let mut response = HttpResponse { status: code, headers: Vec::new(), body: text_body(message.as_str()) };
            assert(headers_view(response.headers@) =~= Seq::empty());
            cors(request_headers, &mut response, allowed);
            ProxyReply { response, inspect: false }
        },
    }
}

} // verus!
