//! The `/iplookup` route: the body is a JSON array of address strings; any
//! entry that is not an address makes the whole request a 400 that lists
//! every bad entry.

use vstd::prelude::*;
use vstd::string::StringExecFns;
use vstd::utf8::encode_utf8;

use crate::http::{
    headers_view, invalid_request, is_decorated, strings_view, text_body, Header, HttpResponse,
    STATUS_BAD_REQUEST, STATUS_OK,
};

verus! {

/// What `serde_json::from_slice::<Vec<String>>` makes of a body: the strings
/// of a JSON array of strings, or nothing for any other text.
pub uninterp spec fn json_strings_of(b: Seq<u8>) -> Option<Seq<Seq<char>>>;

/// Relies on `serde_json::from_slice::<Vec<String>>`: the strings of a JSON
/// array of strings, else the parser's error message.
#[verifier::external_body]
fn parse_string_array(body: &[u8]) -> (r: Result<Vec<String>, String>)
    ensures
        r is Ok <==> json_strings_of(body@) is Some,
        r is Ok ==> strings_view(r->Ok_0@) == json_strings_of(body@)->0,
{
    match serde_json::from_slice::<Vec<String>>(body) {
        Ok(v) => Ok(v),
        Err(e) => Err(e.to_string()),
    }
}

/// The addresses listed in an `/iplookup` body, or the 400 that says the
/// body is not a JSON array of strings.
pub fn ip_list(body: &Vec<u8>, request_headers: &Vec<Header>, allowed: &Vec<String>) -> (r: Result<
    Vec<String>,
    HttpResponse,
>)
    ensures
        r is Ok <==> json_strings_of(body@) is Some,
        r is Ok ==> strings_view(r->Ok_0@) == json_strings_of(body@)->0,
        r is Err ==> exists|e: Seq<char>|
            is_decorated(
                #[trigger] r->Err_0,
                STATUS_BAD_REQUEST,
                encode_utf8("INVALID REQUEST: "@ + ("Can not parse json: "@ + e + "\n"@)),
                headers_view(request_headers@),
                strings_view(allowed@),
            ),
{
    match parse_string_array(body.as_slice()) {
        Ok(v) => Ok(v),
        Err(e) => {
            let msg = String::from_str("Can not parse json: ").concat(e.as_str()).concat("\n");
            let r = invalid_request(request_headers, msg.as_str(), allowed);
            assert(msg@ == "Can not parse json: "@ + e@ + "\n"@);
            Err(r)
        },
    }
}

/// The lines that name the bad entries: `<entry>: <error>` for each entry
/// whose parse failed, in order.
pub open spec fn bad_lines(ips: Seq<Seq<char>>, errors: Seq<Option<Seq<char>>>) -> Seq<Seq<char>>
    decreases ips.len(),
{
    if ips.len() == 0 || errors.len() != ips.len() {
        Seq::empty()
    } else {
        let rest = bad_lines(ips.drop_last(), errors.drop_last());
        match errors.last() {
            Some(e) => rest.push(ips.last() + ": "@ + e),
            None => rest,
        }
    }
}

/// Each line followed by a line break.
pub open spec fn lines_text(lines: Seq<Seq<char>>) -> Seq<char>
    decreases lines.len(),
{
    if lines.len() == 0 {
        Seq::empty()
    } else {
        lines_text(lines.drop_last()) + lines.last() + "\n"@
    }
}

pub open spec fn errors_view(v: Seq<Option<String>>) -> Seq<Option<Seq<char>>> {
    v.map_values(|e: Option<String>| crate::poller::opt_view(e))
}

/// The 400 for a list whose entries `errors` says did not parse as
/// addresses (one error or none per entry), or none when all did.
pub fn reject_bad_ips(
    ips: &Vec<String>,
    errors: &Vec<Option<String>>,
    request_headers: &Vec<Header>,
    allowed: &Vec<String>,
) -> (r: Option<HttpResponse>)
    requires
        ips@.len() == errors@.len(),
    ensures
        ({
            let lines = bad_lines(strings_view(ips@), errors_view(errors@));
            &&& lines.len() == 0 ==> r is None
            &&& lines.len() > 0 ==> r is Some && is_decorated(
                r->0,
                STATUS_BAD_REQUEST,
                encode_utf8("INVALID REQUEST: "@ + lines_text(lines)),
                headers_view(request_headers@),
                strings_view(allowed@),
            )
        }),
{
    let ghost iv = strings_view(ips@);
    let ghost ev = errors_view(errors@);
    let mut text = String::new();
    let mut count: usize = 0;
    let mut i: usize = 0;
    assert(iv.subrange(0, 0) =~= Seq::<Seq<char>>::empty());
    while i < ips.len()
        invariant
            iv == strings_view(ips@),
            ev == errors_view(errors@),
            ips@.len() == errors@.len(),
            i <= ips@.len(),
            count <= i,
            count == bad_lines(iv.subrange(0, i as int), ev.subrange(0, i as int)).len(),
            text@ == lines_text(bad_lines(iv.subrange(0, i as int), ev.subrange(0, i as int))),
        decreases ips@.len() - i,
    {
        let ghost pi = iv.subrange(0, i + 1);
        let ghost pe = ev.subrange(0, i + 1);
        assert(pi.drop_last() =~= iv.subrange(0, i as int));
        assert(pe.drop_last() =~= ev.subrange(0, i as int));
        assert(pi.last() == ips@[i as int]@);
        assert(pe.last() == crate::poller::opt_view(errors@[i as int]));
        match &errors[i] {
            Some(e) => {
                let line = ips[i].clone().concat(": ").concat(e.as_str());
                let ghost prev_lines = bad_lines(iv.subrange(0, i as int), ev.subrange(0, i as int));
                let ghost lines = bad_lines(pi, pe);
                assert(lines == prev_lines.push(line@));
                assert(lines.drop_last() =~= prev_lines);
                assert(lines_text(lines) == lines_text(prev_lines) + line@ + "\n"@);
                text = text.concat(line.as_str()).concat("\n");
                count = count + 1;
            },
            None => {
                assert(bad_lines(pi, pe) == bad_lines(iv.subrange(0, i as int), ev.subrange(0, i as int)));
            },
        }
        i = i + 1;
    }
    assert(iv.subrange(0, i as int) =~= iv);
    assert(ev.subrange(0, i as int) =~= ev);
    if count == 0 {
        None
    } else {
        Some(invalid_request(request_headers, text.as_str(), allowed))
    }
}

/// The 200 that carries the lookup results, already serialised as JSON.
pub fn lookup_reply(json: String, request_headers: &Vec<Header>, allowed: &Vec<String>) -> (r: HttpResponse)
    ensures
        is_decorated(r, STATUS_OK, encode_utf8(json@), headers_view(request_headers@), strings_view(allowed@)),
{
    let mut r = HttpResponse { status: STATUS_OK, headers: Vec::new(), body: text_body(json.as_str()) };
    assert(headers_view(r.headers@) =~= Seq::empty());
    crate::http::cors(request_headers, &mut r, allowed);
    r
}

} // verus!
