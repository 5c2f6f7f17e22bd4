//! Per-connection request handling: decide from a parsed request whether
//! to refuse the method, refuse the route, serve the static content, or
//! upgrade the connection, and render the exact bytes to send back.

use vstd::prelude::*;
use vstd::string::StrSliceExecFns;
use vstd::string::StringSliceAdditionalSpecFns;
use vstd::utf8::encode_utf8;
use crate::http::{
    spec_method, spec_path, spec_route, spec_headers, request_line, split_query, parse_headers,
};
use crate::handshake::{spec_handshake_response, handshake_response};

verus! {

/// Compare two strings by their character sequences.
pub fn str_eq(a: &str, b: &str) -> (r: bool)
    ensures
        r == (a@ == b@),
{
    let n = a.unicode_len();
    if n != b.unicode_len() {
        return false;
    }
    let mut i: usize = 0;
    while i < n
        invariant
            n == a@.len(),
            n == b@.len(),
            i <= n,
            forall|j: int| 0 <= j < i ==> a@[j] == b@[j],
        decreases n - i,
    {
        if a.get_char(i) != b.get_char(i) {
            return false;
        }
        i = i + 1;
    }
    proof {
        assert(a@ =~= b@);
    }
    true
}

/// Whether the header set holds the exact pair that signals a protocol
/// upgrade: name `Upgrade`, value `websocket`.
pub open spec fn spec_has_upgrade(hs: Seq<(Seq<char>, Seq<char>)>) -> bool {
    exists|i: int|
        0 <= i < hs.len() && (#[trigger] hs[i]).0 == "Upgrade"@ && hs[i].1 == "websocket"@
}

/// The value of the first header with the given name, or empty when no
/// header carries it.
pub open spec fn spec_header_value(hs: Seq<(Seq<char>, Seq<char>)>, name: Seq<char>) -> Seq<char>
    decreases hs.len(),
{
    if hs.len() == 0 {
        Seq::empty()
    } else if hs[0].0 == name {
        hs[0].1
    } else {
        spec_header_value(hs.drop_first(), name)
    }
}

/// A first match at `i` fixes the looked-up value.
proof fn lemma_header_value_at(hs: Seq<(Seq<char>, Seq<char>)>, name: Seq<char>, i: int)
    requires
        0 <= i < hs.len(),
        hs[i].0 == name,
        forall|j: int| 0 <= j < i ==> (#[trigger] hs[j]).0 != name,
    ensures
        spec_header_value(hs, name) == hs[i].1,
    decreases hs.len(),
{
    if i > 0 {
        lemma_header_value_at(hs.drop_first(), name, i - 1);
    }
}

/// Without a match the looked-up value is empty.
proof fn lemma_header_value_none(hs: Seq<(Seq<char>, Seq<char>)>, name: Seq<char>)
    requires
        forall|j: int| 0 <= j < hs.len() ==> (#[trigger] hs[j]).0 != name,
    ensures
        spec_header_value(hs, name) == Seq::<char>::empty(),
    decreases hs.len(),
{
    if hs.len() > 0 {
        lemma_header_value_none(hs.drop_first(), name);
    }
}

/// The exact bytes answered for a raw request on a server configured
/// with the given static content, and whether the connection is to be
/// upgraded afterwards: a non-GET method is refused with 405, a route
/// other than `/` with 404; without the upgrade header pair the content
/// is served with 200; otherwise the handshake response for the
/// client's key (missing key: empty string) is sent and the connection
/// upgraded.
pub open spec fn spec_response(req: Seq<char>, index: Seq<u8>) -> (Seq<u8>, bool) {
    if spec_method(req) != "GET"@ {
        ("HTTP/1.1 405 Method Not Allowed\r\n\r\n".spec_bytes(), false)
    } else if spec_route(spec_path(req)) != "/"@ {
        ("HTTP/1.1 404 Not Found\r\n\r\n".spec_bytes(), false)
    } else if !spec_has_upgrade(spec_headers(req)) {
        ("HTTP/1.1 200 OK\r\n\r\n".spec_bytes() + index, false)
    } else {
        (
            encode_utf8(
                spec_handshake_response(
                    encode_utf8(spec_header_value(spec_headers(req), "Sec-WebSocket-Key"@)),
                ),
            ),
            true,
        )
    }
}

/// Handle one parsed request: the bytes to send back, and whether the
/// connection is to be handed to a frame-reader loop afterwards.
pub fn handle_request(req: &str, index: &[u8]) -> (r: (Vec<u8>, bool))
    ensures
        r.0@ == spec_response(req@, index@).0,
        r.1 == spec_response(req@, index@).1,
{
    let (method, path) = request_line(req);
    if !str_eq(method, "GET") {
        return ("HTTP/1.1 405 Method Not Allowed\r\n\r\n".as_bytes_vec(), false);
    }
    let (route, _query) = split_query(path);
    if !str_eq(route, "/") {
        return ("HTTP/1.1 404 Not Found\r\n\r\n".as_bytes_vec(), false);
    }
    let headers = parse_headers(req);
    let ghost hs = spec_headers(req@);
    let mut upgrade = false;
    let mut i: usize = 0;
    while i < headers.len() && !upgrade
        invariant
            headers@.len() == hs.len(),
            forall|k: int| 0 <= k < hs.len() ==> {
                &&& (#[trigger] headers@[k]).0@ == hs[k].0
                &&& headers@[k].1@ == hs[k].1
            },
            i <= hs.len(),
            upgrade ==> spec_has_upgrade(hs),
            !upgrade ==> forall|k: int| 0 <= k < i ==> !((#[trigger] hs[k]).0 == "Upgrade"@
                && hs[k].1 == "websocket"@),
        decreases headers@.len() - i, (if upgrade { 0int } else { 1int }),
    {
        if str_eq(headers[i].0, "Upgrade") && str_eq(headers[i].1, "websocket") {
            upgrade = true;
        } else {
            i = i + 1;
        }
    }
    if !upgrade {
        let mut v = "HTTP/1.1 200 OK\r\n\r\n".as_bytes_vec();
        v.extend_from_slice(index);
        return (v, false);
    }
    let mut key: &str = "";
    proof {
        reveal_strlit("");
        assert(key@ =~= Seq::<char>::empty());
    }
    let mut found = false;
    let mut j: usize = 0;
    while j < headers.len() && !found
        invariant
            headers@.len() == hs.len(),
            forall|k: int| 0 <= k < hs.len() ==> {
                &&& (#[trigger] headers@[k]).0@ == hs[k].0
                &&& headers@[k].1@ == hs[k].1
            },
            j <= hs.len(),
            found ==> key@ == spec_header_value(hs, "Sec-WebSocket-Key"@),
            !found ==> key@ == Seq::<char>::empty(),
            !found ==> forall|k: int| 0 <= k < j ==> (#[trigger] hs[k]).0 != "Sec-WebSocket-Key"@,
        decreases headers@.len() - j, (if found { 0int } else { 1int }),
    {
        if str_eq(headers[j].0, "Sec-WebSocket-Key") {
            key = headers[j].1;
            found = true;
            proof {
                lemma_header_value_at(hs, "Sec-WebSocket-Key"@, j as int);
            }
        } else {
            j = j + 1;
        }
    }
    if !found {
        proof {
            lemma_header_value_none(hs, "Sec-WebSocket-Key"@);
        }
    }
    let resp = handshake_response(key);
    (resp.as_str().as_bytes_vec(), true)
}

} // verus!
