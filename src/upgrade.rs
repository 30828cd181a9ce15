//! Validation of the HTTP upgrade request that opens a WebSocket connection.
use vstd::prelude::*;

verus! {

/// The lowercase form of a string.
pub uninterp spec fn lower_of(s: Seq<char>) -> Seq<char>;

/// Relies on `str::to_lowercase`: the result depends on the characters alone.
#[verifier::external_body]
fn lowercase(s: &str) -> (r: String)
    ensures
        r@ == lower_of(s@),
{
    s.to_lowercase()
}

/// The value of the last header of the given name (names compare exactly).
pub open spec fn header_value(headers: Seq<(String, String)>, name: Seq<char>) -> Option<Seq<char>>
    decreases headers.len(),
{
    if headers.len() == 0 {
        None
    } else if headers.last().0@ == name {
        Some(headers.last().1@)
    } else {
        header_value(headers.drop_last(), name)
    }
}

/// A header is present with a value whose lowercase form is `expected`.
pub open spec fn header_is_lower(headers: Seq<(String, String)>, name: Seq<char>, expected: Seq<char>) -> bool {
    header_value(headers, name) is Some && lower_of(header_value(headers, name)->Some_0) == expected
}

/// The request is `GET / HTTP/1.1` with `Connection: Upgrade`,
/// `Upgrade: websocket` (values in any case), `Sec-WebSocket-Version: 13` and
/// a `Sec-WebSocket-Key`.
pub open spec fn valid_upgrade(
    method: Seq<char>,
    path: Seq<char>,
    version: Seq<char>,
    headers: Seq<(String, String)>,
) -> bool {
    &&& method == "GET"@
    &&& path == "/"@
    &&& version == "HTTP/1.1"@
    &&& header_is_lower(headers, "Connection"@, "upgrade"@)
    &&& header_is_lower(headers, "Upgrade"@, "websocket"@)
    &&& header_value(headers, "Sec-WebSocket-Version"@) == Some("13"@)
    &&& header_value(headers, "Sec-WebSocket-Key"@) is Some
}

/// Finds the value of the last header named `name`.
pub fn find_header(headers: &Vec<(String, String)>, name: &str) -> (r: Option<String>)
    ensures
        match r {
            Some(v) => header_value(headers@, name@) == Some(v@),
            None => header_value(headers@, name@) is None,
        },
{
    let wanted = String::from_str(name);
    let mut i: usize = headers.len();
    assert(headers@.subrange(0, i as int) =~= headers@);
    while i > 0
        invariant
            i <= headers@.len(),
            wanted@ == name@,
            header_value(headers@, name@) == header_value(headers@.subrange(0, i as int), name@),
        decreases i,
    {
        let ghost prefix = headers@.subrange(0, i as int);
        let entry = &headers[i - 1];
        if entry.0 == wanted {
            return Some(entry.1.clone());
        }
        assert(prefix.drop_last() =~= headers@.subrange(0, i - 1));
        i -= 1;
    }
    None
}

/// Whether the header `name` is present with a lowercase form equal to `expected`.
fn header_lower_is(headers: &Vec<(String, String)>, name: &str, expected: &str) -> (r: bool)
    ensures
        r == header_is_lower(headers@, name@, expected@),
{
    match find_header(headers, name) {
        Some(v) => {
            let lower = lowercase(v.as_str());
            lower == String::from_str(expected)
        },
        None => false,
    }
}

/// Checks an upgrade request, given its request-line tokens and its headers
/// in order, and gives the client's `Sec-WebSocket-Key` when it is valid.
pub fn upgrade_key(method: &str, path: &str, version: &str, headers: &Vec<(String, String)>) -> (r:
    Option<String>)
    ensures
        r is Some <==> valid_upgrade(method@, path@, version@, headers@),
        r is Some ==> header_value(headers@, "Sec-WebSocket-Key"@) == Some(r->Some_0@),
{
    if String::from_str(method) != String::from_str("GET") || String::from_str(path)
        != String::from_str("/") || String::from_str(version) != String::from_str("HTTP/1.1") {
        return None;
    }
    if !header_lower_is(headers, "Connection", "upgrade") || !header_lower_is(
        headers,
        "Upgrade",
        "websocket",
    ) {
        return None;
    }
    match find_header(headers, "Sec-WebSocket-Version") {
        Some(v) => {
            if v != String::from_str("13") {
                return None;
            }
        },
        None => {
            return None;
        },
    }
    find_header(headers, "Sec-WebSocket-Key")
}

} // verus!
