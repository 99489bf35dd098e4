//! What the proxy asks of the HTTP library, and the byte strings it builds
//! for it: the status class of an upstream answer, whether a `Location`
//! value can be kept as text, whether an upstream target is a URI, the
//! upstream target itself and the body of an error answer.

use crate::octets::{ascii, push_all, push_text};
use vstd::prelude::*;

verus! {

/// `?`, which stands between path and query in a target.
pub const QUESTION: u8 = 63;

/// The status of an answer that carries a body, stored or streamed.
pub const STATUS_OK: u16 = 200;

/// The status of a redirect that is answered from the cache.
pub const STATUS_FOUND: u16 = 302;

/// The status of the answer to a request that upstream could not serve.
pub const STATUS_BAD_GATEWAY: u16 = 502;

/// Status codes of the redirection class.
pub open spec fn is_redirection(code: u16) -> bool {
    300 <= code <= 399
}

/// Bytes that a header value may hold if it is to be read as text: visible
/// ASCII, the space and the tab.
pub open spec fn is_text_byte(b: u8) -> bool {
    (32 <= b < 127) || b == 9
}

/// Header values that can be read as text.
pub open spec fn is_header_text(value: Seq<u8>) -> bool {
    forall|i: int| 0 <= i < value.len() ==> is_text_byte(#[trigger] value[i])
}

/// Whether the HTTP library takes `target` for a URI.
pub uninterp spec fn uri_accepts(target: Seq<u8>) -> bool;

/// The scheme and the `://` that follow from the deployment.
pub open spec fn scheme_prefix(secure: bool) -> Seq<u8> {
    if secure {
        ascii("https://"@)
    } else {
        ascii("http://"@)
    }
}

/// The target that is asked of upstream: scheme, upstream authority, and the
/// path and query of the request as they came.
pub open spec fn upstream_target(
    secure: bool,
    authority: Seq<u8>,
    path: Seq<u8>,
    query: Option<Seq<u8>>,
) -> Seq<u8> {
    scheme_prefix(secure) + authority + path + match query {
        None => Seq::<u8>::empty(),
        Some(q) => seq![QUESTION] + q,
    }
}

/// The body of the answer that tells the client why upstream gave none.
pub open spec fn error_text(description: Seq<u8>) -> Seq<u8> {
    ascii("Error: "@) + description
}

/// What is said of a target that is no URI.
pub open spec fn invalid_target_note() -> Seq<u8> {
    ascii("invalid upstream target"@)
}

/// An ASCII letter in lower case; any other byte as it is.
pub open spec fn lower(b: u8) -> u8 {
    if 65 <= b <= 90 {
        (b + 32) as u8
    } else {
        b
    }
}

/// The name of the `Host` header, in any case of letters.
pub open spec fn is_host_header(name: Seq<u8>) -> bool {
    &&& name.len() == 4
    &&& lower(name[0]) == 104
    &&& lower(name[1]) == 111
    &&& lower(name[2]) == 115
    &&& lower(name[3]) == 116
}

/// `hyper::StatusCode::from_u16` followed by `StatusCode::is_redirection`.
/// The first takes the codes from 100 to 999, the second holds of those from
/// 300 to 399; a code that the first refuses is in no class.
#[verifier::external_body]
pub(crate) fn status_is_redirection(code: u16) -> (r: bool)
    ensures
        r == is_redirection(code),
{
    match hyper::StatusCode::from_u16(code) {
        Ok(status) => status.is_redirection(),
        Err(_) => false,
    }
}

/// `hyper::header::HeaderValue::from_bytes` followed by `HeaderValue::to_str`.
/// The first takes the bytes from 32 to 255 but 127, and the tab; the second
/// succeeds where every byte is visible ASCII, a space or a tab, which all
/// pass the first.
#[verifier::external_body]
pub(crate) fn header_value_is_text(value: &[u8]) -> (r: bool)
    ensures
        r == is_header_text(value@),
{
    match hyper::header::HeaderValue::from_bytes(value) {
        Ok(header) => header.to_str().is_ok(),
        Err(_) => false,
    }
}

/// `hyper::Uri::try_from` on a byte slice: whether the bytes parse as a URI.
/// The answer depends on the bytes alone.
#[verifier::external_body]
pub(crate) fn uri_parses(target: &[u8]) -> (r: bool)
    ensures
        r == uri_accepts(target@),
{
    hyper::Uri::try_from(target).is_ok()
}

/// Builds the target that is asked of upstream.
pub fn build_upstream_target(
    secure: bool,
    authority: &[u8],
    path: &[u8],
    query: Option<&[u8]>,
) -> (target: Vec<u8>)
    ensures
        target@ == upstream_target(secure, authority@, path@, crate::key::option_bytes(query)),
{
    let mut target: Vec<u8> = Vec::new();
    proof {
        reveal_strlit("https://");
        reveal_strlit("http://");
    }
    if secure {
        push_text(&mut target, "https://");
    } else {
        push_text(&mut target, "http://");
    }
    push_all(&mut target, authority);
    push_all(&mut target, path);
    match query {
        None => {
            assert(target@ =~= upstream_target(secure, authority@, path@, None));
        },
        Some(q) => {
            target.push(QUESTION);
            push_all(&mut target, q);
            assert(target@ =~= upstream_target(secure, authority@, path@, Some(q@)));
        },
    }
    target
}

fn lower_of(b: u8) -> (r: u8)
    ensures
        r == lower(b),
{
    if 65 <= b && b <= 90 {
        b + 32
    } else {
        b
    }
}

/// Whether a header of the request goes on to upstream: every header does
/// but `Host`, which names the proxy and is set anew from the target.
pub fn forwards_header(name: &[u8]) -> (r: bool)
    ensures
        r == !is_host_header(name@),
{
    !(name.len() == 4 && lower_of(name[0]) == 104 && lower_of(name[1]) == 111 && lower_of(name[2])
        == 115 && lower_of(name[3]) == 116)
}

/// Builds the body of the answer that tells the client why upstream gave none.
pub fn error_body(description: &[u8]) -> (body: Vec<u8>)
    ensures
        body@ == error_text(description@),
{
    let mut body: Vec<u8> = Vec::new();
    proof {
        reveal_strlit("Error: ");
    }
    push_text(&mut body, "Error: ");
    push_all(&mut body, description);
    body
}

/// Builds the note on a target that is no URI.
pub fn invalid_target_description() -> (note: Vec<u8>)
    ensures
        note@ == invalid_target_note(),
{
    let mut note: Vec<u8> = Vec::new();
    proof {
        reveal_strlit("invalid upstream target");
    }
    push_text(&mut note, "invalid upstream target");
    note
}

} // verus!
