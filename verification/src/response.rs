//! HTTP-shaped responses for byte-range reads.
//!
//! A successful read is always answered as partial content — status 206
//! with a `Content-Range` header — since the player expects a seekable
//! stream; failures are answered as structured error responses carrying a
//! readable message, never as a crash or a silent drop.

use vstd::prelude::*;

use crate::media::spec_content_type;
use crate::numfmt::dec_digits;

verus! {

/// An HTTP-shaped response: status, the headers this engine emits, and the
/// body bytes.  Header fields that an error response does not carry are
/// absent rather than empty.
pub struct StreamResponse {
    pub status: u16,
    pub content_type: Option<String>,
    pub content_range: Option<String>,
    pub content_length: Option<u64>,
    pub cache_control: Option<String>,
    pub accept_ranges: Option<String>,
    pub body: Vec<u8>,
}

/// The `Content-Range` header value `bytes <start>-<end>/<total>`.
pub open spec fn spec_content_range(start: u64, end: u64, total: u64) -> Seq<char> {
    seq!['b', 'y', 't', 'e', 's', ' '] + dec_digits(start as nat) + seq!['-'] + dec_digits(
        end as nat,
    ) + seq!['/'] + dec_digits(total as nat)
}

/// Is `r` the partial-content response serving window `[start, end]` of a
/// `total`-byte file at `path`, with body `bytes`?  Status 206, the content
/// type drawn from the path's extension, an exact `Content-Range`, the
/// length of the bytes actually produced, no caching, and ranges
/// advertised.
pub open spec fn is_partial_response(
    r: StreamResponse,
    path: Seq<char>,
    total: u64,
    start: u64,
    end: u64,
    bytes: Seq<u8>,
) -> bool {
    &&& r.status == 206
    &&& r.content_type matches Some(ct) && ct@ == spec_content_type(path)
    &&& r.content_range matches Some(cr) && cr@ == spec_content_range(start, end, total)
    &&& r.content_length == Some(bytes.len() as u64)
    &&& r.cache_control matches Some(cc) && cc@ == "no-store"@
    &&& r.accept_ranges matches Some(ar) && ar@ == "bytes"@
    &&& r.body@ == bytes
}

/// Is `r` the structured error response with this status and message body?
/// No content headers are carried; the body is the message's bytes.
pub open spec fn is_error_response(r: StreamResponse, status: u16, msg: Seq<char>) -> bool {
    &&& r.status == status
    &&& r.content_type is None
    &&& r.content_range is None
    &&& r.content_length is None
    &&& r.cache_control is None
    &&& r.accept_ranges is None
    &&& r.body@ == vstd::utf8::encode_utf8(msg)
}

/// Render the `Content-Range` value for the window `[start, end]` of a
/// `total`-byte file.
pub fn content_range_value(start: u64, end: u64, total: u64) -> (r: String)
    ensures
        r@ == spec_content_range(start, end, total),
{
    proof {
        reveal_strlit("bytes ");
        reveal_strlit("-");
        reveal_strlit("/");
        assert("bytes "@ =~= seq!['b', 'y', 't', 'e', 's', ' ']);
        assert("-"@ =~= seq!['-']);
        assert("/"@ =~= seq!['/']);
    }
    let mut r = "bytes ".to_owned();
    let s = crate::numfmt::u64_to_dec(start);
    r.append(s.as_str());
    r.append("-");
    let e = crate::numfmt::u64_to_dec(end);
    r.append(e.as_str());
    r.append("/");
    let t = crate::numfmt::u64_to_dec(total);
    r.append(t.as_str());
    proof {
        assert(r@ =~= spec_content_range(start, end, total));
    }
    r
}

/// Build the structured error response for this status and message.
pub fn error_response(status: u16, msg: &str) -> (r: StreamResponse)
    ensures
        is_error_response(r, status, msg@),
{
    StreamResponse {
        status,
        content_type: None,
        content_range: None,
        content_length: None,
        cache_control: None,
        accept_ranges: None,
        body: msg.as_bytes_vec(),
    }
}

/// Build the partial-content response serving window `[start, end]` of the
/// `total`-byte file at `path`, whose read produced `body`.
pub fn partial_response(path: &str, total: u64, start: u64, end: u64, body: Vec<u8>) -> (r:
    StreamResponse)
    requires
        body@.len() <= u64::MAX,
    ensures
        is_partial_response(r, path@, total, start, end, body@),
{
    let len = body.len() as u64;
    StreamResponse {
        status: 206,
        content_type: Some(crate::media::map_content_type(path).to_owned()),
        content_range: Some(content_range_value(start, end, total)),
        content_length: Some(len),
        cache_control: Some("no-store".to_owned()),
        accept_ranges: Some("bytes".to_owned()),
        body,
    }
}

} // verus!
