//! Decoding the opaque resource identifier of a stream request.
//!
//! A stream URI has the form `sshvideo://stream/<encoded>`, where
//! `<encoded>` is the URL-safe, unpadded base64 encoding of the UTF-8
//! remote path.  A malformed identifier — wrong prefix, invalid base64, or
//! bytes that are not UTF-8 — is rejected here, before any worker is
//! looked up or created.

use vstd::prelude::*;

use base64::Engine;

verus! {

/// What URL-safe, unpadded base64 decoding yields for the characters of
/// the encoded text: the decoded bytes, or nothing when the text is not a
/// valid encoding.  The result depends on the characters alone.
pub uninterp spec fn b64url_decoded(s: Seq<char>) -> Option<Seq<u8>>;

/// Relies on base64's `Engine::decode` with the `URL_SAFE_NO_PAD` engine:
/// the outcome is a function of the input characters alone, and an empty
/// input decodes to no bytes.
#[verifier::external_body]
fn b64url_decode(s: &str) -> (r: Option<Vec<u8>>)
    ensures
        match r {
            Some(v) => b64url_decoded(s@) == Some(v@),
            None => b64url_decoded(s@) is None,
        },
        s@.len() == 0 ==> r is Some,
{
    base64::engine::general_purpose::URL_SAFE_NO_PAD.decode(s).ok()
}

/// Relies on `String::from_utf8`: it succeeds exactly on valid UTF-8, and
/// then returns the string those bytes encode.
#[verifier::external_body]
fn utf8_to_string(bytes: Vec<u8>) -> (r: Option<String>)
    ensures
        match r {
            Some(s) => vstd::utf8::valid_utf8(bytes@) && s@ == vstd::utf8::decode_utf8(bytes@),
            None => !vstd::utf8::valid_utf8(bytes@),
        },
{
    String::from_utf8(bytes).ok()
}

/// The characters of the stream URI prefix, `sshvideo://stream/`.
pub open spec fn stream_prefix() -> Seq<char> {
    seq![
        's',
        's',
        'h',
        'v',
        'i',
        'd',
        'e',
        'o',
        ':',
        '/',
        '/',
        's',
        't',
        'r',
        'e',
        'a',
        'm',
        '/',
    ]
}

/// What decoding the stream URI `uri` yields: the remote path, or the
/// message of the rejection.  The URI must carry the stream prefix; the
/// encoded text runs from there to the first `?`; it must be valid
/// URL-safe unpadded base64, and the decoded bytes valid UTF-8.
pub open spec fn spec_parse_stream_path(uri: Seq<char>) -> Result<Seq<char>, Seq<char>> {
    if uri.len() < 18 || uri.take(18) != stream_prefix() {
        Err("Invalid stream URI."@)
    } else {
        let rest = uri.skip(18);
        let enc = rest.take(crate::range::idx_of(rest, '?'));
        match b64url_decoded(enc) {
            None => Err("Invalid stream path encoding."@),
            Some(bytes) => if vstd::utf8::valid_utf8(bytes) {
                Ok(vstd::utf8::decode_utf8(bytes))
            } else {
                Err("Stream path is not valid UTF-8."@)
            },
        }
    }
}

/// Decode the opaque resource identifier of a stream request into the
/// remote path it names, or reject it with a readable message.  The
/// result is exactly what [`spec_parse_stream_path`] names.
pub fn parse_stream_path(uri: &str) -> (r: Result<String, String>)
    ensures
        match r {
            Ok(p) => spec_parse_stream_path(uri@) == Ok::<Seq<char>, Seq<char>>(p@),
            Err(m) => spec_parse_stream_path(uri@) == Err::<Seq<char>, Seq<char>>(m@),
        },
{
    let n = uri.unicode_len();
    if n < 18 {
        return Err("Invalid stream URI.".to_owned());
    }
    let p = "sshvideo://stream/";
    proof {
        reveal_strlit("sshvideo://stream/");
        assert(p@ =~= stream_prefix());
    }
    let mut k: usize = 0;
    while k < 18
        invariant
            n == uri@.len(),
            n >= 18,
            0 <= k <= 18,
            p@ == stream_prefix(),
            p@.len() == 18,
            forall|j: int| 0 <= j < k ==> uri@[j] == stream_prefix()[j],
        decreases 18 - k,
    {
        if uri.get_char(k) != p.get_char(k) {
            proof {
                assert(uri@.take(18)[k as int] != stream_prefix()[k as int]);
            }
            return Err("Invalid stream URI.".to_owned());
        }
        k = k + 1;
    }
    proof {
        assert(uri@.take(18) =~= stream_prefix());
    }
    let rest = uri.substring_char(18, n);
    proof {
        assert(rest@ =~= uri@.skip(18));
    }
    let q = crate::range::find_char(rest, '?');
    let enc = rest.substring_char(0, q);
    proof {
        assert(enc@ =~= rest@.take(crate::range::idx_of(rest@, '?')));
    }
    let bytes = match b64url_decode(enc) {
        Some(bytes) => bytes,
        None => {
            return Err("Invalid stream path encoding.".to_owned());
        },
    };
    match utf8_to_string(bytes) {
        Some(path) => Ok(path),
        None => Err("Stream path is not valid UTF-8.".to_owned()),
    }
}

} // verus!
