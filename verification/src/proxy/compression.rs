//! Adaptive response compression: when a response is compressed, and what
//! the compressed response is.

use vstd::prelude::*;
use crate::gzip::{gzip_encode, gzip_stream, optional_bytes};
use crate::http::{
    find_header, first_value, has_header, is_named, lemma_without_keeps, remove_header,
    set_header,
    with_header, without, HeaderView, HttpResponse, ResponseView,
};
use crate::text::{
    canonical, contains, has_prefix, has_substring, header_lists, lists_token, optional_text, starts_with,
    str_equal,
};

verus! {

/// Bodies shorter than this are never compressed.
pub const MIN_COMPRESSIBLE_LEN: usize = 150;

/// The encoding that the client's `Accept-Encoding` asks for: gzip when the
/// list holds the token `gzip`, else identity when it holds the token
/// `identity`, else none. A member of the list counts by what stands before
/// its first `;`, without blanks around it.
pub open spec fn chosen_algorithm(accept_encoding: Option<Seq<char>>) -> Option<Seq<char>> {
    match accept_encoding {
        Some(accepted) => if lists_token(accepted, "gzip"@) {
            Some("gzip"@)
        } else if lists_token(accepted, "identity"@) {
            Some("identity"@)
        } else {
            None
        },
        None => None,
    }
}

/// Whether the client's `Accept-Encoding` lists the token `gzip`.
pub open spec fn accepts_gzip(accept_encoding: Option<Seq<char>>) -> bool {
    accept_encoding is Some && lists_token(accept_encoding->0, "gzip"@)
}

/// Whether a content type names data that does not compress.
pub open spec fn incompressible(content_type: Seq<char>) -> bool {
    ||| has_prefix(content_type, "image/"@)
    ||| has_prefix(content_type, "video/"@)
    ||| has_prefix(content_type, "audio/"@)
    ||| has_substring(content_type, "octet-stream"@)
    ||| has_substring(content_type, "compressed"@)
    ||| has_substring(content_type, "zip"@)
}

/// Whether a response may be compressed: it carries no `Content-Encoding`
/// yet, and its `Content-Type`, if it has one, is not incompressible.
pub open spec fn compressible(response: ResponseView) -> bool {
    &&& !has_header(response.headers, "content-encoding"@)
    &&& match first_value(response.headers, "content-type"@) {
        Some(content_type) => !incompressible(content_type),
        None => true,
    }
}

/// The headers of a response whose body was replaced by its gzip stream:
/// `Content-Encoding: gzip` is set and `Content-Length` is gone.
pub open spec fn gzip_headers(headers: Seq<HeaderView>) -> Seq<HeaderView> {
    without(with_header(headers, "content-encoding"@, "gzip"@), "content-length"@)
}

/// What gzip makes of a response, given what the encoder made of its body:
/// the response itself when the body is short, the encoder failed or the
/// stream is no shorter than the body; else the stream under gzip headers.
pub open spec fn gzip_outcome(response: ResponseView, encoded: Option<Seq<u8>>) -> ResponseView {
    if response.body.len() < MIN_COMPRESSIBLE_LEN {
        response
    } else {
        match encoded {
            Some(stream) => if stream.len() >= response.body.len() {
                response
            } else {
                ResponseView {
                    status: response.status,
                    headers: gzip_headers(response.headers),
                    body: stream,
                }
            },
            None => response,
        }
    }
}

/// What the policy makes of a response, given the client's
/// `Accept-Encoding` and what the encoder made of the body.
pub open spec fn adaptive_outcome(
    response: ResponseView,
    accept_encoding: Option<Seq<char>>,
    encoded: Option<Seq<u8>>,
) -> ResponseView {
    if compressible(response) && accepts_gzip(accept_encoding) {
        gzip_outcome(response, encoded)
    } else {
        response
    }
}

/// The compression policy as a function of the response and the client's
/// `Accept-Encoding` alone.
pub open spec fn policy(response: ResponseView, accept_encoding: Option<Seq<char>>) -> ResponseView {
    adaptive_outcome(response, accept_encoding, gzip_stream(response.body))
}

/// The encoding that the client's `Accept-Encoding` asks for.
pub fn choose_compression_algorithm(accept_encoding: Option<&str>) -> (algorithm: Option<
    &'static str,
>)
    ensures
        optional_text(algorithm) == chosen_algorithm(optional_text(accept_encoding)),
        algorithm is Some && algorithm->0@ == "gzip"@ <==> accepts_gzip(
            optional_text(accept_encoding),
        ),
{
    proof {
        reveal_strlit("gzip");
        reveal_strlit("identity");
        assert("gzip"@ != "identity"@) by {
            assert("gzip"@.len() != "identity"@.len());
        }
    }
    match accept_encoding {
        Some(accepted) => {
            if header_lists(accepted, "gzip") {
                Some("gzip")
            } else if header_lists(accepted, "identity") {
                Some("identity")
            } else {
                None
            }
        },
        None => None,
    }
}

/// Whether a response may be compressed.
pub fn should_compress(response: &HttpResponse) -> (allowed: bool)
    ensures
        allowed == compressible(response@),
{
    if find_header(&response.headers, "content-encoding").is_some() {
        return false;
    }
    match find_header(&response.headers, "content-type") {
        Some(index) => {
            let content_type = response.headers[index].value.as_str();
            !(starts_with(content_type, "image/") || starts_with(content_type, "video/")
                || starts_with(content_type, "audio/") || contains(content_type, "octet-stream")
                || contains(content_type, "compressed") || contains(content_type, "zip"))
        },
        None => true,
    }
}

/// What gzip makes of `response`, given what the encoder made of its body.
pub fn apply_gzip(response: HttpResponse, encoded: Option<Vec<u8>>) -> (result: HttpResponse)
    ensures
        result@ == gzip_outcome(response@, optional_bytes(encoded)),
{
    if response.body.len() < MIN_COMPRESSIBLE_LEN {
        return response;
    }
    match encoded {
        Some(stream) => {
            if stream.len() >= response.body.len() {
                response
            } else {
                let mut headers = response.headers;
                set_header(&mut headers, "content-encoding", "gzip");
                remove_header(&mut headers, "content-length");
                HttpResponse { status: response.status, headers, body: stream }
            }
        },
        None => response,
    }
}

/// Gzip for one response: the body is encoded when it has at least
/// [`MIN_COMPRESSIBLE_LEN`] bytes, and replaced when that makes it shorter.
pub fn compress_gzip(response: HttpResponse) -> (result: HttpResponse)
    ensures
        result@ == gzip_outcome(response@, gzip_stream(response@.body)),
{
    if response.body.len() < MIN_COMPRESSIBLE_LEN {
        return response;
    }
    let encoded = gzip_encode(response.body.as_slice());
    apply_gzip(response, encoded)
}

/// Whether the policy needs the whole body of a response: only a response
/// that may be compressed, for a client that accepts gzip, has to be read
/// before it is passed on. Every other response passes as it is, body
/// unread.
pub fn needs_body(response: &HttpResponse, accept_encoding: Option<&str>) -> (needed: bool)
    ensures
        needed == (compressible(response@) && accepts_gzip(optional_text(accept_encoding))),
        !needed ==> policy(response@, optional_text(accept_encoding)) == response@,
{
    if !should_compress(response) {
        return false;
    }
    match choose_compression_algorithm(accept_encoding) {
        Some(name) => {
            proof {
                reveal_strlit("gzip");
                reveal_strlit("identity");
                assert("gzip"@.len() != "identity"@.len());
            }
            str_equal(name, "gzip")
        },
        None => false,
    }
}

/// The compression policy: a response that may be compressed is gzipped
/// when the client accepts gzip; every other response passes unchanged.
pub fn compress_response_adaptive(response: HttpResponse, accept_encoding: Option<&str>) -> (result:
    HttpResponse)
    ensures
        result@ == policy(response@, optional_text(accept_encoding)),
{
    if needs_body(&response, accept_encoding) {
        compress_gzip(response)
    } else {
        response
    }
}

/// Compression decisions are idempotent: applying the policy to its own
/// result, for the same client, changes nothing. A compressed response
/// carries `Content-Encoding` and passes the second time.
pub proof fn lemma_policy_is_idempotent(response: ResponseView, accept_encoding: Option<Seq<char>>)
    ensures
        policy(policy(response, accept_encoding), accept_encoding) == policy(
            response,
            accept_encoding,
        ),
{
    let once = policy(response, accept_encoding);
    if once != response {
        lemma_compressed_is_marked(response.headers);
    }
}

/// The headers of a compressed response carry `Content-Encoding`.
pub proof fn lemma_compressed_is_marked(headers: Seq<HeaderView>)
    ensures
        has_header(gzip_headers(headers), "content-encoding"@),
        !has_header(gzip_headers(headers), "content-length"@),
{
    reveal_strlit("content-encoding");
    reveal_strlit("content-length");
    assert(canonical("content-encoding"@) != canonical("content-length"@)) by {
        assert(canonical("content-encoding"@).len() != canonical("content-length"@).len());
    }
    let marked = with_header(headers, "content-encoding"@, "gzip"@);
    assert(is_named(marked[marked.len() - 1], "content-encoding"@));
    lemma_without_keeps(marked, "content-length"@, "content-encoding"@);
}

} // verus!
