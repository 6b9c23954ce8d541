//! The responses that the proxy makes itself, and the mark it leaves on
//! every response.

use vstd::prelude::*;
use vstd::slice::slice_to_vec;
use crate::http::{header_views, set_header, with_header, HeaderView, HttpResponse, ResponseView};
use crate::text::join;

verus! {

pub const STATUS_OK: u16 = 200;

pub const STATUS_NOT_FOUND: u16 = 404;

pub const STATUS_INTERNAL_SERVER_ERROR: u16 = 500;

pub const STATUS_BAD_GATEWAY: u16 = 502;

pub const STATUS_SERVICE_UNAVAILABLE: u16 = 503;

/// A response with no headers whose body is the UTF-8 text `message`.
pub open spec fn plain_response(status: u16, message: Seq<char>) -> ResponseView {
    ResponseView {
        status,
        headers: Seq::empty(),
        body: vstd::utf8::encode_utf8(message),
    }
}

/// A response with the given status and message.
pub fn create_error_response(status: u16, message: String) -> (response: HttpResponse)
    ensures
        response@ == plain_response(status, message@),
{
    let body = slice_to_vec(message.as_str().as_bytes());
    let headers: Vec<crate::http::Header> = Vec::new();
    proof {
        assert(header_views(headers@) =~= Seq::<HeaderView>::empty());
    }
    HttpResponse { status, headers, body }
}

/// The answer to a failed dispatch: `502 Bad Gateway`, with the error's
/// description in the body.
pub fn handle_proxy_error(error: &str) -> (response: HttpResponse)
    ensures
        response@ == plain_response(STATUS_BAD_GATEWAY, "Bad Gateway: "@ + error@),
{
    create_error_response(STATUS_BAD_GATEWAY, join("Bad Gateway: ", error))
}

/// The answer when no backend is healthy: `503 Service Unavailable`.
pub fn no_healthy_backends() -> (response: HttpResponse)
    ensures
        response@ == plain_response(STATUS_SERVICE_UNAVAILABLE, "No healthy backends available"@),
{
    create_error_response(STATUS_SERVICE_UNAVAILABLE, "No healthy backends available".to_owned())
}

/// The answer to a compression failure that is not passed over: `500`.
pub fn compression_failed(error: &str) -> (response: HttpResponse)
    ensures
        response@ == plain_response(
            STATUS_INTERNAL_SERVER_ERROR,
            "Internal server error: compression failed"@,
        ),
{
    create_error_response(
        STATUS_INTERNAL_SERVER_ERROR,
        "Internal server error: compression failed".to_owned(),
    )
}

/// The answer to a compression failure that is passed over: the response
/// as it came, uncompressed.
pub fn compression_failed_graceful(error: &str, original_response: HttpResponse) -> (response:
    HttpResponse)
    ensures
        response == original_response,
{
    original_response
}

/// The response with the proxy's mark: `X-Load-Balancer` is set, everything
/// else stays.
pub open spec fn marked(response: ResponseView) -> ResponseView {
    ResponseView {
        headers: with_header(response.headers, "x-load-balancer"@, "rust-lb"@),
        ..response
    }
}

/// Sets `X-Load-Balancer` on the final response.
pub fn modify_response(response: HttpResponse) -> (result: HttpResponse)
    ensures
        result@ == marked(response@),
{
    let mut headers = response.headers;
    set_header(&mut headers, "x-load-balancer", "rust-lb");
    HttpResponse { status: response.status, headers, body: response.body }
}

} // verus!
