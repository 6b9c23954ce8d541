//! The upstream request: its URI, its headers, and what becomes of the
//! upstream's answer.

use vstd::prelude::*;
use crate::backend::Backend;
use crate::proxy::compression::{compress_response_adaptive, policy};
use crate::http::{
    find_header, first_value, has_header, header_views, set_header, with_header, Header,
    HeaderView, HttpRequest, HttpResponse, ResponseView, UpstreamRequest,
};
use crate::proxy::response::{handle_proxy_error, marked, modify_response, plain_response, STATUS_BAD_GATEWAY};
use crate::text::{
    find, join, optional_string, optional_text, position_from, skip_chars, trim_end,
    trim_end_slashes, trim_start, trim_start_slashes,
};

verus! {

/// The upstream URI: the backend's origin without trailing slashes, a
/// slash, and the client's path and query without leading slashes; the bare
/// origin when nothing is left of the path. A request without a path counts
/// as a request for `/`.
pub open spec fn upstream_uri(path_and_query: Option<Seq<char>>, backend_url: Seq<char>) -> Seq<
    char,
> {
    let origin = trim_end(backend_url, '/');
    let path = trim_start(
        match path_and_query {
            Some(given) => given,
            None => "/"@,
        },
        '/',
    );
    if path.len() == 0 {
        origin
    } else {
        origin + "/"@ + path
    }
}

/// The URI to ask the backend for. Every path is accepted.
pub fn prepare_backend_uri(path_and_query: Option<&str>, backend_url: &str) -> (uri: String)
    ensures
        uri@ == upstream_uri(optional_text(path_and_query), backend_url@),
{
    let origin = trim_end_slashes(backend_url);
    let given = match path_and_query {
        Some(given) => given,
        None => "/",
    };
    let path = trim_start_slashes(given);
    if path.unicode_len() == 0 {
        origin.to_owned()
    } else {
        let mut uri = join(origin, "/");
        uri.append(path);
        uri
    }
}

/// The host and port of a backend's URL: what stands between the `://` of
/// the scheme, if there is one, and the next slash.
pub open spec fn authority(url: Seq<char>) -> Seq<char> {
    let mark = position_from(url, "://"@, 0);
    let rest = if mark < url.len() {
        url.subrange(mark + 3, url.len() as int)
    } else {
        url
    };
    rest.subrange(0, position_from(rest, "/"@, 0))
}

/// The host and port of a backend's URL.
pub fn upstream_host(backend_url: &str) -> (host: String)
    ensures
        host@ == authority(backend_url@),
{
    proof {
        reveal_strlit("://");
    }
    let mark = find(backend_url, "://");
    let rest = if mark < backend_url.unicode_len() {
        skip_chars(backend_url, mark + 3)
    } else {
        proof {
            assert(backend_url@.subrange(0, backend_url@.len() as int) =~= backend_url@);
        }
        skip_chars(backend_url, 0)
    };
    let end = find(rest, "/");
    rest.substring_char(0, end).to_owned()
}

/// The new `X-Forwarded-For`: the client's address, behind the chain that
/// was already there.
pub open spec fn forwarded_for(existing: Option<Seq<char>>, client_ip: Seq<char>) -> Seq<char> {
    match existing {
        Some(chain) => if chain.len() > 0 {
            chain + ", "@ + client_ip
        } else {
            client_ip
        },
        None => client_ip,
    }
}

/// The headers with the tracing headers worked in: `X-Forwarded-By` is set,
/// the client is appended to `X-Forwarded-For`, and `X-Forwarded-Proto` and
/// `X-Real-IP` are set where they were absent.
pub open spec fn traced(headers: Seq<HeaderView>, client_ip: Seq<char>, scheme: Seq<char>) -> Seq<
    HeaderView,
> {
    let by = with_header(headers, "x-forwarded-by"@, "rust-load-balancer"@);
    let chain = with_header(
        by,
        "x-forwarded-for"@,
        forwarded_for(first_value(by, "x-forwarded-for"@), client_ip),
    );
    let proto = if has_header(chain, "x-forwarded-proto"@) {
        chain
    } else {
        with_header(chain, "x-forwarded-proto"@, scheme)
    };
    if has_header(proto, "x-real-ip"@) {
        proto
    } else {
        with_header(proto, "x-real-ip"@, client_ip)
    }
}

/// Works the tracing headers into `headers`.
pub fn add_tracing_headers(headers: &mut Vec<Header>, client_ip: &str, scheme: &str)
    ensures
        header_views(final(headers)@) == traced(header_views(old(headers)@), client_ip@, scheme@),
{
    set_header(headers, "x-forwarded-by", "rust-load-balancer");
    let chain = match find_header(headers, "x-forwarded-for") {
        Some(index) => {
            let existing = headers[index].value.as_str();
            if existing.unicode_len() == 0 {
                client_ip.to_owned()
            } else {
                let mut chain = join(existing, ", ");
                chain.append(client_ip);
                chain
            }
        },
        None => client_ip.to_owned(),
    };
    set_header(headers, "x-forwarded-for", chain.as_str());
    if find_header(headers, "x-forwarded-proto").is_none() {
        set_header(headers, "x-forwarded-proto", scheme);
    }
    if find_header(headers, "x-real-ip").is_none() {
        set_header(headers, "x-real-ip", client_ip);
    }
}

/// The client's address as the tracing headers name it.
pub open spec fn client_label(client_ip: Option<String>) -> Seq<char> {
    match client_ip {
        Some(ip) => ip@,
        None => "unknown"@,
    }
}

/// The headers that go upstream: the client's, with `Host` replaced by
/// the backend's host and port, and the tracing headers worked in.
pub open spec fn upstream_headers(
    headers: Seq<HeaderView>,
    backend_url: Seq<char>,
    client_ip: Seq<char>,
    scheme: Seq<char>,
) -> Seq<HeaderView> {
    traced(with_header(headers, "host"@, authority(backend_url)), client_ip, scheme)
}

/// The request to send to `backend` for a client's `request`: the method
/// is kept, the URI points at the backend, `Host` names the backend, and
/// the tracing headers are worked into the client's headers.
pub fn forward_request(request: &HttpRequest, backend: &Backend) -> (upstream: UpstreamRequest)
    ensures
        upstream.method@ == request.method@,
        upstream.uri@ == upstream_uri(optional_string(request.path_and_query), backend.url@),
        header_views(upstream.headers@) == upstream_headers(
            header_views(request.headers@),
            backend.url@,
            client_label(request.client_ip),
            request.scheme@,
        ),
{
    let uri = match &request.path_and_query {
        Some(given) => prepare_backend_uri(Some(given.as_str()), backend.url.as_str()),
        None => prepare_backend_uri(None, backend.url.as_str()),
    };
    let mut headers: Vec<Header> = Vec::new();
    let mut j: usize = 0;
    while j < request.headers.len()
        invariant
            0 <= j <= request.headers@.len(),
            headers@.len() == j,
            forall|t: int| 0 <= t < j ==> headers@[t]@ == request.headers@[t]@,
        decreases request.headers@.len() - j,
    {
        headers.push(request.headers[j].clone());
        j += 1;
    }
    proof {
        assert(header_views(headers@) =~= header_views(request.headers@));
    }
    let host = upstream_host(backend.url.as_str());
    set_header(&mut headers, "host", host.as_str());
    match &request.client_ip {
        Some(ip) => add_tracing_headers(&mut headers, ip.as_str(), request.scheme.as_str()),
        None => add_tracing_headers(&mut headers, "unknown", request.scheme.as_str()),
    }
    UpstreamRequest { method: request.method.clone(), uri, headers }
}

/// What the client gets for what the dispatch brought: the upstream's
/// response under the compression policy, or `502 Bad Gateway` with the
/// error's description; either of them with the proxy's mark.
pub open spec fn client_response(
    upstream: Result<ResponseView, Seq<char>>,
    accept_encoding: Option<Seq<char>>,
) -> ResponseView {
    match upstream {
        Ok(response) => marked(policy(response, accept_encoding)),
        Err(error) => marked(plain_response(STATUS_BAD_GATEWAY, "Bad Gateway: "@ + error)),
    }
}

/// What a dispatch brought, as the model sees it.
pub open spec fn dispatch_view(upstream: Result<HttpResponse, String>) -> Result<
    ResponseView,
    Seq<char>,
> {
    match upstream {
        Ok(response) => Ok(response@),
        Err(error) => Err(error@),
    }
}

/// Turns what the dispatch brought into the client's response.
pub fn complete_forward(upstream: Result<HttpResponse, String>, accept_encoding: Option<&str>) -> (response:
    HttpResponse)
    ensures
        response@ == client_response(dispatch_view(upstream), optional_text(accept_encoding)),
{
    match upstream {
        Ok(response) => modify_response(compress_response_adaptive(response, accept_encoding)),
        Err(error) => modify_response(handle_proxy_error(error.as_str())),
    }
}

} // verus!
