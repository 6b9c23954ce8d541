use flate2::read::GzDecoder;
use load_balancer_rs::backend::{Backend, BackendStatus, LoadBalancingStrategy};
use load_balancer_rs::proxy::compression::{
    apply_gzip, choose_compression_algorithm, compress_gzip, compress_response_adaptive,
    needs_body, should_compress,
};
use load_balancer_rs::proxy::handler::{ProxyHandler, RequestPlan};
use load_balancer_rs::http::{
    find_header, remove_header, set_header, Header, HttpRequest, HttpResponse,
};
use load_balancer_rs::backend::pool::BackendPool;
use load_balancer_rs::proxy::request::{
    add_tracing_headers, complete_forward, forward_request, prepare_backend_uri, upstream_host,
};
use load_balancer_rs::proxy::response::{
    compression_failed, compression_failed_graceful, create_error_response, handle_proxy_error,
    modify_response, no_healthy_backends,
};
use std::io::Read;

fn header(name: &str, value: &str) -> Header {
    Header { name: name.to_string(), value: value.to_string() }
}

fn value_of<'a>(headers: &'a Vec<Header>, name: &str) -> Option<&'a str> {
    find_header(headers, name).map(|index| headers[index].value.as_str())
}

fn text_body(len: usize) -> Vec<u8> {
    (0..len).map(|i| b"load balancer "[i % 14]).collect()
}

fn text_response(len: usize) -> HttpResponse {
    HttpResponse {
        status: 200,
        headers: vec![
            header("content-type", "text/plain"),
            header("content-length", &len.to_string()),
        ],
        body: text_body(len),
    }
}

fn gunzip(bytes: &[u8]) -> Vec<u8> {
    let mut out = Vec::new();
    GzDecoder::new(bytes).read_to_end(&mut out).unwrap();
    out
}

fn request(path: &str, headers: Vec<Header>) -> HttpRequest {
    HttpRequest {
        method: "GET".to_string(),
        path: path.split('?').next().unwrap().to_string(),
        path_and_query: Some(path.to_string()),
        headers,
        client_ip: Some("10.0.0.7".to_string()),
        scheme: "http".to_string(),
    }
}

fn handler(statuses: &[BackendStatus]) -> ProxyHandler {
    let backends = statuses
        .iter()
        .enumerate()
        .map(|(i, _)| {
            Backend::new(format!("http://127.0.0.1:{}/", 8081 + i), format!("backend-{}", i + 1), 1)
        })
        .collect();
    let mut pool = BackendPool::new(backends, LoadBalancingStrategy::RoundRobin);
    for (i, status) in statuses.iter().enumerate() {
        assert!(pool.update_backend_status(i, *status));
    }
    ProxyHandler::new(pool)
}

#[test]
fn uri_rewriting_follows_the_concatenation_rule() {
    assert_eq!(prepare_backend_uri(Some("/"), "http://b:8081"), "http://b:8081");
    assert_eq!(prepare_backend_uri(Some(""), "http://b:8081/"), "http://b:8081");
    assert_eq!(prepare_backend_uri(None, "http://b:8081//"), "http://b:8081");
    assert_eq!(prepare_backend_uri(Some("/api/v1"), "http://b:8081"), "http://b:8081/api/v1");
    assert_eq!(prepare_backend_uri(Some("/api/v1"), "http://b:8081/"), "http://b:8081/api/v1");
    assert_eq!(
        prepare_backend_uri(Some("//a/b/?q=1&r=/x/"), "http://b:8081///"),
        "http://b:8081/a/b/?q=1&r=/x/"
    );
    assert_eq!(prepare_backend_uri(Some("/?q=1"), "http://b:8081"), "http://b:8081/?q=1");
    assert_eq!(prepare_backend_uri(Some("/caf\u{e9}"), "http://b"), "http://b/caf\u{e9}");
}

#[test]
fn rewritten_uri_parses_as_an_absolute_uri() {
    for path in ["", "/", "/a", "/a/b?x=1&y=2", "//a", "/?q"] {
        let text = prepare_backend_uri(Some(path), "http://127.0.0.1:8081/");
        let uri: hyper::Uri = text.parse().unwrap();
        assert_eq!(uri.scheme_str(), Some("http"));
        assert_eq!(uri.authority().unwrap().as_str(), "127.0.0.1:8081");
        let expected = format!("/{}", path.trim_start_matches('/'));
        assert_eq!(uri.path_and_query().unwrap().as_str(), expected);
    }
}

#[test]
fn upstream_host_is_the_authority_of_the_url() {
    assert_eq!(upstream_host("http://127.0.0.1:8081"), "127.0.0.1:8081");
    assert_eq!(upstream_host("http://127.0.0.1:8081/"), "127.0.0.1:8081");
    assert_eq!(upstream_host("https://example.org/base/path"), "example.org");
    assert_eq!(upstream_host("example.org:90/x"), "example.org:90");
    assert_eq!(upstream_host("http://"), "");
    assert_eq!(upstream_host(""), "");
}

#[test]
fn host_header_is_replaced() {
    let backend = Backend::new("http://10.1.2.3:9000".to_string(), "a".to_string(), 1);
    let incoming = request("/", vec![header("host", "proxy.example"), header("host", "x")]);
    let upstream = forward_request(&incoming, &backend);
    assert_eq!(value_of(&upstream.headers, "host"), Some("10.1.2.3:9000"));
    assert_eq!(upstream.headers.iter().filter(|h| h.name == "host").count(), 1);
}

#[test]
fn header_set_find_and_remove() {
    let mut headers = vec![header("a", "1"), header("b", "2"), header("a", "3")];
    assert_eq!(find_header(&headers, "a"), Some(0));
    assert_eq!(find_header(&headers, "b"), Some(1));
    assert_eq!(find_header(&headers, "c"), None);
    set_header(&mut headers, "a", "9");
    assert_eq!(headers.len(), 2);
    assert_eq!(headers[0].name, "b");
    assert_eq!(headers[1].name, "a");
    assert_eq!(headers[1].value, "9");
    remove_header(&mut headers, "b");
    assert_eq!(headers.len(), 1);
    remove_header(&mut headers, "missing");
    assert_eq!(headers.len(), 1);
    assert_eq!(value_of(&headers, "a"), Some("9"));
}

#[test]
fn tracing_headers_on_a_bare_request() {
    let mut headers = vec![header("accept", "*/*")];
    add_tracing_headers(&mut headers, "10.0.0.7", "https");
    assert_eq!(value_of(&headers, "accept"), Some("*/*"));
    assert_eq!(value_of(&headers, "x-forwarded-by"), Some("rust-load-balancer"));
    assert_eq!(value_of(&headers, "x-forwarded-for"), Some("10.0.0.7"));
    assert_eq!(value_of(&headers, "x-forwarded-proto"), Some("https"));
    assert_eq!(value_of(&headers, "x-real-ip"), Some("10.0.0.7"));
    assert_eq!(headers.len(), 5);
}

#[test]
fn tracing_headers_keep_an_existing_chain() {
    let mut headers = vec![
        header("x-forwarded-for", "1.1.1.1, 2.2.2.2"),
        header("x-forwarded-proto", "https"),
        header("x-real-ip", "1.1.1.1"),
        header("x-forwarded-by", "someone-else"),
    ];
    add_tracing_headers(&mut headers, "10.0.0.7", "http");
    assert_eq!(value_of(&headers, "x-forwarded-by"), Some("rust-load-balancer"));
    assert_eq!(value_of(&headers, "x-forwarded-for"), Some("1.1.1.1, 2.2.2.2, 10.0.0.7"));
    assert_eq!(value_of(&headers, "x-forwarded-proto"), Some("https"));
    assert_eq!(value_of(&headers, "x-real-ip"), Some("1.1.1.1"));
    assert_eq!(headers.len(), 4);
}

#[test]
fn tracing_headers_replace_an_empty_chain() {
    let mut headers = vec![header("x-forwarded-for", "")];
    add_tracing_headers(&mut headers, "10.0.0.7", "http");
    assert_eq!(value_of(&headers, "x-forwarded-for"), Some("10.0.0.7"));
}

#[test]
fn forward_request_builds_the_upstream_request() {
    let backend = Backend::new("http://127.0.0.1:8081/".to_string(), "a".to_string(), 1);
    let mut incoming = request("/items?id=3", vec![header("accept", "text/html")]);
    incoming.method = "POST".to_string();
    let upstream = forward_request(&incoming, &backend);
    assert_eq!(upstream.method, "POST");
    assert_eq!(upstream.uri, "http://127.0.0.1:8081/items?id=3");
    assert_eq!(value_of(&upstream.headers, "host"), Some("127.0.0.1:8081"));
    assert_eq!(value_of(&upstream.headers, "accept"), Some("text/html"));
    assert_eq!(value_of(&upstream.headers, "x-forwarded-for"), Some("10.0.0.7"));
    assert_eq!(value_of(&upstream.headers, "x-forwarded-proto"), Some("http"));
    incoming.client_ip = None;
    incoming.path_and_query = None;
    let upstream = forward_request(&incoming, &backend);
    assert_eq!(upstream.uri, "http://127.0.0.1:8081");
    assert_eq!(value_of(&upstream.headers, "x-forwarded-for"), Some("unknown"));
    assert_eq!(value_of(&upstream.headers, "x-real-ip"), Some("unknown"));
}

#[test]
fn algorithm_choice_goes_by_the_listed_tokens() {
    assert_eq!(choose_compression_algorithm(Some("gzip")), Some("gzip"));
    assert_eq!(choose_compression_algorithm(Some("identity, gzip;q=0.5")), Some("gzip"));
    assert_eq!(choose_compression_algorithm(Some("br,\tgzip ; q=1")), Some("gzip"));
    assert_eq!(choose_compression_algorithm(Some(" gzip ")), Some("gzip"));
    assert_eq!(choose_compression_algorithm(Some("deflate,gzip,br")), Some("gzip"));
    assert_eq!(choose_compression_algorithm(Some("identity")), Some("identity"));
    assert_eq!(choose_compression_algorithm(Some("br, identity;q=0.1")), Some("identity"));
    assert_eq!(choose_compression_algorithm(Some("xgzipx")), None);
    assert_eq!(choose_compression_algorithm(Some("deflate, x-gzip")), None);
    assert_eq!(choose_compression_algorithm(Some("br;note=gzip")), None);
    assert_eq!(choose_compression_algorithm(Some("notidentity")), None);
    assert_eq!(choose_compression_algorithm(Some("br, deflate")), None);
    assert_eq!(choose_compression_algorithm(Some("")), None);
    assert_eq!(choose_compression_algorithm(None), None);
}

#[test]
fn a_client_without_the_gzip_token_gets_the_bytes_unchanged() {
    for accept in ["xgzipx", "x-gzip", "br;x=gzip", "gzipped"] {
        let result = compress_response_adaptive(text_response(4096), Some(accept));
        assert_eq!(result.body, text_body(4096));
        assert_eq!(value_of(&result.headers, "content-encoding"), None);
        assert_eq!(value_of(&result.headers, "content-length"), Some("4096"));
    }
}

#[test]
fn the_body_is_needed_only_where_gzip_may_apply() {
    assert!(needs_body(&text_response(0), Some("gzip")));
    assert!(needs_body(&text_response(4096), Some("br, gzip")));
    assert!(!needs_body(&text_response(4096), Some("identity")));
    assert!(!needs_body(&text_response(4096), Some("xgzipx")));
    assert!(!needs_body(&text_response(4096), None));
    let mut image = text_response(4096);
    set_header(&mut image.headers, "Content-Type", "image/png");
    assert!(!needs_body(&image, Some("gzip")));
    let mut encoded = text_response(4096);
    set_header(&mut encoded.headers, "Content-Encoding", "br");
    assert!(!needs_body(&encoded, Some("gzip")));
}

#[test]
fn header_names_count_without_regard_to_case() {
    let mut headers = vec![header("Content-Type", "text/plain"), header("X-Forwarded-For", "1.1.1.1")];
    assert_eq!(find_header(&headers, "content-type"), Some(0));
    assert_eq!(find_header(&headers, "CONTENT-TYPE"), Some(0));
    assert_eq!(find_header(&headers, "content_type"), None);
    add_tracing_headers(&mut headers, "10.0.0.7", "http");
    assert_eq!(value_of(&headers, "x-forwarded-for"), Some("1.1.1.1, 10.0.0.7"));
    assert_eq!(headers.iter().filter(|h| h.name.eq_ignore_ascii_case("x-forwarded-for")).count(), 1);
    set_header(&mut headers, "content-type", "text/html");
    assert_eq!(headers.iter().filter(|h| h.name.eq_ignore_ascii_case("content-type")).count(), 1);
    assert_eq!(value_of(&headers, "Content-Type"), Some("text/html"));
    remove_header(&mut headers, "X-REAL-IP");
    assert_eq!(value_of(&headers, "x-real-ip"), None);
    let response = HttpResponse {
        status: 200,
        headers: vec![header("Content-Type", "text/plain"), header("Content-Length", "2048")],
        body: text_body(2048),
    };
    let result = compress_response_adaptive(response, Some("gzip"));
    assert_eq!(value_of(&result.headers, "content-encoding"), Some("gzip"));
    assert_eq!(value_of(&result.headers, "content-length"), None);
    assert_eq!(gunzip(&result.body), text_body(2048));
    let mut proxy = handler(&[BackendStatus::Healthy]);
    match proxy.handle_request(&request("/", vec![header("Accept-Encoding", "gzip")])) {
        RequestPlan::Forward { accept_encoding, .. } => {
            assert_eq!(accept_encoding.as_deref(), Some("gzip"))
        },
        other => panic!("unexpected plan {:?}", other),
    }
}

#[test]
fn incompressible_and_encoded_responses_are_left_alone() {
    for content_type in [
        "image/png",
        "video/mp4",
        "audio/ogg",
        "application/octet-stream",
        "application/x-compressed",
        "application/zip",
        "application/gzip",
    ] {
        let mut response = text_response(2000);
        set_header(&mut response.headers, "content-type", content_type);
        assert!(!should_compress(&response));
    }
    for content_type in ["text/plain", "text/html; charset=utf-8", "application/json", "ximage/"] {
        let mut response = text_response(2000);
        set_header(&mut response.headers, "content-type", content_type);
        assert!(should_compress(&response));
    }
    let mut response = text_response(2000);
    remove_header(&mut response.headers, "content-type");
    assert!(should_compress(&response));
    set_header(&mut response.headers, "content-encoding", "br");
    assert!(!should_compress(&response));
}

#[test]
fn ten_kib_of_text_is_gzipped_for_a_gzip_client() {
    let original = text_body(10 * 1024);
    let result = compress_response_adaptive(text_response(10 * 1024), Some("gzip"));
    assert_eq!(result.status, 200);
    assert_eq!(value_of(&result.headers, "content-encoding"), Some("gzip"));
    assert_eq!(value_of(&result.headers, "content-length"), None);
    assert_eq!(value_of(&result.headers, "content-type"), Some("text/plain"));
    assert!(result.body.len() < original.len());
    assert_ne!(result.body, original);
    assert_eq!(gunzip(&result.body), original);
}

#[test]
fn identity_client_gets_the_bytes_unchanged() {
    let original = text_body(10 * 1024);
    for accept in [Some("identity"), Some("br"), None] {
        let result = compress_response_adaptive(text_response(10 * 1024), accept);
        assert_eq!(result.body, original);
        assert_eq!(value_of(&result.headers, "content-encoding"), None);
        assert_eq!(value_of(&result.headers, "content-length"), Some("10240"));
    }
}

#[test]
fn short_bodies_are_not_compressed() {
    let result = compress_gzip(text_response(149));
    assert_eq!(result.body, text_body(149));
    assert_eq!(value_of(&result.headers, "content-encoding"), None);
    assert_eq!(value_of(&result.headers, "content-length"), Some("149"));
    let result = compress_gzip(text_response(150));
    assert_eq!(value_of(&result.headers, "content-encoding"), Some("gzip"));
    assert_eq!(gunzip(&result.body), text_body(150));
}

#[test]
fn a_stream_that_is_no_shorter_is_dropped() {
    let same = apply_gzip(text_response(200), Some(vec![7u8; 200]));
    assert_eq!(same.body, text_body(200));
    assert_eq!(value_of(&same.headers, "content-encoding"), None);
    let longer = apply_gzip(text_response(200), Some(vec![7u8; 201]));
    assert_eq!(longer.body, text_body(200));
    let failed = apply_gzip(text_response(200), None);
    assert_eq!(failed.body, text_body(200));
    assert_eq!(value_of(&failed.headers, "content-length"), Some("200"));
    let shorter = apply_gzip(text_response(200), Some(vec![7u8; 199]));
    assert_eq!(shorter.body, vec![7u8; 199]);
    assert_eq!(value_of(&shorter.headers, "content-encoding"), Some("gzip"));
    assert_eq!(value_of(&shorter.headers, "content-length"), None);
    let short = apply_gzip(text_response(149), Some(vec![7u8; 10]));
    assert_eq!(short.body, text_body(149));
}

#[test]
fn incompressible_noise_passes_unchanged() {
    let mut state: u32 = 12345;
    let noise: Vec<u8> = (0..300)
        .map(|_| {
            state = state.wrapping_mul(1664525).wrapping_add(1013904223);
            (state >> 24) as u8
        })
        .collect();
    let response = HttpResponse { status: 200, headers: vec![], body: noise.clone() };
    let result = compress_gzip(response);
    assert_eq!(result.body, noise);
    assert_eq!(value_of(&result.headers, "content-encoding"), None);
}

#[test]
fn compression_policy_is_idempotent() {
    let once = compress_response_adaptive(text_response(4096), Some("gzip"));
    let bytes = once.body.clone();
    let names: Vec<String> = once.headers.iter().map(|h| h.name.clone()).collect();
    let twice = compress_response_adaptive(once, Some("gzip"));
    assert_eq!(twice.body, bytes);
    assert_eq!(twice.headers.iter().map(|h| h.name.clone()).collect::<Vec<String>>(), names);
    let plain = compress_response_adaptive(text_response(100), Some("gzip"));
    let again = compress_response_adaptive(plain, Some("gzip"));
    assert_eq!(again.body, text_body(100));
}

#[test]
fn proxy_made_responses() {
    let bad = handle_proxy_error("connection refused");
    assert_eq!(bad.status, 502);
    assert_eq!(bad.body, b"Bad Gateway: connection refused".to_vec());
    assert!(bad.headers.is_empty());
    let none = no_healthy_backends();
    assert_eq!(none.status, 503);
    assert_eq!(none.body, b"No healthy backends available".to_vec());
    let failed = compression_failed("boom");
    assert_eq!(failed.status, 500);
    assert_eq!(failed.body, b"Internal server error: compression failed".to_vec());
    let graceful = compression_failed_graceful("boom", text_response(10));
    assert_eq!(graceful.status, 200);
    assert_eq!(graceful.body, text_body(10));
    let custom = create_error_response(418, "teapot".to_string());
    assert_eq!(custom.status, 418);
    assert_eq!(custom.body, b"teapot".to_vec());
    let marked = modify_response(custom);
    assert_eq!(marked.status, 418);
    assert_eq!(marked.body, b"teapot".to_vec());
    assert_eq!(value_of(&marked.headers, "x-load-balancer"), Some("rust-lb"));
}

#[test]
fn complete_forward_marks_both_outcomes() {
    let ok = complete_forward(Ok(text_response(1000)), Some("gzip"));
    assert_eq!(value_of(&ok.headers, "x-load-balancer"), Some("rust-lb"));
    assert_eq!(value_of(&ok.headers, "content-encoding"), Some("gzip"));
    assert_eq!(gunzip(&ok.body), text_body(1000));
    let err = complete_forward(Err("timed out".to_string()), Some("gzip"));
    assert_eq!(err.status, 502);
    assert_eq!(err.body, b"Bad Gateway: timed out".to_vec());
    assert_eq!(value_of(&err.headers, "x-load-balancer"), Some("rust-lb"));
}

#[test]
fn starvation_answers_503_with_the_proxy_mark() {
    let mut proxy = handler(&[BackendStatus::Unhealthy, BackendStatus::Unhealthy]);
    match proxy.handle_request(&request("/", vec![])) {
        RequestPlan::Respond { response } => {
            assert_eq!(response.status, 503);
            assert_eq!(response.body, b"No healthy backends available".to_vec());
            assert_eq!(value_of(&response.headers, "x-load-balancer"), Some("rust-lb"));
        },
        other => panic!("unexpected plan {:?}", other),
    }
    assert_eq!(proxy.backend_pool.entries[0].inflight, 0);
    assert_eq!(proxy.backend_pool.entries[1].inflight, 0);
}

#[test]
fn a_request_is_reserved_forwarded_and_released() {
    let mut proxy = handler(&[BackendStatus::Healthy, BackendStatus::Healthy]);
    let incoming = request("/a?b=c", vec![header("accept-encoding", "gzip, br")]);
    let (index, accept) = match proxy.handle_request(&incoming) {
        RequestPlan::Forward { index, upstream, accept_encoding } => {
            assert_eq!(index, 0);
            assert_eq!(upstream.uri, "http://127.0.0.1:8081/a?b=c");
            assert_eq!(upstream.method, "GET");
            assert_eq!(value_of(&upstream.headers, "x-real-ip"), Some("10.0.0.7"));
            (index, accept_encoding)
        },
        other => panic!("unexpected plan {:?}", other),
    };
    assert_eq!(accept.as_deref(), Some("gzip, br"));
    assert_eq!(proxy.backend_pool.entries[0].inflight, 1);
    let response = proxy.finish_request(index, Ok(text_response(500)), accept.as_deref());
    assert_eq!(proxy.backend_pool.entries[0].inflight, 0);
    assert_eq!(response.status, 200);
    assert_eq!(gunzip(&response.body), text_body(500));
    match proxy.handle_request(&request("/", vec![])) {
        RequestPlan::Forward { index, accept_encoding, .. } => {
            assert_eq!(index, 1);
            assert_eq!(accept_encoding, None);
            let response = proxy.finish_request(index, Err("refused".to_string()), None);
            assert_eq!(response.status, 502);
        },
        other => panic!("unexpected plan {:?}", other),
    }
    assert_eq!(proxy.backend_pool.entries[1].inflight, 0);
}

#[test]
fn liveness_requests_are_not_selections() {
    let mut proxy = handler(&[BackendStatus::Healthy, BackendStatus::Unknown]);
    match proxy.handle_request(&request("/health/backend-2", vec![])) {
        RequestPlan::Probe { index } => assert_eq!(index, 1),
        other => panic!("unexpected plan {:?}", other),
    }
    match proxy.handle_request(&request("/health/nobody", vec![])) {
        RequestPlan::Respond { response } => {
            assert_eq!(response.status, 404);
            assert!(response.body.is_empty());
        },
        other => panic!("unexpected plan {:?}", other),
    }
    match proxy.handle_request(&request("/health", vec![])) {
        RequestPlan::Forward { index, .. } => assert_eq!(index, 0),
        other => panic!("unexpected plan {:?}", other),
    }
    assert_eq!(proxy.backend_pool.entries[0].inflight, 1);
    assert_eq!(proxy.backend_pool.current_index, 1);
    assert_eq!(ProxyHandler::liveness_response(Some(200)).status, 200);
    assert_eq!(ProxyHandler::liveness_response(Some(299)).status, 200);
    assert_eq!(ProxyHandler::liveness_response(Some(300)).status, 503);
    assert_eq!(ProxyHandler::liveness_response(Some(199)).status, 503);
    assert_eq!(ProxyHandler::liveness_response(Some(500)).status, 503);
    assert_eq!(ProxyHandler::liveness_response(None).status, 503);
    assert!(ProxyHandler::liveness_response(Some(204)).body.is_empty());
}
