//! The per-request decisions: liveness short-circuit, selection, and the
//! release that is owed for every reservation.

use vstd::prelude::*;
use crate::backend::healthcheck::is_success;
use crate::history::lemma_selected_frame;
use crate::http::{
    find_header, first_value, header_views, HttpRequest, HttpResponse, ResponseView,
    UpstreamRequest,
};
use crate::backend::pool::{as_position, BackendPool};
use crate::backend::BackendStatus;
use crate::model::pick_is_owed;
use crate::proxy::request::{
    client_label, client_response, complete_forward, dispatch_view, forward_request,
    upstream_headers, upstream_uri,
};
use crate::proxy::response::{
    create_error_response, marked, modify_response, no_healthy_backends, plain_response,
    STATUS_BAD_GATEWAY, STATUS_NOT_FOUND, STATUS_OK, STATUS_SERVICE_UNAVAILABLE,
};
use crate::text::{has_prefix, optional_string, optional_text, skip_chars, starts_with};

verus! {

/// At most this many requests are in flight at once; further requests wait
/// for a slot.
pub const ADMISSION_CAPACITY: usize = 100;

/// The handler of client requests, over its pool.
#[derive(Debug)]
pub struct ProxyHandler {
    pub backend_pool: BackendPool,
}

/// What is to be done for a request.
#[derive(Debug)]
pub enum RequestPlan {
    /// Probe the backend at `index` directly, then answer with
    /// [`ProxyHandler::liveness_response`].
    Probe { index: usize },
    /// Send `upstream` to the backend at `index`, on which a request is now
    /// reserved, then answer with [`ProxyHandler::finish_request`].
    Forward { index: usize, upstream: UpstreamRequest, accept_encoding: Option<String> },
    /// Answer with `response`; nothing is reserved.
    Respond { response: HttpResponse },
}

/// The name that a liveness path asks for: what follows `/health/`.
pub open spec fn liveness_name(path: Seq<char>) -> Seq<char> {
    path.subrange(8, path.len() as int)
}

/// The answer of the liveness endpoint to a probe's outcome: `200` when the
/// backend reported success, `503` for every other outcome. The body is
/// empty.
pub open spec fn liveness_answer(probe: Option<u16>) -> ResponseView {
    match probe {
        Some(code) => if is_success(code) {
            plain_response(STATUS_OK, Seq::empty())
        } else {
            plain_response(STATUS_SERVICE_UNAVAILABLE, Seq::empty())
        },
        None => plain_response(STATUS_SERVICE_UNAVAILABLE, Seq::empty()),
    }
}

impl ProxyHandler {
    /// A handler over `backend_pool`.
    pub fn new(backend_pool: BackendPool) -> (handler: Self)
        ensures
            handler.backend_pool == backend_pool,
    {
        Self { backend_pool }
    }

    /// Decides what is to be done for `request`. A path under `/health/` is
    /// a liveness request: the named backend is to be probed, or the answer
    /// is `404` when no backend has that name; the pool stays as it is.
    /// Every other request is a selection: a request is reserved on the
    /// chosen backend and the upstream request is made up, or the answer is
    /// `503` with the proxy's mark when nothing was chosen.
    pub fn handle_request(&mut self, request: &HttpRequest) -> (plan: RequestPlan)
        ensures
            !has_prefix(request.path@, "/health/"@) && pick_is_owed(old(self).backend_pool@)
                ==> plan is Forward,
            plan matches RequestPlan::Forward { index, .. } ==> index < old(
                self,
            ).backend_pool@.entries.len() && old(self).backend_pool@.entries[index as int].status
                == BackendStatus::Healthy,
            has_prefix(request.path@, "/health/"@) ==> {
                &&& final(self).backend_pool@ == old(self).backend_pool@
                &&& match old(self).backend_pool@.position_of(liveness_name(request.path@)) {
                    Some(index) => plan matches RequestPlan::Probe { index: target } && target
                        == index,
                    None => plan matches RequestPlan::Respond { response } && response@
                        == plain_response(STATUS_NOT_FOUND, Seq::empty()),
                }
            },
            !has_prefix(request.path@, "/health/"@) ==> exists|draw: int|
                0 <= draw && {
                    let (choice, pool) = #[trigger] old(self).backend_pool@.selected(draw);
                    &&& final(self).backend_pool@ == pool
                    &&& match choice {
                        Some(index) => plan matches RequestPlan::Forward {
                            index: target,
                            upstream,
                            accept_encoding,
                        } && {
                            &&& target == index
                            &&& upstream.method@ == request.method@
                            &&& upstream.uri@ == upstream_uri(
                                optional_string(request.path_and_query),
                                old(self).backend_pool@.entries[index].backend.url,
                            )
                            &&& header_views(upstream.headers@) == upstream_headers(
                                header_views(request.headers@),
                                old(self).backend_pool@.entries[index].backend.url,
                                client_label(request.client_ip),
                                request.scheme@,
                            )
                            &&& optional_string(accept_encoding) == first_value(
                                header_views(request.headers@),
                                "accept-encoding"@,
                            )
                        },
                        None => plan matches RequestPlan::Respond { response } && response@
                            == marked(
                            plain_response(
                                STATUS_SERVICE_UNAVAILABLE,
                                "No healthy backends available"@,
                            ),
                        ),
                    }
                },
    {
        if starts_with(request.path.as_str(), "/health/") {
            proof {
                reveal_strlit("/health/");
            }
            let name = skip_chars(request.path.as_str(), 8);
            return match self.backend_pool.find_by_name(name) {
                Some(index) => RequestPlan::Probe { index },
                None => RequestPlan::Respond {
                    response: create_error_response(STATUS_NOT_FOUND, String::new()),
                },
            };
        }
        let ghost before = self.backend_pool@;
        let chosen = self.backend_pool.select_and_increment();
        proof {
            let draw = choose|draw: int|
                0 <= draw && #[trigger] before.selected(draw) == (
                    as_position(chosen),
                    self.backend_pool@,
                );
            lemma_selected_frame(before, draw);
            if chosen is Some {
                let index = chosen->0 as int;
                assert(self.backend_pool@.entries[index].backend == before.entries[index].backend);
                assert(self.backend_pool@.entries[index] == self.backend_pool.entries@[index]@);
            }
        }
        match chosen {
            Some(index) => {
                let upstream = forward_request(request, &self.backend_pool.entries[index].backend);
                let accept_encoding = match find_header(&request.headers, "accept-encoding") {
                    Some(at) => Some(request.headers[at].value.clone()),
                    None => None,
                };
                RequestPlan::Forward { index, upstream, accept_encoding }
            },
            None => RequestPlan::Respond { response: modify_response(no_healthy_backends()) },
        }
    }

    /// Ends a forwarded request: what the dispatch brought becomes the
    /// client's response, and the reservation on entry `index` is released,
    /// whatever the dispatch brought. An upstream response keeps its status;
    /// a failed dispatch is answered with `502`.
    pub fn finish_request(
        &mut self,
        index: usize,
        upstream: Result<HttpResponse, String>,
        accept_encoding: Option<&str>,
    ) -> (response: HttpResponse)
        ensures
            response@ == client_response(dispatch_view(upstream), optional_text(accept_encoding)),
            final(self).backend_pool@ == old(self).backend_pool@.released(index as int),
            response@.status == match upstream {
                Ok(answer) => answer.status,
                Err(_) => STATUS_BAD_GATEWAY,
            },
    {
        let response = complete_forward(upstream, accept_encoding);
        self.backend_pool.decrement_connections(index);
        response
    }

    /// The answer of the liveness endpoint to a probe's outcome; `None` is
    /// a transport error or a timeout.
    pub fn liveness_response(probe: Option<u16>) -> (response: HttpResponse)
        ensures
            response@ == liveness_answer(probe),
    {
        let status = match probe {
            Some(code) => {
                if 200 <= code && code < 300 {
                    STATUS_OK
                } else {
                    STATUS_SERVICE_UNAVAILABLE
                }
            },
            None => STATUS_SERVICE_UNAVAILABLE,
        };
        create_error_response(status, String::new())
    }
}

} // verus!
