//! The connection handler's decisions for one raw request. The embedding
//! program reads the request bytes from the peer, hands them over as
//! text, and writes back what the plan dictates; it serves exactly one
//! request per connection.
//!
//! The one protocol check made here: a request whose parsed method is
//! non-empty but whose headers lack a `Host` entry is answered with the
//! fixed `400 Bad Request` response. A request whose method parsed to
//! empty skips that check and flows into dispatch, where it is answered
//! with 405.

use vstd::prelude::*;
use crate::dispatch::{
    Dispatch, DispatchModel, ProbeModel, StaticProbe, dispatch_model, handle_request,
};
use crate::request::{parse_request, request_headers, request_method, request_path};
use crate::response::{Response, ResponseModel};
use crate::routes::RouteTable;

verus! {

/// What the connection handler decides: write the fixed 400 response, or
/// write a finished response, or probe a static-file candidate and write
/// what `finish_static` makes of the answer.
pub enum ConnectionPlan {
    BadRequest,
    Done(Response),
    Probe(StaticProbe),
}

/// The mathematical shape of a `ConnectionPlan`.
#[verifier::ext_equal]
pub enum PlanModel {
    BadRequest,
    Done(ResponseModel),
    Probe(ProbeModel),
}

impl View for ConnectionPlan {
    type V = PlanModel;

    open spec fn view(&self) -> PlanModel {
        match self {
            ConnectionPlan::BadRequest => PlanModel::BadRequest,
            ConnectionPlan::Done(r) => PlanModel::Done(r@),
            ConnectionPlan::Probe(p) => PlanModel::Probe(p@),
        }
    }
}

/// The connection handler's whole decision on one raw request: the
/// `Host`-header check gates dispatch, and is itself gated on a
/// non-empty parsed method.
pub open spec fn connection_model(
    req: Seq<char>,
    base_dir: Seq<char>,
    routes: Map<Seq<char>, (Seq<char>, Seq<char>)>,
) -> PlanModel {
    let method = request_method(req);
    let headers = request_headers(req);
    if !headers.contains_key("Host"@) && method.len() != 0 {
        PlanModel::BadRequest
    } else {
        match dispatch_model(method, request_path(req), base_dir, routes) {
            DispatchModel::Done(r) => PlanModel::Done(r),
            DispatchModel::Probe(p) => PlanModel::Probe(p),
        }
    }
}

/// A request whose parsed method is non-empty but whose headers lack a
/// `Host` entry is always planned as the fixed `400 Bad Request`
/// response, whatever the base directory and the route table hold.
pub proof fn lemma_missing_host_is_400(
    req: Seq<char>,
    base_dir: Seq<char>,
    routes: Map<Seq<char>, (Seq<char>, Seq<char>)>,
)
    requires
        !request_headers(req).contains_key("Host"@),
        request_method(req).len() != 0,
    ensures
        connection_model(req, base_dir, routes) == PlanModel::BadRequest,
{
}

/// A request whose method parsed to empty skips the `Host`-header check
/// and flows into dispatch, where empty is not `GET` and the answer is
/// 405 — even when the `Host` header is missing as well.
pub proof fn lemma_empty_method_skips_host_check(
    req: Seq<char>,
    base_dir: Seq<char>,
    routes: Map<Seq<char>, (Seq<char>, Seq<char>)>,
)
    requires
        request_method(req).len() == 0,
    ensures
        connection_model(req, base_dir, routes) == PlanModel::Done(
            ResponseModel {
                status: 405,
                reason: "Method Not Allowed"@,
                content_type: "text/plain"@,
                body: crate::response::BodyModel::Empty,
            },
        ),
{
    reveal_strlit("GET");
    assert(request_method(req) != "GET"@);
}

/// Handles one raw request: parses it, applies the `Host`-header check,
/// and dispatches.
pub fn handle_connection(request: &str, base_dir: &str, routes: &RouteTable) -> (plan:
    ConnectionPlan)
    ensures
        plan@ == connection_model(request@, base_dir@, routes@),
{
    let (method, path, headers) = parse_request(request);
    if !headers.contains_key("Host") && !method.as_str().is_empty() {
        ConnectionPlan::BadRequest
    } else {
        match handle_request(method.as_str(), path.as_str(), base_dir, routes) {
            Dispatch::Done(r) => ConnectionPlan::Done(r),
            Dispatch::Probe(p) => ConnectionPlan::Probe(p),
        }
    }
}

} // verus!
