//! Route dispatch: the decision from method and target to the response
//! content, phrased as a pure step. File reads and writes are handed back
//! to the caller as actions, with a second step to fold their outcome in.

use vstd::prelude::*;

use crate::bytes::{lower, spec_starts_with, starts_with, subvec, to_lower};
use crate::headers::{contains_name, find_header, join_comma, join_values, lemma_set_header_wf,
    set_header_of, values_of, HeaderV};
use crate::lit::{
    created, created_bytes, echo_prefix, echo_prefix_bytes, files_prefix, files_prefix_bytes,
    get_method, get_method_bytes, hello_world, hello_world_bytes, ip_path, ip_path_bytes,
    method_not_allowed, method_not_allowed_bytes, not_found, not_found_bytes, octet_stream,
    octet_stream_bytes, post_method, post_method_bytes, root_path, root_path_bytes,
    content_type_name, content_type_name_bytes, user_agent_name, user_agent_name_bytes,
    user_agent_path, user_agent_path_bytes,
};
use crate::request::Request;
use crate::response::{Response, ResponseV, StatusLineV};

verus! {

/// What the caller must still do for this response: nothing, read the named
/// file into the body, or write the request body to the named file.
#[derive(Debug)]
pub enum DispatchAction {
    Reply,
    ReadFile(Vec<u8>),
    WriteFile(Vec<u8>),
}

/// The mathematical value of a `DispatchAction`.
pub ghost enum SpecAction {
    Reply,
    ReadFile(Seq<u8>),
    WriteFile(Seq<u8>),
}

pub open spec fn action_view(a: DispatchAction) -> SpecAction {
    match a {
        DispatchAction::Reply => SpecAction::Reply,
        DispatchAction::ReadFile(n) => SpecAction::ReadFile(n@),
        DispatchAction::WriteFile(n) => SpecAction::WriteFile(n@),
    }
}

/// One dispatch outcome: the action left to do and the response so far.
pub ghost struct DispatchOut {
    pub action: SpecAction,
    pub resp: ResponseV,
}

/// A response turned into `404 Not Found` with body `Not Found`; its
/// headers are kept.
pub open spec fn not_found_of(resp: ResponseV) -> ResponseV {
    ResponseV {
        status_line: StatusLineV {
            version: resp.status_line.version,
            status_code: 404,
            reason_phrase: Some(not_found()),
        },
        headers: resp.headers,
        body: not_found(),
    }
}

/// The routing table. `GET` serves the greeting at the root, echoes the
/// rest of the target under `/echo/`, joins the `User-Agent` values at
/// `/user-agent`, returns the peer address at `/ip`, and asks for a file
/// read under `/files/`; any other `GET` target is `404`. `POST` under
/// `/files/` asks for a file write; any other `POST` target is `404`. Any
/// other method is `405`.
pub open spec fn spec_dispatch(
    method: Seq<u8>,
    target: Seq<u8>,
    headers: Seq<HeaderV>,
    peer_ip: Seq<u8>,
    resp: ResponseV,
) -> DispatchOut {
    if method == get_method() {
        if target == root_path() {
            DispatchOut { action: SpecAction::Reply, resp: ResponseV { body: hello_world(), ..resp } }
        } else if spec_starts_with(target, echo_prefix()) {
            DispatchOut {
                action: SpecAction::Reply,
                resp: ResponseV { body: target.skip(echo_prefix().len() as int), ..resp },
            }
        } else if lower(target) == user_agent_path() {
            DispatchOut {
                action: SpecAction::Reply,
                resp: ResponseV { body: join_comma(values_of(headers, user_agent_name())), ..resp },
            }
        } else if lower(target) == ip_path() {
            DispatchOut { action: SpecAction::Reply, resp: ResponseV { body: peer_ip, ..resp } }
        } else if spec_starts_with(target, files_prefix()) {
            DispatchOut {
                action: SpecAction::ReadFile(target.skip(files_prefix().len() as int)),
                resp: ResponseV {
                    headers: set_header_of(resp.headers, content_type_name(), seq![octet_stream()]),
                    ..resp
                },
            }
        } else {
            DispatchOut { action: SpecAction::Reply, resp: not_found_of(resp) }
        }
    } else if method == post_method() {
        if spec_starts_with(target, files_prefix()) {
            DispatchOut {
                action: SpecAction::WriteFile(target.skip(files_prefix().len() as int)),
                resp,
            }
        } else {
            DispatchOut { action: SpecAction::Reply, resp: not_found_of(resp) }
        }
    } else {
        DispatchOut {
            action: SpecAction::Reply,
            resp: ResponseV {
                status_line: StatusLineV {
                    version: resp.status_line.version,
                    status_code: 405,
                    reason_phrase: Some(method_not_allowed()),
                },
                headers: resp.headers,
                body: method_not_allowed(),
            },
        }
    }
}

/// Turn the response into `404 Not Found`.
fn apply_not_found(resp: &mut Response)
    ensures
        final(resp)@ == not_found_of(old(resp)@),
{
    resp.set_status(404, not_found_bytes());
    resp.body = not_found_bytes();
}

/// Route one request: mutate `resp` as the routing table says and return
/// the file action, if any, that the caller still has to perform.
pub fn dispatch(req: &Request, peer_ip: &Vec<u8>, resp: &mut Response) -> (action: DispatchAction)
    requires
        old(resp).wf(),
        (req.request_line.method@ == get_method() && lower(req.request_line.target@)
            == user_agent_path()) ==> contains_name(req.headers.deep_view(), user_agent_name()),
    ensures
        final(resp).wf(),
        ({
            let out = spec_dispatch(
                req.request_line.method@,
                req.request_line.target@,
                req.headers.deep_view(),
                peer_ip@,
                old(resp)@,
            );
            final(resp)@ == out.resp && action_view(action) == out.action
        }),
{
    let target = &req.request_line.target;
    if crate::bytes::bytes_eq(&req.request_line.method, &get_method_bytes()) {
        if crate::bytes::bytes_eq(target, &root_path_bytes()) {
            resp.body = hello_world_bytes();
            DispatchAction::Reply
        } else if starts_with(target, &echo_prefix_bytes()) {
            let rest = subvec(target, 6, target.len());
            proof {
                assert(rest@ =~= target@.skip(echo_prefix().len() as int));
            }
            resp.body = rest;
            DispatchAction::Reply
        } else if lower_is(target, &user_agent_path_bytes()) {
            let uak = user_agent_name_bytes();
            let idx = find_header(&req.headers, &uak);
            proof {
                assert(idx < req.headers@.len());
            }
            let joined = join_values(&req.headers[idx].values);
            resp.body = joined;
            DispatchAction::Reply
        } else if lower_is(target, &ip_path_bytes()) {
            let ip = subvec(peer_ip, 0, peer_ip.len());
            proof {
                assert(ip@ =~= peer_ip@);
            }
            resp.body = ip;
            DispatchAction::Reply
        } else if starts_with(target, &files_prefix_bytes()) {
            let mut vs: Vec<Vec<u8>> = Vec::new();
            vs.push(octet_stream_bytes());
            proof {
                assert(vs.deep_view() =~~= seq![octet_stream()]);
            }
            resp.set_header(content_type_name_bytes(), vs);
            proof {
                lemma_set_header_wf(old(resp)@.headers, content_type_name(), seq![octet_stream()]);
            }
            let name = subvec(target, 7, target.len());
            proof {
                assert(name@ =~= target@.skip(files_prefix().len() as int));
            }
            DispatchAction::ReadFile(name)
        } else {
            apply_not_found(resp);
            DispatchAction::Reply
        }
    } else if crate::bytes::bytes_eq(&req.request_line.method, &post_method_bytes()) {
        if starts_with(target, &files_prefix_bytes()) {
            let name = subvec(target, 7, target.len());
            proof {
                assert(name@ =~= target@.skip(files_prefix().len() as int));
            }
            DispatchAction::WriteFile(name)
        } else {
            apply_not_found(resp);
            DispatchAction::Reply
        }
    } else {
        resp.set_status(405, method_not_allowed_bytes());
        resp.body = method_not_allowed_bytes();
        DispatchAction::Reply
    }
}

/// Whether the ASCII-lowercased `s` equals `p`.
fn lower_is(s: &Vec<u8>, p: &Vec<u8>) -> (r: bool)
    ensures
        r == (lower(s@) == p@),
{
    let ls = to_lower(s);
    crate::bytes::bytes_eq(&ls, p)
}

/// Fold a file read's outcome into the response: the file's bytes become
/// the body, and a missing file turns the response into `404 Not Found`.
pub fn file_read_result(resp: &mut Response, content: Option<Vec<u8>>)
    requires
        old(resp).wf(),
    ensures
        final(resp).wf(),
        (match content {
            Some(c) => final(resp)@ == (ResponseV { body: c@, ..old(resp)@ }),
            None => final(resp)@ == not_found_of(old(resp)@),
        }),
{
    match content {
        Option::Some(c) => {
            resp.body = c;
        },
        Option::None => {
            apply_not_found(resp);
        },
    }
}

/// Fold a file write's outcome into the response: success means
/// `201 Created`; on failure the response is left as it was.
pub fn file_write_result(resp: &mut Response, ok: bool)
    requires
        old(resp).wf(),
    ensures
        final(resp).wf(),
        ok ==> final(resp)@ == (ResponseV {
            status_line: StatusLineV {
                version: old(resp)@.status_line.version,
                status_code: 201,
                reason_phrase: Some(created()),
            },
            ..old(resp)@
        }),
        !ok ==> final(resp)@ == old(resp)@,
{
    if ok {
        resp.set_status(201, created_bytes());
    }
}

} // verus!
