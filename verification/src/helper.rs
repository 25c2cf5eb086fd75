//! The loopback helper server's contract: where it listens, whom it
//! trusts, what each picker answers, and what a delivered
//! configuration makes the broker do.
//!
//! The HTTP plumbing lives outside this crate; these functions decide
//! every answer and every follow-up request.

use vstd::prelude::*;

use crate::broker::{AppState, BackendRequest};
use crate::ids::JobId;
use crate::paths::{spec_wslify, wslify_windows_path};

verus! {

/// The fixed loopback port the helper server binds.
pub fn helper_server_port() -> (p: u16)
    ensures
        p == 20311,
{
    20311
}

/// The loopback port of the desktop front-end, the helper's one
/// trusted origin.
pub fn frontend_origin_port() -> (p: u16)
    ensures
        p == 9283,
{
    9283
}

/// The request that asks a still-running helper instance to leave the
/// port, sent before binding and when jobs are stopped.
pub fn terminate_request_url() -> (out: String)
    ensures
        out@ == "http://127.0.0.1:9283/terminate"@,
{
    "http://127.0.0.1:9283/terminate".to_owned()
}

/// The origins the helper accepts requests from.
pub fn helper_allowed_origins() -> (out: Vec<String>)
    ensures
        out.deep_view() == seq!["http://localhost:9283"@, "http://127.0.0.1:9283"@],
{
    let mut out: Vec<String> = Vec::new();
    let ghost dv0 = out.deep_view();
    out.push("http://localhost:9283".to_owned());
    proof {
        assert(out.deep_view() =~= dv0.push("http://localhost:9283"@));
    }
    let ghost dv1 = out.deep_view();
    out.push("http://127.0.0.1:9283".to_owned());
    proof {
        assert(out.deep_view() =~= dv1.push("http://127.0.0.1:9283"@));
        assert(out.deep_view() =~= seq!["http://localhost:9283"@, "http://127.0.0.1:9283"@]);
    }
    out
}

/// The cap on a request body's size, in bytes.
pub fn max_payload_bytes() -> (n: usize)
    ensures
        n == 32 * 1024,
{
    32 * 1024
}

/// The body of the health probe's answer.
pub fn health_probe_body() -> (out: String)
    ensures
        out@ == "The web server is up and running."@,
{
    "The web server is up and running.".to_owned()
}

/// A single-path picker's answer: the chosen path in the subsystem's
/// convention, or the empty string for a cancelled dialog.
pub fn picker_reply(choice: Option<String>) -> (out: String)
    ensures
        choice matches Some(p) ==> out@ == spec_wslify(p@),
        choice is None ==> out@ == Seq::<char>::empty(),
{
    match choice {
        Some(p) => wslify_windows_path(&p),
        None => String::new(),
    }
}

/// A multi-path picker's answer: every chosen path in the subsystem's
/// convention, or one empty string for a cancelled dialog.
pub fn picker_reply_many(choices: Option<Vec<String>>) -> (out: Vec<String>)
    ensures
        choices matches Some(ps) ==> {
            &&& out.deep_view().len() == ps.deep_view().len()
            &&& forall|i: int|
                0 <= i < ps.deep_view().len() ==> #[trigger] out.deep_view()[i] == spec_wslify(
                    ps.deep_view()[i],
                )
        },
        choices is None ==> out.deep_view() == seq![Seq::<char>::empty()],
{
    match choices {
        Some(ps) => {
            let ghost pv = ps.deep_view();
            let n = ps.len();
            let mut out: Vec<String> = Vec::new();
            let mut i: usize = 0;
            while i < n
                invariant
                    i <= n,
                    n == pv.len(),
                    ps.deep_view() == pv,
                    out.deep_view().len() == i,
                    forall|j: int|
                        0 <= j < i ==> #[trigger] out.deep_view()[j] == spec_wslify(pv[j]),
                decreases n - i,
            {
                let ghost dv0 = out.deep_view();
                let w = wslify_windows_path(&ps[i]);
                out.push(w);
                proof {
                    assert(out.deep_view() =~= dv0.push(spec_wslify(pv[i as int])));
                }
                i += 1;
            }
            out
        },
        None => {
            let mut out: Vec<String> = Vec::new();
            out.push(String::new());
            proof {
                assert(out.deep_view() =~= seq![Seq::<char>::empty()]);
            }
            out
        },
    }
}

/// What a delivered configuration makes the broker do. When the user
/// chose a place and the body was written there, the broker is asked,
/// in this order, to return the front-end to the follow-up page, to
/// accept the configuration for the partner container, and to stop
/// the helper's own job. A cancelled save dialog asks for nothing.
pub fn config_json_outcome(
    followup_page: AppState,
    comm_partner_container: String,
    this_servers_job_id: JobId,
    saved_path: Option<String>,
) -> (out: Vec<BackendRequest>)
    ensures
        saved_path matches Some(p) ==> out@.len() == 3 && out@[0]
            == BackendRequest::SetAppState(followup_page) && out@[1]
            == BackendRequest::AcceptConfiguration(comm_partner_container, p) && out@[2]
            == BackendRequest::StopProcess(this_servers_job_id),
        saved_path is None ==> out@ == Seq::<BackendRequest>::empty(),
{
    match saved_path {
        Some(p) => {
            let mut out: Vec<BackendRequest> = Vec::new();
            out.push(BackendRequest::SetAppState(followup_page));
            out.push(BackendRequest::AcceptConfiguration(comm_partner_container, p));
            out.push(BackendRequest::StopProcess(this_servers_job_id));
            out
        },
        None => Vec::new(),
    }
}

} // verus!
