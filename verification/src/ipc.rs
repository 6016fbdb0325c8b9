//! The privileged bridge between the un-elevated GUI and the LocalSystem
//! service: its wire messages, the shared-secret check, and what the
//! service does for each request. One request and one response per
//! connection; the pipe and the JSON encoding belong to the application.
//!
//! The pipe is open to every interactive user; the real gate is a secret
//! token kept in the per-user rules directory, which each request carries
//! and the service compares with the file it reads.
use vstd::prelude::*;

use crate::engine::{ApplyReport, ProcessApplyInfo};
use crate::procwin::{mask_list_error_text, priority_writes, priority_writes_spec, trim_ws, trim_text, parse_mask_list, string_views, GroupMasks, PriorityKind, ProcessPriorities};
use crate::rule::RuleMode;
use crate::text::str_eq;

verus! {

/// A request to the service.
#[derive(Debug)]
pub enum Request {
    /// Liveness check; also tells whether the bridge is up.
    Ping { token: String },
    /// Apply per-group affinity masks (hex texts such as `"0xFF"`).
    SetAffinity { token: String, pid: u32, masks: Vec<String>, mode: RuleMode },
    /// Change any combination of the three priorities.
    SetPriority {
        token: String,
        pid: u32,
        priority_class: Option<u32>,
        io_priority: Option<u32>,
        memory_priority: Option<u32>,
    },
    /// Re-apply every enabled rule from the service's rules directory.
    ApplyRules { token: String },
}

/// The service's answer.
#[derive(Debug)]
pub struct Response {
    pub ok: bool,
    pub error: Option<String>,
    /// Successful (process x rule) applications of `ApplyRules`.
    pub applied: Option<u32>,
    /// Per-process results of `ApplyRules`.
    pub changed: Option<Vec<AppliedProcess>>,
    /// Priorities read back after `SetPriority` (the GUI often cannot read
    /// them itself).
    pub priorities: Option<ProcessPriorities>,
}

/// One process's result of `ApplyRules`.
#[derive(Debug)]
pub struct AppliedProcess {
    pub pid: u32,
    pub mask_hex: Option<String>,
    pub priorities: Option<ProcessPriorities>,
}

pub open spec fn opt_text(s: Option<String>) -> Option<Seq<char>> {
    match s {
        Some(x) => Some(x@),
        None => None,
    }
}

impl Response {
    /// Success with nothing to report.
    pub fn ok() -> (r: Self)
        ensures
            r.ok,
            r.error is None,
            r.applied is None,
            r.changed is None,
            r.priorities is None,
    {
        Response { ok: true, error: None, applied: None, changed: None, priorities: None }
    }

    /// Failure with a message.
    pub fn error(message: String) -> (r: Self)
        ensures
            !r.ok,
            r.error == Some(message),
            r.applied is None,
            r.changed is None,
            r.priorities is None,
    {
        Response { ok: false, error: Some(message), applied: None, changed: None, priorities: None }
    }

    /// Success of `ApplyRules` with its count and per-process results.
    pub fn applied(applied: u32, changed: Vec<AppliedProcess>) -> (r: Self)
        ensures
            r.ok,
            r.error is None,
            r.applied == Some(applied),
            r.changed == Some(changed),
            r.priorities is None,
    {
        Response { ok: true, error: None, applied: Some(applied), changed: Some(changed), priorities: None }
    }
}

impl Default for Response {
    fn default() -> (r: Self)
        ensures
            !r.ok,
            r.error is None,
            r.applied is None,
            r.changed is None,
            r.priorities is None,
    {
        Response { ok: false, error: None, applied: None, changed: None, priorities: None }
    }
}

/// The bridge form of one application result.
pub fn applied_process_from(value: &ProcessApplyInfo) -> (r: AppliedProcess)
    ensures
        r.pid == value.pid,
        opt_text(r.mask_hex) == opt_text(value.mask_hex),
        r.priorities == value.priorities,
{
    let mask_hex = match &value.mask_hex {
        Some(s) => Some(s.clone()),
        None => None,
    };
    AppliedProcess { pid: value.pid, mask_hex, priorities: value.priorities }
}

// ---------- Shared secret ----------

/// The token a request carries.
pub open spec fn spec_request_token(r: Request) -> String {
    match r {
        Request::Ping { token } => token,
        Request::SetAffinity { token, .. } => token,
        Request::SetPriority { token, .. } => token,
        Request::ApplyRules { token } => token,
    }
}

/// The token a request carries.
pub fn request_token(request: &Request) -> (t: &String)
    ensures
        *t == spec_request_token(*request),
{
    match request {
        Request::Ping { token } => token,
        Request::SetAffinity { token, .. } => token,
        Request::SetPriority { token, .. } => token,
        Request::ApplyRules { token } => token,
    }
}

/// The token stored in a token file's text: the trimmed text, none when
/// it is blank.
pub fn token_from_file(raw: &str) -> (t: Option<String>)
    ensures
        trim_ws(raw@).len() == 0 ==> t is None,
        trim_ws(raw@).len() > 0 ==> (t matches Some(s) && s@ == trim_ws(raw@)),
{
    let trimmed = trim_text(raw);
    if trimmed.unicode_len() == 0 {
        None
    } else {
        Some(trimmed)
    }
}

/// A request is authorized when the service has a token and the request
/// carries exactly that token.
pub open spec fn spec_authorized(expected: Option<Seq<char>>, token: Seq<char>) -> bool {
    expected == Some(token)
}

pub fn authorized(expected: &Option<String>, token: &String) -> (b: bool)
    ensures
        b == spec_authorized(opt_text(*expected), token@),
{
    match expected {
        Some(e) => str_eq(e.as_str(), token.as_str()),
        None => false,
    }
}

// ---------- Dispatch ----------

/// What the service does for a request.
#[derive(Debug)]
pub enum BridgeAction {
    /// Answer right away.
    Reply(Response),
    /// Apply affinity masks to a process, then answer with
    /// `affinity_response`.
    SetAffinity { pid: u32, masks: Vec<u64>, mode: RuleMode },
    /// Make these priority writes in order, stopping at the first failure,
    /// then answer with `priority_response`.
    SetPriority { pid: u32, writes: Vec<(PriorityKind, u32)> },
    /// Apply every enabled rule, then answer with `apply_rules_response`.
    ApplyRules,
}

/// A reply that carries only its status and, when it failed, its error:
/// no application count, no changed processes, no priorities.
pub open spec fn plain_reply(r: Response, ok: bool, error: Option<Seq<char>>) -> bool {
    &&& r.ok == ok
    &&& opt_text(r.error) == error
    &&& r.applied is None
    &&& r.changed is None
    &&& r.priorities is None
}

/// The answer to a request that does not carry the service's token.
pub open spec fn unauthorized_message() -> Seq<char> {
    "unauthorized: bridge token mismatch"@
}

/// Decide what to do for a request, given the token the service read
/// (None when it has none). Unauthorized requests are refused; a ping is
/// answered; affinity masks that do not parse are refused with the parse
/// error.
pub fn dispatch_action(request: Request, expected: Option<String>) -> (a: BridgeAction)
    ensures
        !spec_authorized(opt_text(expected), spec_request_token(request)@) ==> (a matches BridgeAction::Reply(r)
            && plain_reply(r, false, Some(unauthorized_message()))),
        spec_authorized(opt_text(expected), spec_request_token(request)@) ==> match request {
            Request::Ping { .. } => a matches BridgeAction::Reply(r) && plain_reply(r, true, None),
            Request::SetAffinity { pid, masks, mode, .. } => match parse_mask_list(string_views(masks@)) {
                Some(ms) => a matches BridgeAction::SetAffinity { pid: p, masks: m, mode: md }
                    && p == pid && m@ == ms && md == mode,
                None => a matches BridgeAction::Reply(r) && plain_reply(r, false, Some(mask_list_error_text(string_views(masks@)))),
            },
            Request::SetPriority { pid, priority_class, io_priority, memory_priority, .. } =>
                a matches BridgeAction::SetPriority { pid: p, writes }
                    && p == pid && writes@ == priority_writes_spec(priority_class, io_priority, memory_priority),
            Request::ApplyRules { .. } => a is ApplyRules,
        },
{
    let ok = authorized(&expected, request_token(&request));
    if !ok {
        let r = Response::error(String::from_str("unauthorized: bridge token mismatch"));
        proof {
            reveal_strlit("unauthorized: bridge token mismatch");
        }
        return BridgeAction::Reply(r);
    }
    match request {
        Request::Ping { .. } => BridgeAction::Reply(Response::ok()),
        Request::SetAffinity { pid, masks, mode, .. } => {
            match GroupMasks::from_hex_list(masks.as_slice()) {
                Ok(g) => BridgeAction::SetAffinity { pid, masks: g.0, mode },
                Err(e) => BridgeAction::Reply(Response::error(e)),
            }
        },
        Request::SetPriority { pid, priority_class, io_priority, memory_priority, .. } => {
            BridgeAction::SetPriority { pid, writes: priority_writes(priority_class, io_priority, memory_priority) }
        },
        Request::ApplyRules { .. } => BridgeAction::ApplyRules,
    }
}

/// The answer after an affinity change.
pub fn affinity_response(result: Result<bool, String>) -> (r: Response)
    ensures
        r.ok == result is Ok,
        result matches Err(e) ==> r.error == Some(e),
        result is Ok ==> r.error is None,
        r.applied is None,
        r.priorities is None,
        r.changed is None,
{
    match result {
        Ok(_) => Response::ok(),
        Err(e) => Response::error(e),
    }
}

/// The answer after priority writes: the first failure's message, or the
/// priorities read back afterwards.
pub fn priority_response(result: Result<ProcessPriorities, String>) -> (r: Response)
    ensures
        r.ok == result is Ok,
        result matches Err(e) ==> r.error == Some(e) && r.priorities is None,
        result matches Ok(p) ==> r.error is None && r.priorities == Some(p),
        r.applied is None,
        r.changed is None,
{
    match result {
        Ok(p) => {
            let mut response = Response::ok();
            response.priorities = Some(p);
            response
        },
        Err(e) => Response::error(e),
    }
}

/// The answer after a rule-application run: its count and each changed
/// process, or the run's error.
pub fn apply_rules_response(result: Result<ApplyReport, String>) -> (r: Response)
    ensures
        r.ok == result is Ok,
        result matches Err(e) ==> r.error == Some(e) && r.applied is None && r.changed is None,
        result matches Ok(report) ==> r.error is None,
        r.priorities is None,
        result matches Ok(report) ==> {
            &&& r.applied == Some(report.applied)
            &&& r.changed matches Some(ch) && ch@.len() == report.changed@.len()
                && forall|k: int| 0 <= k < ch@.len() ==> (#[trigger] ch@[k]).pid == report.changed@[k].pid
                    && opt_text(ch@[k].mask_hex) == opt_text(report.changed@[k].mask_hex)
                    && ch@[k].priorities == report.changed@[k].priorities
        },
{
    match result {
        Ok(report) => {
            let mut changed: Vec<AppliedProcess> = Vec::new();
            let mut i: usize = 0;
            while i < report.changed.len()
                invariant
                    i <= report.changed@.len(),
                    changed@.len() == i,
                    forall|k: int| 0 <= k < i ==> (#[trigger] changed@[k]).pid == report.changed@[k].pid
                        && opt_text(changed@[k].mask_hex) == opt_text(report.changed@[k].mask_hex)
                        && changed@[k].priorities == report.changed@[k].priorities,
                decreases report.changed.len() - i,
            {
                changed.push(applied_process_from(&report.changed[i]));
                i = i + 1;
            }
            Response::applied(report.applied, changed)
        },
        Err(e) => Response::error(e),
    }
}

/// The client's reading of an answer: the answer itself when it reports
/// success, otherwise its error (or a generic refusal).
pub fn bridge_response(response: Response) -> (r: Result<Response, String>)
    ensures
        response.ok ==> r == Ok::<Response, String>(response),
        !response.ok ==> match response.error {
            Some(e) => r == Err::<Response, String>(e),
            None => (r matches Err(e) && e@ == "service bridge refused the request"@),
        },
{
    if response.ok {
        Ok(response)
    } else {
        match response.error {
            Some(e) => Err(e),
            None => Err(String::from_str("service bridge refused the request")),
        }
    }
}

} // verus!
