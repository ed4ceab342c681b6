//! Requests that turn the gates of a running process.
//!
//! A client sends one JSON object per line and gets one per line back:
//! `{"cmd":"ping"}` and `{"cmd":"get"}` are answered with the gates as they
//! stand, `{"cmd":"set", ...}` with the gates after the ones it names were
//! turned.
pub use crate::paths::resolve_sock_path;
use crate::profiler::Profiler;
use crate::runtime_gates::{
    is_turned, law_changes_are_told, law_named_gates_are_turned, law_snapshots_show_every_gate,
    GateSnapshot, GateUpdate,
};
use vstd::prelude::*;
use vstd::string::StringExecFns;

verus! {

/// A request that could be read.
#[derive(Debug)]
pub struct Request {
    pub cmd: String,
    pub update: GateUpdate,
}

/// The answer to a request.
#[derive(Debug)]
pub struct Response {
    pub ok: bool,
    pub pid: Option<i32>,
    /// Whether a request to set gates changed one.
    pub changed: Option<bool>,
    pub gates: Option<GateSnapshot>,
    pub error: Option<String>,
}

/// The value of an answer.
#[verifier::ext_equal]
pub enum ResponseView {
    Done { pid: i32, changed: Option<bool>, gates: GateSnapshot },
    Refused { error: Seq<char> },
}

impl Response {
    /// Whether this is the answer with the value `v`.
    pub open spec fn is(self, v: ResponseView) -> bool {
        match v {
            ResponseView::Done { pid, changed, gates } => {
                &&& self.ok
                &&& self.pid == Some(pid)
                &&& self.changed == changed
                &&& self.gates == Some(gates)
                &&& self.error is None
            },
            ResponseView::Refused { error } => {
                &&& !self.ok
                &&& self.pid is None
                &&& self.changed is None
                &&& self.gates is None
                &&& self.error matches Some(e) && e@ == error
            },
        }
    }

    fn done(pid: i32, changed: Option<bool>, gates: GateSnapshot) -> (r: Response)
        ensures
            r.is(ResponseView::Done { pid, changed, gates }),
    {
        Response { ok: true, pid: Some(pid), changed, gates: Some(gates), error: None }
    }

    fn refused(error: String) -> (r: Response)
        ensures
            r.is(ResponseView::Refused { error: error@ }),
    {
        Response { ok: false, pid: None, changed: None, gates: None, error: Some(error) }
    }
}

/// `s` in quotes, with escapes, as the standard library shows it to a
/// programmer.
pub uninterp spec fn quoted(s: Seq<char>) -> Seq<char>;

/// Formats a text with `{:?}`, that is by `<str as std::fmt::Debug>::fmt`.
/// Claims that the result depends on the text alone.
#[verifier::external_body]
fn quote(s: &str) -> (r: String)
    ensures
        r@ == quoted(s@),
{
    format!("{s:?}")
}

/// The answer to a line from a client, and the process after it. `parsed` is
/// the request that the line holds, or why it holds none.
pub open spec fn answer(line: Seq<char>, parsed: Result<Request, String>, p: Profiler) -> ResponseView {
    if line.len() == 0 {
        ResponseView::Refused { error: "empty request"@ }
    } else {
        match parsed {
            Err(e) => ResponseView::Refused { error: "invalid json: "@ + e@ },
            Ok(r) => if r.cmd@ == "ping"@ || r.cmd@ == "get"@ {
                ResponseView::Done { pid: p.pid, changed: None, gates: p.gates@.snapshot() }
            } else if r.cmd@ == "set"@ {
                ResponseView::Done {
                    pid: p.pid,
                    changed: Some(p.gates@.with_fields(r.update) != p.gates@),
                    gates: p.gates@.after_update(r.update).snapshot(),
                }
            } else {
                ResponseView::Refused {
                    error: "unknown cmd "@ + quoted(r.cmd@) + " (want ping|get|set)"@,
                }
            },
        }
    }
}

/// Whether a line from a client turns gates.
pub open spec fn sets_gates(line: Seq<char>, parsed: Result<Request, String>) -> bool {
    line.len() > 0 && (parsed matches Ok(r) && r.cmd@ == "set"@)
}

/// Whether `a` and `b` are the same text.
fn same(a: &String, b: &str) -> (r: bool)
    ensures
        r == (a@ == b@),
{
    *a == String::from_str(b)
}

/// The refusal of an unknown command, given the command in quotes.
pub fn unknown_command(quoted_cmd: &str) -> (r: String)
    ensures
        r@ == "unknown cmd "@ + quoted_cmd@ + " (want ping|get|set)"@,
{
    let mut msg: String = String::from_str("unknown cmd ");
    msg.append(quoted_cmd);
    msg.append(" (want ping|get|set)");
    msg
}

/// Answers a line from a client; `parsed` is the request that it holds, or why
/// it holds none.
pub fn dispatch_line(line: &str, parsed: Result<Request, String>, p: &mut Profiler) -> (r: Response)
    ensures
        r.is(answer(line@, parsed, *old(p))),
        final(p).pid == old(p).pid,
        final(p).config == old(p).config,
        final(p).time_base == old(p).time_base,
        !sets_gates(line@, parsed) ==> final(p).gates == old(p).gates,
        sets_gates(line@, parsed) ==> (parsed matches Ok(req) && final(p).gates@
            == old(p).gates@.after_update(req.update)),
{
    if line.is_empty() {
        return Response::refused(String::from_str("empty request"));
    }
    match parsed {
        Err(e) => {
            let mut msg: String = String::from_str("invalid json: ");
            msg.append(e.as_str());
            Response::refused(msg)
        },
        Ok(req) => {
            proof {
                reveal_strlit("ping");
                reveal_strlit("get");
                reveal_strlit("set");
                assert("set"@[0] != "ping"@[0] && "set"@[0] != "get"@[0]);
            }
            if same(&req.cmd, "ping") || same(&req.cmd, "get") {
                Response::done(p.pid, None, p.gates.snapshot())
            } else if same(&req.cmd, "set") {
                let changed: bool = p.gates.apply_update(&req.update);
                Response::done(p.pid, Some(changed), p.gates.snapshot())
            } else {
                Response::refused(unknown_command(quote(req.cmd.as_str()).as_str()))
            }
        },
    }
}

/// Asking for the gates shows what setting them did, and changes nothing.
pub proof fn law_get_shows_what_set_did(
    line: Seq<char>,
    set: Request,
    get_line: Seq<char>,
    get: Request,
    p: Profiler,
    q: Profiler,
)
    requires
        line.len() > 0,
        get_line.len() > 0,
        set.cmd@ == "set"@,
        get.cmd@ == "get"@,
        q.pid == p.pid,
        q.gates@ == p.gates@.after_update(set.update),
    ensures
        answer(line, Ok(set), p) matches ResponseView::Done { gates: after, .. } && (answer(
            get_line,
            Ok(get),
            q,
        ) matches ResponseView::Done { gates: shown, changed, .. } && shown == after && changed
            is None),
        !sets_gates(get_line, Ok(get)),
{
    reveal_strlit("ping");
    reveal_strlit("get");
    reveal_strlit("set");
    assert("set"@[0] != "ping"@[0] && "set"@[0] != "get"@[0]);
}

/// A request that cannot be read or is not known is refused with the reason, and
/// turns nothing.
pub proof fn law_bad_requests_are_refused(
    line: Seq<char>,
    parsed: Result<Request, String>,
    p: Profiler,
)
    ensures
        line.len() == 0 ==> answer(line, parsed, p) == (ResponseView::Refused {
            error: "empty request"@,
        }),
        line.len() > 0 && parsed is Err ==> answer(line, parsed, p) == (
        ResponseView::Refused { error: "invalid json: "@ + parsed->Err_0@ }),
        line.len() > 0 && parsed is Ok && parsed->Ok_0.cmd@ != "ping"@ && parsed->Ok_0.cmd@
            != "get"@ && parsed->Ok_0.cmd@ != "set"@ ==> answer(line, parsed, p) == (ResponseView::Refused {
            error: "unknown cmd "@ + quoted(parsed->Ok_0.cmd@) + " (want ping|get|set)"@,
        }),
        answer(line, parsed, p) is Refused ==> !sets_gates(line, parsed),
{
    reveal_strlit("ping");
    reveal_strlit("get");
    reveal_strlit("set");
}

/// Pings and questions are answered with the process and its gates as they
/// stand, and turn nothing.
pub proof fn law_questions_show_the_gates(line: Seq<char>, r: Request, p: Profiler)
    requires
        line.len() > 0,
        r.cmd@ == "ping"@ || r.cmd@ == "get"@,
    ensures
        !sets_gates(line, Ok(r)),
        answer(line, Ok(r), p) matches ResponseView::Done { pid, changed, gates: s } && ({
            &&& pid == p.pid
            &&& changed is None
            &&& s.track_group == p.gates@.track_group
            &&& s.track_ncclop == p.gates@.track_ncclop
            &&& s.track_proxyop == p.gates@.track_proxyop
            &&& s.track_interprocess_proxyop == p.gates@.track_interprocess_proxyop
            &&& s.track_steps == p.gates@.track_steps
            &&& s.track_recv_steps == p.gates@.track_recv_steps
            &&& s.track_step_fifo_wait == p.gates@.track_step_fifo_wait
            &&& s.aggregate_steps == p.gates@.aggregate_steps
            &&& s.track_kernel_ch == p.gates@.track_kernel_ch
            &&& s.track_kernel_step == p.gates@.track_kernel_step
            &&& s.track_recv_kernel_step == p.gates@.track_recv_kernel_step
            &&& s.mask == p.gates@.mask()
        }),
{
    reveal_strlit("ping");
    reveal_strlit("get");
    reveal_strlit("set");
    assert("set"@[0] != "ping"@[0] && "set"@[0] != "get"@[0]);
}

proof fn lemma_set(line: Seq<char>, r: Request, p: Profiler)
    requires
        line.len() > 0,
        r.cmd@ == "set"@,
    ensures
        sets_gates(line, Ok(r)),
        answer(line, Ok(r), p) == (ResponseView::Done {
            pid: p.pid,
            changed: Some(p.gates@.with_fields(r.update) != p.gates@),
            gates: p.gates@.after_update(r.update).snapshot(),
        }),
{
    reveal_strlit("ping");
    reveal_strlit("get");
    reveal_strlit("set");
    assert("set"@[0] != "ping"@[0] && "set"@[0] != "get"@[0]);
}

/// A request to set gates says of which process they are, and whether one of
/// them was not as asked.
pub proof fn law_settings_are_answered(line: Seq<char>, r: Request, p: Profiler)
    requires
        line.len() > 0,
        r.cmd@ == "set"@,
    ensures
        sets_gates(line, Ok(r)),
        answer(line, Ok(r), p) matches ResponseView::Done { pid, changed: Some(x), gates }
            && pid == p.pid && (x <==> is_turned(p.gates@, r.update)),
{
    lemma_set(line, r, p);
    law_changes_are_told(p.gates@, r.update);
}

/// It shows the gates as they are then: those that it names as it asks, the
/// others as they were.
pub proof fn law_settings_are_shown(line: Seq<char>, r: Request, p: Profiler)
    requires
        line.len() > 0,
        r.cmd@ == "set"@,
    ensures
        answer(line, Ok(r), p) matches ResponseView::Done { pid, changed, gates: s } && ({
            let u = r.update;
            &&& u.track_group is None ==> s.track_group == p.gates@.track_group
            &&& u.track_group matches Some(v) ==> s.track_group == v
            &&& u.track_ncclop is None ==> s.track_ncclop == p.gates@.track_ncclop
            &&& u.track_ncclop matches Some(v) ==> s.track_ncclop == v
            &&& u.track_proxyop is None ==> s.track_proxyop == p.gates@.track_proxyop
            &&& u.track_proxyop matches Some(v) ==> s.track_proxyop == v
            &&& u.track_interprocess_proxyop is None ==> s.track_interprocess_proxyop == p.gates@.track_interprocess_proxyop
            &&& u.track_interprocess_proxyop matches Some(v) ==> s.track_interprocess_proxyop == v
            &&& u.track_steps is None ==> s.track_steps == p.gates@.track_steps
            &&& u.track_steps matches Some(v) ==> s.track_steps == v
            &&& u.track_recv_steps is None ==> s.track_recv_steps == p.gates@.track_recv_steps
            &&& u.track_recv_steps matches Some(v) ==> s.track_recv_steps == v
            &&& u.track_step_fifo_wait is None ==> s.track_step_fifo_wait == p.gates@.track_step_fifo_wait
            &&& u.track_step_fifo_wait matches Some(v) ==> s.track_step_fifo_wait == v
            &&& u.aggregate_steps is None ==> s.aggregate_steps == p.gates@.aggregate_steps
            &&& u.aggregate_steps matches Some(v) ==> s.aggregate_steps == v
            &&& u.track_kernel_ch is None ==> s.track_kernel_ch == p.gates@.track_kernel_ch
            &&& u.track_kernel_ch matches Some(v) ==> s.track_kernel_ch == v
            &&& u.track_kernel_step is None ==> s.track_kernel_step == p.gates@.track_kernel_step
            &&& u.track_kernel_step matches Some(v) ==> s.track_kernel_step == v
            &&& u.track_recv_kernel_step is None ==> s.track_recv_kernel_step == p.gates@.track_recv_kernel_step
            &&& u.track_recv_kernel_step matches Some(v) ==> s.track_recv_kernel_step == v
        }),
{
    lemma_set(line, r, p);
    law_named_gates_are_turned(p.gates@, r.update);
    law_snapshots_show_every_gate(p.gates@.after_update(r.update));
}

} // verus!
