//! The coordination state a node keeps, and the decisions taken on it.
//!
//! Every method is a step of the node's state machine: it takes the current
//! state and one input (a tool call, an incoming message, a timer tick) and
//! returns what the node must do next (publish, persist, wake). The caller
//! performs the I/O.
use vstd::prelude::*;
use crate::approval::{check_may_i_touch, may_i_spec, Approval, Decision, Escalation, MayIResult};
use crate::conflicts::{conflicts_unique, cview};
use crate::conflicts::Conflict;
use crate::ids::new_id;
use crate::events::{
    class_of, classify_event, digest_actions, drain_events, noise_count, wake_needed,
    wake_rule, Event, EventBody, EventClass, NoiseKind,
};
use crate::rpc::{Pending, PendingStatus, RpcMeta};
use crate::registry::{peers_unique, Peer};
use crate::tasks::{
    after_pass, compute_depends_on, dep_ids, ids_unique, is_kind_name, is_state_name, kind_name,
    parse_task_kind, parse_task_state, promote_ready, promoted, promoted_indices, state_name,
    status_to_state, task_state_from_status, task_state_name, tview, Release, Task, TaskKind,
    TaskState, TaskView,
};
use crate::text::{str_eq, views};
use crate::watch::{filter_matches, watch_matches, Watch, WatchFilter};
use crate::zones::{
    acquire_queues, acquire_spec, acquire_zone, has_zone, paths_unique, put_zone, release_spec,
    release_zone, steal_zone, zone_of, zview, Acquire, ReleaseOutcome, Zone, ZoneView,
};

verus! {

/// The coordination state of one node.
#[derive(Debug)]
pub struct State {
    /// The task table, in insertion order.
    pub tasks: Vec<Task>,
    /// The zone-lock registry.
    pub zones: Vec<Zone>,
    /// Conflict reports.
    pub conflicts: Vec<Conflict>,
    /// Queued events, oldest first.
    pub events: Vec<Event>,
    /// Escalated `may_i_touch` requests awaiting the master agent.
    pub escalations: Vec<Escalation>,
    /// Approval traces.
    pub approvals: Vec<Approval>,
    /// Event subscriptions held by the master.
    pub watches: Vec<Watch>,
    /// RPCs this node sent and has not forgotten.
    pub pending: Vec<Pending>,
    /// Reply routes of RPC requests this node received and has not answered.
    pub rpc_meta: Vec<(String, RpcMeta)>,
    /// Known peers (master): liveness and tree position.
    pub registry: Vec<Peer>,
    /// High-water mark of the last digest (milliseconds).
    pub last_digest_ts: u64,
    /// Number of events ever queued (saturating).
    pub event_seq: u64,
    /// The master's session id, once known.
    pub master_sid: Option<String>,
}

/// `s` advanced by `n`, saturating at `u64::MAX`.
pub open spec fn bump(s: u64, n: int) -> u64 {
    if s + n > u64::MAX {
        u64::MAX
    } else {
        (s + n) as u64
    }
}

/// An event reporting that task `task_id` (owned by `owner`) moved to `st`.
pub open spec fn is_task_event(
    e: Event,
    task_id: Seq<char>,
    st: TaskState,
    owner: Seq<char>,
    forced: bool,
    now: u64,
) -> bool {
    &&& e.kind@ == "task"@
    &&& e.session_id@ == Seq::<char>::empty()
    &&& e.state@ == state_name(st)
    &&& e.info_state@ == Seq::<char>::empty()
    &&& e.ts == Some(now)
    &&& e.body matches EventBody::Task { task_id: t, owner: o, forced: f } && t@ == task_id && o@
        == owner && f == forced
}

/// The releases owed for the promoted tasks: (owner, task id, reason
/// `deps_ready`, kind `validate`) of each
/// promoted Validate task, in table order.
pub open spec fn releases_for(ts: Seq<TaskView>, idx: Seq<int>) -> Seq<(Seq<char>, Seq<char>, Seq<char>, Seq<char>)>
    decreases idx.len(),
{
    if idx.len() == 0 {
        Seq::empty()
    } else {
        let r = releases_for(ts, idx.drop_last());
        let t = ts[idx.last()];
        if t.kind == TaskKind::Validate {
            r.push((t.owner, t.id, "deps_ready"@, "validate"@))
        } else {
            r
        }
    }
}

/// The views of a list of releases.
pub open spec fn rview(rs: Seq<Release>) -> Seq<(Seq<char>, Seq<char>, Seq<char>, Seq<char>)> {
    rs.map_values(|r: Release| (r.owner@, r.task_id@, r.reason@, r.kind@))
}

/// `evs[start..start + idx.len()]` are the Ready events of a pass.
pub open spec fn ready_events_at(
    evs: Seq<Event>,
    start: int,
    ts: Seq<TaskView>,
    idx: Seq<int>,
    now: u64,
) -> bool {
    forall|j: int|
        0 <= j < idx.len() ==> is_task_event(
            #[trigger] evs[start + j],
            ts[idx[j]].id,
            TaskState::Ready,
            ts[idx[j]].owner,
            false,
            now,
        )
}

/// Is there a task with id `id`?
pub open spec fn has_task(ts: Seq<TaskView>, id: Seq<char>) -> bool {
    exists|k: int| 0 <= k < ts.len() && ts[k].id == id
}

/// The index of the task with id `id` (meaningful when `has_task`).
pub open spec fn task_index(ts: Seq<TaskView>, id: Seq<char>) -> int {
    choose|k: int| 0 <= k < ts.len() && ts[k].id == id
}

/// `ts` with task `t` stored under its id: replaced in place when the id is
/// taken, appended otherwise.
pub open spec fn put_task(ts: Seq<TaskView>, t: TaskView) -> Seq<TaskView> {
    if has_task(ts, t.id) {
        ts.update(task_index(ts, t.id), t)
    } else {
        ts.push(t)
    }
}

/// The table after a status report moves task `tid` to `ns`.
pub open spec fn status_update(ts: Seq<TaskView>, tid: Seq<char>, ns: TaskState, now: u64) -> Seq<
    TaskView,
> {
    if has_task(ts, tid) && ts[task_index(ts, tid)].state != ns {
        ts.update(
            task_index(ts, tid),
            TaskView { state: ns, updated_at: now, ..ts[task_index(ts, tid)] },
        )
    } else {
        ts
    }
}

/// The event fields of `e` and `f` agree, and `f` carries `e`'s time or `now`.
pub open spec fn queued_as(e: Event, f: Event, now: u64) -> bool {
    &&& f.kind == e.kind
    &&& f.session_id == e.session_id
    &&& f.state == e.state
    &&& f.info_state == e.info_state
    &&& f.body == e.body
    &&& f.ts == (match e.ts {
        Some(t) => Some(t),
        None => Some(now),
    })
}


/// A watch to notify: its watcher and id.
#[derive(Debug)]
pub struct WatchHit {
    pub watcher_sid: String,
    pub watch_id: String,
}

/// A watch is live at `now` when it has no expiry or expires later.
pub open spec fn watch_live(w: Watch, now: u64) -> bool {
    w.expires_at == 0 || w.expires_at > now
}

/// The watches still live at `now`, in order.
pub open spec fn live_watches(ws: Seq<Watch>, now: u64) -> Seq<Watch>
    decreases ws.len(),
{
    if ws.len() == 0 {
        Seq::empty()
    } else {
        let r = live_watches(ws.drop_last(), now);
        if watch_live(ws.last(), now) {
            r.push(ws.last())
        } else {
            r
        }
    }
}

/// The watches whose watcher is not `sid`, in order.
pub open spec fn watches_not_of(ws: Seq<Watch>, sid: Seq<char>) -> Seq<Watch>
    decreases ws.len(),
{
    if ws.len() == 0 {
        Seq::empty()
    } else {
        let r = watches_not_of(ws.drop_last(), sid);
        if ws.last().watcher_sid@ != sid {
            r.push(ws.last())
        } else {
            r
        }
    }
}

/// The watches other than `id`, in order.
pub open spec fn watches_without(ws: Seq<Watch>, id: Seq<char>) -> Seq<Watch>
    decreases ws.len(),
{
    if ws.len() == 0 {
        Seq::empty()
    } else {
        let r = watches_without(ws.drop_last(), id);
        if ws.last().watch_id@ != id {
            r.push(ws.last())
        } else {
            r
        }
    }
}

/// Does watch `w` fire for an event of `kind` at `path`?
pub open spec fn watch_fires(w: Watch, kind: Seq<char>, path: Option<Seq<char>>) -> bool {
    w.kind@ == kind && filter_matches(w.filter, path) && w.watcher_sid@.len() > 0
}

/// (watcher, watch id) of every watch in `ws` that fires, in order.
pub open spec fn hits_of(ws: Seq<Watch>, kind: Seq<char>, path: Option<Seq<char>>) -> Seq<(Seq<char>, Seq<char>)>
    decreases ws.len(),
{
    if ws.len() == 0 {
        Seq::empty()
    } else {
        let r = hits_of(ws.drop_last(), kind, path);
        let w = ws.last();
        if watch_fires(w, kind, path) {
            r.push((w.watcher_sid@, w.watch_id@))
        } else {
            r
        }
    }
}

/// The views of watch hits.
pub open spec fn hview(hs: Seq<WatchHit>) -> Seq<(Seq<char>, Seq<char>)> {
    hs.map_values(|h: WatchHit| (h.watcher_sid@, h.watch_id@))
}

/// Answer to a slave's `zone_request` RPC at the master.
#[derive(Debug)]
pub enum ZoneAnswer {
    /// Path or requester missing.
    Invalid,
    Acquired(Acquire),
    Released(ReleaseOutcome, Vec<WatchHit>),
}


/// Approval traces are keyed by request id.
pub open spec fn approvals_unique(a: Seq<Approval>) -> bool {
    forall|i: int, j: int|
        0 <= i < a.len() && 0 <= j < a.len() && i != j ==> a[i].req_id@ != a[j].req_id@
}

/// Is there a trace for `id`?
pub open spec fn has_approval(a: Seq<Approval>, id: Seq<char>) -> bool {
    exists|k: int| 0 <= k < a.len() && a[k].req_id@ == id
}

/// `a` with trace `t` stored under its request id (replaced in place, or
/// appended).
pub open spec fn put_approval(a: Seq<Approval>, t: Approval) -> Seq<Approval> {
    if has_approval(a, t.req_id@) {
        a.update(choose|k: int| 0 <= k < a.len() && a[k].req_id@ == t.req_id@, t)
    } else {
        a.push(t)
    }
}

/// `a` and `b` record the same trace (the same request, files, owner,
/// level, flags, decision and time).
pub open spec fn same_trace(a: Approval, b: Approval) -> bool {
    &&& a.req_id@ == b.req_id@
    &&& views(a.files@) == views(b.files@)
    &&& a.owner@ == b.owner@
    &&& a.level == b.level
    &&& a.auto_approved == b.auto_approved
    &&& a.approved == b.approved
    &&& a.decision == b.decision
    &&& a.ts == b.ts
}

/// `k` is the first escalation with request id `id`.
pub open spec fn first_escalation(es: Seq<Escalation>, id: Seq<char>, k: int) -> bool {
    &&& 0 <= k < es.len()
    &&& es[k].req_id@ == id
    &&& forall|j: int| 0 <= j < k ==> es[j].req_id@ != id
}

/// The escalation reason for a level.
pub open spec fn escalation_reason(level: u8) -> Seq<char> {
    "may_i_touch escalation level "@.push(((level + 48) as u8) as char)
}

/// The decision named `d`.
pub open spec fn decision_named(d: Seq<char>) -> Option<Decision> {
    if d == "approve"@ {
        Some(Decision::Approve)
    } else if d == "deny"@ {
        Some(Decision::Deny)
    } else if d == "queue"@ {
        Some(Decision::Queue)
    } else {
        None
    }
}

/// The answer owed to a `may_i_touch` requester, when one is owed now.
#[derive(Clone, Copy, PartialEq, Eq, Debug, Structural)]
pub enum MayIAnswer {
    /// Approved without the agent.
    AutoApproved,
    /// A file is claimed by another owner.
    Denied,
}

/// Outcome of a `may_i_touch` request at the master.
#[derive(Debug)]
pub struct MayIOutcome {
    /// Answer now (`None`: escalated, the agent decides later).
    pub answer: Option<MayIAnswer>,
    /// Approvals or escalations changed (persist them).
    pub state_changed: bool,
    pub wake: bool,
}

/// Outcome of `approval_decide`.
#[derive(Debug)]
pub enum DecideOutcome {
    NotMaster,
    /// The decision is not approve, deny or queue.
    BadDecision,
    /// No escalation waits under this request id.
    Unknown,
    /// `queue`: the escalation stays pending.
    Queued,
    /// Answered: reply on `reply_to` with `approved`; `trace` was recorded.
    Decided { reply_to: Option<String>, approved: bool, trace: Approval },
}


/// Sent RPCs are keyed by request id.
pub open spec fn pending_unique(p: Seq<Pending>) -> bool {
    forall|i: int, j: int|
        0 <= i < p.len() && 0 <= j < p.len() && i != j ==> p[i].request_id@ != p[j].request_id@
}

/// Is there a sent RPC with id `id`?
pub open spec fn has_pending(p: Seq<Pending>, id: Seq<char>) -> bool {
    exists|k: int| 0 <= k < p.len() && p[k].request_id@ == id
}

/// `after` is `before` with the sent RPC `id` answered: `ok` marks it done
/// with `result` (error `null`), otherwise failed with `error` (result
/// kept); its id, attempts and expiry and every other entry stay.
pub open spec fn responded(
    before: Seq<Pending>,
    after: Seq<Pending>,
    id: Seq<char>,
    ok: bool,
    result: Seq<char>,
    error: Seq<char>,
) -> bool {
    let k = pending_index(before, id);
    let p = before[k];
    let q = after[k];
    &&& after.len() == before.len()
    &&& q.request_id == p.request_id
    &&& q.attempts == p.attempts
    &&& q.expires_at == p.expires_at
    &&& (ok ==> q.status == PendingStatus::Done && q.result@ == result && q.error@ == "null"@)
    &&& (!ok ==> q.status == PendingStatus::Failed && q.result == p.result && q.error@ == error)
    &&& forall|j: int| 0 <= j < before.len() && j != k ==> #[trigger] after[j] == before[j]
}

/// The index of the sent RPC with id `id` (meaningful when `has_pending`).
pub open spec fn pending_index(p: Seq<Pending>, id: Seq<char>) -> int {
    choose|k: int| 0 <= k < p.len() && p[k].request_id@ == id
}

/// Outcome of `retry`.
#[derive(Debug)]
pub enum RetryOutcome {
    Unknown,
    /// Done or cancelled RPCs are not retried.
    Finished(PendingStatus),
    /// Re-publish the request; `attempts` counts this one.
    Retried { target: String, method: String, params: String, attempts: u32 },
}

/// What `get_result` sees of a sent RPC.
#[derive(Debug)]
pub enum RpcResult {
    Unknown,
    /// Still pending: how many attempts so far and when it expires.
    Waiting { attempts: u32, expires_at: u64 },
    /// Done, failed or cancelled, with its result and error (JSON texts).
    Finished { status: PendingStatus, result: String, error: String, attempts: u32 },
}

/// A request to re-publish.
#[derive(Debug)]
pub struct Resend {
    pub request_id: String,
    pub target: String,
    pub method: String,
    pub params: String,
}

/// `a * b`, saturating at `u64::MAX`.
pub open spec fn sat_mul(a: u64, b: u64) -> u64 {
    if a * b > u64::MAX {
        u64::MAX
    } else {
        (a * b) as u64
    }
}

/// `a * b`, saturating at `u64::MAX`.
pub fn sat_mul_exec(a: u64, b: u64) -> (r: u64)
    ensures
        r == sat_mul(a, b),
{
    match a.checked_mul(b) {
        Some(x) => x,
        None => u64::MAX,
    }
}

/// A sent RPC whose expiry passed while it was still pending.
pub open spec fn is_expired(p: Pending, now: u64) -> bool {
    p.status == PendingStatus::Pending && p.expires_at > 0 && p.expires_at < now
}

/// An expired RPC re-armed: one more attempt (saturating) and a new expiry
/// `rpc_timeout * attempts` after `now`; everything else kept.
pub open spec fn rearmed(p: Pending, now: u64, rpc_timeout: u64) -> Pending {
    let a: u32 = if p.attempts < u32::MAX {
        (p.attempts + 1) as u32
    } else {
        u32::MAX
    };
    Pending { attempts: a, expires_at: bump(now, sat_mul(rpc_timeout, a as u64) as int), ..p }
}

/// What one sweep leaves of a sent RPC.
pub open spec fn after_sweep(p: Pending, now: u64, rpc_timeout: u64) -> Pending {
    if is_expired(p, now) {
        rearmed(p, now, rpc_timeout)
    } else {
        p
    }
}

/// The re-publication of a sent RPC, as plain text.
pub open spec fn resend_view(p: Pending) -> (Seq<char>, Seq<char>, Seq<char>, Seq<char>) {
    (p.request_id@, p.target@, p.method@, p.params@)
}

/// The re-publications one sweep makes, in registry order.
pub open spec fn resends_of(ps: Seq<Pending>, now: u64) -> Seq<(Seq<char>, Seq<char>, Seq<char>, Seq<char>)>
    decreases ps.len(),
{
    if ps.len() == 0 {
        seq![]
    } else {
        let rest = resends_of(ps.drop_last(), now);
        if is_expired(ps.last(), now) {
            rest.push(resend_view(ps.last()))
        } else {
            rest
        }
    }
}

pub open spec fn resend_views(rs: Seq<Resend>) -> Seq<(Seq<char>, Seq<char>, Seq<char>, Seq<char>)> {
    rs.map_values(|x: Resend| (x.request_id@, x.target@, x.method@, x.params@))
}

/// Re-arm one expired RPC.
fn rearm(e: &Pending, now: u64, rpc_timeout: u64) -> (q: Pending)
    ensures
        q == rearmed(*e, now, rpc_timeout),
{
    let attempts = e.attempts.saturating_add(1);
    Pending {
        request_id: e.request_id.clone(),
        target: e.target.clone(),
        method: e.method.clone(),
        params: e.params.clone(),
        status: e.status,
        attempts,
        created_at: e.created_at,
        expires_at: now.saturating_add(sat_mul_exec(rpc_timeout, attempts as u64)),
        result: e.result.clone(),
        error: e.error.clone(),
    }
}

/// Outcome of a status report at the master.
#[derive(Debug)]
pub struct StatusOutcome {
    /// Wake the agent.
    pub wake: bool,
    /// The task table changed (persist it).
    pub task_changed: bool,
    /// Releases to send.
    pub releases: Vec<Release>,
}

/// A task created by `assign`.
#[derive(Debug)]
pub struct Assigned {
    pub task_id: String,
    pub kind: TaskKind,
    pub owner: String,
    pub state: TaskState,
    pub releases: Vec<Release>,
}

/// Outcome of `task_cancel`.
#[derive(Debug)]
pub enum TaskCancel {
    NotMaster,
    Unknown,
    Cancelled { releases: Vec<Release> },
}

/// Outcome of `task_force`.
#[derive(Debug)]
pub enum TaskForce {
    NotMaster,
    InvalidState,
    Unknown,
    Forced { releases: Vec<Release> },
}

/// The task an `assign` creates.
pub open spec fn new_task(
    id: Seq<char>,
    kind: TaskKind,
    crates: Seq<Seq<char>>,
    files: Seq<Seq<char>>,
    owner: Seq<char>,
    deps: Seq<Seq<char>>,
    now: u64,
) -> TaskView {
    TaskView {
        id,
        kind,
        target_crates: crates,
        files,
        owner,
        state: TaskState::Scheduled,
        depends_on: deps,
        created_at: now,
        updated_at: now,
    }
}

proof fn lemma_task_event_class(ts: Seq<TaskView>, e: Event, tid: Seq<char>, st: TaskState, owner: Seq<char>, forced: bool, now: u64)
    requires
        is_task_event(e, tid, st, owner, forced, now),
    ensures
        (class_of(ts, e) == EventClass::Action) == (st == TaskState::Done || st == TaskState::Failed),
{
    reveal_strlit("task");
    reveal_strlit("blocked");
    reveal_strlit("error");
    reveal_strlit("conflict_reported");
    reveal_strlit("conflict");
    reveal_strlit("rpc_request");
    reveal_strlit("approval_escalation");
    reveal_strlit("done");
    reveal_strlit("Done");
    reveal_strlit("Failed");
    reveal_strlit("Scheduled");
    reveal_strlit("Ready");
    reveal_strlit("Assigned");
    reveal_strlit("Working");
    assert("task"@.len() == 4);
    assert("blocked"@.len() == 7);
    assert("error"@.len() == 5);
    assert("done"@[0] != "task"@[0]);
    assert("Done"@.len() == 4);
    assert("Failed"@.len() == 6);
    assert(e.kind@ != "blocked"@);
    assert(e.kind@ != "error"@);
    assert(e.kind@ != "conflict_reported"@);
    assert(e.kind@ != "conflict"@);
    assert(e.kind@ != "rpc_request"@);
    assert(e.kind@ != "approval_escalation"@);
    assert(e.kind@ != "done"@);
}

impl State {
    /// Well-formed: task ids and zone paths are unique.
    pub open spec fn wf(&self) -> bool {
        &&& ids_unique(tview(self.tasks@))
        &&& paths_unique(zview(self.zones@))
        &&& approvals_unique(self.approvals@)
        &&& pending_unique(self.pending@)
        &&& peers_unique(self.registry@)
        &&& conflicts_unique(cview(self.conflicts@))
    }

    /// Everything but the task table, the event queue and the event counter
    /// is as in `other`.
    pub open spec fn same_but_tasks(&self, other: State) -> bool {
        &&& self.zones == other.zones
        &&& self.conflicts == other.conflicts
        &&& self.escalations == other.escalations
        &&& self.approvals == other.approvals
        &&& self.watches == other.watches
        &&& self.pending == other.pending
        &&& self.rpc_meta == other.rpc_meta
        &&& self.last_digest_ts == other.last_digest_ts
        &&& self.registry == other.registry
        &&& self.master_sid == other.master_sid
    }

    /// An empty state.
    pub fn new(master_sid: Option<String>) -> (r: State)
        ensures
            r.wf(),
            r.tasks@.len() == 0,
            r.zones@.len() == 0,
            r.conflicts@.len() == 0,
            r.events@.len() == 0,
            r.escalations@.len() == 0,
            r.approvals@.len() == 0,
            r.watches@.len() == 0,
            r.pending@.len() == 0,
            r.rpc_meta@.len() == 0,
            r.registry@.len() == 0,
            r.last_digest_ts == 0,
            r.event_seq == 0,
            r.master_sid == master_sid,
    {
        State {
            tasks: Vec::new(),
            zones: Vec::new(),
            conflicts: Vec::new(),
            events: Vec::new(),
            escalations: Vec::new(),
            approvals: Vec::new(),
            watches: Vec::new(),
            pending: Vec::new(),
            rpc_meta: Vec::new(),
            registry: Vec::new(),
            last_digest_ts: 0,
            event_seq: 0,
            master_sid,
        }
    }

    /// Queue an event, stamping it with `now` when it carries no time.
    pub fn push_event(&mut self, ev: Event, now: u64)
        ensures
            final(self).events@.len() == old(self).events@.len() + 1,
            final(self).events@.drop_last() == old(self).events@,
            final(self).events@.last().kind == ev.kind,
            final(self).events@.last().session_id == ev.session_id,
            final(self).events@.last().state == ev.state,
            final(self).events@.last().info_state == ev.info_state,
            final(self).events@.last().body == ev.body,
            final(self).events@.last().ts == (match ev.ts {
                Some(t) => Some(t),
                None => Some(now),
            }),
            final(self).event_seq == bump(old(self).event_seq, 1),
            final(self).tasks == old(self).tasks,
            final(self).same_but_tasks(*old(self)),
    {
        let mut ev = ev;
        if ev.ts.is_none() {
            ev.ts = Some(now);
        }
        self.events.push(ev);
        self.event_seq = self.event_seq.saturating_add(1);
        proof {
            assert(self.events@.drop_last() =~= old(self).events@);
        }
    }

    /// Whether `ev` should wake the agent (digest policy over its class).
    pub fn wake_for(&self, ev: &Event, digest_mode: bool) -> (r: bool)
        ensures
            r == wake_rule(digest_mode, class_of(tview(self.tasks@), *ev)),
    {
        wake_needed(digest_mode, classify_event(&self.tasks, ev))
    }

    /// promote Scheduled tasks whose dependencies cleared / global slot
    /// freed (Scheduled -> Ready), queue a `task` event for each, and return
    /// the automatic releases owed to the owners of the Validate tasks that
    /// just became Ready. A second call releases nothing (see
    /// `lemma_pass_idempotent`).
    pub fn recompute_tasks(&mut self, now: u64) -> (r: Vec<Release>)
        requires
            old(self).wf(),
        ensures
            final(self).wf(),
            tview(final(self).tasks@) == after_pass(tview(old(self).tasks@), now),
            ({
                let ts = tview(old(self).tasks@);
                let idx = promoted_indices(ts, ts.len() as int);
                &&& final(self).events@.len() == old(self).events@.len() + idx.len()
                &&& final(self).events@.take(old(self).events@.len() as int) == old(self).events@
                &&& forall|j: int|
                    0 <= j < idx.len() ==> is_task_event(
                        #[trigger] final(self).events@[old(self).events@.len() + j],
                        ts[idx[j]].id,
                        TaskState::Ready,
                        ts[idx[j]].owner,
                        false,
                        now,
                    )
                &&& rview(r@) == releases_for(ts, idx)
                &&& final(self).event_seq == bump(old(self).event_seq, idx.len() as int)
            }),
            final(self).same_but_tasks(*old(self)),
    {
        let ghost ts = tview(self.tasks@);
        let ghost idx = promoted_indices(ts, ts.len() as int);
        let ghost ev0 = self.events@;
        let ghost seq0 = self.event_seq;
        let moved = promote_ready(&mut self.tasks, now);
        proof {
            assert forall|i: int, j: int|
                0 <= i < tview(self.tasks@).len() && 0 <= j < tview(self.tasks@).len() && i != j
                    implies tview(self.tasks@)[i].id != tview(self.tasks@)[j].id by {
                assert(tview(self.tasks@)[i].id == ts[i].id);
                assert(tview(self.tasks@)[j].id == ts[j].id);
            }
        }
        let mut releases: Vec<Release> = Vec::new();
        let mut j: usize = 0;
        proof {
            assert(tview(moved@).len() == moved@.len());
            assert(moved@.len() == idx.len());
            assert(ev0.take(ev0.len() as int) =~= ev0);
            assert(idx.take(0) =~= Seq::<int>::empty());
            assert(rview(releases@) =~= releases_for(ts, idx.take(0)));
        }
        while j < moved.len()
            invariant
                self.wf(),
                tview(self.tasks@) == after_pass(ts, now),
                tview(moved@) == idx.map_values(|k: int| promoted(ts[k], now)),
                j <= moved@.len(),
                moved@.len() == idx.len(),
                self.events@.len() == ev0.len() + j,
                self.events@.take(ev0.len() as int) == ev0,
                forall|q: int|
                    0 <= q < j ==> is_task_event(
                        #[trigger] self.events@[ev0.len() + q],
                        ts[idx[q]].id,
                        TaskState::Ready,
                        ts[idx[q]].owner,
                        false,
                        now,
                    ),
                rview(releases@) == releases_for(ts, idx.take(j as int)),
                self.event_seq == bump(seq0, j as int),
                self.same_but_tasks(*old(self)),
            decreases moved@.len() - j,
        {
            let t = &moved[j];
            proof {
                assert(tview(moved@)[j as int] == moved@[j as int]@);
                assert(t@ == promoted(ts[idx[j as int]], now));
            }
            let ev = Event {
                kind: String::from_str("task"),
                session_id: String::new(),
                state: task_state_name(TaskState::Ready),
                info_state: String::new(),
                ts: Some(now),
                body: EventBody::Task { task_id: t.id.clone(), owner: t.owner.clone(), forced: false },
            };
            let ghost before = self.events@;
            self.push_event(ev, now);
            proof {
                assert(self.events@.take(ev0.len() as int) =~= before.take(ev0.len() as int));
                assert forall|q: int| 0 <= q < j + 1 implies is_task_event(
                    #[trigger] self.events@[ev0.len() + q],
                    ts[idx[q]].id,
                    TaskState::Ready,
                    ts[idx[q]].owner,
                    false,
                    now,
                ) by {
                    if q < j {
                        assert(self.events@[ev0.len() + q] == before[ev0.len() + q]);
                    }
                }
                assert(idx.take(j + 1).drop_last() =~= idx.take(j as int));
                assert(idx.take(j + 1).last() == idx[j as int]);
            }
            if t.kind == TaskKind::Validate {
                let ghost rb = releases@;
                releases.push(
                    Release {
                        owner: t.owner.clone(),
                        task_id: t.id.clone(),
                        reason: String::from_str("deps_ready"),
                        kind: String::from_str("validate"),
                    },
                );
                proof {
                    assert(rview(releases@) =~= rview(rb).push(
                        (t.owner@, t.id@, "deps_ready"@, "validate"@),
                    ));
                }
            }
            j = j + 1;
        }
        proof {
            assert(idx.take(idx.len() as int) =~= idx);
        }
        releases
    }

    /// `mux_digest`. Drain queued events into decision-first actions and
    /// ack/tick noise counts, skipping events at or before `since` (when given
    /// and positive), and move the high-water mark to `now`.
    pub fn digest(&mut self, since: Option<u64>, now: u64) -> (r: (Vec<Event>, usize, usize, u64))
        ensures
            ({
                let s = match since {
                    Some(x) => x,
                    None => 0,
                };
                &&& r.0@ == digest_actions(tview(old(self).tasks@), old(self).events@, s)
                &&& r.1 == noise_count(tview(old(self).tasks@), old(self).events@, s, NoiseKind::Ack)
                &&& r.2 == noise_count(
                    tview(old(self).tasks@),
                    old(self).events@,
                    s,
                    NoiseKind::Tick,
                )
            }),
            r.3 == now,
            final(self).events@.len() == 0,
            final(self).last_digest_ts == now,
            final(self).tasks == old(self).tasks,
            final(self).zones == old(self).zones,
            final(self).conflicts == old(self).conflicts,
            final(self).escalations == old(self).escalations,
            final(self).approvals == old(self).approvals,
    {
        let s = match since {
            Some(x) => x,
            None => 0,
        };
        let (actions, ack, tick) = drain_events(&self.tasks, &mut self.events, s);
        self.last_digest_ts = now;
        (actions, ack, tick, now)
    }


    /// Position of the task with id `id`.
    pub fn find_task_index(&self, id: &str) -> (r: Option<usize>)
        ensures
            r matches Some(k) ==> k < self.tasks@.len() && self.tasks@[k as int].id@ == id@,
            r is None <==> !has_task(tview(self.tasks@), id@),
    {
        let ghost ts = tview(self.tasks@);
        let mut k: usize = 0;
        while k < self.tasks.len()
            invariant
                ts == tview(self.tasks@),
                k <= ts.len(),
                forall|j: int| 0 <= j < k ==> ts[j].id != id@,
            decreases ts.len() - k,
        {
            if str_eq(self.tasks[k].id.as_str(), id) {
                assert(ts[k as int].id == id@);
                return Some(k);
            }
            k = k + 1;
        }
        None
    }

    /// a status report from `sid`. The status event is queued; when it
    /// carries a task id, the task's state follows the reported state (done ->
    /// Done, error/failed -> Failed, otherwise Working) and a `task` event is
    /// queued on a change; then readiness is recomputed and the owed releases
    /// returned. Wakes in legacy mode, or for an actionable status or a task
    /// that became Done/Failed.
    pub fn on_status(
        &mut self,
        sid: &str,
        status_ev: Event,
        reported_state: &str,
        task_id: Option<&str>,
        now: u64,
        digest_mode: bool,
    ) -> (r: StatusOutcome)
        requires
            old(self).wf(),
        ensures
            final(self).wf(),
            final(self).same_but_tasks(*old(self)),
            final(self).events@.len() > old(self).events@.len(),
            final(self).events@.take(old(self).events@.len() as int) == old(self).events@,
            queued_as(status_ev, final(self).events@[old(self).events@.len() as int], now),
            ({
                let ts0 = tview(old(self).tasks@);
                let ns = status_to_state(reported_state@);
                let n0 = old(self).events@.len() as int;
                match task_id {
                    None => {
                        &&& tview(final(self).tasks@) == ts0
                        &&& final(self).events@.len() == n0 + 1
                        &&& r.releases@.len() == 0
                        &&& !r.task_changed
                        &&& r.wake == (!digest_mode || class_of(ts0, status_ev) == EventClass::Action)
                    },
                    Some(tid) => {
                        let changed = has_task(ts0, tid@) && ts0[task_index(ts0, tid@)].state != ns;
                        let ts1 = status_update(ts0, tid@, ns, now);
                        let idx = promoted_indices(ts1, ts1.len() as int);
                        let n1 = if changed {
                            n0 + 2
                        } else {
                            n0 + 1
                        };
                        &&& tview(final(self).tasks@) == after_pass(ts1, now)
                        &&& changed ==> is_task_event(
                            final(self).events@[n0 + 1],
                            tid@,
                            ns,
                            sid@,
                            false,
                            now,
                        )
                        &&& final(self).events@.len() == n1 + idx.len()
                        &&& ready_events_at(final(self).events@, n1, ts1, idx, now)
                        &&& rview(r.releases@) == releases_for(ts1, idx)
                        &&& r.task_changed == (changed || r.releases@.len() > 0)
                        &&& r.wake == (!digest_mode || class_of(ts0, status_ev)
                            == EventClass::Action || (changed && (ns == TaskState::Done || ns
                            == TaskState::Failed)))
                    },
                }
            }),
    {
        let ghost ts0 = tview(self.tasks@);
        let ghost ev0 = self.events@;
        let ghost n0 = ev0.len() as int;
        let ghost se = status_ev;
        let mut wake = !digest_mode;
        if self.wake_for(&status_ev, digest_mode) {
            wake = true;
        }
        self.push_event(status_ev, now);
        let mut task_changed = false;
        let mut releases: Vec<Release> = Vec::new();
        proof {
            assert(self.events@.take(n0) =~= ev0);
        }
        match task_id {
            None => {},
            Some(tid) => {
                let ns = task_state_from_status(reported_state);
                let ghost changed = has_task(ts0, tid@) && ts0[task_index(ts0, tid@)].state != ns;
                let ghost ts1 = status_update(ts0, tid@, ns, now);
                match self.find_task_index(tid) {
                    Some(k) => {
                        proof {
                            assert(has_task(ts0, tid@));
                            let j = task_index(ts0, tid@);
                            assert(ts0[j].id == tid@);
                            assert(ts0[k as int].id == tid@);
                            assert(j == k);
                        }
                        if self.tasks[k].state != ns {
                            let mut t = self.tasks[k].copy();
                            t.state = ns;
                            t.updated_at = now;
                            self.tasks.set(k, t);
                            proof {
                                assert(tview(self.tasks@) =~= ts1);
                                assert forall|i: int, j: int|
                                    0 <= i < tview(self.tasks@).len() && 0 <= j < tview(
                                        self.tasks@,
                                    ).len() && i != j implies tview(self.tasks@)[i].id != tview(
                                    self.tasks@,
                                )[j].id by {
                                    assert(tview(self.tasks@)[i].id == ts0[i].id);
                                    assert(tview(self.tasks@)[j].id == ts0[j].id);
                                }
                            }
                            let tev = Event {
                                kind: String::from_str("task"),
                                session_id: String::new(),
                                state: task_state_name(ns),
                                info_state: String::new(),
                                ts: Some(now),
                                body: EventBody::Task {
                                    task_id: String::from_str(tid),
                                    owner: String::from_str(sid),
                                    forced: false,
                                },
                            };
                            proof {
                                lemma_task_event_class(tview(self.tasks@), tev, tid@, ns, sid@, false, now);
                            }
                            if self.wake_for(&tev, digest_mode) {
                                wake = true;
                            }
                            let ghost before = self.events@;
                            self.push_event(tev, now);
                            task_changed = true;
                            proof {
                                assert(self.events@.take(n0) =~= before.take(n0));
                                assert(self.events@[n0] == before[n0]);
                            }
                        } else {
                            proof {
                                assert(ts1 == ts0);
                            }
                        }
                    },
                    None => {
                        proof {
                            assert(ts1 == ts0);
                        }
                    },
                }
                let ghost before = self.events@;
                releases = self.recompute_tasks(now);
                proof {
                    let n1 = before.len() as int;
                    assert(self.events@.take(n0) =~= before.take(n0));
                    assert(self.events@[n0] == before[n0]);
                    if changed {
                        assert(self.events@[n0 + 1] == before[n0 + 1]);
                    }
                    let idx = promoted_indices(ts1, ts1.len() as int);
                    assert forall|j: int| 0 <= j < idx.len() implies is_task_event(
                        #[trigger] self.events@[n1 + j],
                        ts1[idx[j]].id,
                        TaskState::Ready,
                        ts1[idx[j]].owner,
                        false,
                        now,
                    ) by {
                        assert(self.events@[before.len() + j] == self.events@[n1 + j]);
                    }
                }
                if releases.len() > 0 {
                    task_changed = true;
                }
            },
        }
        StatusOutcome { wake, task_changed, releases }
    }

    /// Store `t` under its id: replace the task with that id, or append.
    pub(crate) fn put_task(&mut self, t: Task)
        requires
            old(self).wf(),
        ensures
            final(self).wf(),
            final(self).same_but_tasks(*old(self)),
            final(self).events == old(self).events,
            final(self).event_seq == old(self).event_seq,
            tview(final(self).tasks@) == put_task(tview(old(self).tasks@), t@),
    {
        let ghost ts = tview(self.tasks@);
        let ghost tv = t@;
        match self.find_task_index(t.id.as_str()) {
            Some(k) => {
                proof {
                    let j = task_index(ts, tv.id);
                    assert(ts[k as int].id == tv.id);
                    assert(ts[j].id == tv.id);
                    assert(j == k);
                }
                self.tasks.set(k, t);
                proof {
                    assert(tview(self.tasks@) =~= put_task(ts, tv));
                    assert forall|i: int, j: int|
                        0 <= i < tview(self.tasks@).len() && 0 <= j < tview(self.tasks@).len()
                            && i != j implies tview(self.tasks@)[i].id != tview(self.tasks@)[j].id by {
                        if i != k && j != k {
                            assert(ts[i].id != ts[j].id);
                        } else if i == k {
                            assert(ts[k as int].id != ts[j].id);
                        } else {
                            assert(ts[i].id != ts[k as int].id);
                        }
                    }
                }
            },
            None => {
                self.tasks.push(t);
                proof {
                    assert(tview(self.tasks@) =~= put_task(ts, tv));
                    assert forall|i: int, j: int|
                        0 <= i < tview(self.tasks@).len() && 0 <= j < tview(self.tasks@).len()
                            && i != j implies tview(self.tasks@)[i].id != tview(self.tasks@)[j].id by {
                        if i < ts.len() && j < ts.len() {
                            assert(ts[i].id != ts[j].id);
                        } else if i < ts.len() {
                            assert(ts[i].id != tv.id);
                        } else {
                            assert(ts[j].id != tv.id);
                        }
                    }
                }
            },
        }
    }

    /// `assign` with a given task id (master only). The kind must be one
    /// of the task kinds and the crate and file lists must be present. The
    /// task is stored Scheduled with its dependencies (`compute_depends_on`),
    /// then readiness is recomputed: it is Ready at once when nothing blocks
    /// it. Returns the task's state after the pass and the owed releases.
    pub fn assign_task_with_id(
        &mut self,
        is_master: bool,
        target: &str,
        kind: &str,
        target_crates: Option<Vec<String>>,
        files: Option<Vec<String>>,
        task_id: String,
        now: u64,
    ) -> (r: Result<Assigned, String>)
        requires
            old(self).wf(),
        ensures
            final(self).wf(),
            final(self).same_but_tasks(*old(self)),
            !is_master ==> (r matches Err(e) && e@ == "assign_task is master-only"@),
            is_master && (kind@.len() == 0 || target_crates is None || files is None) ==> (
            r matches Err(e) && e@ == "assign payload must include kind, target_crates and files"@),
            is_master && kind@.len() > 0 && target_crates is Some && files is Some && !is_kind_name(
                kind@,
            ) ==> (r matches Err(e) && e@ == "invalid task kind "@ + kind@
                + "; must be one of Src, Validate, Docs, Deps, Release"@),
            r is Err ==> final(self).tasks == old(self).tasks && final(self).events == old(self).events,
            is_master && kind@.len() > 0 && target_crates is Some && files is Some && is_kind_name(
                kind@,
            ) ==> r is Ok,
            r matches Ok(a) ==> ({
                let ts0 = tview(old(self).tasks@);
                let crates = views(target_crates->0@);
                let deps = if a.kind == TaskKind::Validate {
                    dep_ids(ts0, crates)
                } else {
                    Seq::empty()
                };
                let ts1 = put_task(
                    ts0,
                    new_task(task_id@, a.kind, crates, views(files->0@), target@, deps, now),
                );
                let idx = promoted_indices(ts1, ts1.len() as int);
                &&& kind_name(a.kind) == kind@
                &&& a.task_id@ == task_id@
                &&& a.owner@ == target@
                &&& tview(final(self).tasks@) == after_pass(ts1, now)
                &&& a.state == after_pass(ts1, now)[task_index(ts1, task_id@)].state
                &&& final(self).events@.len() == old(self).events@.len() + idx.len()
                &&& final(self).events@.take(old(self).events@.len() as int) == old(self).events@
                &&& ready_events_at(final(self).events@, old(self).events@.len() as int, ts1, idx, now)
                &&& rview(a.releases@) == releases_for(ts1, idx)
            }),
    {
        if !is_master {
            return Err(String::from_str("assign_task is master-only"));
        }
        if kind.unicode_len() == 0 || target_crates.is_none() || files.is_none() {
            return Err(String::from_str("assign payload must include kind, target_crates and files"));
        }
        let k = match parse_task_kind(kind) {
            Some(k) => k,
            None => {
                let mut msg = String::from_str("invalid task kind ");
                msg.append(kind);
                msg.append("; must be one of Src, Validate, Docs, Deps, Release");
                return Err(msg);
            },
        };
        let crates = target_crates.unwrap();
        let fs = files.unwrap();
        let deps = compute_depends_on(&self.tasks, k, &crates);
        let ghost ts0 = tview(self.tasks@);
        let task = Task {
            id: task_id.clone(),
            kind: k,
            target_crates: crates,
            files: fs,
            owner: String::from_str(target),
            state: TaskState::Scheduled,
            depends_on: deps,
            created_at: now,
            updated_at: now,
        };
        self.put_task(task);
        let ghost ts1 = tview(self.tasks@);
        proof {
            assert(has_task(ts1, task_id@)) by {
                if has_task(ts0, task_id@) {
                    assert(ts1[task_index(ts0, task_id@)].id == task_id@);
                } else {
                    assert(ts1[ts0.len() as int].id == task_id@);
                }
            }
        }
        let releases = self.recompute_tasks(now);
        let idx = match self.find_task_index(task_id.as_str()) {
            Some(i) => i,
            None => {
                proof {
                    let j = task_index(ts1, task_id@);
                    assert(tview(self.tasks@)[j].id == ts1[j].id);
                }
                return Err(String::new());
            },
        };
        proof {
            let j = task_index(ts1, task_id@);
            assert(tview(self.tasks@)[idx as int].id == task_id@);
            assert(ts1[idx as int].id == after_pass(ts1, now)[idx as int].id);
            assert(ts1[j].id == task_id@);
            assert(j == idx);
        }
        let state = self.tasks[idx].state;
        Ok(Assigned { task_id, kind: k, owner: String::from_str(target), state, releases })
    }

    /// `assign` (master only): validate the payload, draw a fresh task id
    /// and store the task as `assign_task_with_id` does.
    pub fn assign_task(
        &mut self,
        is_master: bool,
        target: &str,
        kind: &str,
        target_crates: Option<Vec<String>>,
        files: Option<Vec<String>>,
        now: u64,
    ) -> (r: Result<Assigned, String>)
        requires
            old(self).wf(),
        ensures
            final(self).wf(),
            final(self).same_but_tasks(*old(self)),
            !is_master ==> (r matches Err(e) && e@ == "assign_task is master-only"@),
            is_master && (kind@.len() == 0 || target_crates is None || files is None) ==> (
            r matches Err(e) && e@ == "assign payload must include kind, target_crates and files"@),
            is_master && kind@.len() > 0 && target_crates is Some && files is Some && !is_kind_name(
                kind@,
            ) ==> (r matches Err(e) && e@ == "invalid task kind "@ + kind@
                + "; must be one of Src, Validate, Docs, Deps, Release"@),
            r is Err ==> final(self).tasks == old(self).tasks && final(self).events == old(self).events,
            is_master && kind@.len() > 0 && target_crates is Some && files is Some && is_kind_name(
                kind@,
            ) ==> r is Ok,
            r matches Ok(a) ==> ({
                let ts0 = tview(old(self).tasks@);
                let crates = views(target_crates->0@);
                let deps = if a.kind == TaskKind::Validate {
                    dep_ids(ts0, crates)
                } else {
                    Seq::empty()
                };
                let ts1 = put_task(
                    ts0,
                    new_task(a.task_id@, a.kind, crates, views(files->0@), target@, deps, now),
                );
                let idx = promoted_indices(ts1, ts1.len() as int);
                &&& a.task_id@.len() == 32
                &&& kind_name(a.kind) == kind@
                &&& a.owner@ == target@
                &&& tview(final(self).tasks@) == after_pass(ts1, now)
                &&& a.state == after_pass(ts1, now)[task_index(ts1, a.task_id@)].state
                &&& final(self).events@.len() == old(self).events@.len() + idx.len()
                &&& final(self).events@.take(old(self).events@.len() as int) == old(self).events@
                &&& ready_events_at(final(self).events@, old(self).events@.len() as int, ts1, idx, now)
                &&& rview(a.releases@) == releases_for(ts1, idx)
            }),
    {
        if !is_master || kind.unicode_len() == 0 || target_crates.is_none() || files.is_none()
            || !crate::tasks::task_kind_valid(kind) {
            return self.assign_task_with_id(is_master, target, kind, target_crates, files, String::new(), now);
        }
        let id = new_id();
        self.assign_task_with_id(is_master, target, kind, target_crates, files, id, now)
    }

    /// `task_show` — the task with id `task_id`, if any.
    pub fn task_show(&self, task_id: &str) -> (r: Option<&Task>)
        ensures
            r is None <==> !has_task(tview(self.tasks@), task_id@),
            r matches Some(t) ==> t.id@ == task_id@ && exists|k: int|
                0 <= k < self.tasks@.len() && self.tasks@[k] == *t,
    {
        match self.find_task_index(task_id) {
            Some(k) => Some(&self.tasks[k]),
            None => None,
        }
    }

    /// `task_cancel` (master only). Remove the task from the table and
    /// recompute readiness — a cancelled dependency may unblock a queued
    /// Validate, which is then released.
    pub fn task_cancel(&mut self, is_master: bool, task_id: &str, now: u64) -> (r: TaskCancel)
        requires
            old(self).wf(),
        ensures
            final(self).wf(),
            final(self).same_but_tasks(*old(self)),
            !is_master ==> r is NotMaster,
            is_master && !has_task(tview(old(self).tasks@), task_id@) ==> r is Unknown,
            !(r is Cancelled) ==> final(self).tasks == old(self).tasks && final(self).events
                == old(self).events,
            is_master && has_task(tview(old(self).tasks@), task_id@) ==> ({
                let ts0 = tview(old(self).tasks@);
                let ts1 = ts0.remove(task_index(ts0, task_id@));
                let idx = promoted_indices(ts1, ts1.len() as int);
                &&& r matches TaskCancel::Cancelled { releases } && rview(releases@)
                    == releases_for(ts1, idx)
                &&& tview(final(self).tasks@) == after_pass(ts1, now)
                &&& final(self).events@.len() == old(self).events@.len() + idx.len()
                &&& final(self).events@.take(old(self).events@.len() as int) == old(self).events@
                &&& ready_events_at(final(self).events@, old(self).events@.len() as int, ts1, idx, now)
            }),
    {
        if !is_master {
            return TaskCancel::NotMaster;
        }
        let ghost ts0 = tview(self.tasks@);
        let k = match self.find_task_index(task_id) {
            Some(k) => k,
            None => {
                return TaskCancel::Unknown;
            },
        };
        proof {
            let j = task_index(ts0, task_id@);
            assert(ts0[k as int].id == task_id@);
            assert(ts0[j].id == task_id@);
            assert(j == k);
        }
        self.tasks.remove(k);
        proof {
            assert(tview(self.tasks@) =~= ts0.remove(k as int));
            assert forall|i: int, j: int|
                0 <= i < tview(self.tasks@).len() && 0 <= j < tview(self.tasks@).len() && i != j
                    implies tview(self.tasks@)[i].id != tview(self.tasks@)[j].id by {
                let i2 = if i < k {
                    i
                } else {
                    i + 1
                };
                let j2 = if j < k {
                    j
                } else {
                    j + 1
                };
                assert(ts0[i2].id != ts0[j2].id);
            }
        }
        let releases = self.recompute_tasks(now);
        TaskCancel::Cancelled { releases }
    }

    /// `task_force` (master only) — the agent's explicit override of the
    /// dependency graph. Sets the task state directly (queuing a forced `task`
    /// event), then recomputes readiness, so forcing a dependency to `Done`
    /// releases its Validate.
    pub fn task_force(&mut self, is_master: bool, task_id: &str, state: &str, now: u64) -> (r:
        TaskForce)
        requires
            old(self).wf(),
        ensures
            final(self).wf(),
            final(self).same_but_tasks(*old(self)),
            !is_master ==> r is NotMaster,
            is_master && !is_state_name(state@) ==> r is InvalidState,
            is_master && is_state_name(state@) && !has_task(tview(old(self).tasks@), task_id@)
                ==> r is Unknown,
            !(r is Forced) ==> final(self).tasks == old(self).tasks && final(self).events
                == old(self).events,
            is_master && is_state_name(state@) && has_task(tview(old(self).tasks@), task_id@) ==> ({
                let ts0 = tview(old(self).tasks@);
                let k = task_index(ts0, task_id@);
                let n0 = old(self).events@.len() as int;
                &&& r matches TaskForce::Forced { releases }
                &&& exists|st: TaskState| #[trigger] state_name(st) == state@ && {
                    let ts1 = ts0.update(k, TaskView { state: st, updated_at: now, ..ts0[k] });
                    let idx = promoted_indices(ts1, ts1.len() as int);
                    &&& tview(final(self).tasks@) == after_pass(ts1, now)
                    &&& final(self).events@.len() == n0 + 1 + idx.len()
                    &&& final(self).events@.take(n0) == old(self).events@
                    &&& is_task_event(final(self).events@[n0], task_id@, st, ts0[k].owner, true, now)
                    &&& ready_events_at(final(self).events@, n0 + 1, ts1, idx, now)
                    &&& (r matches TaskForce::Forced { releases } ==> rview(releases@)
                        == releases_for(ts1, idx))
                }
            }),
    {
        if !is_master {
            return TaskForce::NotMaster;
        }
        let st = match parse_task_state(state) {
            Some(st) => st,
            None => {
                return TaskForce::InvalidState;
            },
        };
        let ghost ts0 = tview(self.tasks@);
        let ghost n0 = self.events@.len() as int;
        let k = match self.find_task_index(task_id) {
            Some(k) => k,
            None => {
                return TaskForce::Unknown;
            },
        };
        proof {
            let j = task_index(ts0, task_id@);
            assert(ts0[k as int].id == task_id@);
            assert(ts0[j].id == task_id@);
            assert(j == k);
        }
        let owner = self.tasks[k].owner.clone();
        let mut t = self.tasks[k].copy();
        t.state = st;
        t.updated_at = now;
        self.tasks.set(k, t);
        let ghost ts1 = tview(self.tasks@);
        proof {
            assert(ts1 =~= ts0.update(k as int, TaskView { state: st, updated_at: now, ..ts0[k as int] }));
            assert forall|i: int, j: int|
                0 <= i < ts1.len() && 0 <= j < ts1.len() && i != j implies ts1[i].id != ts1[j].id by {
                assert(ts1[i].id == ts0[i].id);
                assert(ts1[j].id == ts0[j].id);
            }
        }
        let ev = Event {
            kind: String::from_str("task"),
            session_id: String::new(),
            state: task_state_name(st),
            info_state: String::new(),
            ts: Some(now),
            body: EventBody::Task { task_id: String::from_str(task_id), owner, forced: true },
        };
        self.push_event(ev, now);
        let ghost before = self.events@;
        let releases = self.recompute_tasks(now);
        proof {
            let idx = promoted_indices(ts1, ts1.len() as int);
            assert(self.events@.take(n0) =~= before.take(n0));
            assert(before.take(n0) =~= old(self).events@);
            assert(self.events@[n0] == before[n0]);
            assert forall|j: int| 0 <= j < idx.len() implies is_task_event(
                #[trigger] self.events@[n0 + 1 + j],
                ts1[idx[j]].id,
                TaskState::Ready,
                ts1[idx[j]].owner,
                false,
                now,
            ) by {
                assert(self.events@[before.len() + j] == self.events@[n0 + 1 + j]);
            }
            assert(state_name(st) == state@);
        }
        TaskForce::Forced { releases }
    }


    /// Everything but the watches is as in `other`.
    pub open spec fn same_but_watches(&self, other: State) -> bool {
        &&& self.tasks == other.tasks
        &&& self.zones == other.zones
        &&& self.conflicts == other.conflicts
        &&& self.events == other.events
        &&& self.escalations == other.escalations
        &&& self.approvals == other.approvals
        &&& self.pending == other.pending
        &&& self.rpc_meta == other.rpc_meta
        &&& self.last_digest_ts == other.last_digest_ts
        &&& self.event_seq == other.event_seq
        &&& self.registry == other.registry
        &&& self.master_sid == other.master_sid
    }

    /// Drop the watches that expired by `now`.
    pub fn expire_watches(&mut self, now: u64)
        ensures
            final(self).watches@ == live_watches(old(self).watches@, now),
            final(self).same_but_watches(*old(self)),
    {
        let n = self.watches.len();
        let ghost all = self.watches@;
        let mut src: Vec<Watch> = Vec::new();
        std::mem::swap(&mut src, &mut self.watches);
        let mut kept: Vec<Watch> = Vec::new();
        let mut i: usize = 0;
        proof {
            assert(all.take(0) =~= Seq::<Watch>::empty());
            assert(src@ =~= all.skip(0));
        }
        while src.len() > 0
            invariant
                n == all.len(),
                i <= all.len(),
                src@ == all.skip(i as int),
                kept@ == live_watches(all.take(i as int), now),
            decreases src@.len(),
        {
            let w = src.remove(0);
            proof {
                assert(w == all[i as int]);
                assert(all.take(i + 1).drop_last() =~= all.take(i as int));
                assert(src@ =~= all.skip(i + 1));
            }
            if w.expires_at == 0 || w.expires_at > now {
                kept.push(w);
            }
            i = i + 1;
        }
        proof {
            assert(all.take(all.len() as int) =~= all);
        }
        self.watches = kept;
    }

    /// Drop every watch of `sid` (the watcher went offline).
    pub fn drop_watches_of(&mut self, sid: &str)
        ensures
            final(self).watches@ == watches_not_of(old(self).watches@, sid@),
            final(self).same_but_watches(*old(self)),
    {
        let n = self.watches.len();
        let ghost all = self.watches@;
        let mut src: Vec<Watch> = Vec::new();
        std::mem::swap(&mut src, &mut self.watches);
        let mut kept: Vec<Watch> = Vec::new();
        let mut i: usize = 0;
        proof {
            assert(all.take(0) =~= Seq::<Watch>::empty());
            assert(src@ =~= all.skip(0));
        }
        while src.len() > 0
            invariant
                n == all.len(),
                i <= all.len(),
                src@ == all.skip(i as int),
                kept@ == watches_not_of(all.take(i as int), sid@),
            decreases src@.len(),
        {
            let w = src.remove(0);
            proof {
                assert(w == all[i as int]);
                assert(all.take(i + 1).drop_last() =~= all.take(i as int));
                assert(src@ =~= all.skip(i + 1));
            }
            if !str_eq(w.watcher_sid.as_str(), sid) {
                kept.push(w);
            }
            i = i + 1;
        }
        proof {
            assert(all.take(all.len() as int) =~= all);
        }
        self.watches = kept;
    }

    /// Master: a `watch/reg` message. Ignored at a slave and when the watch
    /// id or watcher is empty. `cancel` removes the watch; otherwise a
    /// message with a kind stores (or replaces) the watch, expiring `ttl`
    /// milliseconds after `now` when `ttl > 0`.
    pub fn on_watch_reg(
        &mut self,
        is_master: bool,
        watch_id: String,
        watcher_sid: String,
        cancel: bool,
        kind: Option<String>,
        filter: WatchFilter,
        ttl: u64,
        now: u64,
    )
        ensures
            final(self).same_but_watches(*old(self)),
            !is_master || watch_id@.len() == 0 || watcher_sid@.len() == 0 || (!cancel && kind is None)
                ==> final(self).watches == old(self).watches,
            is_master && watch_id@.len() > 0 && watcher_sid@.len() > 0 && cancel
                ==> final(self).watches@ == watches_without(old(self).watches@, watch_id@),
            is_master && watch_id@.len() > 0 && watcher_sid@.len() > 0 && !cancel && kind is Some
                ==> {
                &&& final(self).watches@.drop_last() == watches_without(old(self).watches@, watch_id@)
                &&& final(self).watches@.last().watch_id@ == watch_id@
                &&& final(self).watches@.last().watcher_sid@ == watcher_sid@
                &&& final(self).watches@.last().kind@ == kind->0@
                &&& final(self).watches@.last().filter == filter
                &&& final(self).watches@.last().ttl == ttl
                &&& final(self).watches@.last().created_at == now
                &&& final(self).watches@.last().expires_at == (if ttl > 0 {
                    bump(now, ttl as int)
                } else {
                    0
                })
            },
    {
        if !is_master || watch_id.unicode_len() == 0 || watcher_sid.unicode_len() == 0 {
            return;
        }
        if !cancel && kind.is_none() {
            return;
        }
        let n = self.watches.len();
        let ghost all = self.watches@;
        let mut src: Vec<Watch> = Vec::new();
        std::mem::swap(&mut src, &mut self.watches);
        let mut kept: Vec<Watch> = Vec::new();
        let mut i: usize = 0;
        proof {
            assert(all.take(0) =~= Seq::<Watch>::empty());
            assert(src@ =~= all.skip(0));
        }
        while src.len() > 0
            invariant
                n == all.len(),
                i <= all.len(),
                src@ == all.skip(i as int),
                kept@ == watches_without(all.take(i as int), watch_id@),
            decreases src@.len(),
        {
            let w = src.remove(0);
            proof {
                assert(w == all[i as int]);
                assert(all.take(i + 1).drop_last() =~= all.take(i as int));
                assert(src@ =~= all.skip(i + 1));
            }
            if !(w.watch_id == watch_id) {
                kept.push(w);
            }
            i = i + 1;
        }
        proof {
            assert(all.take(all.len() as int) =~= all);
        }
        if !cancel {
            let k = kind.unwrap();
            let expires_at = if ttl > 0 {
                now.saturating_add(ttl)
            } else {
                0
            };
            let ghost before = kept@;
            kept.push(
                Watch {
                    watch_id,
                    watcher_sid,
                    kind: k,
                    filter,
                    ttl,
                    created_at: now,
                    expires_at,
                },
            );
            proof {
                assert(kept@.drop_last() =~= before);
            }
        }
        self.watches = kept;
    }

    /// Master: drop expired watches, then list every live watch of `kind`
    /// whose filter matches the event's `path` (and whose watcher is named).
    pub fn emit_watch_events(&mut self, kind: &str, event_path: Option<&str>, now: u64) -> (r: Vec<
        WatchHit,
    >)
        ensures
            final(self).watches@ == live_watches(old(self).watches@, now),
            final(self).same_but_watches(*old(self)),
            hview(r@) == hits_of(
                live_watches(old(self).watches@, now),
                kind@,
                match event_path {
                    Some(p) => Some(p@),
                    None => None,
                },
            ),
    {
        self.expire_watches(now);
        let ghost ws = self.watches@;
        let ghost path = match event_path {
            Some(p) => Some(p@),
            None => None,
        };
        let mut out: Vec<WatchHit> = Vec::new();
        let mut i: usize = 0;
        proof {
            assert(ws.take(0) =~= Seq::<Watch>::empty());
            assert(hview(out@) =~= hits_of(ws.take(0), kind@, path));
        }
        while i < self.watches.len()
            invariant
                ws == self.watches@,
                i <= ws.len(),
                path == (match event_path {
                    Some(p) => Some(p@),
                    None => None,
                }),
                hview(out@) == hits_of(ws.take(i as int), kind@, path),
            decreases ws.len() - i,
        {
            let w = &self.watches[i];
            proof {
                assert(ws.take(i + 1).drop_last() =~= ws.take(i as int));
                assert(ws.take(i + 1).last() == *w);
            }
            if str_eq(w.kind.as_str(), kind) && watch_matches(&w.filter, event_path)
                && w.watcher_sid.unicode_len() > 0 {
                let ghost before = out@;
                out.push(WatchHit { watcher_sid: w.watcher_sid.clone(), watch_id: w.watch_id.clone() });
                proof {
                    assert(hview(out@) =~= hview(before).push((w.watcher_sid@, w.watch_id@)));
                }
            }
            i = i + 1;
        }
        proof {
            assert(ws.take(ws.len() as int) =~= ws);
        }
        out
    }


    /// Everything but the zones and the watches is as in `other`.
    pub open spec fn same_but_zones(&self, other: State) -> bool {
        &&& self.tasks == other.tasks
        &&& self.conflicts == other.conflicts
        &&& self.events == other.events
        &&& self.escalations == other.escalations
        &&& self.approvals == other.approvals
        &&& self.pending == other.pending
        &&& self.rpc_meta == other.rpc_meta
        &&& self.last_digest_ts == other.last_digest_ts
        &&& self.event_seq == other.event_seq
        &&& self.registry == other.registry
        &&& self.master_sid == other.master_sid
    }

    /// Master-only zone acquire: `owner` (default: this node) takes `path`,
    /// or queues behind its current holder unless `force` is set.
    pub fn zone_acquire(
        &mut self,
        is_master: bool,
        self_sid: &str,
        path: String,
        owner: Option<String>,
        force: bool,
    ) -> (r: Acquire)
        requires
            old(self).wf(),
        ensures
            final(self).wf(),
            final(self).same_but_zones(*old(self)),
            final(self).watches == old(self).watches,
            !is_master ==> r is NotMaster && final(self).zones == old(self).zones,
            is_master ==> ({
                let o = match owner {
                    Some(x) => x@,
                    None => self_sid@,
                };
                let zs = zview(old(self).zones@);
                &&& zview(final(self).zones@) == acquire_spec(zs, path@, o, force)
                &&& (acquire_queues(zs, path@, o, force) ==> (r matches Acquire::Queued { current }
                    && current@ == zone_of(zs, path@).owner))
                &&& (!acquire_queues(zs, path@, o, force) ==> (r matches Acquire::Granted {
                    owner: g,
                } && g@ == o))
            }),
    {
        if !is_master {
            return Acquire::NotMaster;
        }
        let o = match owner {
            Some(x) => x,
            None => String::from_str(self_sid),
        };
        acquire_zone(&mut self.zones, path, o, force)
    }

    /// Master-only zone release (checked against `owner` when given). On
    /// success the zone passes to its first waiter, and every watch of
    /// `zone_released` matching the path is listed for notification.
    pub fn zone_release(&mut self, is_master: bool, path: &String, owner: Option<String>, now: u64) -> (r: (
        ReleaseOutcome,
        Vec<WatchHit>,
    ))
        requires
            old(self).wf(),
        ensures
            final(self).wf(),
            final(self).same_but_zones(*old(self)),
            !is_master ==> r.0 is NotMaster && final(self).zones == old(self).zones,
            !(r.0 is Released) ==> r.1@.len() == 0 && final(self).watches == old(self).watches,
            is_master ==> ({
                let zs = zview(old(self).zones@);
                &&& !has_zone(zs, path@) ==> r.0 is NoZone && final(self).zones@ == old(self).zones@
                &&& has_zone(zs, path@) && owner is Some && owner->0@ != zone_of(zs, path@).owner
                    ==> (r.0 matches ReleaseOutcome::WrongOwner { current } && current@ == zone_of(
                    zs,
                    path@,
                ).owner && final(self).zones@ == old(self).zones@)
                &&& has_zone(zs, path@) && (owner is None || owner->0@ == zone_of(zs, path@).owner)
                    ==> {
                    &&& zview(final(self).zones@) == release_spec(zs, path@)
                    &&& r.0 matches ReleaseOutcome::Released { next_owner }
                    &&& (zone_of(zs, path@).queued.len() > 0 ==> (next_owner matches Some(n) && n@
                        == zone_of(zs, path@).queued[0]))
                    &&& (zone_of(zs, path@).queued.len() == 0 ==> next_owner is None)
                    &&& final(self).watches@ == live_watches(old(self).watches@, now)
                    &&& hview(r.1@) == hits_of(
                        live_watches(old(self).watches@, now),
                        "zone_released"@,
                        Some(path@),
                    )
                }
            }),
    {
        if !is_master {
            return (ReleaseOutcome::NotMaster, Vec::new());
        }
        let out = release_zone(&mut self.zones, path, owner);
        match out {
            ReleaseOutcome::Released { .. } => {
                let hits = self.emit_watch_events("zone_released", Some(path.as_str()), now);
                (out, hits)
            },
            _ => (out, Vec::new()),
        }
    }

    /// `zone_steal` (master only): force `path` to this node, keeping its
    /// queue, and list the `zone_released` watches to notify. `None` at a
    /// slave.
    pub fn zone_steal(&mut self, is_master: bool, self_sid: &str, path: String, now: u64) -> (r:
        Option<Vec<WatchHit>>)
        requires
            old(self).wf(),
        ensures
            final(self).wf(),
            final(self).same_but_zones(*old(self)),
            !is_master ==> r is None && final(self).zones == old(self).zones && final(self).watches
                == old(self).watches,
            is_master ==> ({
                let zs = zview(old(self).zones@);
                &&& zview(final(self).zones@) == put_zone(
                    zs,
                    path@,
                    ZoneView {
                        path: path@,
                        owner: self_sid@,
                        queued: if has_zone(zs, path@) {
                            zone_of(zs, path@).queued
                        } else {
                            Seq::empty()
                        },
                    },
                )
                &&& final(self).watches@ == live_watches(old(self).watches@, now)
                &&& r matches Some(hits) && hview(hits@) == hits_of(
                    live_watches(old(self).watches@, now),
                    "zone_released"@,
                    Some(path@),
                )
            }),
    {
        if !is_master {
            return None;
        }
        let p = path.clone();
        steal_zone(&mut self.zones, path, String::from_str(self_sid));
        let hits = self.emit_watch_events("zone_released", Some(p.as_str()), now);
        Some(hits)
    }

    /// Master: answer a slave's `zone_request` RPC against the registry —
    /// grant or queue (`release == false`), or release when the requester
    /// holds the zone (`release == true`). Path and requester are required.
    pub fn answer_zone_request(
        &mut self,
        path: String,
        release: bool,
        requester: String,
        now: u64,
    ) -> (r: ZoneAnswer)
        requires
            old(self).wf(),
        ensures
            final(self).wf(),
            final(self).same_but_zones(*old(self)),
            path@.len() == 0 || requester@.len() == 0 ==> r is Invalid && final(self).zones
                == old(self).zones && final(self).watches == old(self).watches,
            path@.len() > 0 && requester@.len() > 0 && !release ==> ({
                let zs = zview(old(self).zones@);
                &&& zview(final(self).zones@) == acquire_spec(zs, path@, requester@, false)
                &&& final(self).watches == old(self).watches
                &&& (acquire_queues(zs, path@, requester@, false) ==> (r matches ZoneAnswer::Acquired(
                    Acquire::Queued { current },
                ) && current@ == zone_of(zs, path@).owner))
                &&& (!acquire_queues(zs, path@, requester@, false) ==> (r matches ZoneAnswer::Acquired(
                    Acquire::Granted { owner: g },
                ) && g@ == requester@))
            }),
            path@.len() > 0 && requester@.len() > 0 && release ==> ({
                let zs = zview(old(self).zones@);
                &&& r is Released
                &&& !has_zone(zs, path@) ==> (r matches ZoneAnswer::Released(o, _) && o is NoZone)
                &&& has_zone(zs, path@) && requester@ != zone_of(zs, path@).owner ==> (
                r matches ZoneAnswer::Released(o, _) && o is WrongOwner)
                &&& has_zone(zs, path@) && requester@ == zone_of(zs, path@).owner ==> (
                zview(final(self).zones@) == release_spec(zs, path@) && (r matches ZoneAnswer::Released(
                    o,
                    hits,
                ) && o is Released && hview(hits@) == hits_of(
                    live_watches(old(self).watches@, now),
                    "zone_released"@,
                    Some(path@),
                )))
            }),
    {
        if path.unicode_len() == 0 || requester.unicode_len() == 0 {
            return ZoneAnswer::Invalid;
        }
        if release {
            let (o, hits) = self.zone_release(true, &path, Some(requester), now);
            ZoneAnswer::Released(o, hits)
        } else {
            let ghost rq = requester@;
            let a = self.zone_acquire(true, "", path, Some(requester), false);
            ZoneAnswer::Acquired(a)
        }
    }

    /// Slave: the master to ask for a zone. Errors when no master is known
    /// yet, or when this node is the master.
    pub fn zone_request_target(&self, self_sid: &str) -> (r: Result<String, String>)
        ensures
            self.master_sid is None ==> (r matches Err(e) && e@
                == "zone_request: no master session id known yet"@),
            self.master_sid is Some && self.master_sid->0@ == self_sid@ ==> (r matches Err(e) && e@
                == "zone_request is for slaves; as the master use zone_acquire / zone_release directly"@),
            self.master_sid is Some && self.master_sid->0@ != self_sid@ ==> (r matches Ok(t) && t@
                == self.master_sid->0@),
    {
        match &self.master_sid {
            None => Err(String::from_str("zone_request: no master session id known yet")),
            Some(m) => {
                if str_eq(m.as_str(), self_sid) {
                    Err(
                        String::from_str(
                            "zone_request is for slaves; as the master use zone_acquire / zone_release directly",
                        ),
                    )
                } else {
                    Ok(m.clone())
                }
            },
        }
    }


    /// Everything but the approvals, escalations, events and event counter
    /// is as in `other`.
    pub open spec fn same_but_approvals(&self, other: State) -> bool {
        &&& self.tasks == other.tasks
        &&& self.zones == other.zones
        &&& self.conflicts == other.conflicts
        &&& self.watches == other.watches
        &&& self.pending == other.pending
        &&& self.rpc_meta == other.rpc_meta
        &&& self.last_digest_ts == other.last_digest_ts
        &&& self.registry == other.registry
        &&& self.master_sid == other.master_sid
    }

    /// Position of the trace for `id`.
    fn find_approval(&self, id: &String) -> (r: Option<usize>)
        ensures
            r matches Some(k) ==> k < self.approvals@.len() && self.approvals@[k as int].req_id@ == id@,
            r is None <==> !has_approval(self.approvals@, id@),
    {
        let mut k: usize = 0;
        while k < self.approvals.len()
            invariant
                k <= self.approvals@.len(),
                forall|j: int| 0 <= j < k ==> self.approvals@[j].req_id@ != id@,
            decreases self.approvals@.len() - k,
        {
            if self.approvals[k].req_id == *id {
                return Some(k);
            }
            k = k + 1;
        }
        None
    }

    /// Store trace `t` under its request id.
    pub(crate) fn put_approval(&mut self, t: Approval)
        requires
            old(self).wf(),
        ensures
            final(self).wf(),
            final(self).same_but_approvals(*old(self)),
            final(self).escalations == old(self).escalations,
            final(self).events == old(self).events,
            final(self).event_seq == old(self).event_seq,
            final(self).approvals@ == put_approval(old(self).approvals@, t),
    {
        let ghost a = self.approvals@;
        let ghost tv = t;
        match self.find_approval(&t.req_id) {
            Some(k) => {
                proof {
                    let c = choose|q: int| 0 <= q < a.len() && a[q].req_id@ == tv.req_id@;
                    assert(a[c].req_id@ == tv.req_id@);
                    assert(a[k as int].req_id@ == tv.req_id@);
                    assert(c == k);
                }
                self.approvals.set(k, t);
                proof {
                    assert(self.approvals@ =~= put_approval(a, tv));
                    assert forall|i: int, j: int|
                        0 <= i < self.approvals@.len() && 0 <= j < self.approvals@.len() && i != j
                            implies self.approvals@[i].req_id@ != self.approvals@[j].req_id@ by {
                        if i != k && j != k {
                            assert(a[i].req_id@ != a[j].req_id@);
                        } else if i == k {
                            assert(a[k as int].req_id@ != a[j].req_id@);
                        } else {
                            assert(a[i].req_id@ != a[k as int].req_id@);
                        }
                    }
                }
            },
            None => {
                self.approvals.push(t);
                proof {
                    assert(self.approvals@ =~= put_approval(a, tv));
                    assert forall|i: int, j: int|
                        0 <= i < self.approvals@.len() && 0 <= j < self.approvals@.len() && i != j
                            implies self.approvals@[i].req_id@ != self.approvals@[j].req_id@ by {
                        if i < a.len() && j < a.len() {
                            assert(a[i].req_id@ != a[j].req_id@);
                        } else if i < a.len() {
                            assert(a[i].req_id@ != tv.req_id@);
                        } else {
                            assert(a[j].req_id@ != tv.req_id@);
                        }
                    }
                }
            },
        }
    }

    /// Position of the first escalation with request id `id`.
    fn find_escalation(&self, id: &str) -> (r: Option<usize>)
        ensures
            r matches Some(k) ==> first_escalation(self.escalations@, id@, k as int),
            r is None ==> forall|k: int| !first_escalation(self.escalations@, id@, k),
    {
        let ghost es = self.escalations@;
        let mut k: usize = 0;
        while k < self.escalations.len()
            invariant
                es == self.escalations@,
                k <= es.len(),
                forall|j: int| 0 <= j < k ==> es[j].req_id@ != id@,
            decreases es.len() - k,
        {
            if str_eq(self.escalations[k].req_id.as_str(), id) {
                return Some(k);
            }
            k = k + 1;
        }
        proof {
            assert forall|q: int| !first_escalation(es, id@, q) by {
                if first_escalation(es, id@, q) {
                    assert(es[q].req_id@ != id@);
                }
            }
        }
        None
    }

    /// a `may_i_touch` request at the master, decided by the five-level
    /// check. Auto-approved: record a trace (and queue it as a never-waking
    /// `approval_trace` event) and answer at once. Denied: answer at once.
    /// Escalated: queue the escalation for `approval_decide` and an
    /// `approval_escalation` event (which always wakes); no answer yet.
    pub fn on_may_i_touch(
        &mut self,
        rid: String,
        files: Vec<String>,
        requester: String,
        reply_to: Option<String>,
        now: u64,
        digest_mode: bool,
    ) -> (r: MayIOutcome)
        requires
            old(self).wf(),
        ensures
            final(self).wf(),
            final(self).same_but_approvals(*old(self)),
            ({
                let check = may_i_spec(
                    zview(old(self).zones@),
                    tview(old(self).tasks@),
                    cview(old(self).conflicts@),
                    views(files@),
                    requester@,
                );
                match check {
                    MayIResult::AutoApproved => {
                        &&& r.answer == Some(MayIAnswer::AutoApproved)
                        &&& r.state_changed
                        &&& r.wake == !digest_mode
                        &&& final(self).escalations == old(self).escalations
                        &&& final(self).approvals@.len() >= 1
                        &&& has_approval(final(self).approvals@, rid@)
                        &&& final(self).events@.len() == old(self).events@.len() + 1
                        &&& final(self).events@.drop_last() == old(self).events@
                        &&& final(self).events@.last().kind@ == "approval_trace"@
                        &&& final(self).events@.last().ts == Some(now)
                        &&& final(self).approvals@ == put_approval(
                            old(self).approvals@,
                            final(self).approvals@[choose|k: int|
                                0 <= k < final(self).approvals@.len()
                                    && final(self).approvals@[k].req_id@ == rid@],
                        )
                        &&& forall|k: int|
                            0 <= k < final(self).approvals@.len()
                                && final(self).approvals@[k].req_id@ == rid@ ==> {
                                let t = #[trigger] final(self).approvals@[k];
                                &&& views(t.files@) == views(files@)
                                &&& t.owner@ == requester@
                                &&& t.level == 0
                                &&& t.auto_approved
                                &&& t.approved
                                &&& t.decision is None
                                &&& t.ts == now
                            }
                    },
                    MayIResult::Denied => {
                        &&& r.answer == Some(MayIAnswer::Denied)
                        &&& !r.state_changed
                        &&& r.wake == !digest_mode
                        &&& final(self).escalations == old(self).escalations
                        &&& final(self).approvals == old(self).approvals
                        &&& final(self).events == old(self).events
                    },
                    MayIResult::Escalated { level } => {
                        &&& r.answer is None
                        &&& r.state_changed
                        &&& r.wake
                        &&& final(self).approvals == old(self).approvals
                        &&& final(self).escalations@.len() == old(self).escalations@.len() + 1
                        &&& final(self).escalations@.drop_last() == old(self).escalations@
                        &&& ({
                            let e = final(self).escalations@.last();
                            &&& e.req_id@ == rid@
                            &&& views(e.files@) == views(files@)
                            &&& e.owner@ == requester@
                            &&& e.level == level
                            &&& e.reason@ == escalation_reason(level)
                            &&& e.reply_to == reply_to
                            &&& e.ts == now
                        })
                        &&& final(self).events@.len() == old(self).events@.len() + 1
                        &&& final(self).events@.drop_last() == old(self).events@
                        &&& final(self).events@.last().kind@ == "approval_escalation"@
                        &&& final(self).events@.last().ts == Some(now)
                    },
                }
            }),
    {
        let check = check_may_i_touch(&self.zones, &self.tasks, &self.conflicts, &files, &requester);
        let mut wake = !digest_mode;
        match check {
            MayIResult::AutoApproved => {
                let rec = Approval {
                    req_id: rid.clone(),
                    files: crate::tasks::copy_strings(&files),
                    owner: requester.clone(),
                    level: 0,
                    auto_approved: true,
                    approved: true,
                    decision: None,
                    ts: now,
                };
                let trace = Approval {
                    req_id: rid.clone(),
                    files,
                    owner: requester,
                    level: 0,
                    auto_approved: true,
                    approved: true,
                    decision: None,
                    ts: now,
                };
                let ghost a0 = self.approvals@;
                let ghost recv = rec;
                self.put_approval(rec);
                proof {
                    let a1 = self.approvals@;
                    if has_approval(a0, rid@) {
                        let c = choose|k: int| 0 <= k < a0.len() && a0[k].req_id@ == rid@;
                        assert(a1[c] == recv);
                    } else {
                        assert(a1[a0.len() as int] == recv);
                    }
                    assert(has_approval(a1, rid@));
                    let c1 = choose|k: int| 0 <= k < a1.len() && a1[k].req_id@ == rid@;
                    assert forall|k: int| 0 <= k < a1.len() && a1[k].req_id@ == rid@ implies a1[k]
                        == recv by {
                        if has_approval(a0, rid@) {
                            let c = choose|q: int| 0 <= q < a0.len() && a0[q].req_id@ == rid@;
                            assert(a1[c].req_id@ == rid@);
                            if k != c {
                                assert(a1[k].req_id@ != a1[c].req_id@);
                            }
                        } else {
                            assert(a1[a0.len() as int].req_id@ == rid@);
                            if k != a0.len() {
                                assert(a1[k].req_id@ != a1[a0.len() as int].req_id@);
                            }
                        }
                    }
                    assert(a1[c1] == recv);
                }
                let ev = Event {
                    kind: String::from_str("approval_trace"),
                    session_id: String::new(),
                    state: String::new(),
                    info_state: String::new(),
                    ts: Some(now),
                    body: EventBody::Trace(trace),
                };
                self.push_event(ev, now);
                MayIOutcome { answer: Some(MayIAnswer::AutoApproved), state_changed: true, wake }
            },
            MayIResult::Denied => {
                MayIOutcome { answer: Some(MayIAnswer::Denied), state_changed: false, wake }
            },
            MayIResult::Escalated { level } => {
                let mut reason = String::from_str("may_i_touch escalation level ");
                proof {
                    assert(level == 2 || level == 3 || level == 4 || level == 5);
                }
                let digit = (level + 48) as char;
                crate::text::push_char(&mut reason, digit);
                let entry = Escalation {
                    req_id: rid.clone(),
                    files: crate::tasks::copy_strings(&files),
                    owner: requester.clone(),
                    level,
                    reason,
                    reply_to,
                    ts: now,
                };
                let ev_entry = entry.copy();
                let ghost e0 = self.escalations@;
                self.escalations.push(entry);
                proof {
                    assert(self.escalations@.drop_last() =~= e0);
                }
                let ev = Event {
                    kind: String::from_str("approval_escalation"),
                    session_id: String::new(),
                    state: String::new(),
                    info_state: String::new(),
                    ts: Some(now),
                    body: EventBody::Escalation(ev_entry),
                };
                proof {
                    reveal_strlit("approval_escalation");
                }
                if self.wake_for(&ev, digest_mode) {
                    wake = true;
                }
                self.push_event(ev, now);
                MayIOutcome { answer: None, state_changed: true, wake }
            },
        }
    }

    /// The decision named `d`.
    pub fn parse_decision(d: &str) -> (r: Option<Decision>)
        ensures
            r == decision_named(d@),
    {
        if str_eq(d, "approve") {
            Some(Decision::Approve)
        } else if str_eq(d, "deny") {
            Some(Decision::Deny)
        } else if str_eq(d, "queue") {
            Some(Decision::Queue)
        } else {
            None
        }
    }

    /// `approval_decide` (master only). `approve` / `deny` remove the
    /// first escalation with `req_id`, record a trace and tell the caller
    /// where to answer; `queue` keeps the escalation pending.
    pub fn approval_decide(&mut self, is_master: bool, req_id: &str, decision: &str, now: u64) -> (r:
        DecideOutcome)
        requires
            old(self).wf(),
        ensures
            final(self).wf(),
            final(self).same_but_approvals(*old(self)),
            final(self).events == old(self).events,
            !(r is Decided) ==> final(self).escalations == old(self).escalations && final(self).approvals == old(self).approvals,
            !is_master ==> r is NotMaster,
            is_master && decision_named(decision@) is None ==> r is BadDecision,
            is_master && decision_named(decision@) is Some && !(exists|k: int|
                first_escalation(old(self).escalations@, req_id@, k)) ==> r is Unknown,
            is_master && decision_named(decision@) == Some(Decision::Queue) && (exists|k: int|
                first_escalation(old(self).escalations@, req_id@, k)) ==> r is Queued,
            is_master && (decision_named(decision@) == Some(Decision::Approve) || decision_named(
                decision@,
            ) == Some(Decision::Deny)) && (exists|k: int|
                first_escalation(old(self).escalations@, req_id@, k)) ==> ({
                let k = choose|k: int| first_escalation(old(self).escalations@, req_id@, k);
                let e = old(self).escalations@[k];
                let approved = decision_named(decision@) == Some(Decision::Approve);
                &&& final(self).escalations@ == old(self).escalations@.remove(k)
                &&& r matches DecideOutcome::Decided { reply_to, approved: ap, trace }
                &&& (r matches DecideOutcome::Decided { reply_to, approved: ap, trace } ==> {
                    &&& reply_to == e.reply_to
                    &&& ap == approved
                    &&& trace.req_id@ == req_id@
                    &&& views(trace.files@) == views(e.files@)
                    &&& trace.owner@ == e.owner@
                    &&& trace.level == e.level
                    &&& !trace.auto_approved
                    &&& trace.approved == approved
                    &&& trace.decision == decision_named(decision@)
                    &&& trace.ts == now
                    &&& exists|stored: Approval|
                        same_trace(stored, trace) && final(self).approvals@ == put_approval(
                            old(self).approvals@,
                            stored,
                        )
                })
            }),
    {
        if !is_master {
            return DecideOutcome::NotMaster;
        }
        let d = match Self::parse_decision(decision) {
            Some(d) => d,
            None => {
                return DecideOutcome::BadDecision;
            },
        };
        let ghost es = self.escalations@;
        let pos = match self.find_escalation(req_id) {
            Some(p) => p,
            None => {
                return DecideOutcome::Unknown;
            },
        };
        proof {
            let k = choose|k: int| first_escalation(es, req_id@, k);
            if k < pos {
                assert(es[k].req_id@ != req_id@);
            }
            if k > pos {
                assert(es[pos as int].req_id@ != req_id@);
            }
            assert(k == pos);
        }
        if d == Decision::Queue {
            return DecideOutcome::Queued;
        }
        let entry = self.escalations.remove(pos);
        let approved = d == Decision::Approve;
        let rec = Approval {
            req_id: String::from_str(req_id),
            files: crate::tasks::copy_strings(&entry.files),
            owner: entry.owner.clone(),
            level: entry.level,
            auto_approved: false,
            approved,
            decision: Some(d),
            ts: now,
        };
        let trace = Approval {
            req_id: String::from_str(req_id),
            files: entry.files,
            owner: entry.owner,
            level: entry.level,
            auto_approved: false,
            approved,
            decision: Some(d),
            ts: now,
        };
        let ghost recv = rec;
        self.put_approval(rec);
        proof {
            assert(same_trace(recv, trace));
        }
        DecideOutcome::Decided { reply_to: entry.reply_to, approved, trace }
    }


    /// Everything but the pending-RPC registry is as in `other`.
    pub open spec fn same_but_pending(&self, other: State) -> bool {
        &&& self.tasks == other.tasks
        &&& self.zones == other.zones
        &&& self.conflicts == other.conflicts
        &&& self.events == other.events
        &&& self.escalations == other.escalations
        &&& self.approvals == other.approvals
        &&& self.watches == other.watches
        &&& self.rpc_meta == other.rpc_meta
        &&& self.last_digest_ts == other.last_digest_ts
        &&& self.event_seq == other.event_seq
        &&& self.registry == other.registry
        &&& self.master_sid == other.master_sid
    }

    /// Position of the sent RPC `id`.
    pub fn find_pending(&self, id: &str) -> (r: Option<usize>)
        ensures
            r matches Some(k) ==> k < self.pending@.len() && self.pending@[k as int].request_id@ == id@,
            r is None <==> !has_pending(self.pending@, id@),
    {
        let mut k: usize = 0;
        while k < self.pending.len()
            invariant
                k <= self.pending@.len(),
                forall|j: int| 0 <= j < k ==> self.pending@[j].request_id@ != id@,
            decreases self.pending@.len() - k,
        {
            if str_eq(self.pending[k].request_id.as_str(), id) {
                return Some(k);
            }
            k = k + 1;
        }
        None
    }

    proof fn lemma_pending_index(&self, id: Seq<char>, k: int)
        requires
            self.wf(),
            0 <= k < self.pending@.len(),
            self.pending@[k].request_id@ == id,
        ensures
            has_pending(self.pending@, id),
            pending_index(self.pending@, id) == k,
    {
        let j = pending_index(self.pending@, id);
        assert(self.pending@[j].request_id@ == id);
    }

    /// `send_rpc`: record a new RPC to `target` under a fresh request id,
    /// expiring `timeout` milliseconds after `now` (the configured RPC
    /// timeout when none is given), and return the id to publish it under.
    pub fn send_rpc(
        &mut self,
        target: String,
        method: String,
        params: String,
        timeout: Option<u64>,
        rpc_timeout: u64,
        now: u64,
    ) -> (r: String)
        requires
            old(self).wf(),
        ensures
            final(self).wf(),
            final(self).same_but_pending(*old(self)),
            r@.len() == 32,
            forall|i: int| 0 <= i < 32 ==> crate::ids::is_lower_hex(#[trigger] r@[i]),
            has_pending(final(self).pending@, r@),
            ({
                let p = final(self).pending@[pending_index(final(self).pending@, r@)];
                &&& p.target@ == target@
                &&& p.method@ == method@
                &&& p.params@ == params@
                &&& p.status == PendingStatus::Pending
                &&& p.attempts == 1
                &&& p.created_at == now
                &&& p.expires_at == bump(
                    now,
                    match timeout {
                        Some(t) => t as int,
                        None => rpc_timeout as int,
                    },
                )
            }),
            forall|k: int|
                0 <= k < old(self).pending@.len() && old(self).pending@[k].request_id@ != r@
                    ==> #[trigger] final(self).pending@[k] == old(self).pending@[k],
    {
        let rid = crate::ids::new_id();
        let t = match timeout {
            Some(t) => t,
            None => rpc_timeout,
        };
        self.add_pending(rid.clone(), target, method, params, now, t);
        rid
    }

    /// What `get_result` reports of the RPC `request_id` right now: unknown,
    /// finished (done, failed or cancelled), or still pending.
    pub fn result_of(&self, request_id: &str) -> (r: RpcResult)
        requires
            self.wf(),
        ensures
            !has_pending(self.pending@, request_id@) ==> r is Unknown,
            has_pending(self.pending@, request_id@) ==> ({
                let p = self.pending@[pending_index(self.pending@, request_id@)];
                &&& p.status == PendingStatus::Pending ==> r == (RpcResult::Waiting {
                    attempts: p.attempts,
                    expires_at: p.expires_at,
                })
                &&& p.status != PendingStatus::Pending ==> (r matches RpcResult::Finished {
                    status,
                    result,
                    error,
                    attempts,
                } && status == p.status && result@ == p.result@ && error@ == p.error@ && attempts
                    == p.attempts)
            }),
    {
        match self.find_pending(request_id) {
            None => RpcResult::Unknown,
            Some(k) => {
                proof {
                    self.lemma_pending_index(request_id@, k as int);
                }
                let p = &self.pending[k];
                if p.status == PendingStatus::Pending {
                    RpcResult::Waiting { attempts: p.attempts, expires_at: p.expires_at }
                } else {
                    RpcResult::Finished {
                        status: p.status,
                        result: p.result.clone(),
                        error: p.error.clone(),
                        attempts: p.attempts,
                    }
                }
            },
        }
    }

    /// `list_pending`: the ids of all sent RPCs, in string order.
    pub fn pending_ids(&self) -> (r: Vec<String>)
        ensures
            crate::text::views(r@) == crate::text::sort_strings(
                self.pending@.map_values(|p: Pending| p.request_id@),
            ),
    {
        let mut ids: Vec<String> = Vec::new();
        let mut i: usize = 0;
        while i < self.pending.len()
            invariant
                i <= self.pending@.len(),
                crate::text::views(ids@) == self.pending@.take(i as int).map_values(|p: Pending| p.request_id@),
            decreases self.pending@.len() - i,
        {
            let ghost before = crate::text::views(ids@);
            ids.push(self.pending[i].request_id.clone());
            proof {
                assert(crate::text::views(ids@) =~= before.push(self.pending@[i as int].request_id@));
                assert(self.pending@.take(i + 1).map_values(|p: Pending| p.request_id@) =~= self.pending@.take(
                    i as int,
                ).map_values(|p: Pending| p.request_id@).push(self.pending@[i as int].request_id@));
            }
            i = i + 1;
        }
        proof {
            assert(self.pending@.take(self.pending@.len() as int) =~= self.pending@);
        }
        crate::text::sort_string_vec(&ids)
    }

    /// Record a sent RPC: pending, first attempt, expiring `timeout`
    /// milliseconds after `now` (an RPC already under that id is replaced).
    pub fn add_pending(
        &mut self,
        request_id: String,
        target: String,
        method: String,
        params: String,
        now: u64,
        timeout: u64,
    )
        requires
            old(self).wf(),
        ensures
            final(self).wf(),
            final(self).same_but_pending(*old(self)),
            has_pending(final(self).pending@, request_id@),
            final(self).pending@.len() == old(self).pending@.len() + (if has_pending(
                old(self).pending@,
                request_id@,
            ) {
                0int
            } else {
                1int
            }),
            ({
                let p = final(self).pending@[pending_index(final(self).pending@, request_id@)];
                &&& p.target@ == target@
                &&& p.method@ == method@
                &&& p.params@ == params@
                &&& p.status == PendingStatus::Pending
                &&& p.attempts == 1
                &&& p.created_at == now
                &&& p.expires_at == bump(now, timeout as int)
                &&& p.result@ == "null"@
                &&& p.error@ == "null"@
            }),
            forall|k: int|
                0 <= k < old(self).pending@.len() && old(self).pending@[k].request_id@ != request_id@
                    ==> #[trigger] final(self).pending@[k] == old(self).pending@[k],
    {
        let ghost id = request_id@;
        let p = Pending {
            request_id,
            target,
            method,
            params,
            status: PendingStatus::Pending,
            attempts: 1,
            created_at: now,
            expires_at: now.saturating_add(timeout),
            result: String::from_str("null"),
            error: String::from_str("null"),
        };
        let ghost pv = p;
        let ghost old_p = self.pending@;
        match self.find_pending(p.request_id.as_str()) {
            Some(k) => {
                self.pending.set(k, p);
                proof {
                    assert forall|i: int, j: int|
                        0 <= i < self.pending@.len() && 0 <= j < self.pending@.len() && i != j
                            implies self.pending@[i].request_id@ != self.pending@[j].request_id@ by {
                        if i != k && j != k {
                            assert(old_p[i].request_id@ != old_p[j].request_id@);
                        } else if i == k {
                            assert(old_p[k as int].request_id@ != old_p[j].request_id@);
                        } else {
                            assert(old_p[i].request_id@ != old_p[k as int].request_id@);
                        }
                    }
                    self.lemma_pending_index(id, k as int);
                }
            },
            None => {
                self.pending.push(p);
                proof {
                    assert forall|i: int, j: int|
                        0 <= i < self.pending@.len() && 0 <= j < self.pending@.len() && i != j
                            implies self.pending@[i].request_id@ != self.pending@[j].request_id@ by {
                        if i < old_p.len() && j < old_p.len() {
                            assert(old_p[i].request_id@ != old_p[j].request_id@);
                        } else if i < old_p.len() {
                            assert(old_p[i].request_id@ != id);
                        } else {
                            assert(old_p[j].request_id@ != id);
                        }
                    }
                    self.lemma_pending_index(id, old_p.len() as int);
                }
            },
        }
    }

    /// `retry`: re-arm a sent RPC that is not done or cancelled — one more
    /// attempt, expiring `rpc_timeout` after `now`, pending again with its
    /// error cleared — and hand back what to re-publish.
    pub fn retry(&mut self, request_id: &str, now: u64, rpc_timeout: u64) -> (r: RetryOutcome)
        requires
            old(self).wf(),
        ensures
            final(self).wf(),
            final(self).same_but_pending(*old(self)),
            final(self).pending@.len() == old(self).pending@.len(),
            !has_pending(old(self).pending@, request_id@) ==> r is Unknown && final(self).pending
                == old(self).pending,
            has_pending(old(self).pending@, request_id@) ==> ({
                let k = pending_index(old(self).pending@, request_id@);
                let p = old(self).pending@[k];
                let q = final(self).pending@[k];
                &&& (p.status == PendingStatus::Done || p.status == PendingStatus::Cancelled) ==> (
                r == RetryOutcome::Finished(p.status) && final(self).pending == old(self).pending)
                &&& !(p.status == PendingStatus::Done || p.status == PendingStatus::Cancelled) ==> {
                    &&& forall|j: int|
                        0 <= j < old(self).pending@.len() && j != k ==> #[trigger] final(self).pending@[j] == old(self).pending@[j]
                    &&& q.request_id == p.request_id
                    &&& q.target == p.target
                    &&& q.method == p.method
                    &&& q.params == p.params
                    &&& q.created_at == p.created_at
                    &&& q.result == p.result
                    &&& q.status == PendingStatus::Pending
                    &&& q.attempts == (if p.attempts < u32::MAX {
                        (p.attempts + 1) as u32
                    } else {
                        u32::MAX
                    })
                    &&& q.expires_at == bump(now, rpc_timeout as int)
                    &&& q.error@ == "null"@
                    &&& r matches RetryOutcome::Retried { target, method, params, attempts } && target@
                        == p.target@ && method@ == p.method@ && params@ == p.params@ && attempts
                        == q.attempts
                }
            }),
    {
        let k = match self.find_pending(request_id) {
            Some(k) => k,
            None => {
                return RetryOutcome::Unknown;
            },
        };
        proof {
            self.lemma_pending_index(request_id@, k as int);
        }
        let st = self.pending[k].status;
        if st == PendingStatus::Done || st == PendingStatus::Cancelled {
            return RetryOutcome::Finished(st);
        }
        let ghost old_p = self.pending@;
        let old_entry = &self.pending[k];
        let attempts = old_entry.attempts.saturating_add(1);
        let q = Pending {
            request_id: old_entry.request_id.clone(),
            target: old_entry.target.clone(),
            method: old_entry.method.clone(),
            params: old_entry.params.clone(),
            status: PendingStatus::Pending,
            attempts,
            created_at: old_entry.created_at,
            expires_at: now.saturating_add(rpc_timeout),
            result: old_entry.result.clone(),
            error: String::from_str("null"),
        };
        let out = RetryOutcome::Retried {
            target: q.target.clone(),
            method: q.method.clone(),
            params: q.params.clone(),
            attempts,
        };
        self.pending.set(k, q);
        proof {
            assert forall|i: int, j: int|
                0 <= i < self.pending@.len() && 0 <= j < self.pending@.len() && i != j implies self.pending@[i].request_id@
                    != self.pending@[j].request_id@ by {
                assert(self.pending@[i].request_id@ == old_p[i].request_id@);
                assert(self.pending@[j].request_id@ == old_p[j].request_id@);
            }
        }
        out
    }

    /// `cancel`: mark a sent RPC cancelled. False when the id is unknown.
    pub fn cancel_pending(&mut self, request_id: &str) -> (r: bool)
        requires
            old(self).wf(),
        ensures
            final(self).wf(),
            final(self).same_but_pending(*old(self)),
            r == has_pending(old(self).pending@, request_id@),
            final(self).pending@.len() == old(self).pending@.len(),
            !r ==> final(self).pending == old(self).pending,
            r ==> ({
                let k = pending_index(old(self).pending@, request_id@);
                &&& final(self).pending@[k].status == PendingStatus::Cancelled
                &&& final(self).pending@[k].request_id == old(self).pending@[k].request_id
                &&& final(self).pending@[k].attempts == old(self).pending@[k].attempts
                &&& forall|j: int|
                    0 <= j < old(self).pending@.len() && j != k ==> #[trigger] final(self).pending@[j]
                        == old(self).pending@[j]
            }),
    {
        let k = match self.find_pending(request_id) {
            Some(k) => k,
            None => {
                return false;
            },
        };
        proof {
            self.lemma_pending_index(request_id@, k as int);
        }
        let ghost old_p = self.pending@;
        let e = &self.pending[k];
        let q = Pending {
            request_id: e.request_id.clone(),
            target: e.target.clone(),
            method: e.method.clone(),
            params: e.params.clone(),
            status: PendingStatus::Cancelled,
            attempts: e.attempts,
            created_at: e.created_at,
            expires_at: e.expires_at,
            result: e.result.clone(),
            error: e.error.clone(),
        };
        self.pending.set(k, q);
        proof {
            assert forall|i: int, j: int|
                0 <= i < self.pending@.len() && 0 <= j < self.pending@.len() && i != j implies self.pending@[i].request_id@
                    != self.pending@[j].request_id@ by {
                assert(self.pending@[i].request_id@ == old_p[i].request_id@);
                assert(self.pending@[j].request_id@ == old_p[j].request_id@);
            }
        }
        true
    }

    /// A response to a sent RPC: `ok` marks it done with `result` (error
    /// cleared), otherwise failed with `error`. False when the id is unknown.
    pub fn on_rpc_response(&mut self, request_id: &str, ok: bool, result: String, error: String) -> (r:
        bool)
        requires
            old(self).wf(),
        ensures
            final(self).wf(),
            final(self).same_but_pending(*old(self)),
            r == has_pending(old(self).pending@, request_id@),
            final(self).pending@.len() == old(self).pending@.len(),
            !r ==> final(self).pending == old(self).pending,
            r ==> responded(
                old(self).pending@,
                final(self).pending@,
                request_id@,
                ok,
                result@,
                error@,
            ),
    {
        let k = match self.find_pending(request_id) {
            Some(k) => k,
            None => {
                return false;
            },
        };
        proof {
            self.lemma_pending_index(request_id@, k as int);
        }
        let ghost old_p = self.pending@;
        let e = &self.pending[k];
        let q = Pending {
            request_id: e.request_id.clone(),
            target: e.target.clone(),
            method: e.method.clone(),
            params: e.params.clone(),
            status: if ok {
                PendingStatus::Done
            } else {
                PendingStatus::Failed
            },
            attempts: e.attempts,
            created_at: e.created_at,
            expires_at: e.expires_at,
            result: if ok {
                result
            } else {
                e.result.clone()
            },
            error: if ok {
                String::from_str("null")
            } else {
                error
            },
        };
        self.pending.set(k, q);
        proof {
            assert forall|i: int, j: int|
                0 <= i < self.pending@.len() && 0 <= j < self.pending@.len() && i != j implies self.pending@[i].request_id@
                    != self.pending@[j].request_id@ by {
                assert(self.pending@[i].request_id@ == old_p[i].request_id@);
                assert(self.pending@[j].request_id@ == old_p[j].request_id@);
            }
        }
        true
    }

    /// Auto-retry of expired RPCs with linear backoff. Every pending RPC
    /// whose expiry passed gets one more attempt and expires
    /// `rpc_timeout * attempts` after `now`; the re-publications are returned
    /// in registry order.
    pub fn expire_pending(&mut self, now: u64, rpc_timeout: u64) -> (r: Vec<Resend>)
        requires
            old(self).wf(),
        ensures
            final(self).wf(),
            final(self).same_but_pending(*old(self)),
            final(self).pending@ == old(self).pending@.map_values(
                |p: Pending| after_sweep(p, now, rpc_timeout),
            ),
            resend_views(r@) == resends_of(old(self).pending@, now),
    {
        let ghost old_p = self.pending@;
        let mut out: Vec<Resend> = Vec::new();
        let mut k: usize = 0;
        while k < self.pending.len()
            invariant
                self.pending@.len() == old_p.len(),
                k <= old_p.len(),
                self.same_but_pending(*old(self)),
                old_p == old(self).pending@,
                forall|i: int| 0 <= i < k ==> #[trigger] self.pending@[i] == after_sweep(old_p[i], now, rpc_timeout),
                forall|i: int| k <= i < old_p.len() ==> #[trigger] self.pending@[i] == old_p[i],
                resend_views(out@) == resends_of(old_p.take(k as int), now),
            decreases old_p.len() - k,
        {
            proof {
                assert(old_p.take(k + 1).drop_last() =~= old_p.take(k as int));
            }
            if self.pending[k].status == PendingStatus::Pending && self.pending[k].expires_at > 0
                && self.pending[k].expires_at < now {
                let q = rearm(&self.pending[k], now, rpc_timeout);
                let e = &self.pending[k];
                let rs = Resend {
                    request_id: e.request_id.clone(),
                    target: e.target.clone(),
                    method: e.method.clone(),
                    params: e.params.clone(),
                };
                let ghost before_out = out@;
                out.push(rs);
                self.pending.set(k, q);
                proof {
                    assert(resend_views(out@) =~= resend_views(before_out).push(
                        resend_view(old_p[k as int]),
                    ));
                }
            }
            k = k + 1;
        }
        proof {
            assert(old_p.take(old_p.len() as int) =~= old_p);
            assert(self.pending@ =~= old_p.map_values(|p: Pending| after_sweep(p, now, rpc_timeout)));
            assert forall|i: int, j: int|
                0 <= i < self.pending@.len() && 0 <= j < self.pending@.len() && i != j implies self.pending@[i].request_id@
                    != self.pending@[j].request_id@ by {
                assert(self.pending@[i].request_id == old_p[i].request_id);
                assert(self.pending@[j].request_id == old_p[j].request_id);
            }
        }
        out
    }

    /// Remember how to answer a received RPC request (replacing any route
    /// already kept under its id).
    pub fn remember_request(&mut self, request_id: String, meta: RpcMeta)
        ensures
            final(self).tasks == old(self).tasks,
            final(self).zones == old(self).zones,
            final(self).conflicts == old(self).conflicts,
            final(self).events == old(self).events,
            final(self).escalations == old(self).escalations,
            final(self).approvals == old(self).approvals,
            final(self).watches == old(self).watches,
            final(self).pending == old(self).pending,
            final(self).event_seq == old(self).event_seq,
            final(self).last_digest_ts == old(self).last_digest_ts,
            final(self).master_sid == old(self).master_sid,
            final(self).registry == old(self).registry,
            exists|k: int|
                0 <= k < final(self).rpc_meta@.len() && final(self).rpc_meta@[k].0@ == request_id@
                    && final(self).rpc_meta@[k].1 == meta,
            forall|k: int|
                0 <= k < final(self).rpc_meta@.len() && (#[trigger] final(self).rpc_meta@[k]).0@
                    == request_id@ ==> final(self).rpc_meta@[k].1 == meta,
            forall|k: int|
                0 <= k < final(self).rpc_meta@.len() ==> (#[trigger] final(self).rpc_meta@[k]).0@
                    == request_id@ || old(self).rpc_meta@.contains(final(self).rpc_meta@[k]),
            forall|k: int|
                0 <= k < old(self).rpc_meta@.len() && (#[trigger] old(self).rpc_meta@[k]).0@
                    != request_id@ ==> final(self).rpc_meta@.contains(old(self).rpc_meta@[k]),
    {
        self.forget_request(request_id.as_str());
        let ghost before = self.rpc_meta@;
        let ghost id = request_id@;
        let ghost m = meta;
        self.rpc_meta.push((request_id, meta));
        proof {
            let n = before.len() as int;
            assert(self.rpc_meta@[n].0@ == id && self.rpc_meta@[n].1 == m);
            assert forall|k: int|
                0 <= k < self.rpc_meta@.len() implies (#[trigger] self.rpc_meta@[k]).0@ == id
                    || old(self).rpc_meta@.contains(self.rpc_meta@[k]) by {
                if k < n {
                    assert(before[k] == self.rpc_meta@[k]);
                }
            }
            assert forall|k: int|
                0 <= k < self.rpc_meta@.len() && (#[trigger] self.rpc_meta@[k]).0@ == id implies self.rpc_meta@[k].1
                    == m by {
                if k < n {
                    assert(before[k] == self.rpc_meta@[k]);
                }
            }
            assert forall|k: int|
                0 <= k < old(self).rpc_meta@.len() && (#[trigger] old(self).rpc_meta@[k]).0@
                    != id implies self.rpc_meta@.contains(old(self).rpc_meta@[k]) by {
                assert(before.contains(old(self).rpc_meta@[k]));
                let j = choose|j: int| 0 <= j < before.len() && before[j] == old(self).rpc_meta@[k];
                assert(self.rpc_meta@[j] == before[j]);
            }
        }
    }

    /// Drop every reply route kept under `request_id`.
    fn forget_request(&mut self, request_id: &str)
        ensures
            final(self).tasks == old(self).tasks,
            final(self).zones == old(self).zones,
            final(self).conflicts == old(self).conflicts,
            final(self).events == old(self).events,
            final(self).escalations == old(self).escalations,
            final(self).approvals == old(self).approvals,
            final(self).watches == old(self).watches,
            final(self).pending == old(self).pending,
            final(self).event_seq == old(self).event_seq,
            final(self).last_digest_ts == old(self).last_digest_ts,
            final(self).master_sid == old(self).master_sid,
            final(self).registry == old(self).registry,
            forall|k: int|
                0 <= k < final(self).rpc_meta@.len() ==> (#[trigger] final(self).rpc_meta@[k]).0@
                    != request_id@ && old(self).rpc_meta@.contains(final(self).rpc_meta@[k]),
            forall|k: int|
                0 <= k < old(self).rpc_meta@.len() && (#[trigger] old(self).rpc_meta@[k]).0@
                    != request_id@ ==> final(self).rpc_meta@.contains(old(self).rpc_meta@[k]),
    {
        let n = self.rpc_meta.len();
        let ghost all = self.rpc_meta@;
        let mut src: Vec<(String, RpcMeta)> = Vec::new();
        std::mem::swap(&mut src, &mut self.rpc_meta);
        let mut kept: Vec<(String, RpcMeta)> = Vec::new();
        let mut i: usize = 0;
        proof {
            assert(src@ =~= all.skip(0));
        }
        while src.len() > 0
            invariant
                n == all.len(),
                i <= n,
                src@ == all.skip(i as int),
                forall|k: int|
                    0 <= k < kept@.len() ==> (#[trigger] kept@[k]).0@ != request_id@ && all.contains(
                        kept@[k],
                    ),
                forall|k: int|
                    0 <= k < i && (#[trigger] all[k]).0@ != request_id@ ==> kept@.contains(all[k]),
            decreases src@.len(),
        {
            let e = src.remove(0);
            proof {
                assert(e == all[i as int]);
                assert(src@ =~= all.skip(i + 1));
            }
            let ghost before = kept@;
            if !str_eq(e.0.as_str(), request_id) {
                kept.push(e);
            }
            proof {
                assert forall|k: int|
                    0 <= k < i + 1 && (#[trigger] all[k]).0@ != request_id@ implies kept@.contains(
                        all[k],
                    ) by {
                    if k < i {
                        let j = choose|j: int| 0 <= j < before.len() && before[j] == all[k];
                        assert(kept@[j] == before[j]);
                    } else {
                        assert(kept@[before.len() as int] == all[k]);
                    }
                }
            }
            i = i + 1;
        }
        self.rpc_meta = kept;
    }

    /// `rpc_reply`: take (and forget) the reply route of a received request.
    /// `None` when unknown or already answered.
    pub fn take_request(&mut self, request_id: &str) -> (r: Option<RpcMeta>)
        ensures
            final(self).tasks == old(self).tasks,
            final(self).zones == old(self).zones,
            final(self).conflicts == old(self).conflicts,
            final(self).events == old(self).events,
            final(self).escalations == old(self).escalations,
            final(self).approvals == old(self).approvals,
            final(self).watches == old(self).watches,
            final(self).pending == old(self).pending,
            final(self).event_seq == old(self).event_seq,
            final(self).last_digest_ts == old(self).last_digest_ts,
            final(self).master_sid == old(self).master_sid,
            final(self).registry == old(self).registry,
            r is None <==> !(exists|k: int|
                0 <= k < old(self).rpc_meta@.len() && old(self).rpc_meta@[k].0@ == request_id@),
            r matches Some(m) ==> exists|k: int|
                0 <= k < old(self).rpc_meta@.len() && old(self).rpc_meta@[k].0@ == request_id@
                    && old(self).rpc_meta@[k].1 == m,
            forall|k: int|
                0 <= k < final(self).rpc_meta@.len() ==> (#[trigger] final(self).rpc_meta@[k]).0@
                    != request_id@,
    {
        match self.find_request(request_id) {
            Some(k) => {
                let m = &self.rpc_meta[k].1;
                let found = RpcMeta {
                    reply_to: match &m.reply_to {
                        Some(x) => Some(x.clone()),
                        None => None,
                    },
                    from: match &m.from {
                        Some(x) => Some(x.clone()),
                        None => None,
                    },
                };
                let ghost at = k as int;
                let ghost before = self.rpc_meta@;
                self.forget_request(request_id);
                proof {
                    assert(before[at].1 == found);
                }
                Some(found)
            },
            None => None,
        }
    }

    /// Position of the reply route kept under `request_id`.
    fn find_request(&self, request_id: &str) -> (r: Option<usize>)
        ensures
            r matches Some(k) ==> k < self.rpc_meta@.len() && self.rpc_meta@[k as int].0@ == request_id@,
            r is None ==> forall|j: int| 0 <= j < self.rpc_meta@.len() ==> self.rpc_meta@[j].0@ != request_id@,
    {
        let mut k: usize = 0;
        while k < self.rpc_meta.len()
            invariant
                k <= self.rpc_meta@.len(),
                forall|j: int| 0 <= j < k ==> self.rpc_meta@[j].0@ != request_id@,
            decreases self.rpc_meta@.len() - k,
        {
            if str_eq(self.rpc_meta[k].0.as_str(), request_id) {
                return Some(k);
            }
            k = k + 1;
        }
        None
    }

    /// The event part of the legacy `mux_pull`: the same actions/noise shape
    /// as the digest, with nothing skipped and the high-water mark kept.
    pub fn pull_events(&mut self) -> (r: (Vec<Event>, usize, usize))
        ensures
            r.0@ == digest_actions(tview(old(self).tasks@), old(self).events@, 0),
            r.1 == noise_count(tview(old(self).tasks@), old(self).events@, 0, NoiseKind::Ack),
            r.2 == noise_count(tview(old(self).tasks@), old(self).events@, 0, NoiseKind::Tick),
            final(self).events@.len() == 0,
            final(self).tasks == old(self).tasks,
            final(self).same_but_tasks(*old(self)),
    {
        drain_events(&self.tasks, &mut self.events, 0)
    }
}

} // verus!
