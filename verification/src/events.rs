//! Internal event classification and the digest.
//!
//! Every queued event is either an Action (the agent must see it) or Noise
//! (counted, then dropped). The class never appears in a result; it decides
//! whether the agent is woken and what `mux_digest` returns.
use vstd::prelude::*;
use crate::approval::{Approval, Escalation};
use crate::registry::Peer;
use crate::conflicts::Conflict;
use crate::tasks::{has_unfinished, slave_has_unfinished_tasks, tview, Task, TaskView};
use crate::text::str_eq;

verus! {

/// Whether an event needs the agent's attention.
#[derive(Clone, Copy, PartialEq, Eq, Debug, Structural)]
pub enum EventClass {
    Action,
    Noise,
}

/// How a noise event is counted in `noise_counts`.
#[derive(Clone, Copy, PartialEq, Eq, Debug, Structural)]
pub enum NoiseKind {
    Ack,
    Tick,
}

/// What an event carries besides the fields the classifier reads.
#[derive(Debug)]
pub enum EventBody {
    /// A JSON object built at the edge (status, join, ack, request, ...).
    Wire(String),
    /// A task transition.
    Task { task_id: String, owner: String, forced: bool },
    /// An escalated `may_i_touch` request.
    Escalation(Escalation),
    /// An automatic approval, kept for the trace.
    Trace(Approval),
    /// A peer came online: its registry entry.
    Joined(Peer),
    /// A peer went offline, and why.
    Left { reason: String },
    /// A conflict report as recorded.
    Conflict(Conflict),
    /// An RPC request queued for the agent.
    Request { request_id: String, method: String, from: Option<String> },
}

/// A queued mesh event: the fields the classifier reads, as plain strings
/// (empty when the event has no such field), plus its timestamp and body.
#[derive(Debug)]
pub struct Event {
    /// The `kind` field.
    pub kind: String,
    /// The `session_id` field.
    pub session_id: String,
    /// The top-level `state` field (task events).
    pub state: String,
    /// The `info.state` field (status events).
    pub info_state: String,
    /// Milliseconds since the epoch, when known.
    pub ts: Option<u64>,
    pub body: EventBody,
}

pub open spec fn is_decision_kind(k: Seq<char>) -> bool {
    ||| k == "blocked"@
    ||| k == "error"@
    ||| k == "conflict_reported"@
    ||| k == "conflict"@
    ||| k == "rpc_request"@
    ||| k == "approval_escalation"@
    ||| k == "done"@
}

pub open spec fn is_decision_status(st: Seq<char>) -> bool {
    ||| st == "blocked"@
    ||| st == "done"@
    ||| st == "error"@
    ||| st == "failed"@
    ||| st == "conflict"@
}

/// The class of an event: decision-worthy kinds are actions; a task event is
/// an action when it reports Done or Failed; a departing slave is an action
/// only while it owns unfinished tasks; a status echo is an action when its
/// state is decision-worthy; everything else is noise.
pub open spec fn class_of(tasks: Seq<TaskView>, e: Event) -> EventClass {
    let k = e.kind@;
    if is_decision_kind(k) {
        EventClass::Action
    } else if k == "task"@ {
        if e.state@ == "Done"@ || e.state@ == "Failed"@ {
            EventClass::Action
        } else {
            EventClass::Noise
        }
    } else if k == "slave_left"@ {
        if has_unfinished(tasks, e.session_id@) {
            EventClass::Action
        } else {
            EventClass::Noise
        }
    } else if k == "status"@ {
        if is_decision_status(e.info_state@) {
            EventClass::Action
        } else {
            EventClass::Noise
        }
    } else {
        EventClass::Noise
    }
}

/// How a noise event is counted: `ack` for ctrl acknowledgements, `tick` for
/// status echoes and task progress.
pub open spec fn noise_of(e: Event) -> Option<NoiseKind> {
    if e.kind@ == "ctrl_ack"@ {
        Some(NoiseKind::Ack)
    } else if e.kind@ == "status"@ || e.kind@ == "task"@ {
        Some(NoiseKind::Tick)
    } else {
        None
    }
}

/// Decision-first order of the digest's actions.
pub open spec fn rank_of(e: Event) -> u8 {
    let k = e.kind@;
    if k == "blocked"@ {
        0
    } else if k == "conflict_reported"@ || k == "conflict"@ {
        1
    } else if k == "rpc_request"@ {
        2
    } else if k == "approval_escalation"@ {
        3
    } else if k == "task"@ {
        if e.state@ == "Failed"@ {
            4
        } else {
            5
        }
    } else if k == "done"@ || k == "status"@ {
        5
    } else {
        6
    }
}

pub open spec fn wake_rule(digest_mode: bool, class: EventClass) -> bool {
    !digest_mode || class == EventClass::Action
}

/// The event's time, 0 when it has none.
pub open spec fn ts_or_zero(e: Event) -> u64 {
    match e.ts {
        Some(t) => t,
        None => 0,
    }
}

/// An event older than the `since` mark (when the mark is set) was already
/// consumed by an earlier digest.
pub open spec fn consumed(e: Event, since: u64) -> bool {
    since > 0 && ts_or_zero(e) <= since
}

/// The unconsumed actions of rank `r`, in queue order.
pub open spec fn actions_of_rank(
    tasks: Seq<TaskView>,
    evs: Seq<Event>,
    since: u64,
    r: u8,
) -> Seq<Event>
    decreases evs.len(),
{
    if evs.len() == 0 {
        Seq::empty()
    } else {
        let p = actions_of_rank(tasks, evs.drop_last(), since, r);
        let e = evs.last();
        if !consumed(e, since) && class_of(tasks, e) == EventClass::Action && rank_of(e) == r {
            p.push(e)
        } else {
            p
        }
    }
}

/// The unconsumed actions, stably ordered by rank (decision-first).
pub open spec fn digest_actions(tasks: Seq<TaskView>, evs: Seq<Event>, since: u64) -> Seq<Event> {
    actions_of_rank(tasks, evs, since, 0) + actions_of_rank(tasks, evs, since, 1)
        + actions_of_rank(tasks, evs, since, 2) + actions_of_rank(tasks, evs, since, 3)
        + actions_of_rank(tasks, evs, since, 4) + actions_of_rank(tasks, evs, since, 5)
        + actions_of_rank(tasks, evs, since, 6)
}

/// How many unconsumed noise events are counted as `nk`.
pub open spec fn noise_count(tasks: Seq<TaskView>, evs: Seq<Event>, since: u64, nk: NoiseKind) -> nat
    decreases evs.len(),
{
    if evs.len() == 0 {
        0
    } else {
        let p = noise_count(tasks, evs.drop_last(), since, nk);
        let e = evs.last();
        if !consumed(e, since) && class_of(tasks, e) == EventClass::Noise && noise_of(e) == Some(
            nk,
        ) {
            p + 1
        } else {
            p
        }
    }
}

/// Whether this event should wake the agent: in digest mode only Action
/// events do (empty wakes are dropped); in legacy mode every event wakes.
pub fn wake_needed(digest_mode: bool, class: EventClass) -> (r: bool)
    ensures
        r == wake_rule(digest_mode, class),
{
    !digest_mode || class == EventClass::Action
}

fn is_decision_kind_exec(k: &str) -> (r: bool)
    ensures
        r == is_decision_kind(k@),
{
    str_eq(k, "blocked") || str_eq(k, "error") || str_eq(k, "conflict_reported") || str_eq(
        k,
        "conflict",
    ) || str_eq(k, "rpc_request") || str_eq(k, "approval_escalation") || str_eq(k, "done")
}

fn is_decision_status_exec(st: &str) -> (r: bool)
    ensures
        r == is_decision_status(st@),
{
    str_eq(st, "blocked") || str_eq(st, "done") || str_eq(st, "error") || str_eq(st, "failed")
        || str_eq(st, "conflict")
}

/// Classify a queued event against the task table.
pub fn classify_event(tasks: &Vec<Task>, ev: &Event) -> (r: EventClass)
    ensures
        r == class_of(tview(tasks@), *ev),
{
    let k = ev.kind.as_str();
    if is_decision_kind_exec(k) {
        EventClass::Action
    } else if str_eq(k, "task") {
        if str_eq(ev.state.as_str(), "Done") || str_eq(ev.state.as_str(), "Failed") {
            EventClass::Action
        } else {
            EventClass::Noise
        }
    } else if str_eq(k, "slave_left") {
        if slave_has_unfinished_tasks(tasks, ev.session_id.as_str()) {
            EventClass::Action
        } else {
            EventClass::Noise
        }
    } else if str_eq(k, "status") {
        if is_decision_status_exec(ev.info_state.as_str()) {
            EventClass::Action
        } else {
            EventClass::Noise
        }
    } else {
        EventClass::Noise
    }
}

/// Noise attribution for `noise_counts`.
pub fn noise_kind(ev: &Event) -> (r: Option<NoiseKind>)
    ensures
        r == noise_of(*ev),
{
    let k = ev.kind.as_str();
    if str_eq(k, "ctrl_ack") {
        Some(NoiseKind::Ack)
    } else if str_eq(k, "status") || str_eq(k, "task") {
        Some(NoiseKind::Tick)
    } else {
        None
    }
}

/// Digest action sort rank: decision-first (blocked / conflict / rpc_request /
/// approval escalation), then informational (done / task completion).
pub fn action_rank(ev: &Event) -> (r: u8)
    ensures
        r == rank_of(*ev),
        r <= 6,
{
    let k = ev.kind.as_str();
    if str_eq(k, "blocked") {
        0
    } else if str_eq(k, "conflict_reported") || str_eq(k, "conflict") {
        1
    } else if str_eq(k, "rpc_request") {
        2
    } else if str_eq(k, "approval_escalation") {
        3
    } else if str_eq(k, "task") {
        if str_eq(ev.state.as_str(), "Failed") {
            4
        } else {
            5
        }
    } else if str_eq(k, "done") || str_eq(k, "status") {
        5
    } else {
        6
    }
}

/// Drain queued events into digest form: the unconsumed actions, sorted
/// decision-first (stable within a rank), and the ack/tick noise counts.
/// Events at or before `since` (when `since > 0`) are dropped uncounted. The
/// queue is left empty.
pub fn drain_events(tasks: &Vec<Task>, events: &mut Vec<Event>, since: u64) -> (r: (
    Vec<Event>,
    usize,
    usize,
))
    ensures
        final(events)@.len() == 0,
        r.0@ == digest_actions(tview(tasks@), old(events)@, since),
        r.1 == noise_count(tview(tasks@), old(events)@, since, NoiseKind::Ack),
        r.2 == noise_count(tview(tasks@), old(events)@, since, NoiseKind::Tick),
{
    let ghost ts = tview(tasks@);
    let ghost all = events@;
    let n = events.len();
    let mut b0: Vec<Event> = Vec::new();
    let mut b1: Vec<Event> = Vec::new();
    let mut b2: Vec<Event> = Vec::new();
    let mut b3: Vec<Event> = Vec::new();
    let mut b4: Vec<Event> = Vec::new();
    let mut b5: Vec<Event> = Vec::new();
    let mut b6: Vec<Event> = Vec::new();
    let mut ack: usize = 0;
    let mut tick: usize = 0;
    let mut i: usize = 0;
    proof {
        assert(all.take(0) =~= Seq::<Event>::empty());
        assert(events@ =~= all.skip(0));
    }
    while events.len() > 0
        invariant
            n == all.len(),
            ts == tview(tasks@),
            i <= n,
            events@ == all.skip(i as int),
            b0@ == actions_of_rank(ts, all.take(i as int), since, 0),
            b1@ == actions_of_rank(ts, all.take(i as int), since, 1),
            b2@ == actions_of_rank(ts, all.take(i as int), since, 2),
            b3@ == actions_of_rank(ts, all.take(i as int), since, 3),
            b4@ == actions_of_rank(ts, all.take(i as int), since, 4),
            b5@ == actions_of_rank(ts, all.take(i as int), since, 5),
            b6@ == actions_of_rank(ts, all.take(i as int), since, 6),
            ack == noise_count(ts, all.take(i as int), since, NoiseKind::Ack),
            tick == noise_count(ts, all.take(i as int), since, NoiseKind::Tick),
            ack <= i,
            tick <= i,
        decreases events@.len(),
    {
        let ev = events.remove(0);
        proof {
            assert(ev == all[i as int]);
            assert(all.take(i + 1).drop_last() =~= all.take(i as int));
            assert(all.take(i + 1).last() == ev);
            assert(events@ =~= all.skip(i + 1));
        }
        let stamp: u64 = match ev.ts {
            Some(t) => t,
            None => 0,
        };
        if since > 0 && stamp <= since {
        } else {
            let class = classify_event(tasks, &ev);
            if class == EventClass::Action {
                let r = action_rank(&ev);
                if r == 0 {
                    b0.push(ev);
                } else if r == 1 {
                    b1.push(ev);
                } else if r == 2 {
                    b2.push(ev);
                } else if r == 3 {
                    b3.push(ev);
                } else if r == 4 {
                    b4.push(ev);
                } else if r == 5 {
                    b5.push(ev);
                } else {
                    b6.push(ev);
                }
            } else {
                match noise_kind(&ev) {
                    Some(NoiseKind::Ack) => {
                        ack = ack + 1;
                    },
                    Some(NoiseKind::Tick) => {
                        tick = tick + 1;
                    },
                    None => {},
                }
            }
        }
        i = i + 1;
    }
    proof {
        assert(all.take(n as int) =~= all);
    }
    b0.append(&mut b1);
    b0.append(&mut b2);
    b0.append(&mut b3);
    b0.append(&mut b4);
    b0.append(&mut b5);
    b0.append(&mut b6);
    (b0, ack, tick)
}

} // verus!
