//! Peer liveness at the master: the registry of known slaves, kept from their
//! retained registry announcements and heartbeats, and the periodic sweep
//! that declares silent slaves offline.
//!
//! Heartbeats are the single source of truth for presence. A non-empty
//! online heartbeat refreshes the peer; an empty one (retained heartbeat
//! cleared) or one flagged offline (graceful shutdown or last will) marks the
//! peer offline at once. A peer that stays silent longer than the heartbeat
//! timeout is marked offline by the sweep.
use vstd::prelude::*;
use crate::events::{class_of, Event, EventBody, EventClass};
use crate::rpc::Pending;
use crate::state::{
    after_sweep, bump, live_watches, resend_views, resends_of, watches_not_of, Resend, State,
};
use crate::tasks::{has_unfinished, tview, TaskView};
use crate::text::str_eq;
use crate::watch::Watch;

verus! {

/// A JSON field as the registry logic reads it: missing, `null`/not a
/// string, or a string.
#[derive(Debug)]
pub enum Slot {
    Absent,
    Null,
    Text(String),
}

/// Is `s` the string `t`?
pub open spec fn text_is(s: Slot, t: Seq<char>) -> bool {
    s matches Slot::Text(x) && x@ == t
}

/// The string in `s`, if any.
pub open spec fn slot_text(s: Slot) -> Option<Seq<char>> {
    match s {
        Slot::Text(x) => Some(x@),
        _ => None,
    }
}

impl Slot {
    pub fn copy(&self) -> (r: Slot)
        ensures
            r == *self,
    {
        match self {
            Slot::Absent => Slot::Absent,
            Slot::Null => Slot::Null,
            Slot::Text(x) => Slot::Text(x.clone()),
        }
    }

    pub fn text(t: &str) -> (r: Slot)
        ensures
            text_is(r, t@),
    {
        Slot::Text(String::from_str(t))
    }
}

/// What the registry keeps of a peer besides its id and last sighting.
#[derive(Debug)]
pub struct PeerInfo {
    /// `online`, `offline`, or what the peer announced.
    pub status: Slot,
    pub parent_id: Slot,
    pub role: Slot,
    /// The peer's last reported work state.
    pub state: Slot,
    pub offline_reason: Slot,
    /// When the peer announced itself (milliseconds since the epoch).
    pub joined_at: Option<u64>,
    /// The last control acknowledgement from the peer (its JSON text).
    pub last_ctrl_ack: Option<String>,
    /// The other fields of the peer's last status report (plan, message,
    /// task), as a JSON object.
    pub report: Option<String>,
}

/// A known peer.
#[derive(Debug)]
pub struct Peer {
    pub sid: String,
    /// Milliseconds since the epoch.
    pub last_seen: u64,
    pub info: PeerInfo,
}

impl PeerInfo {
    pub fn copy(&self) -> (r: PeerInfo)
        ensures
            r == *self,
    {
        PeerInfo {
            status: self.status.copy(),
            parent_id: self.parent_id.copy(),
            role: self.role.copy(),
            state: self.state.copy(),
            offline_reason: self.offline_reason.copy(),
            joined_at: self.joined_at,
            last_ctrl_ack: match &self.last_ctrl_ack {
                Some(a) => Some(a.clone()),
                None => None,
            },
            report: match &self.report {
                Some(a) => Some(a.clone()),
                None => None,
            },
        }
    }

    /// An entry with nothing known.
    pub fn blank() -> (r: PeerInfo)
        ensures
            r == blank_info(),
    {
        PeerInfo {
            status: Slot::Absent,
            parent_id: Slot::Absent,
            role: Slot::Absent,
            state: Slot::Absent,
            offline_reason: Slot::Absent,
            joined_at: None,
            last_ctrl_ack: None,
            report: None,
        }
    }
}

impl Peer {
    pub fn copy(&self) -> (r: Peer)
        ensures
            r == *self,
    {
        Peer { sid: self.sid.clone(), last_seen: self.last_seen, info: self.info.copy() }
    }
}

pub open spec fn blank_info() -> PeerInfo {
    PeerInfo {
        status: Slot::Absent,
        parent_id: Slot::Absent,
        role: Slot::Absent,
        state: Slot::Absent,
        offline_reason: Slot::Absent,
        joined_at: None,
        last_ctrl_ack: None,
        report: None,
    }
}

/// A heartbeat payload (`hb/<sid>`), as the registry logic reads it.
#[derive(Debug)]
pub struct Heartbeat {
    pub status: Slot,
    /// The payload's time (milliseconds), when it has one.
    pub ts: Option<u64>,
    /// The payload's `reason`, when it is a string.
    pub reason: Option<String>,
    pub parent_id: Slot,
    pub role: Slot,
    pub state: Slot,
}

pub open spec fn is_online(p: Peer) -> bool {
    text_is(p.info.status, "online"@)
}

/// Peers are keyed by session id.
pub open spec fn peers_unique(r: Seq<Peer>) -> bool {
    forall|i: int, j: int| 0 <= i < r.len() && 0 <= j < r.len() && i != j ==> r[i].sid@ != r[j].sid@
}

pub open spec fn has_peer(r: Seq<Peer>, sid: Seq<char>) -> bool {
    exists|k: int| 0 <= k < r.len() && r[k].sid@ == sid
}

pub open spec fn peer_index(r: Seq<Peer>, sid: Seq<char>) -> int {
    choose|k: int| 0 <= k < r.len() && r[k].sid@ == sid
}

/// Where the peer `sid` stands after an upsert into `r`.
pub open spec fn slot_of(r: Seq<Peer>, sid: Seq<char>) -> int {
    if has_peer(r, sid) {
        peer_index(r, sid)
    } else {
        r.len() as int
    }
}

/// What is known of `sid` before an update: its entry, or nothing.
pub open spec fn prior_info(r: Seq<Peer>, sid: Seq<char>) -> PeerInfo {
    if has_peer(r, sid) {
        r[peer_index(r, sid)].info
    } else {
        blank_info()
    }
}

/// `r2` is `r` with the entry of `sid` set (in place, or appended when new)
/// to last sighting `seen` and info `info`; every other entry kept.
pub open spec fn peer_set(r: Seq<Peer>, r2: Seq<Peer>, sid: Seq<char>, seen: u64, info: PeerInfo) -> bool {
    let k = slot_of(r, sid);
    &&& r2.len() == (if has_peer(r, sid) {
        r.len() as int
    } else {
        r.len() + 1int
    })
    &&& forall|j: int| 0 <= j < r.len() && j != k ==> #[trigger] r2[j] == r[j]
    &&& r2[k].sid@ == sid
    &&& r2[k].last_seen == seen
    &&& r2[k].info == info
}

/// The info a registry announcement leaves: the payload as announced, with
/// status `online` when it names none.
pub open spec fn announced_info(p: PeerInfo, q: PeerInfo) -> bool {
    &&& (if p.status is Absent {
        text_is(q.status, "online"@)
    } else {
        q.status == p.status
    })
    &&& q.parent_id == p.parent_id
    &&& q.role == p.role
    &&& q.state == p.state
    &&& q.offline_reason == p.offline_reason
    &&& q.joined_at == p.joined_at
    &&& q.last_ctrl_ack == p.last_ctrl_ack
    &&& q.report == p.report
}

/// `info` marked offline for `reason`, everything else kept.
pub open spec fn offline_info(old_info: PeerInfo, q: PeerInfo, reason: Seq<char>) -> bool {
    &&& text_is(q.status, "offline"@)
    &&& text_is(q.offline_reason, reason)
    &&& q.parent_id == old_info.parent_id
    &&& q.role == old_info.role
    &&& q.state == old_info.state
    &&& q.joined_at == old_info.joined_at
    &&& q.last_ctrl_ack == old_info.last_ctrl_ack
    &&& q.report == old_info.report
}

/// The info an online heartbeat leaves: online; parent and role filled in
/// only when still unknown; the state as reported (kept, or `unknown`, when
/// the heartbeat names none).
pub open spec fn beat_info(old_info: PeerInfo, hb: Heartbeat, q: PeerInfo) -> bool {
    &&& text_is(q.status, "online"@)
    &&& q.parent_id == (if old_info.parent_id is Absent {
        hb.parent_id
    } else {
        old_info.parent_id
    })
    &&& q.role == (if old_info.role is Absent {
        hb.role
    } else {
        old_info.role
    })
    &&& (if hb.state is Absent {
        if old_info.state is Absent {
            text_is(q.state, "unknown"@)
        } else {
            q.state == old_info.state
        }
    } else {
        q.state == hb.state
    })
    &&& q.offline_reason == old_info.offline_reason
    &&& q.joined_at == old_info.joined_at
    &&& q.last_ctrl_ack == old_info.last_ctrl_ack
    &&& q.report == old_info.report
}

/// The `slave_joined` event for the peer `p`.
pub open spec fn is_joined_event(e: Event, p: Peer, now: u64) -> bool {
    &&& e.kind@ == "slave_joined"@
    &&& e.session_id@ == p.sid@
    &&& e.state@.len() == 0
    &&& e.info_state@.len() == 0
    &&& e.ts == Some(now)
    &&& e.body == EventBody::Joined(p)
}

/// The `slave_left` event for `sid`, gone for `reason`.
pub open spec fn is_left_event(e: Event, sid: Seq<char>, reason: Seq<char>, now: u64) -> bool {
    &&& e.kind@ == "slave_left"@
    &&& e.session_id@ == sid
    &&& e.state@.len() == 0
    &&& e.info_state@.len() == 0
    &&& e.ts == Some(now)
    &&& e.body matches EventBody::Left { reason: r } && r@ == reason
}

/// Is a peer silent for longer than the heartbeat timeout at `now`?
pub open spec fn timed_out(p: Peer, self_sid: Seq<char>, now: u64, hb_timeout: u64) -> bool {
    p.sid@ != self_sid && is_online(p) && now - p.last_seen > hb_timeout
}

/// The peers the sweep declares offline, in registry order.
pub open spec fn timed_out_sids(r: Seq<Peer>, self_sid: Seq<char>, now: u64, hb_timeout: u64) -> Seq<Seq<char>>
    decreases r.len(),
{
    if r.len() == 0 {
        Seq::empty()
    } else {
        let rest = timed_out_sids(r.drop_last(), self_sid, now, hb_timeout);
        if timed_out(r.last(), self_sid, now, hb_timeout) {
            rest.push(r.last().sid@)
        } else {
            rest
        }
    }
}

/// The watches whose watcher is none of `sids`, in order.
pub open spec fn watches_outside(ws: Seq<Watch>, sids: Seq<Seq<char>>) -> Seq<Watch>
    decreases ws.len(),
{
    if ws.len() == 0 {
        Seq::empty()
    } else {
        let r = watches_outside(ws.drop_last(), sids);
        if sids.contains(ws.last().watcher_sid@) {
            r
        } else {
            r.push(ws.last())
        }
    }
}

/// Outcome of a heartbeat.
#[derive(Debug)]
pub struct Beat {
    /// Wake the agent.
    pub wake: bool,
    /// The peer went offline: clear its retained registry entry.
    pub left: bool,
}

/// Outcome of a sweep.
#[derive(Debug)]
pub struct Swept {
    /// Peers declared offline, in registry order.
    pub left: Vec<String>,
    /// Wake the agent.
    pub wake: bool,
    /// Expired RPCs to re-publish.
    pub resends: Vec<Resend>,
}

proof fn lemma_joined_noise(tasks: Seq<TaskView>, e: Event)
    requires
        e.kind@ == "slave_joined"@,
    ensures
        class_of(tasks, e) == EventClass::Noise,
{
    reveal_strlit("slave_joined");
    reveal_strlit("blocked");
    reveal_strlit("error");
    reveal_strlit("conflict_reported");
    reveal_strlit("conflict");
    reveal_strlit("rpc_request");
    reveal_strlit("approval_escalation");
    reveal_strlit("done");
    reveal_strlit("task");
    reveal_strlit("slave_left");
    reveal_strlit("status");
    assert(e.kind@.len() == 12);
    assert(e.kind@ != "blocked"@);
    assert(e.kind@ != "error"@);
    assert(e.kind@ != "conflict_reported"@);
    assert(e.kind@ != "conflict"@);
    assert(e.kind@ != "rpc_request"@);
    assert(e.kind@ != "approval_escalation"@);
    assert(e.kind@ != "done"@);
    assert(e.kind@ != "task"@);
    assert(e.kind@ != "slave_left"@);
    assert(e.kind@ != "status"@);
}

proof fn lemma_left_class(tasks: Seq<TaskView>, e: Event)
    requires
        e.kind@ == "slave_left"@,
    ensures
        class_of(tasks, e) == (if has_unfinished(tasks, e.session_id@) {
            EventClass::Action
        } else {
            EventClass::Noise
        }),
{
    reveal_strlit("slave_left");
    reveal_strlit("blocked");
    reveal_strlit("error");
    reveal_strlit("conflict_reported");
    reveal_strlit("conflict");
    reveal_strlit("rpc_request");
    reveal_strlit("approval_escalation");
    reveal_strlit("done");
    reveal_strlit("task");
    assert(e.kind@.len() == 10);
    assert(e.kind@ != "blocked"@);
    assert(e.kind@ != "error"@);
    assert(e.kind@ != "conflict_reported"@);
    assert(e.kind@ != "conflict"@);
    assert(e.kind@ != "rpc_request"@);
    assert(e.kind@ != "approval_escalation"@);
    assert(e.kind@ != "done"@);
    assert(e.kind@ != "task"@);
}

/// Is `s` one of `v`?
fn contains_str(v: &Vec<String>, s: &str) -> (r: bool)
    ensures
        r == crate::text::views(v@).contains(s@),
{
    let mut i: usize = 0;
    while i < v.len()
        invariant
            i <= v@.len(),
            forall|j: int| 0 <= j < i ==> v@[j]@ != s@,
        decreases v@.len() - i,
    {
        if str_eq(v[i].as_str(), s) {
            assert(crate::text::views(v@)[i as int] == s@);
            return true;
        }
        i = i + 1;
    }
    proof {
        if crate::text::views(v@).contains(s@) {
            let j = choose|j: int| 0 <= j < v@.len() && crate::text::views(v@)[j] == s@;
            assert(v@[j]@ == s@);
        }
    }
    false
}

impl State {
    /// Everything but the registry, the watches, the event queue and the event
    /// counter is as in `other`.
    pub open spec fn same_but_peers(&self, other: State) -> bool {
        &&& self.tasks == other.tasks
        &&& self.zones == other.zones
        &&& self.conflicts == other.conflicts
        &&& self.escalations == other.escalations
        &&& self.approvals == other.approvals
        &&& self.pending == other.pending
        &&& self.rpc_meta == other.rpc_meta
        &&& self.last_digest_ts == other.last_digest_ts
        &&& self.master_sid == other.master_sid
    }

    /// Position of the peer `sid`.
    pub fn find_peer(&self, sid: &str) -> (r: Option<usize>)
        requires
            self.wf(),
        ensures
            r matches Some(k) ==> k < self.registry@.len() && self.registry@[k as int].sid@ == sid@
                && has_peer(self.registry@, sid@) && peer_index(self.registry@, sid@) == k,
            r is None <==> !has_peer(self.registry@, sid@),
    {
        let mut k: usize = 0;
        while k < self.registry.len()
            invariant
                self.wf(),
                k <= self.registry@.len(),
                forall|j: int| 0 <= j < k ==> self.registry@[j].sid@ != sid@,
            decreases self.registry@.len() - k,
        {
            if str_eq(self.registry[k].sid.as_str(), sid) {
                proof {
                    let j = peer_index(self.registry@, sid@);
                    assert(self.registry@[j].sid@ == sid@);
                    if j != k {
                        assert(self.registry@[j].sid@ != self.registry@[k as int].sid@);
                    }
                }
                return Some(k);
            }
            k = k + 1;
        }
        None
    }

    /// Set the entry of `sid` (in place, or appended when new).
    pub(crate) fn set_peer(&mut self, sid: String, seen: u64, info: PeerInfo)
        requires
            old(self).wf(),
        ensures
            final(self).wf(),
            peer_set(old(self).registry@, final(self).registry@, sid@, seen, info),
            final(self).registry@[slot_of(old(self).registry@, sid@)].sid == sid,
            final(self).same_but_peers(*old(self)),
            final(self).watches == old(self).watches,
            final(self).events == old(self).events,
            final(self).event_seq == old(self).event_seq,
    {
        let ghost old_r = self.registry@;
        let ghost id = sid@;
        let ghost inf = info;
        match self.find_peer(sid.as_str()) {
            Some(k) => {
                self.registry.set(k, Peer { sid, last_seen: seen, info });
                proof {
                    assert forall|i: int, j: int|
                        0 <= i < self.registry@.len() && 0 <= j < self.registry@.len() && i != j
                            implies self.registry@[i].sid@ != self.registry@[j].sid@ by {
                        if i != k && j != k {
                            assert(old_r[i].sid@ != old_r[j].sid@);
                        } else if i == k {
                            assert(old_r[k as int].sid@ != old_r[j].sid@);
                        } else {
                            assert(old_r[i].sid@ != old_r[k as int].sid@);
                        }
                    }
                }
            },
            None => {
                self.registry.push(Peer { sid, last_seen: seen, info });
                proof {
                    assert forall|i: int, j: int|
                        0 <= i < self.registry@.len() && 0 <= j < self.registry@.len() && i != j
                            implies self.registry@[i].sid@ != self.registry@[j].sid@ by {
                        if i < old_r.len() && j < old_r.len() {
                            assert(old_r[i].sid@ != old_r[j].sid@);
                        } else if i < old_r.len() {
                            assert(old_r[i].sid@ != id);
                        } else {
                            assert(old_r[j].sid@ != id);
                        }
                    }
                }
            },
        }
    }

    /// What is known of `sid` now (a copy of its info, or nothing).
    fn prior(&self, sid: &str) -> (r: PeerInfo)
        requires
            self.wf(),
        ensures
            r == prior_info(self.registry@, sid@),
    {
        match self.find_peer(sid) {
            Some(k) => self.registry[k].info.copy(),
            None => PeerInfo::blank(),
        }
    }

    /// A registry announcement (`registry/<sid>`) at the master; `payload` is
    /// `None` when the retained entry was cleared. A cleared entry marks the
    /// peer offline (`unregistered`) and drops its watches; an announcement
    /// replaces the entry and, for a peer not seen before that comes online,
    /// queues `slave_joined`. Other nodes, and the master's own entry, are
    /// ignored. Returns whether to wake the agent.
    pub fn on_registry(
        &mut self,
        self_sid: &str,
        is_master: bool,
        sid: String,
        payload: Option<PeerInfo>,
        now: u64,
        digest_mode: bool,
    ) -> (r: bool)
        requires
            old(self).wf(),
        ensures
            final(self).wf(),
            final(self).same_but_peers(*old(self)),
            sid@ == self_sid@ || !is_master ==> !r && *final(self) == *old(self),
            sid@ != self_sid@ && is_master ==> match payload {
                None => {
                    &&& !r
                    &&& peer_set(
                        old(self).registry@,
                        final(self).registry@,
                        sid@,
                        now,
                        final(self).registry@[slot_of(old(self).registry@, sid@)].info,
                    )
                    &&& offline_info(
                        prior_info(old(self).registry@, sid@),
                        final(self).registry@[slot_of(old(self).registry@, sid@)].info,
                        "unregistered"@,
                    )
                    &&& final(self).watches@ == watches_not_of(old(self).watches@, sid@)
                    &&& final(self).events == old(self).events
                    &&& final(self).event_seq == old(self).event_seq
                },
                Some(p) => {
                    let k = slot_of(old(self).registry@, sid@);
                    let q = final(self).registry@[k];
                    let joined = !has_peer(old(self).registry@, sid@) && is_online(q);
                    &&& peer_set(old(self).registry@, final(self).registry@, sid@, now, q.info)
                    &&& announced_info(p, q.info)
                    &&& final(self).watches == old(self).watches
                    &&& joined ==> {
                        &&& final(self).events@.len() == old(self).events@.len() + 1
                        &&& final(self).events@.drop_last() == old(self).events@
                        &&& is_joined_event(final(self).events@.last(), q, now)
                        &&& final(self).event_seq == bump(old(self).event_seq, 1)
                        &&& r == !digest_mode
                    }
                    &&& !joined ==> !r && final(self).events == old(self).events
                        && final(self).event_seq == old(self).event_seq
                },
            },
    {
        if str_eq(sid.as_str(), self_sid) || !is_master {
            return false;
        }
        match payload {
            None => {
                let prior = self.prior(sid.as_str());
                let info = PeerInfo {
                    status: Slot::text("offline"),
                    parent_id: prior.parent_id,
                    role: prior.role,
                    state: prior.state,
                    offline_reason: Slot::text("unregistered"),
                    joined_at: prior.joined_at,
                    last_ctrl_ack: prior.last_ctrl_ack,
                    report: prior.report,
                };
                let ghost id = sid@;
                let s2 = sid.clone();
                self.set_peer(sid, now, info);
                self.drop_watches_of(s2.as_str());
                proof {
                    assert(id == s2@);
                }
                false
            },
            Some(p) => {
                let is_new = self.find_peer(sid.as_str()).is_none();
                let status = match p.status {
                    Slot::Absent => Slot::text("online"),
                    other => other,
                };
                let online = match &status {
                    Slot::Text(t) => str_eq(t.as_str(), "online"),
                    _ => false,
                };
                let info = PeerInfo {
                    status,
                    parent_id: p.parent_id,
                    role: p.role,
                    state: p.state,
                    offline_reason: p.offline_reason,
                    joined_at: p.joined_at,
                    last_ctrl_ack: p.last_ctrl_ack,
                    report: p.report,
                };
                let snapshot = Peer { sid: sid.clone(), last_seen: now, info: info.copy() };
                let ev_sid = sid.clone();
                self.set_peer(sid, now, info);
                if is_new && online {
                    let ev = Event {
                        kind: String::from_str("slave_joined"),
                        session_id: ev_sid,
                        state: String::new(),
                        info_state: String::new(),
                        ts: Some(now),
                        body: EventBody::Joined(snapshot),
                    };
                    let w = self.wake_for(&ev, digest_mode);
                    proof {
                        lemma_joined_noise(tview(self.tasks@), ev);
                    }
                    self.push_event(ev, now);
                    w
                } else {
                    false
                }
            },
        }
    }

    /// A heartbeat (`hb/<sid>`) at the master; `hb` is `None` when the
    /// retained heartbeat was cleared. A cleared heartbeat, or one flagged
    /// `offline`, marks the peer offline at the payload's time (the reason is
    /// the payload's, else `hb_offline`), queues `slave_left` and drops the
    /// peer's watches. An online heartbeat refreshes the peer and queues
    /// `slave_joined` when it was not online. Other nodes, and the master's
    /// own heartbeat, are ignored.
    pub fn on_hb(
        &mut self,
        self_sid: &str,
        is_master: bool,
        sid: String,
        hb: Option<Heartbeat>,
        now: u64,
        digest_mode: bool,
    ) -> (r: Beat)
        requires
            old(self).wf(),
        ensures
            final(self).wf(),
            final(self).same_but_peers(*old(self)),
            sid@ == self_sid@ || !is_master ==> !r.wake && !r.left && *final(self) == *old(self),
            sid@ != self_sid@ && is_master ==> ({
                let k = slot_of(old(self).registry@, sid@);
                let q = final(self).registry@[k];
                let prior = prior_info(old(self).registry@, sid@);
                let goes = match hb {
                    None => true,
                    Some(h) => text_is(h.status, "offline"@),
                };
                if goes {
                    let ts = match hb {
                        Some(h) => match h.ts {
                            Some(t) => t,
                            None => now,
                        },
                        None => now,
                    };
                    let reason = match hb {
                        Some(h) => match h.reason {
                            Some(x) => x@,
                            None => "hb_offline"@,
                        },
                        None => "hb_offline"@,
                    };
                    &&& peer_set(old(self).registry@, final(self).registry@, sid@, ts, q.info)
                    &&& offline_info(prior, q.info, reason)
                    &&& final(self).events@.len() == old(self).events@.len() + 1
                    &&& final(self).events@.drop_last() == old(self).events@
                    &&& is_left_event(final(self).events@.last(), sid@, reason, now)
                    &&& final(self).event_seq == bump(old(self).event_seq, 1)
                    &&& r.wake == (!digest_mode || has_unfinished(tview(old(self).tasks@), sid@))
                    &&& r.left
                    &&& final(self).watches@ == watches_not_of(old(self).watches@, sid@)
                } else {
                    let was_online = has_peer(old(self).registry@, sid@) && is_online(
                        old(self).registry@[peer_index(old(self).registry@, sid@)],
                    );
                    &&& peer_set(old(self).registry@, final(self).registry@, sid@, now, q.info)
                    &&& beat_info(prior, hb->0, q.info)
                    &&& !r.left
                    &&& final(self).watches == old(self).watches
                    &&& !was_online ==> {
                        &&& final(self).events@.len() == old(self).events@.len() + 1
                        &&& final(self).events@.drop_last() == old(self).events@
                        &&& is_joined_event(final(self).events@.last(), q, now)
                        &&& final(self).event_seq == bump(old(self).event_seq, 1)
                        &&& r.wake == !digest_mode
                    }
                    &&& was_online ==> !r.wake && final(self).events == old(self).events
                        && final(self).event_seq == old(self).event_seq
                }
            }),
    {
        if str_eq(sid.as_str(), self_sid) || !is_master {
            return Beat { wake: false, left: false };
        }
        let goes = match &hb {
            None => true,
            Some(h) => match &h.status {
                Slot::Text(t) => str_eq(t.as_str(), "offline"),
                _ => false,
            },
        };
        let prior = self.prior(sid.as_str());
        if goes {
            let (ts, reason) = match hb {
                Some(h) => (
                    match h.ts {
                        Some(t) => t,
                        None => now,
                    },
                    match h.reason {
                        Some(x) => x,
                        None => String::from_str("hb_offline"),
                    },
                ),
                None => (now, String::from_str("hb_offline")),
            };
            let info = PeerInfo {
                status: Slot::text("offline"),
                parent_id: prior.parent_id,
                role: prior.role,
                state: prior.state,
                offline_reason: Slot::Text(reason.clone()),
                joined_at: prior.joined_at,
                last_ctrl_ack: prior.last_ctrl_ack,
                report: prior.report,
            };
            let ev_sid = sid.clone();
            let w_sid = sid.clone();
            self.set_peer(sid, ts, info);
            let ev = Event {
                kind: String::from_str("slave_left"),
                session_id: ev_sid,
                state: String::new(),
                info_state: String::new(),
                ts: Some(now),
                body: EventBody::Left { reason },
            };
            proof {
                lemma_left_class(tview(self.tasks@), ev);
            }
            let w = self.wake_for(&ev, digest_mode);
            self.push_event(ev, now);
            self.drop_watches_of(w_sid.as_str());
            Beat { wake: w, left: true }
        } else {
            let was_online = match self.find_peer(sid.as_str()) {
                Some(k) => match &self.registry[k].info.status {
                    Slot::Text(t) => str_eq(t.as_str(), "online"),
                    _ => false,
                },
                None => false,
            };
            let h = match hb {
                Some(h) => h,
                None => {
                    return Beat { wake: false, left: false };
                },
            };
            let parent_id = match prior.parent_id {
                Slot::Absent => h.parent_id,
                other => other,
            };
            let role = match prior.role {
                Slot::Absent => h.role,
                other => other,
            };
            let state = match h.state {
                Slot::Absent => match prior.state {
                    Slot::Absent => Slot::text("unknown"),
                    other => other,
                },
                other => other,
            };
            let info = PeerInfo {
                status: Slot::text("online"),
                parent_id,
                role,
                state,
                offline_reason: prior.offline_reason,
                joined_at: prior.joined_at,
                last_ctrl_ack: prior.last_ctrl_ack,
                report: prior.report,
            };
            let snapshot = Peer { sid: sid.clone(), last_seen: now, info: info.copy() };
            let ev_sid = sid.clone();
            self.set_peer(sid, now, info);
            if !was_online {
                let ev = Event {
                    kind: String::from_str("slave_joined"),
                    session_id: ev_sid,
                    state: String::new(),
                    info_state: String::new(),
                    ts: Some(now),
                    body: EventBody::Joined(snapshot),
                };
                proof {
                    lemma_joined_noise(tview(self.tasks@), ev);
                }
                let w = self.wake_for(&ev, digest_mode);
                self.push_event(ev, now);
                Beat { wake: w, left: false }
            } else {
                Beat { wake: false, left: false }
            }
        }
    }

    /// Drop the watches held by any of `sids`.
    fn drop_watches_in(&mut self, sids: &Vec<String>)
        ensures
            final(self).watches@ == watches_outside(old(self).watches@, crate::text::views(sids@)),
            final(self).same_but_watches(*old(self)),
    {
        let n = self.watches.len();
        let ghost all = self.watches@;
        let ghost ids = crate::text::views(sids@);
        let mut src: Vec<Watch> = Vec::new();
        std::mem::swap(&mut src, &mut self.watches);
        let mut kept: Vec<Watch> = Vec::new();
        let mut i: usize = 0;
        proof {
            assert(all.take(0) =~= Seq::<Watch>::empty());
            assert(src@ =~= all.skip(0));
        }
        while src.len() > 0
            invariant
                n == all.len(),
                i <= all.len(),
                src@ == all.skip(i as int),
                kept@ == watches_outside(all.take(i as int), ids),
                ids == crate::text::views(sids@),
            decreases src@.len(),
        {
            let w = src.remove(0);
            proof {
                assert(w == all[i as int]);
                assert(all.take(i + 1).drop_last() =~= all.take(i as int));
                assert(src@ =~= all.skip(i + 1));
            }
            if !contains_str(sids, w.watcher_sid.as_str()) {
                kept.push(w);
            }
            i = i + 1;
        }
        proof {
            assert(all.take(all.len() as int) =~= all);
        }
        self.watches = kept;
    }

    /// The periodic sweep: every online peer (other than this node) silent
    /// for longer than `hb_timeout` is marked offline (`heartbeat_timeout`)
    /// with a `slave_left` event, the watches of those peers are dropped,
    /// expired watches are dropped, and expired RPCs are re-armed for
    /// re-publication. The agent is woken when a peer left and, in digest
    /// mode, one of them still owns unfinished tasks.
    pub fn sweep(
        &mut self,
        self_sid: &str,
        now: u64,
        hb_timeout: u64,
        rpc_timeout: u64,
        digest_mode: bool,
    ) -> (r: Swept)
        requires
            old(self).wf(),
        ensures
            final(self).wf(),
            final(self).tasks == old(self).tasks,
            final(self).zones == old(self).zones,
            final(self).conflicts == old(self).conflicts,
            final(self).escalations == old(self).escalations,
            final(self).approvals == old(self).approvals,
            final(self).rpc_meta == old(self).rpc_meta,
            final(self).last_digest_ts == old(self).last_digest_ts,
            final(self).master_sid == old(self).master_sid,
            ({
                let gone = timed_out_sids(old(self).registry@, self_sid@, now, hb_timeout);
                let n0 = old(self).events@.len();
                &&& crate::text::views(r.left@) == gone
                &&& final(self).registry@.len() == old(self).registry@.len()
                &&& forall|i: int|
                    0 <= i < old(self).registry@.len() ==> {
                        let p = old(self).registry@[i];
                        let q = #[trigger] final(self).registry@[i];
                        if timed_out(p, self_sid@, now, hb_timeout) {
                            &&& q.sid == p.sid
                            &&& q.last_seen == p.last_seen
                            &&& offline_info(p.info, q.info, "heartbeat_timeout"@)
                        } else {
                            q == p
                        }
                    }
                &&& final(self).events@.len() == n0 + gone.len()
                &&& final(self).events@.take(n0 as int) == old(self).events@
                &&& forall|j: int|
                    0 <= j < gone.len() ==> is_left_event(
                        #[trigger] final(self).events@[n0 + j],
                        gone[j],
                        "heartbeat_timeout"@,
                        now,
                    )
                &&& final(self).event_seq == bump(old(self).event_seq, gone.len() as int)
                &&& r.wake == (gone.len() > 0 && (!digest_mode || exists|j: int|
                    0 <= j < gone.len() && has_unfinished(tview(old(self).tasks@), #[trigger] gone[j])))
                &&& final(self).watches@ == live_watches(watches_outside(old(self).watches@, gone), now)
            }),
            final(self).pending@ == old(self).pending@.map_values(
                |p: Pending| after_sweep(p, now, rpc_timeout),
            ),
            resend_views(r.resends@) == resends_of(old(self).pending@, now),
    {
        let ghost old_r = self.registry@;
        let ghost n0 = self.events@.len();
        let ghost ts = tview(self.tasks@);
        let mut left: Vec<String> = Vec::new();
        let mut action = false;
        let mut k: usize = 0;
        proof {
            assert(old_r.take(0) =~= Seq::<Peer>::empty());
            assert(self.events@.take(n0 as int) =~= self.events@);
        }
        while k < self.registry.len()
            invariant
                self.registry@.len() == old_r.len(),
                k <= old_r.len(),
                old_r == old(self).registry@,
                n0 == old(self).events@.len(),
                ts == tview(old(self).tasks@),
                self.same_but_peers(*old(self)),
                self.watches == old(self).watches,
                forall|i: int| k <= i < old_r.len() ==> #[trigger] self.registry@[i] == old_r[i],
                forall|i: int|
                    0 <= i < k ==> {
                        let p = old_r[i];
                        let q = #[trigger] self.registry@[i];
                        if timed_out(p, self_sid@, now, hb_timeout) {
                            &&& q.sid == p.sid
                            &&& q.last_seen == p.last_seen
                            &&& offline_info(p.info, q.info, "heartbeat_timeout"@)
                        } else {
                            q == p
                        }
                    },
                crate::text::views(left@) == timed_out_sids(old_r.take(k as int), self_sid@, now, hb_timeout),
                self.events@.len() == n0 + left@.len(),
                self.events@.take(n0 as int) == old(self).events@,
                forall|j: int|
                    0 <= j < left@.len() ==> is_left_event(
                        #[trigger] self.events@[n0 + j],
                        left@[j]@,
                        "heartbeat_timeout"@,
                        now,
                    ),
                self.event_seq == bump(old(self).event_seq, left@.len() as int),
                action == exists|j: int|
                    0 <= j < left@.len() && has_unfinished(ts, #[trigger] crate::text::views(left@)[j]),
            decreases old_r.len() - k,
        {
            proof {
                assert(old_r.take(k + 1).drop_last() =~= old_r.take(k as int));
            }
            let p = &self.registry[k];
            let online = match &p.info.status {
                Slot::Text(t) => str_eq(t.as_str(), "online"),
                _ => false,
            };
            let quiet = now >= p.last_seen && now - p.last_seen > hb_timeout;
            if !str_eq(p.sid.as_str(), self_sid) && online && quiet {
                let q = Peer {
                    sid: p.sid.clone(),
                    last_seen: p.last_seen,
                    info: PeerInfo {
                        status: Slot::text("offline"),
                        parent_id: p.info.parent_id.copy(),
                        role: p.info.role.copy(),
                        state: p.info.state.copy(),
                        offline_reason: Slot::text("heartbeat_timeout"),
                        joined_at: p.info.joined_at,
                        last_ctrl_ack: match &p.info.last_ctrl_ack {
                            Some(a) => Some(a.clone()),
                            None => None,
                        },
                        report: match &p.info.report {
                            Some(a) => Some(a.clone()),
                            None => None,
                        },
                    },
                };
                let gone_sid = p.sid.clone();
                let ev = Event {
                    kind: String::from_str("slave_left"),
                    session_id: p.sid.clone(),
                    state: String::new(),
                    info_state: String::new(),
                    ts: Some(now),
                    body: EventBody::Left { reason: String::from_str("heartbeat_timeout") },
                };
                proof {
                    lemma_left_class(ts, ev);
                }
                let unfinished = crate::tasks::slave_has_unfinished_tasks(&self.tasks, gone_sid.as_str());
                self.registry.set(k, q);
                let ghost ev_v = ev;
                let ghost before_ev = self.events@;
                self.push_event(ev, now);
                let ghost before_left = left@;
                left.push(gone_sid);
                proof {
                    assert(crate::text::views(left@) =~= crate::text::views(before_left).push(old_r[k as int].sid@));
                    assert(self.events@.take(n0 as int) =~= before_ev.take(n0 as int));
                    assert forall|j: int| 0 <= j < left@.len() implies is_left_event(
                        #[trigger] self.events@[n0 + j],
                        left@[j]@,
                        "heartbeat_timeout"@,
                        now,
                    ) by {
                        if j < before_left.len() {
                            assert(self.events@[n0 + j] == before_ev[n0 + j]);
                            assert(left@[j] == before_left[j]);
                        } else {
                            assert(self.events@[n0 + j] == self.events@.last());
                        }
                    }
                    if unfinished {
                        assert(crate::text::views(left@)[before_left.len() as int] == old_r[k as int].sid@);
                    }
                    if exists|j: int|
                        0 <= j < left@.len() && has_unfinished(ts, #[trigger] crate::text::views(left@)[j]) {
                        let j = choose|j: int|
                            0 <= j < left@.len() && has_unfinished(ts, #[trigger] crate::text::views(left@)[j]);
                        if j < before_left.len() {
                            assert(crate::text::views(before_left)[j] == crate::text::views(left@)[j]);
                        }
                    }
                    if action {
                        let j = choose|j: int|
                            0 <= j < before_left.len() && has_unfinished(ts, #[trigger] crate::text::views(before_left)[j]);
                        assert(crate::text::views(left@)[j] == crate::text::views(before_left)[j]);
                    }
                }
                action = action || unfinished;
            }
            k = k + 1;
        }
        proof {
            assert(old_r.take(old_r.len() as int) =~= old_r);
            assert forall|i: int, j: int|
                0 <= i < self.registry@.len() && 0 <= j < self.registry@.len() && i != j
                    implies self.registry@[i].sid@ != self.registry@[j].sid@ by {
                assert(self.registry@[i].sid == old_r[i].sid);
                assert(self.registry@[j].sid == old_r[j].sid);
                assert(old_r[i].sid@ != old_r[j].sid@);
            }
        }
        self.drop_watches_in(&left);
        self.expire_watches(now);
        let resends = self.expire_pending(now, rpc_timeout);
        let wake = left.len() > 0 && (!digest_mode || action);
        Swept { left, wake, resends }
    }
}

} // verus!
