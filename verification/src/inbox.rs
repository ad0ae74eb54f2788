//! What the node does with inbound mesh messages besides the registry,
//! status, zone and approval logic: routing RPC requests, queueing them for
//! the agent, control acknowledgements, the master announcement and the
//! zone snapshot on the bus.
use vstd::prelude::*;
use crate::events::{class_of, Event, EventBody, EventClass};
use crate::registry::{has_peer, peer_index, peer_set, prior_info, slot_of, PeerInfo, Slot};
use crate::rpc::RpcMeta;
use crate::state::{bump, State};
use crate::tasks::tview;
use crate::text::str_eq;
use crate::zones::{adopt_zones, bus_view, merge_bus, merge_queued, put_all, zview, Zone};

verus! {

/// How an inbound RPC request is handled.
#[derive(Debug, Clone, Copy, PartialEq, Eq, Structural)]
pub enum RequestRoute {
    /// `ping`: answered at once with a pong.
    Ping,
    /// `zone_request` at the master: decided against the zone registry.
    Zone,
    /// `may_i_touch` at the master: the five-level impact check.
    MayITouch,
    /// Anything else: queued for the agent, answered with `rpc_reply`.
    Queue,
}

pub open spec fn request_route_of(is_master: bool, method: Seq<char>) -> RequestRoute {
    if method == "ping"@ {
        RequestRoute::Ping
    } else if is_master && method == "zone_request"@ {
        RequestRoute::Zone
    } else if is_master && method == "may_i_touch"@ {
        RequestRoute::MayITouch
    } else {
        RequestRoute::Queue
    }
}

/// Route an inbound RPC request by its method. Zone and impact requests are
/// mechanical decisions of the master node, never queued for its agent.
pub fn request_route(is_master: bool, method: &str) -> (r: RequestRoute)
    ensures
        r == request_route_of(is_master, method@),
{
    if str_eq(method, "ping") {
        RequestRoute::Ping
    } else if is_master && str_eq(method, "zone_request") {
        RequestRoute::Zone
    } else if is_master && str_eq(method, "may_i_touch") {
        RequestRoute::MayITouch
    } else {
        RequestRoute::Queue
    }
}

impl State {
    /// Queue an RPC request for the agent: remember how to answer it (reply
    /// topic and sender) and queue an `rpc_request` event. Such an event is
    /// always actionable, so the agent is always woken.
    pub fn queue_request(
        &mut self,
        request_id: String,
        method: String,
        from: Option<String>,
        reply_to: Option<String>,
        now: u64,
        digest_mode: bool,
    ) -> (r: bool)
        requires
            old(self).wf(),
        ensures
            final(self).wf(),
            r,
            final(self).tasks == old(self).tasks,
            final(self).zones == old(self).zones,
            final(self).conflicts == old(self).conflicts,
            final(self).escalations == old(self).escalations,
            final(self).approvals == old(self).approvals,
            final(self).watches == old(self).watches,
            final(self).pending == old(self).pending,
            final(self).registry == old(self).registry,
            final(self).last_digest_ts == old(self).last_digest_ts,
            final(self).master_sid == old(self).master_sid,
            exists|k: int|
                0 <= k < final(self).rpc_meta@.len() && final(self).rpc_meta@[k].0@ == request_id@
                    && final(self).rpc_meta@[k].1 == (RpcMeta { reply_to, from }),
            forall|k: int|
                0 <= k < final(self).rpc_meta@.len() && (#[trigger] final(self).rpc_meta@[k]).0@
                    == request_id@ ==> final(self).rpc_meta@[k].1 == (RpcMeta { reply_to, from }),
            forall|k: int|
                0 <= k < final(self).rpc_meta@.len() ==> (#[trigger] final(self).rpc_meta@[k]).0@
                    == request_id@ || old(self).rpc_meta@.contains(final(self).rpc_meta@[k]),
            forall|k: int|
                0 <= k < old(self).rpc_meta@.len() && (#[trigger] old(self).rpc_meta@[k]).0@
                    != request_id@ ==> final(self).rpc_meta@.contains(old(self).rpc_meta@[k]),
            final(self).events@.len() == old(self).events@.len() + 1,
            final(self).events@.drop_last() == old(self).events@,
            final(self).events@.last().kind@ == "rpc_request"@,
            final(self).events@.last().session_id@.len() == 0,
            final(self).events@.last().ts == Some(now),
            final(self).events@.last().body matches EventBody::Request { request_id: q, method: m, from: f }
                && q@ == request_id@ && m@ == method@ && f == from,
            final(self).event_seq == bump(old(self).event_seq, 1),
    {
        let meta = RpcMeta {
            reply_to,
            from: match &from {
                Some(f) => Some(f.clone()),
                None => None,
            },
        };
        let ghost m = meta;
        self.remember_request(request_id.clone(), meta);
        let ev = Event {
            kind: String::from_str("rpc_request"),
            session_id: String::new(),
            state: String::new(),
            info_state: String::new(),
            ts: Some(now),
            body: EventBody::Request { request_id, method, from },
        };
        let w = self.wake_for(&ev, digest_mode);
        self.push_event(ev, now);
        w
    }

    /// A control acknowledgement at the master from the peer `from` (else the
    /// topic's `sid`): kept on the peer's registry entry (created when
    /// unknown) and queued as a `ctrl_ack` event — an echo, which wakes the
    /// agent only outside digest mode.
    pub fn on_ctrl_ack(&mut self, sid: &str, from: Option<String>, ack: String, now: u64, digest_mode: bool) -> (r: bool)
        requires
            old(self).wf(),
        ensures
            final(self).wf(),
            final(self).same_but_peers(*old(self)),
            final(self).watches == old(self).watches,
            ({
                let who = match from {
                    Some(f) => f@,
                    None => sid@,
                };
                let old_r = old(self).registry@;
                let q = final(self).registry@[slot_of(old_r, who)];
                let prior = prior_info(old_r, who);
                &&& peer_set(
                    old_r,
                    final(self).registry@,
                    who,
                    if has_peer(old_r, who) {
                        old_r[peer_index(old_r, who)].last_seen
                    } else {
                        0
                    },
                    q.info,
                )
                &&& q.info.status == prior.status
                &&& q.info.parent_id == prior.parent_id
                &&& q.info.role == prior.role
                &&& q.info.state == prior.state
                &&& q.info.offline_reason == prior.offline_reason
                &&& q.info.joined_at == prior.joined_at
                &&& q.info.last_ctrl_ack matches Some(a) && a@ == ack@
                &&& q.info.report == prior.report
                &&& final(self).events@.len() == old(self).events@.len() + 1
                &&& final(self).events@.drop_last() == old(self).events@
                &&& final(self).events@.last().kind@ == "ctrl_ack"@
                &&& final(self).events@.last().session_id@ == who
                &&& final(self).events@.last().ts == Some(now)
                &&& final(self).events@.last().body matches EventBody::Wire(w) && w@ == ack@
                &&& final(self).event_seq == bump(old(self).event_seq, 1)
            }),
            r == !digest_mode,
    {
        let who = match from {
            Some(f) => f,
            None => String::from_str(sid),
        };
        let (seen, prior) = match self.find_peer(who.as_str()) {
            Some(k) => (self.registry[k].last_seen, self.registry[k].info.copy()),
            None => (0, PeerInfo::blank()),
        };
        let info = PeerInfo {
            status: prior.status,
            parent_id: prior.parent_id,
            role: prior.role,
            state: prior.state,
            offline_reason: prior.offline_reason,
            joined_at: prior.joined_at,
            last_ctrl_ack: Some(ack.clone()),
            report: prior.report,
        };
        let ev = Event {
            kind: String::from_str("ctrl_ack"),
            session_id: who.clone(),
            state: String::new(),
            info_state: String::new(),
            ts: Some(now),
            body: EventBody::Wire(ack),
        };
        self.set_peer(who, seen, info);
        proof {
            lemma_ack_noise(tview(self.tasks@), ev);
        }
        let w = self.wake_for(&ev, digest_mode);
        self.push_event(ev, now);
        w
    }

    /// The master's retained announcement: another node's session id becomes
    /// the known master.
    pub fn on_master_announce(&mut self, self_sid: &str, sid: Option<&str>)
        ensures
            match sid {
                Some(s) => if s@ != self_sid@ {
                    final(self).master_sid matches Some(m) && m@ == s@
                } else {
                    final(self).master_sid == old(self).master_sid
                },
                None => final(self).master_sid == old(self).master_sid,
            },
            final(self).tasks == old(self).tasks,
            final(self).zones == old(self).zones,
            final(self).events == old(self).events,
            final(self).event_seq == old(self).event_seq,
            final(self).registry == old(self).registry,
            final(self).watches == old(self).watches,
            final(self).pending == old(self).pending,
            final(self).approvals == old(self).approvals,
            final(self).escalations == old(self).escalations,
            final(self).conflicts == old(self).conflicts,
            final(self).rpc_meta == old(self).rpc_meta,
            final(self).last_digest_ts == old(self).last_digest_ts,
    {
        if let Some(s) = sid {
            if !str_eq(s, self_sid) {
                self.master_sid = Some(String::from_str(s));
            }
        }
    }

    /// Where a slave acknowledges a control message: the known master, else
    /// the message's sender.
    pub fn ctrl_ack_target(&self, from: Option<&str>) -> (r: Option<String>)
        ensures
            match self.master_sid {
                Some(m) => r matches Some(x) && x@ == m@,
                None => match from {
                    Some(f) => r matches Some(x) && x@ == f@,
                    None => r is None,
                },
            },
    {
        match &self.master_sid {
            Some(m) => Some(m.clone()),
            None => match from {
                Some(f) => Some(String::from_str(f)),
                None => None,
            },
        }
    }

    /// A zone snapshot seen on the bus. The master is authoritative and never
    /// adopts owners from the bus (a stale retained echo must not block a
    /// fresh acquire); it only merges queued waiters into zones it already
    /// manages. A slave adopts the snapshot as its view of the registry.
    pub fn on_zone_snapshot(&mut self, is_master: bool, bus: Vec<(String, Vec<String>)>, snapshot: Vec<Zone>)
        requires
            old(self).wf(),
        ensures
            final(self).wf(),
            final(self).same_but_zones(*old(self)),
            final(self).watches == old(self).watches,
            is_master ==> zview(final(self).zones@) == merge_bus(zview(old(self).zones@), bus_view(bus@)),
            !is_master ==> zview(final(self).zones@) == put_all(Seq::empty(), zview(snapshot@)),
    {
        if is_master {
            merge_queued(&mut self.zones, &bus);
        } else {
            self.zones = adopt_zones(snapshot);
        }
    }

    /// Take every queued event, oldest first (`wait_events`).
    pub fn take_events(&mut self) -> (r: Vec<Event>)
        ensures
            r@ == old(self).events@,
            final(self).events@.len() == 0,
            final(self).tasks == old(self).tasks,
            final(self).same_but_tasks(*old(self)),
            final(self).event_seq == old(self).event_seq,
    {
        let mut out: Vec<Event> = Vec::new();
        std::mem::swap(&mut out, &mut self.events);
        out
    }

    /// A status report from `sid` at the master refreshes the peer's entry
    /// (created when unknown): seen `now`; state, parent and role replaced by
    /// the report's when it names them; the rest of the report kept for
    /// display. The node's own reports and a slave's are ignored.
    pub fn note_status(
        &mut self,
        self_sid: &str,
        is_master: bool,
        sid: String,
        state: Slot,
        parent_id: Slot,
        role: Slot,
        report: String,
        now: u64,
    )
        requires
            old(self).wf(),
        ensures
            final(self).wf(),
            final(self).same_but_peers(*old(self)),
            final(self).watches == old(self).watches,
            final(self).events == old(self).events,
            final(self).event_seq == old(self).event_seq,
            sid@ == self_sid@ || !is_master ==> *final(self) == *old(self),
            sid@ != self_sid@ && is_master ==> ({
                let old_r = old(self).registry@;
                let q = final(self).registry@[slot_of(old_r, sid@)];
                let prior = prior_info(old_r, sid@);
                &&& peer_set(old_r, final(self).registry@, sid@, now, q.info)
                &&& q.info.status == prior.status
                &&& q.info.state == (if state is Absent {
                    prior.state
                } else {
                    state
                })
                &&& q.info.parent_id == (if parent_id is Absent {
                    prior.parent_id
                } else {
                    parent_id
                })
                &&& q.info.role == (if role is Absent {
                    prior.role
                } else {
                    role
                })
                &&& q.info.offline_reason == prior.offline_reason
                &&& q.info.joined_at == prior.joined_at
                &&& q.info.last_ctrl_ack == prior.last_ctrl_ack
                &&& q.info.report matches Some(x) && x@ == report@
            }),
    {
        if str_eq(sid.as_str(), self_sid) || !is_master {
            return;
        }
        let prior = match self.find_peer(sid.as_str()) {
            Some(k) => self.registry[k].info.copy(),
            None => PeerInfo::blank(),
        };
        let info = PeerInfo {
            status: prior.status,
            parent_id: match parent_id {
                Slot::Absent => prior.parent_id,
                other => other,
            },
            role: match role {
                Slot::Absent => prior.role,
                other => other,
            },
            state: match state {
                Slot::Absent => prior.state,
                other => other,
            },
            offline_reason: prior.offline_reason,
            joined_at: prior.joined_at,
            last_ctrl_ack: prior.last_ctrl_ack,
            report: Some(report),
        };
        self.set_peer(sid, now, info);
    }
}

proof fn lemma_ack_noise(tasks: Seq<crate::tasks::TaskView>, e: Event)
    requires
        e.kind@ == "ctrl_ack"@,
    ensures
        class_of(tasks, e) == EventClass::Noise,
{
    reveal_strlit("ctrl_ack");
    reveal_strlit("blocked");
    reveal_strlit("error");
    reveal_strlit("conflict_reported");
    reveal_strlit("conflict");
    reveal_strlit("rpc_request");
    reveal_strlit("approval_escalation");
    reveal_strlit("done");
    reveal_strlit("task");
    reveal_strlit("slave_left");
    reveal_strlit("status");
    assert(e.kind@.len() == 8);
    assert(e.kind@[1] != "conflict"@[1]);
    assert(e.kind@ != "blocked"@);
    assert(e.kind@ != "error"@);
    assert(e.kind@ != "conflict_reported"@);
    assert(e.kind@ != "conflict"@);
    assert(e.kind@ != "rpc_request"@);
    assert(e.kind@ != "approval_escalation"@);
    assert(e.kind@ != "done"@);
    assert(e.kind@ != "task"@);
    assert(e.kind@ != "slave_left"@);
    assert(e.kind@ != "status"@);
}

} // verus!
