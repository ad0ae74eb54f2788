//! MQTT topic layout of a mesh and the routing of inbound messages.
//!
//! Every topic starts with the mesh root: `registry/<sid>`, `hb/<sid>`,
//! `status/<sid>`, `conflict/<sid>`, `ctrl/<sid>`, `ctrl_ack/<sid>`,
//! `rpc/req/<sid>`, `rpc/resp/<sid>`, `watch/reg`, `watch/evt/<sid>`,
//! `master` and `zones`.
use vstd::prelude::*;
use crate::text::{join_slash, nonempty_parts, split_seq, str_eq, views};

verus! {

/// `root` followed by the non-empty `parts`, joined with `/`.
pub open spec fn topic_of(root: Seq<char>, parts: Seq<Seq<char>>) -> Seq<char> {
    join_slash(seq![root] + nonempty_parts(parts))
}

/// The topic under `root` made of `parts` (empty parts skipped).
pub fn topic(root: &str, parts: &Vec<String>) -> (r: String)
    ensures
        r@ == topic_of(root@, views(parts@)),
{
    let mut all: Vec<String> = Vec::new();
    all.push(String::from_str(root));
    let kept = crate::text::keep_nonempty(crate::tasks::copy_strings(parts));
    let ghost head = views(all@);
    let mut i: usize = 0;
    while i < kept.len()
        invariant
            head == seq![root@],
            i <= kept@.len(),
            views(all@) == head + views(kept@).take(i as int),
        decreases kept@.len() - i,
    {
        let ghost before = views(all@);
        all.push(kept[i].clone());
        proof {
            assert(views(all@) =~= before.push(kept@[i as int]@));
            assert(views(kept@).take(i + 1) =~= views(kept@).take(i as int).push(kept@[i as int]@));
        }
        i = i + 1;
    }
    proof {
        assert(views(kept@).take(kept@.len() as int) =~= views(kept@));
    }
    let r = crate::text::join_prefix(&all, all.len());
    proof {
        assert(views(all@).take(all@.len() as int) =~= views(all@));
    }
    r
}

/// What an inbound message is, by its topic.
#[derive(Debug)]
pub enum Inbound {
    /// `registry/<sid>`.
    Registry(String),
    /// `hb/<sid>`.
    Hb(String),
    /// `status/<sid>`.
    Status(String),
    /// `conflict/<sid>`.
    Conflict(String),
    /// `watch/reg`.
    WatchReg,
    /// `ctrl/<this node>`.
    Ctrl,
    /// `ctrl_ack/<sid>`, at the master.
    CtrlAck(String),
    /// `rpc/req/<this node>`.
    RpcRequest,
    /// `rpc/resp/<this node>`.
    RpcResponse,
    /// `watch/evt/<this node>`.
    WatchEvent,
    /// `master`.
    Master,
    /// `zones`.
    Zones,
    /// Anything else, or another mesh's topic.
    Ignored,
}

/// The handler a topic selects, without the sender it names.
#[derive(Debug, Clone, Copy, PartialEq, Eq, Structural)]
pub enum Route {
    Registry,
    Hb,
    Status,
    Conflict,
    WatchReg,
    Ctrl,
    CtrlAck,
    RpcRequest,
    RpcResponse,
    WatchEvent,
    Master,
    Zones,
    Ignored,
}

/// How a topic is routed. The first `/`-separated piece must equal the
/// root; the rest selects the handler.
pub open spec fn route_of(topic: Seq<char>, root: Seq<char>, self_sid: Seq<char>, is_master: bool) -> Route {
    let ps = split_seq(topic);
    let rel = ps.drop_first();
    if ps[0] != root {
        Route::Ignored
    } else if rel.len() == 2 {
        if rel[0] == "registry"@ {
            Route::Registry
        } else if rel[0] == "hb"@ {
            Route::Hb
        } else if rel[0] == "status"@ {
            Route::Status
        } else if rel[0] == "conflict"@ {
            Route::Conflict
        } else if rel[0] == "watch"@ && rel[1] == "reg"@ {
            Route::WatchReg
        } else if rel[0] == "ctrl"@ && rel[1] == self_sid {
            Route::Ctrl
        } else if rel[0] == "ctrl_ack"@ && is_master {
            Route::CtrlAck
        } else {
            Route::Ignored
        }
    } else if rel.len() == 3 {
        if rel[0] == "rpc"@ {
            if rel[1] == "req"@ && rel[2] == self_sid {
                Route::RpcRequest
            } else if rel[1] == "resp"@ && rel[2] == self_sid {
                Route::RpcResponse
            } else {
                Route::Ignored
            }
        } else if rel[0] == "watch"@ && rel[1] == "evt"@ && rel[2] == self_sid {
            Route::WatchEvent
        } else {
            Route::Ignored
        }
    } else if rel.len() == 1 {
        if rel[0] == "master"@ {
            Route::Master
        } else if rel[0] == "zones"@ {
            Route::Zones
        } else {
            Route::Ignored
        }
    } else {
        Route::Ignored
    }
}

/// The handler of an inbound message.
pub open spec fn route_kind(r: Inbound) -> Route {
    match r {
        Inbound::Registry(_) => Route::Registry,
        Inbound::Hb(_) => Route::Hb,
        Inbound::Status(_) => Route::Status,
        Inbound::Conflict(_) => Route::Conflict,
        Inbound::WatchReg => Route::WatchReg,
        Inbound::Ctrl => Route::Ctrl,
        Inbound::CtrlAck(_) => Route::CtrlAck,
        Inbound::RpcRequest => Route::RpcRequest,
        Inbound::RpcResponse => Route::RpcResponse,
        Inbound::WatchEvent => Route::WatchEvent,
        Inbound::Master => Route::Master,
        Inbound::Zones => Route::Zones,
        Inbound::Ignored => Route::Ignored,
    }
}

/// The session id an inbound route carries (the last piece of its topic).
pub open spec fn carried_sid(r: Inbound) -> Option<Seq<char>> {
    match r {
        Inbound::Registry(s) => Some(s@),
        Inbound::Hb(s) => Some(s@),
        Inbound::Status(s) => Some(s@),
        Inbound::Conflict(s) => Some(s@),
        Inbound::CtrlAck(s) => Some(s@),
        _ => None,
    }
}

/// Route an inbound message by its topic (see `route_of`); the routes that
/// name a sender carry the topic's last piece.
pub fn route_topic(topic: &str, root: &str, self_sid: &str, is_master: bool) -> (r: Inbound)
    ensures
        route_kind(r) == route_of(topic@, root@, self_sid@, is_master),
        carried_sid(r) matches Some(s) ==> s == split_seq(topic@).last(),
{
    let ps = crate::text::split_slash(topic);
    proof {
        crate::text::lemma_split_len(topic@);
    }
    let ghost pv = views(ps@);
    if !str_eq(ps[0].as_str(), root) {
        return Inbound::Ignored;
    }
    let n = ps.len();
    proof {
        assert(pv.drop_first().len() == n - 1);
        assert forall|i: int| 0 <= i < n - 1 implies #[trigger] pv.drop_first()[i] == ps@[i + 1]@ by {}
        assert(pv.last() == ps@[n - 1]@);
    }
    if n == 3 {
        let a = ps[1].as_str();
        let b = ps[2].as_str();
        if str_eq(a, "registry") {
            Inbound::Registry(ps[2].clone())
        } else if str_eq(a, "hb") {
            Inbound::Hb(ps[2].clone())
        } else if str_eq(a, "status") {
            Inbound::Status(ps[2].clone())
        } else if str_eq(a, "conflict") {
            Inbound::Conflict(ps[2].clone())
        } else if str_eq(a, "watch") && str_eq(b, "reg") {
            Inbound::WatchReg
        } else if str_eq(a, "ctrl") && str_eq(b, self_sid) {
            Inbound::Ctrl
        } else if str_eq(a, "ctrl_ack") && is_master {
            Inbound::CtrlAck(ps[2].clone())
        } else {
            Inbound::Ignored
        }
    } else if n == 4 {
        let a = ps[1].as_str();
        let b = ps[2].as_str();
        let c = ps[3].as_str();
        if str_eq(a, "rpc") {
            if str_eq(b, "req") && str_eq(c, self_sid) {
                Inbound::RpcRequest
            } else if str_eq(b, "resp") && str_eq(c, self_sid) {
                Inbound::RpcResponse
            } else {
                Inbound::Ignored
            }
        } else if str_eq(a, "watch") && str_eq(b, "evt") && str_eq(c, self_sid) {
            Inbound::WatchEvent
        } else {
            Inbound::Ignored
        }
    } else if n == 2 {
        let a = ps[1].as_str();
        if str_eq(a, "master") {
            Inbound::Master
        } else if str_eq(a, "zones") {
            Inbound::Zones
        } else {
            Inbound::Ignored
        }
    } else {
        Inbound::Ignored
    }
}

/// The topics a node subscribes to: everything under the root for the
/// master; for a slave, its control, request, response and watch-event
/// topics plus the master announcement and the zone snapshot.
pub open spec fn subscriptions_of(root: Seq<char>, sid: Seq<char>, is_master: bool) -> Seq<Seq<char>> {
    if is_master {
        seq![topic_of(root, seq!["#"@])]
    } else {
        seq![
            topic_of(root, seq!["ctrl"@, sid]),
            topic_of(root, seq!["rpc"@, "req"@, sid]),
            topic_of(root, seq!["rpc"@, "resp"@, sid]),
            topic_of(root, seq!["master"@]),
            topic_of(root, seq!["zones"@]),
            topic_of(root, seq!["watch"@, "evt"@, sid]),
        ]
    }
}

fn topic2(root: &str, a: &str, b: &str) -> (r: String)
    ensures
        r@ == topic_of(root@, seq![a@, b@]),
{
    let mut v: Vec<String> = Vec::new();
    v.push(String::from_str(a));
    v.push(String::from_str(b));
    proof {
        assert(views(v@) =~= seq![a@, b@]);
    }
    topic(root, &v)
}

fn topic3(root: &str, a: &str, b: &str, c: &str) -> (r: String)
    ensures
        r@ == topic_of(root@, seq![a@, b@, c@]),
{
    let mut v: Vec<String> = Vec::new();
    v.push(String::from_str(a));
    v.push(String::from_str(b));
    v.push(String::from_str(c));
    proof {
        assert(views(v@) =~= seq![a@, b@, c@]);
    }
    topic(root, &v)
}

fn topic1(root: &str, a: &str) -> (r: String)
    ensures
        r@ == topic_of(root@, seq![a@]),
{
    let mut v: Vec<String> = Vec::new();
    v.push(String::from_str(a));
    proof {
        assert(views(v@) =~= seq![a@]);
    }
    topic(root, &v)
}

/// The topics to subscribe to (see `subscriptions_of`).
pub fn subscriptions(root: &str, sid: &str, is_master: bool) -> (r: Vec<String>)
    ensures
        views(r@) == subscriptions_of(root@, sid@, is_master),
{
    let mut out: Vec<String> = Vec::new();
    if is_master {
        out.push(topic1(root, "#"));
    } else {
        out.push(topic2(root, "ctrl", sid));
        out.push(topic3(root, "rpc", "req", sid));
        out.push(topic3(root, "rpc", "resp", sid));
        out.push(topic1(root, "master"));
        out.push(topic1(root, "zones"));
        out.push(topic3(root, "watch", "evt", sid));
    }
    assert(views(out@) =~= subscriptions_of(root@, sid@, is_master));
    out
}

} // verus!
