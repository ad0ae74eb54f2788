use agent_mux::conflicts::{normalize_severity, Conflict, Intake};
use agent_mux::events::EventBody;
use agent_mux::inbox::{request_route, RequestRoute};
use agent_mux::registry::{Heartbeat, PeerInfo, Slot};
use agent_mux::rpc::{PendingStatus, RpcMeta};
use agent_mux::state::{RetryOutcome, RpcResult, State};
use agent_mux::tasks::{Task, TaskKind, TaskState};
use agent_mux::watch::{Watch, WatchFilter};
use agent_mux::zones::Zone;

fn strings(v: &[&str]) -> Vec<String> {
    v.iter().map(|s| s.to_string()).collect()
}

fn text(s: &str) -> Slot {
    Slot::Text(s.to_string())
}

fn info(status: Slot) -> PeerInfo {
    PeerInfo {
        status,
        parent_id: text("m"),
        role: text("slave"),
        state: Slot::Absent,
        offline_reason: Slot::Absent,
        joined_at: Some(5),
        last_ctrl_ack: None,
        report: None,
    }
}

fn beat(status: &str) -> Heartbeat {
    Heartbeat {
        status: text(status),
        ts: Some(7),
        reason: None,
        parent_id: text("p"),
        role: text("slave"),
        state: text("working"),
    }
}

fn watch(id: &str, watcher: &str, expires_at: u64) -> Watch {
    Watch {
        watch_id: id.to_string(),
        watcher_sid: watcher.to_string(),
        kind: "zone_released".to_string(),
        filter: WatchFilter { path: None, path_prefix: None },
        ttl: 0,
        created_at: 0,
        expires_at,
    }
}

fn status_of(s: &State, sid: &str) -> String {
    match &s.registry.iter().find(|p| p.sid == sid).unwrap().info.status {
        Slot::Text(t) => t.clone(),
        _ => String::new(),
    }
}

#[test]
fn registry_join_and_unregister() {
    let mut s = State::new(None);
    // the master ignores its own entry, and slaves ignore registry traffic
    assert!(!s.on_registry("m", true, "m".to_string(), Some(info(Slot::Absent)), 1, true));
    assert!(!s.on_registry("x", false, "a".to_string(), Some(info(Slot::Absent)), 1, true));
    assert!(s.registry.is_empty());
    // a new online peer joins (noise: wakes only outside digest mode)
    assert!(!s.on_registry("m", true, "a".to_string(), Some(info(Slot::Absent)), 10, true));
    assert_eq!(status_of(&s, "a"), "online");
    assert_eq!(s.events.len(), 1);
    assert_eq!(s.events[0].kind, "slave_joined");
    assert!(s.on_registry("m", true, "b".to_string(), Some(info(Slot::Absent)), 11, false));
    // a repeated announcement joins nobody
    assert!(!s.on_registry("m", true, "a".to_string(), Some(info(Slot::Absent)), 12, false));
    assert_eq!(s.events.len(), 2);
    // a cleared entry marks the peer offline and drops its watches
    s.watches.push(watch("w1", "a", 0));
    s.watches.push(watch("w2", "b", 0));
    assert!(!s.on_registry("m", true, "a".to_string(), None, 20, false));
    assert_eq!(status_of(&s, "a"), "offline");
    assert_eq!(s.watches.len(), 1);
    assert_eq!(s.watches[0].watch_id, "w2");
}

#[test]
fn heartbeats_and_sweep() {
    let mut s = State::new(None);
    let b = s.on_hb("m", true, "a".to_string(), Some(beat("online")), 100, true);
    assert!(!b.wake && !b.left);
    assert_eq!(status_of(&s, "a"), "online");
    assert_eq!(s.events.last().unwrap().kind, "slave_joined");
    // an online peer beating again joins nobody
    let n = s.events.len();
    s.on_hb("m", true, "a".to_string(), Some(beat("online")), 200, true);
    assert_eq!(s.events.len(), n);
    // a task keeps the peer busy: its departure is actionable
    s.tasks.push(Task {
        id: "t".to_string(),
        kind: TaskKind::Src,
        target_crates: strings(&["c"]),
        files: strings(&["src/a.rs"]),
        owner: "a".to_string(),
        state: TaskState::Working,
        depends_on: Vec::new(),
        created_at: 0,
        updated_at: 0,
    });
    s.on_hb("m", true, "b".to_string(), Some(beat("online")), 200, true);
    // within the timeout nobody leaves
    let swept = s.sweep("m", 1_000, 15_000, 5_000, true);
    assert!(swept.left.is_empty() && !swept.wake);
    // after it, both leave; a owns an unfinished task, so the agent wakes
    let swept = s.sweep("m", 16_000, 15_000, 5_000, true);
    assert_eq!(swept.left, strings(&["a", "b"]));
    assert!(swept.wake);
    assert_eq!(status_of(&s, "a"), "offline");
    let kinds: Vec<&str> = s.events.iter().rev().take(2).map(|e| e.kind.as_str()).collect();
    assert_eq!(kinds, vec!["slave_left", "slave_left"]);
    // an offline flag from b is immediate
    let b = s.on_hb("m", true, "b".to_string(), Some(beat("offline")), 20_000, true);
    assert!(b.left);
    assert!(!b.wake);
    match &s.events.last().unwrap().body {
        EventBody::Left { reason } => assert_eq!(reason, "hb_offline"),
        other => panic!("{other:?}"),
    }
    assert_eq!(s.registry.iter().find(|p| p.sid == "b").unwrap().last_seen, 7);
}

#[test]
fn sweep_expires_watches_and_rearms_rpcs() {
    let mut s = State::new(None);
    s.watches.push(watch("w-live", "x", 0));
    s.watches.push(watch("w-old", "x", 50));
    s.watches.push(watch("w-new", "x", 500));
    s.add_pending("r1".to_string(), "t".to_string(), "m".to_string(), "null".to_string(), 0, 10);
    let swept = s.sweep("m", 100, 15_000, 40, true);
    let ids: Vec<&str> = s.watches.iter().map(|w| w.watch_id.as_str()).collect();
    assert_eq!(ids, vec!["w-live", "w-new"]);
    assert_eq!(swept.resends.len(), 1);
    assert_eq!(swept.resends[0].request_id, "r1");
    assert_eq!(s.pending[0].attempts, 2);
    assert_eq!(s.pending[0].expires_at, 180);
    // the same instant again re-publishes nothing
    let again = s.sweep("m", 100, 15_000, 40, true);
    assert!(again.resends.is_empty());
}

#[test]
fn rpc_lifecycle() {
    let mut s = State::new(None);
    let rid = s.send_rpc("t".to_string(), "ping".to_string(), "null".to_string(), None, 60_000, 1_000);
    assert_eq!(rid.len(), 32);
    assert!(rid.chars().all(|c| c.is_ascii_hexdigit() && !c.is_ascii_uppercase()));
    assert!(matches!(s.result_of(&rid), RpcResult::Waiting { attempts: 1, expires_at: 61_000 }));
    assert!(matches!(s.result_of("nope"), RpcResult::Unknown));
    match s.retry(&rid, 2_000, 60_000) {
        RetryOutcome::Retried { attempts, method, .. } => {
            assert_eq!(attempts, 2);
            assert_eq!(method, "ping");
        }
        other => panic!("{other:?}"),
    }
    assert!(s.on_rpc_response(&rid, true, "{\"pong\":true}".to_string(), String::new()));
    match s.result_of(&rid) {
        RpcResult::Finished { status, result, .. } => {
            assert_eq!(status, PendingStatus::Done);
            assert_eq!(result, "{\"pong\":true}");
        }
        other => panic!("{other:?}"),
    }
    assert!(matches!(s.retry(&rid, 3_000, 60_000), RetryOutcome::Finished(PendingStatus::Done)));
    let rid2 = s.send_rpc("t".to_string(), "x".to_string(), "null".to_string(), Some(5), 60_000, 1_000);
    assert_ne!(rid, rid2);
    assert!(s.cancel_pending(&rid2));
    assert!(matches!(s.retry(&rid2, 3_000, 60_000), RetryOutcome::Finished(PendingStatus::Cancelled)));
    assert!(!s.cancel_pending("nope"));
}

#[test]
fn requests_are_routed_and_answered_once() {
    assert_eq!(request_route(false, "ping"), RequestRoute::Ping);
    assert_eq!(request_route(true, "zone_request"), RequestRoute::Zone);
    assert_eq!(request_route(false, "zone_request"), RequestRoute::Queue);
    assert_eq!(request_route(true, "may_i_touch"), RequestRoute::MayITouch);
    assert_eq!(request_route(true, "build"), RequestRoute::Queue);
    let mut s = State::new(None);
    assert!(s.queue_request("q1".to_string(), "build".to_string(), Some("a".to_string()), Some("root/rpc/resp/a".to_string()), 5, true));
    assert_eq!(s.events.last().unwrap().kind, "rpc_request");
    let meta: RpcMeta = s.take_request("q1").unwrap();
    assert_eq!(meta.reply_to.as_deref(), Some("root/rpc/resp/a"));
    assert_eq!(meta.from.as_deref(), Some("a"));
    assert!(s.take_request("q1").is_none());
}

#[test]
fn ctrl_acks_and_master_announcements() {
    let mut s = State::new(None);
    assert!(!s.on_ctrl_ack("a", None, "{\"ok\":true}".to_string(), 3, true));
    assert!(s.on_ctrl_ack("a", Some("b".to_string()), "{}".to_string(), 4, false));
    assert_eq!(s.registry.len(), 2);
    assert_eq!(s.events[1].session_id, "b");
    assert_eq!(s.ctrl_ack_target(Some("z")), Some("z".to_string()));
    s.on_master_announce("me", Some("me"));
    assert!(s.master_sid.is_none());
    s.on_master_announce("me", Some("m1"));
    assert_eq!(s.master_sid.as_deref(), Some("m1"));
    assert_eq!(s.ctrl_ack_target(Some("z")), Some("m1".to_string()));
    let taken = s.take_events();
    assert_eq!(taken.len(), 2);
    assert!(s.events.is_empty());
}

#[test]
fn zone_snapshots() {
    let mut master = State::new(None);
    master.zones.push(Zone { path: "/z".to_string(), owner: "a".to_string(), queued: strings(&["b"]) });
    master.on_zone_snapshot(
        true,
        vec![
            ("/z".to_string(), strings(&["b", "c", "c"])),
            ("/unknown".to_string(), strings(&["d"])),
        ],
        Vec::new(),
    );
    assert_eq!(master.zones.len(), 1);
    assert_eq!(master.zones[0].owner, "a");
    assert_eq!(master.zones[0].queued, strings(&["b", "c"]));
    let mut slave = State::new(Some("m".to_string()));
    slave.on_zone_snapshot(
        false,
        Vec::new(),
        vec![
            Zone { path: "/a".to_string(), owner: "x".to_string(), queued: Vec::new() },
            Zone { path: "/a".to_string(), owner: "y".to_string(), queued: Vec::new() },
        ],
    );
    assert_eq!(slave.zones.len(), 1);
    assert_eq!(slave.zones[0].owner, "y");
}

fn report(id: &str, ts: u64) -> Conflict {
    Conflict {
        id: id.to_string(),
        files: strings(&["src/a.rs"]),
        zone: String::new(),
        severity: Some("high".to_string()),
        ts,
        json: "{}".to_string(),
    }
}

#[test]
fn conflict_history() {
    assert_eq!(normalize_severity("critical"), "critical");
    assert_eq!(normalize_severity("urgent"), "medium");
    let mut s = State::new(None);
    let mine = s.report_conflict(strings(&["x.rs"]), Some("zone-a".to_string()), "bogus", "{}".to_string(), 50);
    assert_eq!(mine.id.len(), 32);
    assert_eq!(mine.severity.as_deref(), Some("medium"));
    assert_eq!(mine.zone, "zone-a");
    // slaves ignore reports; empty reports are ignored
    assert!(matches!(s.on_conflict(false, "a".to_string(), report("c1", 10), true, true, 60), Intake::Ignored));
    assert!(matches!(s.on_conflict(true, "a".to_string(), report("", 10), true, false, 60), Intake::Ignored));
    match s.on_conflict(true, "a".to_string(), report("c1", 10), true, true, 60) {
        Intake::Recorded { id, wake } => {
            assert_eq!(id, "c1");
            assert!(wake);
        }
        other => panic!("{other:?}"),
    }
    match s.on_conflict(true, "a".to_string(), report("", 0), false, true, 70) {
        Intake::Recorded { id, .. } => assert_eq!(id.len(), 32),
        other => panic!("{other:?}"),
    }
    // re-reporting an id replaces it
    s.on_conflict(true, "a".to_string(), report("c1", 30), true, true, 80);
    assert_eq!(s.conflicts.len(), 3);
    let (list, total) = s.list_conflicts(50);
    assert_eq!(total, 3);
    let ts: Vec<u64> = list.iter().map(|c| c.ts).collect();
    assert_eq!(ts, vec![70, 50, 30]);
    let (one, _) = s.list_conflicts(-5);
    assert_eq!(one.len(), 1);
    assert_eq!(one[0].ts, 70);
    let empty = State::new(None);
    assert_eq!(empty.list_conflicts(0).0.len(), 0);
}

#[test]
fn restore_keeps_one_entry_per_key() {
    let a = report("c1", 1);
    let b = report("c1", 2);
    let s = State::restore(
        Some("m".to_string()),
        Vec::new(),
        vec![Zone { path: "/z".to_string(), owner: "x".to_string(), queued: Vec::new() }],
        vec![a, b],
        Vec::new(),
        Vec::new(),
        42,
        7,
    );
    assert_eq!(s.conflicts.len(), 1);
    assert_eq!(s.conflicts[0].ts, 2);
    assert_eq!(s.zones.len(), 1);
    assert_eq!(s.last_digest_ts, 42);
    assert_eq!(s.event_seq, 7);
    assert_eq!(s.master_sid.as_deref(), Some("m"));
}

#[test]
fn failed_answer_is_reported_with_its_error() {
    let mut s = State::new(None);
    let rid = s.send_rpc("t".to_string(), "build".to_string(), "null".to_string(), None, 60_000, 1_000);
    assert!(s.on_rpc_response(&rid, false, String::new(), "\"boom\"".to_string()));
    match s.result_of(&rid) {
        RpcResult::Finished { status, error, attempts, .. } => {
            assert_eq!(status, PendingStatus::Failed);
            assert_eq!(error, "\"boom\"");
            assert_eq!(attempts, 1);
        }
        other => panic!("{other:?}"),
    }
    assert!(!s.on_rpc_response("unknown", true, String::new(), String::new()));
}

#[test]
fn a_reused_request_id_keeps_only_the_newest_route() {
    let mut s = State::new(None);
    assert!(s.queue_request("q1".to_string(), "build".to_string(), Some("a".to_string()), Some("root/rpc/resp/a".to_string()), 5, true));
    assert!(s.queue_request("q1".to_string(), "build".to_string(), Some("b".to_string()), Some("root/rpc/resp/b".to_string()), 6, true));
    let meta: RpcMeta = s.take_request("q1").unwrap();
    assert_eq!(meta.reply_to.as_deref(), Some("root/rpc/resp/b"));
    assert_eq!(meta.from.as_deref(), Some("b"));
    assert!(s.take_request("q1").is_none());
}
