use agent_mux::approval::{check_may_i_touch, Approval, Decision, Escalation, MayIResult};
use agent_mux::conflicts::Conflict;
use agent_mux::events::{action_rank, classify_event, noise_kind, wake_needed, Event, EventBody, EventClass, NoiseKind};
use agent_mux::paths::is_global_shared_path;
use agent_mux::state::{DecideOutcome, MayIAnswer, State, TaskCancel, TaskForce};
use agent_mux::tasks::{compute_depends_on, Task, TaskKind, TaskState};
use agent_mux::zones::{Acquire, ReleaseOutcome, Zone};

fn strings(v: &[&str]) -> Vec<String> {
    v.iter().map(|s| s.to_string()).collect()
}

fn task(id: &str, kind: TaskKind, crates: &[&str], files: &[&str], owner: &str, st: TaskState, deps: &[&str]) -> Task {
    Task {
        id: id.to_string(),
        kind,
        target_crates: strings(crates),
        files: strings(files),
        owner: owner.to_string(),
        state: st,
        depends_on: strings(deps),
        created_at: 0,
        updated_at: 0,
    }
}

fn event(kind: &str, session_id: &str, state: &str, info_state: &str, ts: Option<u64>) -> Event {
    Event {
        kind: kind.to_string(),
        session_id: session_id.to_string(),
        state: state.to_string(),
        info_state: info_state.to_string(),
        ts,
        body: EventBody::Wire("{}".to_string()),
    }
}

fn kind_of(ev: &Event) -> &str {
    ev.kind.as_str()
}

fn state_of(s: &State, id: &str) -> TaskState {
    s.tasks.iter().find(|t| t.id == id).map(|t| t.state).unwrap()
}

fn set_state(s: &mut State, id: &str, st: TaskState) {
    for t in s.tasks.iter_mut() {
        if t.id == id {
            t.state = st;
        }
    }
}

#[test]
fn classifier_noise_vs_action() {
    let tasks: Vec<Task> = Vec::new();
    assert_eq!(classify_event(&tasks, &event("ctrl_ack", "", "", "", None)), EventClass::Noise);
    assert_eq!(noise_kind(&event("ctrl_ack", "", "", "", None)), Some(NoiseKind::Ack));
    for st in ["working", "ready"] {
        assert_eq!(
            classify_event(&tasks, &event("status", "", "", st, None)),
            EventClass::Noise,
            "status {st}"
        );
    }
    assert_eq!(noise_kind(&event("status", "", "", "", None)), Some(NoiseKind::Tick));
    assert_eq!(classify_event(&tasks, &event("task", "", "Ready", "", None)), EventClass::Noise);
    assert_eq!(noise_kind(&event("task", "", "", "", None)), Some(NoiseKind::Tick));
    assert_eq!(classify_event(&tasks, &event("task", "", "Done", "", None)), EventClass::Action);
    assert_eq!(classify_event(&tasks, &event("task", "", "Failed", "", None)), EventClass::Action);
    assert_eq!(classify_event(&tasks, &event("slave_joined", "", "", "", None)), EventClass::Noise);
    for kind in ["blocked", "conflict_reported", "conflict", "rpc_request", "approval_escalation", "done"] {
        assert_eq!(classify_event(&tasks, &event(kind, "", "", "", None)), EventClass::Action, "{kind}");
    }
    for st in ["blocked", "done", "error", "failed", "conflict"] {
        assert_eq!(
            classify_event(&tasks, &event("status", "", "", st, None)),
            EventClass::Action,
            "status {st}"
        );
    }
}

#[test]
fn slave_left_action_only_with_unfinished_tasks() {
    let mut tasks = vec![task("t1", TaskKind::Src, &["crate-x"], &["src/a.rs"], "worker", TaskState::Working, &[])];
    assert_eq!(classify_event(&tasks, &event("slave_left", "worker", "", "", None)), EventClass::Action);
    assert_eq!(classify_event(&tasks, &event("slave_left", "idle", "", "", None)), EventClass::Noise);
    tasks[0].state = TaskState::Done;
    assert_eq!(classify_event(&tasks, &event("slave_left", "worker", "", "", None)), EventClass::Noise);
}

#[test]
fn wake_policy_drops_empty_noise_wakes_in_digest_mode() {
    assert!(!wake_needed(true, EventClass::Noise));
    assert!(wake_needed(true, EventClass::Action));
    assert!(wake_needed(false, EventClass::Noise));
    assert!(wake_needed(false, EventClass::Action));
}

#[test]
fn digest_counts_noise_and_returns_decision_first_actions() {
    let mut s = State::new(None);
    s.push_event(event("ctrl_ack", "a", "", "", Some(1000)), 9000);
    s.push_event(event("status", "a", "", "working", Some(2000)), 9000);
    s.push_event(event("done", "a", "", "", Some(3000)), 9000);
    s.push_event(event("blocked", "a", "", "", Some(4000)), 9000);
    let (actions, ack, tick, since) = s.digest(None, 10_000);
    assert_eq!(ack, 1);
    assert_eq!(tick, 1);
    assert_eq!(actions.len(), 2);
    assert_eq!(kind_of(&actions[0]), "blocked", "decision-worthy first");
    assert_eq!(kind_of(&actions[1]), "done", "informational last");
    assert!(since > 0);

    let (actions2, ack2, tick2, _) = s.digest(Some(since), 11_000);
    assert_eq!(actions2.len(), 0);
    assert_eq!(ack2, 0);
    assert_eq!(tick2, 0);

    let (actions3, ack3, tick3) = s.pull_events();
    assert_eq!(actions3.len(), 0);
    assert_eq!(ack3, 0);
    assert_eq!(tick3, 0);
}

#[test]
fn validate_waits_for_all_src_tasks() {
    let mut s = State::new(None);
    s.tasks.push(task("s1", TaskKind::Src, &["crate-x"], &["src/a.rs"], "A", TaskState::Scheduled, &[]));
    s.tasks.push(task("s2", TaskKind::Src, &["crate-x"], &["src/b.rs"], "B", TaskState::Scheduled, &[]));
    let deps = compute_depends_on(&s.tasks, TaskKind::Validate, &strings(&["crate-x"]));
    assert_eq!(deps, vec!["s1".to_string(), "s2".to_string()]);
    let refs: Vec<&str> = deps.iter().map(|d| d.as_str()).collect();
    s.tasks.push(task("v1", TaskKind::Validate, &["crate-x"], &["tests/x.rs"], "C", TaskState::Scheduled, &refs));

    let releases = s.recompute_tasks(1);
    assert!(releases.is_empty());
    assert_eq!(state_of(&s, "s1"), TaskState::Ready);
    assert_eq!(state_of(&s, "s2"), TaskState::Ready);
    assert_eq!(state_of(&s, "v1"), TaskState::Scheduled, "validate must not start before deps are Done");

    set_state(&mut s, "s1", TaskState::Done);
    let releases = s.recompute_tasks(2);
    assert!(releases.is_empty());
    assert_eq!(state_of(&s, "v1"), TaskState::Scheduled);

    set_state(&mut s, "s2", TaskState::Done);
    let releases = s.recompute_tasks(3);
    assert_eq!(releases.len(), 1, "auto-release emitted once");
    assert_eq!(releases[0].owner, "C");
    assert_eq!(releases[0].task_id, "v1");
    assert_eq!(releases[0].reason, "deps_ready");
    assert_eq!(releases[0].kind, "validate");
    assert_eq!(state_of(&s, "v1"), TaskState::Ready);

    let releases = s.recompute_tasks(4);
    assert!(releases.is_empty());
}

#[test]
fn cross_crate_validate_blocked_by_dependency_crate() {
    let mut s = State::new(None);
    s.tasks.push(task("b", TaskKind::Src, &["crate-b"], &["crates/b/src/lib.rs"], "B", TaskState::Scheduled, &[]));
    s.tasks.push(task("a", TaskKind::Src, &["crate-a"], &["crates/a/src/lib.rs"], "A", TaskState::Scheduled, &[]));
    let deps = compute_depends_on(&s.tasks, TaskKind::Validate, &strings(&["crate-a", "crate-b"]));
    assert!(deps.contains(&"a".to_string()), "{deps:?}");
    assert!(deps.contains(&"b".to_string()), "{deps:?}");
    let refs: Vec<&str> = deps.iter().map(|d| d.as_str()).collect();
    s.tasks.push(task("va", TaskKind::Validate, &["crate-a", "crate-b"], &["tests/a.rs"], "C", TaskState::Scheduled, &refs));

    set_state(&mut s, "a", TaskState::Done);
    let releases = s.recompute_tasks(1);
    assert!(releases.is_empty());
    assert_eq!(state_of(&s, "va"), TaskState::Scheduled, "validate must wait for B (cross-crate dep)");

    set_state(&mut s, "b", TaskState::Done);
    let releases = s.recompute_tasks(2);
    assert_eq!(releases.len(), 1);
    assert_eq!(state_of(&s, "va"), TaskState::Ready);
}

#[test]
fn global_shared_state_is_serialized() {
    let mut s = State::new(None);
    s.tasks.push(task("g1", TaskKind::Src, &["crate-x"], &["Cargo.lock"], "A", TaskState::Working, &[]));
    s.tasks.push(task("g2", TaskKind::Src, &["crate-y"], &["Cargo.lock"], "B", TaskState::Scheduled, &[]));
    s.tasks.push(task("n1", TaskKind::Src, &["crate-z"], &["src/plain.rs"], "C", TaskState::Scheduled, &[]));

    let releases = s.recompute_tasks(1);
    assert!(releases.is_empty());
    assert_eq!(state_of(&s, "n1"), TaskState::Ready);
    assert_eq!(state_of(&s, "g2"), TaskState::Scheduled, "global slot held by g1");

    set_state(&mut s, "g1", TaskState::Done);
    s.recompute_tasks(2);
    assert_eq!(state_of(&s, "g2"), TaskState::Ready);
}

#[test]
fn global_shared_path_detection() {
    assert!(is_global_shared_path("Cargo.lock"));
    assert!(is_global_shared_path("./Cargo.lock"));
    assert!(is_global_shared_path(".git/config"));
    assert!(is_global_shared_path("target/debug/foo"));
    assert!(is_global_shared_path("generated/api.rs"));
    assert!(is_global_shared_path("Cargo.toml"));
    assert!(!is_global_shared_path("crates/x/Cargo.toml"), "nested manifest is not global");
    assert!(!is_global_shared_path("src/main.rs"));
}

#[test]
fn assign_task_validates_payload_and_schedules() {
    let mut s = State::new(None);
    let err = s.assign_task(true, "slave-a", "Src", None, None, 1).unwrap_err();
    assert!(err.contains("must include"), "{err}");
    let err = s
        .assign_task(true, "slave-a", "Nope", Some(strings(&["x"])), Some(strings(&["a.rs"])), 1)
        .unwrap_err();
    assert!(err.contains("invalid task kind"), "{err}");

    let mut slave = State::new(Some("m".to_string()));
    assert!(slave
        .assign_task(false, "x", "Src", Some(strings(&["x"])), Some(strings(&["a.rs"])), 1)
        .is_err());

    let r = s
        .assign_task(true, "slave-a", "Src", Some(strings(&["crate-x"])), Some(strings(&["src/a.rs"])), 1)
        .unwrap();
    assert_eq!(r.state, TaskState::Ready);
    assert_eq!(s.tasks.len(), 1);
    let show = s.task_show(&r.task_id).unwrap();
    assert_eq!(show.kind, TaskKind::Src);
    assert_eq!(show.owner, "slave-a");
}

#[test]
fn validate_released_when_src_reports_done() {
    let mut s = State::new(None);
    let src = s
        .assign_task(true, "slave-a", "Src", Some(strings(&["crate-x"])), Some(strings(&["src/a.rs"])), 1)
        .unwrap();
    let val = s
        .assign_task(true, "slave-c", "Validate", Some(strings(&["crate-x"])), Some(strings(&["tests/x.rs"])), 2)
        .unwrap();
    assert_eq!(val.state, TaskState::Scheduled, "validate waits for the src task");

    let status = event("status", "slave-a", "", "done", Some(3));
    let out = s.on_status("slave-a", status, "done", Some(src.task_id.as_str()), 3, true);
    assert!(out.task_changed);

    assert_eq!(s.task_show(&val.task_id).unwrap().state, TaskState::Ready);
    let ready_events = s
        .events
        .iter()
        .filter(|e| {
            e.kind == "task"
                && e.state == "Ready"
                && matches!(&e.body, EventBody::Task { task_id, .. } if *task_id == val.task_id)
        })
        .count();
    assert_eq!(ready_events, 1, "validate released exactly once");
}

#[test]
fn task_cancel_and_force_update_schedule() {
    let mut s = State::new(None);
    let r = s
        .assign_task(true, "slave-a", "Validate", Some(strings(&["crate-x"])), Some(strings(&["tests/x.rs"])), 1)
        .unwrap();
    match s.task_cancel(true, &r.task_id, 2) {
        TaskCancel::Cancelled { .. } => {}
        other => panic!("{other:?}"),
    }
    assert_eq!(s.tasks.len(), 0);

    let r2 = s
        .assign_task(true, "slave-a", "Src", Some(strings(&["crate-x"])), Some(strings(&["src/a.rs"])), 3)
        .unwrap();
    assert!(matches!(s.task_force(true, &r2.task_id, "Bogus", 4), TaskForce::InvalidState));
    assert!(matches!(s.task_force(true, &r2.task_id, "Done", 5), TaskForce::Forced { .. }));
    assert_eq!(s.task_show(&r2.task_id).unwrap().state, TaskState::Done);
}

fn may_i(s: &State, files: &[&str], owner: &str) -> MayIResult {
    check_may_i_touch(&s.zones, &s.tasks, &s.conflicts, &strings(files), &owner.to_string())
}

#[test]
fn may_i_touch_exact_file_denied() {
    let mut s = State::new(None);
    s.zones.push(Zone { path: "src/a.rs".to_string(), owner: "other".to_string(), queued: Vec::new() });
    assert_eq!(may_i(&s, &["src/a.rs"], "me"), MayIResult::Denied);
}

#[test]
fn may_i_touch_active_task_file_denied() {
    let mut s = State::new(None);
    s.tasks.push(task("t1", TaskKind::Src, &["crate-x"], &["src/owned.rs"], "other", TaskState::Working, &[]));
    assert_eq!(may_i(&s, &["src/owned.rs"], "me"), MayIResult::Denied);
    set_state(&mut s, "t1", TaskState::Done);
    assert_eq!(may_i(&s, &["src/owned.rs"], "me"), MayIResult::AutoApproved);
}

#[test]
fn may_i_touch_same_module_escalates_level_2() {
    let mut s = State::new(None);
    s.tasks.push(task("t1", TaskKind::Src, &["crate-x"], &["src/mod/one.rs"], "other", TaskState::Working, &[]));
    assert_eq!(may_i(&s, &["src/mod/two.rs"], "me"), MayIResult::Escalated { level: 2 });
}

#[test]
fn may_i_touch_workspace_neighbor_escalates_level_3() {
    let mut s = State::new(None);
    s.tasks.push(task("t1", TaskKind::Src, &["crate-a"], &["crates/a/src/lib.rs"], "other", TaskState::Working, &[]));
    assert_eq!(may_i(&s, &["crates/b/src/lib.rs"], "me"), MayIResult::Escalated { level: 3 });
}

#[test]
fn may_i_touch_global_state_escalates_level_4() {
    let s = State::new(None);
    assert_eq!(may_i(&s, &["Cargo.lock"], "me"), MayIResult::Escalated { level: 4 });
}

#[test]
fn may_i_touch_conflict_history_escalates_level_5() {
    let mut s = State::new(None);
    s.conflicts.push(Conflict {
        id: "c1".to_string(),
        files: strings(&["src/hot.rs"]),
        zone: String::new(),
        severity: Some("high".to_string()),
        ts: 1000,
        json: "{}".to_string(),
    });
    assert_eq!(may_i(&s, &["src/hot.rs"], "me"), MayIResult::Escalated { level: 5 });
    assert_eq!(may_i(&s, &["src/hot.rs/impl.rs"], "me"), MayIResult::Escalated { level: 5 });
}

#[test]
fn may_i_touch_fresh_file_auto_approves() {
    let s = State::new(None);
    assert_eq!(may_i(&s, &["src/brand_new.rs"], "me"), MayIResult::AutoApproved);
    assert_eq!(may_i(&s, &[], "me"), MayIResult::AutoApproved);
}

#[test]
fn may_i_touch_same_owner_repeat_auto_approves() {
    let mut s = State::new(None);
    s.tasks.push(task("t1", TaskKind::Src, &["crate-x"], &["src/mine.rs"], "me", TaskState::Working, &[]));
    assert_eq!(may_i(&s, &["src/mine.rs"], "me"), MayIResult::AutoApproved);
}

#[test]
fn may_i_touch_auto_approves_and_escalates() {
    let mut s = State::new(None);
    s.tasks.push(task("t1", TaskKind::Src, &["crate-x"], &["src/mod/one.rs"], "slave-a", TaskState::Working, &[]));
    let fresh = s.on_may_i_touch(
        "r-fresh".to_string(),
        strings(&["src/brand_new.rs"]),
        "slave-b".to_string(),
        Some("slave-b".to_string()),
        10,
        true,
    );
    assert!(matches!(fresh.answer, Some(MayIAnswer::AutoApproved)));
    let hot = s.on_may_i_touch(
        "r-hot".to_string(),
        strings(&["src/mod/two.rs"]),
        "slave-b".to_string(),
        Some("slave-b".to_string()),
        11,
        true,
    );
    assert!(hot.answer.is_none());
    let trace = s.approvals.iter().find(|a| a.req_id == "r-fresh").unwrap();
    assert!(trace.auto_approved);
    assert!(trace.approved);
    assert_eq!(s.escalations.len(), 1);
    assert_eq!(s.escalations[0].req_id, "r-hot");
    assert_eq!(s.escalations[0].level, 2);

    let (actions, ack, tick, _) = s.digest(None, 20);
    assert_eq!(actions.len(), 1);
    assert_eq!(kind_of(&actions[0]), "approval_escalation");
    assert_eq!(ack, 0);
    assert_eq!(tick, 0);
}

#[test]
fn approval_decide_answers_escalations() {
    let mut master = State::new(None);
    let mut slave = State::new(Some("m".to_string()));
    assert!(matches!(slave.approval_decide(false, "r1", "approve", 1), DecideOutcome::NotMaster), "slave must be rejected");

    master.escalations.push(Escalation {
        req_id: "r1".to_string(),
        files: strings(&["src/a.rs"]),
        owner: "slave-a".to_string(),
        level: 2,
        reason: "same module".to_string(),
        reply_to: Some("slave-a".to_string()),
        ts: 1000,
    });
    assert!(matches!(master.approval_decide(true, "r1", "queue", 2), DecideOutcome::Queued));
    assert_eq!(master.escalations.len(), 1);
    assert!(master.approvals.is_empty());

    match master.approval_decide(true, "r1", "approve", 3) {
        DecideOutcome::Decided { approved, trace, .. } => {
            assert!(approved);
            assert_eq!(trace.level, 2);
        }
        other => panic!("{other:?}"),
    }
    assert!(master.escalations.is_empty());
    let stored = master.approvals.iter().find(|a| a.req_id == "r1").expect("trace for r1");
    assert_eq!(stored.decision, Some(Decision::Approve));
    assert!(stored.approved && !stored.auto_approved);
    assert!(matches!(master.approval_decide(true, "r2", "approve", 4), DecideOutcome::Unknown));
}

#[test]
fn zone_ownership_is_master_only() {
    let mut master = State::new(None);
    let mut slave_a = State::new(Some("test-master".to_string()));
    assert!(matches!(slave_a.zone_acquire(false, "test-slave-a", "/z".to_string(), None, false), Acquire::NotMaster));
    assert!(matches!(
        slave_a.zone_release(false, &"/z".to_string(), None, 1).0,
        ReleaseOutcome::NotMaster
    ));
    assert_eq!(slave_a.zone_request_target("test-slave-a").unwrap(), "test-master");

    match master.answer_zone_request("/z".to_string(), false, "test-slave-a".to_string(), 2) {
        agent_mux::state::ZoneAnswer::Acquired(Acquire::Granted { owner }) => assert_eq!(owner, "test-slave-a"),
        other => panic!("grant should succeed: {other:?}"),
    }
    match master.answer_zone_request("/z".to_string(), false, "test-slave-b".to_string(), 3) {
        agent_mux::state::ZoneAnswer::Acquired(Acquire::Queued { current }) => assert_eq!(current, "test-slave-a"),
        other => panic!("held zone must queue: {other:?}"),
    }
    match master.answer_zone_request("/z".to_string(), true, "test-slave-a".to_string(), 4) {
        agent_mux::state::ZoneAnswer::Released(ReleaseOutcome::Released { next_owner }, _) => {
            assert_eq!(next_owner, Some("test-slave-b".to_string()))
        }
        other => panic!("release should succeed: {other:?}"),
    }
    assert_eq!(master.zones.iter().find(|z| z.path == "/z").unwrap().owner, "test-slave-b");

    match master.zone_acquire(true, "test-master", "/m".to_string(), Some("test-slave-a".to_string()), false) {
        Acquire::Granted { owner } => assert_eq!(owner, "test-slave-a"),
        other => panic!("master assign should succeed: {other:?}"),
    }
}

#[test]
fn zone_steal_is_master_only_and_forces_owner() {
    let mut master = State::new(None);
    let mut slave = State::new(Some("m".to_string()));
    assert!(slave.zone_steal(false, "s", "/z".to_string(), 1).is_none(), "slave zone_steal must be rejected");
    master.zones.push(Zone { path: "/z".to_string(), owner: "slave-a".to_string(), queued: Vec::new() });
    assert!(master.zone_steal(true, "m", "/z".to_string(), 2).is_some());
    assert_eq!(master.zones.iter().find(|z| z.path == "/z").unwrap().owner, "m");
}

#[test]
fn state_persists_tasks_across_restart() {
    let mut s = State::new(None);
    let r = s
        .assign_task(true, "slave-a", "Src", Some(strings(&["crate-x"])), Some(strings(&["src/a.rs"])), 1)
        .unwrap();
    let saved: Vec<Task> = s.tasks.iter().map(|t| t.copy()).collect();
    let zones: Vec<Zone> = Vec::new();
    let restored = State::restore(None, saved, zones, Vec::new(), Vec::new(), Vec::new(), s.last_digest_ts, s.event_seq);
    let show = restored.task_show(&r.task_id).unwrap();
    assert_eq!(show.owner, "slave-a");
}

#[test]
fn decisions_rank_ahead_of_done() {
    let done = action_rank(&event("done", "", "", "", None));
    for kind in ["blocked", "conflict_reported", "rpc_request"] {
        assert!(action_rank(&event(kind, "", "", "", None)) < done, "{kind}");
    }
    assert_eq!(action_rank(&event("blocked", "", "", "", None)), 0);
    assert_eq!(action_rank(&event("task", "", "Failed", "", None)), 4);
    assert_eq!(done, 5);
}

#[test]
fn restore_gives_back_the_saved_state() {
    let mut s = State::new(None);
    s.assign_task(true, "slave-a", "Src", Some(strings(&["crate-x"])), Some(strings(&["src/a.rs"])), 1).unwrap();
    s.assign_task(true, "slave-b", "Validate", Some(strings(&["crate-x"])), Some(strings(&["tests/t.rs"])), 2).unwrap();
    assert!(matches!(s.zone_acquire(true, "m", "/z".to_string(), Some("slave-a".to_string()), false), Acquire::Granted { .. }));
    s.report_conflict(strings(&["src/a.rs"]), None, "high", "{}".to_string(), 3);
    s.report_conflict(strings(&["src/b.rs"]), Some("/z".to_string()), "low", "{}".to_string(), 4);
    s.escalations.push(Escalation {
        req_id: "r1".to_string(),
        files: strings(&["src/a.rs"]),
        owner: "slave-b".to_string(),
        level: 2,
        reason: "same module".to_string(),
        reply_to: None,
        ts: 5,
    });
    assert!(matches!(s.approval_decide(true, "r1", "deny", 6), DecideOutcome::Decided { .. }));

    let tasks: Vec<Task> = s.tasks.iter().map(|t| t.copy()).collect();
    let zones: Vec<Zone> = s
        .zones
        .iter()
        .map(|z| Zone { path: z.path.clone(), owner: z.owner.clone(), queued: z.queued.clone() })
        .collect();
    let conflicts: Vec<Conflict> = s.conflicts.iter().map(|c| c.copy()).collect();
    let approvals: Vec<Approval> = s
        .approvals
        .iter()
        .map(|a| Approval {
            req_id: a.req_id.clone(),
            files: a.files.clone(),
            owner: a.owner.clone(),
            level: a.level,
            auto_approved: a.auto_approved,
            approved: a.approved,
            decision: a.decision,
            ts: a.ts,
        })
        .collect();
    let r = State::restore(None, tasks, zones, conflicts, Vec::new(), approvals, s.last_digest_ts, s.event_seq);

    let ids = |v: &Vec<Task>| v.iter().map(|t| (t.id.clone(), t.owner.clone())).collect::<Vec<_>>();
    assert_eq!(ids(&r.tasks), ids(&s.tasks));
    assert_eq!(r.tasks.len(), 2);
    assert_eq!(
        r.zones.iter().map(|z| (z.path.clone(), z.owner.clone())).collect::<Vec<_>>(),
        vec![("/z".to_string(), "slave-a".to_string())]
    );
    assert_eq!(
        r.conflicts.iter().map(|c| c.id.clone()).collect::<Vec<_>>(),
        s.conflicts.iter().map(|c| c.id.clone()).collect::<Vec<_>>()
    );
    assert_eq!(r.approvals.len(), 1);
    assert_eq!(r.approvals[0].req_id, "r1");
    assert_eq!(r.approvals[0].decision, Some(Decision::Deny));
    assert_eq!(r.event_seq, s.event_seq);
    assert_eq!(r.last_digest_ts, s.last_digest_ts);
}

#[test]
fn restore_lays_state_conflicts_over_legacy_ones() {
    let mut s = State::new(None);
    let own = s.report_conflict(strings(&["src/a.rs"]), None, "high", "{}".to_string(), 3);
    let mut legacy_same = own.copy();
    legacy_same.severity = Some("low".to_string());
    legacy_same.ts = 1;
    let legacy_other = Conflict {
        id: "old-1".to_string(),
        files: strings(&["src/b.rs"]),
        zone: String::new(),
        severity: Some("medium".to_string()),
        ts: 2,
        json: "{}".to_string(),
    };
    let conflicts = vec![legacy_same, legacy_other, own.copy()];
    let r = State::restore(None, Vec::new(), Vec::new(), conflicts, Vec::new(), Vec::new(), 0, 0);
    assert_eq!(r.conflicts.len(), 2);
    let mine = r.conflicts.iter().find(|c| c.id == own.id).unwrap();
    assert_eq!(mine.severity.as_deref(), Some("high"));
    assert_eq!(mine.ts, 3);
    assert!(r.conflicts.iter().any(|c| c.id == "old-1" && c.ts == 2));
}
