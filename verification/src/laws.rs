//! Properties of the coordination rules that span several operations.
use vstd::prelude::*;
use crate::approval::{exact_claim, level2_hit, level3_hit, level5_hit, may_i_spec, owned_spec, MayIResult};
use crate::conflicts::{cview, has_conflict, ConflictView};
use crate::config::{root_step, roots_after};
use crate::text::{
    ascii_lower, lemma_ascii_lower_clean, lemma_trim_ws_clean, lemma_trim_ws_fixed, trim_slashes_of,
    trim_ws,
};
use crate::events::{class_of, rank_of, wake_rule, Event, EventClass};
use crate::paths::is_global_path;
use crate::persist::{
    lemma_overlay, lemma_put_all_unique, lemma_put_approvals_unique, lemma_put_conflicts_append,
    lemma_put_conflicts_unique, lemma_put_conflicts_unique_ids, lemma_put_tasks_unique, put_approvals,
    put_conflicts, put_tasks, report_for,
};
use crate::rpc::{Pending, PendingStatus};
use crate::state::{State, after_sweep, has_pending, is_expired, pending_index, pending_unique, responded};
use crate::tasks::{tview, after_pass, deps_done, promotable, serial_free, TaskState, TaskView};
use crate::wake::{parsed_wake, plan_for, wake_key, WakePreference};
use crate::zones::{zview, put_all, acquire_spec, has_zone, paths_unique, release_spec, zone_index, zone_of, ZoneView};

verus! {

/// A scheduling pass moves a task to Ready only when every task it depends
/// on is Done and, if it touches global shared state, no other task
/// touching global state is active: a Validate task never becomes Ready
/// before all the source tasks it waits for are Done.
pub proof fn law_ready_only_when_unblocked(ts: Seq<TaskView>, now: u64, i: int)
    requires
        0 <= i < ts.len(),
        ts[i].state != TaskState::Ready,
        after_pass(ts, now)[i].state == TaskState::Ready,
    ensures
        ts[i].state == TaskState::Scheduled,
        deps_done(ts, ts[i]),
        serial_free(ts, ts[i]),
{
    assert(promotable(ts, ts[i]));
}

/// One sweep re-arms an expired RPC so that it is not expired at the same
/// instant: a second sweep at the same time changes nothing (an RPC is
/// re-published at most once per sweep instant).
pub proof fn law_sweep_idempotent(p: Pending, now: u64, rpc_timeout: u64)
    ensures
        !is_expired(after_sweep(p, now, rpc_timeout), now),
        after_sweep(after_sweep(p, now, rpc_timeout), now, rpc_timeout) == after_sweep(p, now, rpc_timeout),
{
}

/// Acquiring a zone is idempotent: asking again for the same path and owner
/// grants nothing new and queues the owner at most once.
pub proof fn law_acquire_idempotent(zs: Seq<ZoneView>, path: Seq<char>, owner: Seq<char>)
    requires
        paths_unique(zs),
    ensures
        acquire_spec(acquire_spec(zs, path, owner, false), path, owner, false) == acquire_spec(
            zs,
            path,
            owner,
            false,
        ),
{
    let a = acquire_spec(zs, path, owner, false);
    if has_zone(zs, path) {
        let k = zone_index(zs, path);
        let z = zone_of(zs, path);
        assert(a.len() == zs.len());
        assert(a[k].path == path);
        assert forall|i: int, j: int| 0 <= i < a.len() && 0 <= j < a.len() && i != j implies a[i].path != a[j].path by {
            if i != k && j != k {
                assert(a[i].path == zs[i].path && a[j].path == zs[j].path);
            } else if i == k {
                assert(a[j].path == zs[j].path);
                assert(zs[j].path != zs[k].path);
            } else {
                assert(a[i].path == zs[i].path);
                assert(zs[i].path != zs[k].path);
            }
        }
        assert(has_zone(a, path));
        let k2 = zone_index(a, path);
        assert(k2 == k);
        if z.owner.len() > 0 && z.owner != owner {
            if !z.queued.contains(owner) {
                assert(a[k].queued.contains(owner)) by {
                    assert(a[k].queued[z.queued.len() as int] == owner);
                }
            }
            assert(acquire_spec(a, path, owner, false) =~= a);
        } else {
            assert(acquire_spec(a, path, owner, false) =~= a);
        }
    } else {
        let n = zs.len() as int;
        assert(a[n].path == path);
        assert(has_zone(a, path));
        let k2 = zone_index(a, path);
        if k2 != n {
            assert(a[k2] == zs[k2]);
            assert(has_zone(zs, path));
        }
        assert(acquire_spec(a, path, owner, false) =~= a);
    }
}

/// Acquiring a free path and releasing it restores the registry.
pub proof fn law_acquire_release_roundtrip(zs: Seq<ZoneView>, path: Seq<char>, owner: Seq<char>)
    requires
        paths_unique(zs),
        !has_zone(zs, path),
    ensures
        release_spec(acquire_spec(zs, path, owner, false), path) == zs,
{
    let a = acquire_spec(zs, path, owner, false);
    let n = zs.len() as int;
    assert(a[n].path == path);
    let k = zone_index(a, path);
    if k != n {
        assert(a[k] == zs[k]);
        assert(has_zone(zs, path));
    }
    assert(a.remove(n) =~= zs);
}

/// Releasing a held zone with waiters hands it to the first waiter (FIFO)
/// and keeps the rest of the queue in order.
pub proof fn law_release_hands_to_head(zs: Seq<ZoneView>, path: Seq<char>)
    requires
        paths_unique(zs),
        has_zone(zs, path),
        zone_of(zs, path).queued.len() > 0,
    ensures
        has_zone(release_spec(zs, path), path),
        zone_of(release_spec(zs, path), path).owner == zone_of(zs, path).queued[0],
        zone_of(release_spec(zs, path), path).queued == zone_of(zs, path).queued.drop_first(),
{
    let r = release_spec(zs, path);
    let k = zone_index(zs, path);
    assert(r[k].path == path);
    let k2 = zone_index(r, path);
    if k2 != k {
        assert(r[k2] == zs[k2]);
        assert(zs[k2].path != zs[k].path);
    }
}

/// MCP notify always wins when the client declared support, unless the
/// operator explicitly disabled notifications; `wake=none` always disables
/// them; without client support an explicit `mcp` still forces MCP notify.
pub proof fn law_wake_priority(pref: Option<WakePreference>, client_supports_notify: bool)
    ensures
        pref == Some(WakePreference::Off) ==> plan_for(pref, client_supports_notify) is Off,
        pref != Some(WakePreference::Off) && client_supports_notify ==> plan_for(
            pref,
            client_supports_notify,
        ) is Mcp,
        pref == Some(WakePreference::Mcp) ==> plan_for(pref, client_supports_notify) is Mcp,
        pref != Some(WakePreference::Off) && pref != Some(WakePreference::Mcp)
            && !client_supports_notify ==> plan_for(pref, client_supports_notify) is Tmux,
{
}

/// The approval gate only lets risk-free requests through on its own: an
/// auto-approved request names no global shared state and nothing that
/// another owner claims exactly, and it is either a same-owner repeat or
/// touches no module, workspace neighbour or conflict-history path of
/// someone else's work.
pub proof fn law_auto_approval_is_risk_free(
    zs: Seq<ZoneView>,
    ts: Seq<TaskView>,
    cs: Seq<ConflictView>,
    files: Seq<Seq<char>>,
    owner: Seq<char>,
)
    requires
        may_i_spec(zs, ts, cs, files, owner) == MayIResult::AutoApproved,
    ensures
        forall|i: int| 0 <= i < files.len() ==> !is_global_path(#[trigger] files[i]),
        !exact_claim(zs, ts, files, owner),
        (forall|i: int| 0 <= i < files.len() ==> owned_spec(zs, ts, #[trigger] files[i], owner))
            || (!level2_hit(zs, ts, files, owner) && !level3_hit(zs, ts, files, owner)
            && !level5_hit(cs, files)),
{
}

/// In digest mode a control acknowledgement is noise and never wakes the
/// agent, while a blocked report, a conflict report or an incoming RPC
/// request is an action that always does, and it sorts ahead of an
/// informational `done`.
pub proof fn law_digest_wakes_for_decisions(tasks: Seq<TaskView>, e: Event, done: Event)
    requires
        done.kind@ == "done"@,
    ensures
        e.kind@ == "ctrl_ack"@ ==> class_of(tasks, e) == EventClass::Noise && !wake_rule(
            true,
            class_of(tasks, e),
        ),
        e.kind@ == "blocked"@ || e.kind@ == "conflict_reported"@ || e.kind@ == "rpc_request"@
            ==> class_of(tasks, e) == EventClass::Action && wake_rule(true, class_of(tasks, e))
            && rank_of(e) < rank_of(done),
{
    reveal_strlit("ctrl_ack");
    reveal_strlit("blocked");
    reveal_strlit("error");
    reveal_strlit("conflict_reported");
    reveal_strlit("conflict");
    reveal_strlit("rpc_request");
    reveal_strlit("approval_escalation");
    reveal_strlit("done");
    reveal_strlit("task");
    reveal_strlit("slave_left");
    reveal_strlit("status");
    if e.kind@ == "ctrl_ack"@ {
        assert(e.kind@.len() == 8);
        assert(e.kind@[1] != "conflict"@[1]);
        assert(!crate::events::is_decision_kind(e.kind@));
        assert(e.kind@ != "task"@ && e.kind@ != "slave_left"@ && e.kind@ != "status"@);
    }
    assert("done"@.len() == 4 && "task"@.len() == 4 && "status"@.len() == 6);
    assert("blocked"@.len() == 7 && "conflict_reported"@.len() == 17 && "rpc_request"@.len() == 11);
    assert("conflict"@.len() == 8 && "approval_escalation"@.len() == 19);
    assert("done"@[0] != "task"@[0]);
    if e.kind@ == "blocked"@ || e.kind@ == "conflict_reported"@ || e.kind@ == "rpc_request"@ {
        assert(crate::events::is_decision_kind(e.kind@));
        assert(e.kind@ != "done"@ && e.kind@ != "status"@ && e.kind@ != "task"@
            && e.kind@ != "approval_escalation"@);
    }
    assert(done.kind@ != "blocked"@ && done.kind@ != "conflict_reported"@ && done.kind@
        != "conflict"@ && done.kind@ != "rpc_request"@ && done.kind@ != "approval_escalation"@
        && done.kind@ != "task"@);
}

/// Once a sent RPC is answered, the registry reports exactly that answer
/// under its id: a success as done with its result, a failure as failed
/// with its error, never as still pending (`get_result` then returns it as
/// finished).
pub proof fn law_answer_is_reported(
    before: Seq<Pending>,
    after: Seq<Pending>,
    id: Seq<char>,
    ok: bool,
    result: Seq<char>,
    error: Seq<char>,
)
    requires
        pending_unique(before),
        has_pending(before, id),
        responded(before, after, id, ok, result, error),
    ensures
        pending_unique(after),
        has_pending(after, id),
        after[pending_index(after, id)].status != PendingStatus::Pending,
        ok ==> after[pending_index(after, id)].status == PendingStatus::Done
            && after[pending_index(after, id)].result@ == result,
        !ok ==> after[pending_index(after, id)].status == PendingStatus::Failed
            && after[pending_index(after, id)].error@ == error,
{
    let k = pending_index(before, id);
    assert(after[k].request_id@ == id);
    assert forall|i: int, j: int|
        0 <= i < after.len() && 0 <= j < after.len() && i != j implies after[i].request_id@
            != after[j].request_id@ by {
        assert(after[i].request_id == before[i].request_id);
        assert(after[j].request_id == before[j].request_id);
    }
    let k2 = pending_index(after, id);
    if k2 != k {
        assert(after[k2] == before[k2]);
    }
}

/// Saving the state and loading it back restores it: restoring a
/// well-formed state's own task table, zone registry, conflict history and
/// approval traces (what `state.json` holds) with `State::restore` puts back
/// exactly those lists; the escalations, the digest mark and the event
/// counter are taken over as given.
pub proof fn law_restore_round_trip(s: State)
    requires
        s.wf(),
    ensures
        put_tasks(Seq::empty(), tview(s.tasks@)) == tview(s.tasks@),
        put_all(Seq::empty(), zview(s.zones@)) == zview(s.zones@),
        put_conflicts(Seq::empty(), cview(s.conflicts@)) == cview(s.conflicts@),
        put_approvals(Seq::empty(), s.approvals@) == s.approvals@,
{
    lemma_put_tasks_unique(tview(s.tasks@));
    lemma_put_all_unique(zview(s.zones@));
    lemma_put_conflicts_unique(cview(s.conflicts@));
    lemma_put_approvals_unique(s.approvals@);
}

/// Once a default root is remembered, later settings change nothing.
pub proof fn law_later_roots_ignored(r: Seq<char>, calls: Seq<Seq<char>>)
    ensures
        roots_after(Some(r), calls) == Some(r),
    decreases calls.len(),
{
    if calls.len() > 0 {
        law_later_roots_ignored(r, calls.drop_last());
    }
}

/// The first `set_default_root` wins: after any sequence of settings the
/// default root is the first one given, slashes trimmed, and it is unset
/// when none was given.
pub proof fn law_first_root_wins(calls: Seq<Seq<char>>)
    ensures
        calls.len() == 0 ==> roots_after(None, calls) is None,
        calls.len() > 0 ==> roots_after(None, calls) == Some(trim_slashes_of(calls[0])),
    decreases calls.len(),
{
    if calls.len() > 0 {
        let d = calls.drop_last();
        assert(roots_after(None, calls) == root_step(roots_after(None, d), calls.last()));
        if d.len() > 0 {
            law_first_root_wins(d);
            assert(d[0] == calls[0]);
        } else {
            assert(roots_after(None, d) is None);
            assert(calls.last() == calls[0]);
        }
    }
}

/// A wake-channel name is matched after trimming and ASCII lower-casing, and
/// that normal form is stable: normalizing it again changes nothing, so
/// parsing the normal form of a name gives what parsing the name gives.
pub proof fn law_wake_name_normal_form(s: Seq<char>)
    ensures
        wake_key(wake_key(s)) == wake_key(s),
        forall|r: Result<WakePreference, String>| parsed_wake(wake_key(s), r) <==> parsed_wake(s, r),
{
    let t = trim_ws(s);
    lemma_trim_ws_clean(s);
    lemma_ascii_lower_clean(t);
    let u = ascii_lower(t);
    lemma_trim_ws_fixed(u);
    assert(wake_key(u) == ascii_lower(u));
}

/// Loading after a restart lays the state's own conflict history over the
/// legacy `conflicts.json`: restoring the legacy reports followed by a
/// well-formed state's reports keeps every report of the state under its
/// id, and every legacy report (the last one per id) whose id the state
/// does not hold.
pub proof fn law_restore_overlays_legacy_conflicts(legacy: Seq<ConflictView>, s: State)
    requires
        s.wf(),
    ensures
        ({
            let own = cview(s.conflicts@);
            let old_hist = put_conflicts(Seq::empty(), legacy);
            let r = put_conflicts(Seq::empty(), legacy + own);
            &&& forall|k: int|
                0 <= k < own.len() ==> has_conflict(r, own[k].id) && #[trigger] report_for(r, own[k].id)
                    == own[k]
            &&& forall|j: int|
                0 <= j < old_hist.len() && (forall|k: int| 0 <= k < own.len() ==> own[k].id
                    != old_hist[j].id) ==> has_conflict(r, old_hist[j].id) && #[trigger] report_for(
                    r,
                    old_hist[j].id,
                ) == old_hist[j]
        }),
{
    let own = cview(s.conflicts@);
    lemma_put_conflicts_append(Seq::empty(), legacy, own);
    lemma_put_conflicts_unique_ids(Seq::empty(), legacy);
    lemma_overlay(put_conflicts(Seq::empty(), legacy), own);
}

/// Level 2 of the impact check: a requested file in the same directory, or
/// in the same crate (the same first two path components), as a path that
/// another owner holds (a zone on it, or an active task declaring it)
/// escalates the request to the master agent, whenever no requested file is
/// held exactly by someone else, none is global shared state, and not every
/// requested file is already the requester's own.
pub proof fn law_same_module_escalates(
    zs: Seq<ZoneView>,
    ts: Seq<TaskView>,
    cs: Seq<ConflictView>,
    files: Seq<Seq<char>>,
    owner: Seq<char>,
    i: int,
    g: Seq<char>,
    k: int,
)
    requires
        0 <= i < files.len(),
        g != files[i],
        crate::paths::parent_dir_of(files[i]) == crate::paths::parent_dir_of(g)
            || crate::paths::top_of(files[i], 2) == crate::paths::top_of(g, 2),
        (0 <= k < ts.len() && (ts[k].state == TaskState::Working || ts[k].state == TaskState::Assigned)
            && ts[k].owner != owner && ts[k].files.contains(g)) || (0 <= k < zs.len() && zs[k].path == g
            && zs[k].owner.len() > 0 && zs[k].owner != owner),
        forall|a: int, z: int|
            0 <= a < files.len() && 0 <= z < zs.len() && zs[z].path == files[a] && zs[z].owner.len() > 0
                ==> zs[z].owner == owner,
        forall|a: int, t: int|
            0 <= a < files.len() && 0 <= t < ts.len() && ts[t].files.contains(files[a]) && (
            ts[t].state == TaskState::Working || ts[t].state == TaskState::Assigned) ==> ts[t].owner
                == owner,
        forall|a: int| 0 <= a < files.len() ==> !is_global_path(#[trigger] files[a]),
        exists|a: int|
            0 <= a < files.len() && (forall|z: int| 0 <= z < zs.len() ==> !(zs[z].path == #[trigger] files[a]
                && zs[z].owner == owner)) && (forall|t: int|
                0 <= t < ts.len() ==> !(ts[t].owner == owner && ts[t].files.contains(files[a]))),
    ensures
        may_i_spec(zs, ts, cs, files, owner) == (MayIResult::Escalated { level: 2 }),
{
    assert(!exact_claim(zs, ts, files, owner)) by {
        if exact_claim(zs, ts, files, owner) {
            let a = choose|a: int|
                0 <= a < files.len() && (crate::approval::zone_claims_other(zs, #[trigger] files[a], owner)
                    || crate::approval::task_claims_other(ts, files[a], owner));
            if crate::approval::zone_claims_other(zs, files[a], owner) {
                let z = choose|z: int|
                    0 <= z < zs.len() && #[trigger] zs[z].path == files[a] && zs[z].owner.len() > 0
                        && zs[z].owner != owner;
                assert(zs[z].owner == owner);
            } else {
                let t = choose|t: int|
                    0 <= t < ts.len() && crate::tasks::is_active(ts[t].state) && ts[t].owner != owner
                        && crate::approval::has_file(#[trigger] ts[t], files[a]);
                assert(ts[t].owner == owner);
            }
        }
    }
    let a0 = choose|a: int|
        0 <= a < files.len() && (forall|z: int| 0 <= z < zs.len() ==> !(zs[z].path == #[trigger] files[a]
            && zs[z].owner == owner)) && (forall|t: int|
            0 <= t < ts.len() ==> !(ts[t].owner == owner && ts[t].files.contains(files[a])));
    assert(!owned_spec(zs, ts, files[a0], owner));
    assert(crate::approval::claimed_by_other(zs, ts, owner, g)) by {
        if 0 <= k < ts.len() && (ts[k].state == TaskState::Working || ts[k].state == TaskState::Assigned)
            && ts[k].owner != owner && ts[k].files.contains(g) {
            assert(crate::approval::has_file(ts[k], g));
        } else {
            assert(zs[k].path == g);
        }
    }
    assert(crate::approval::same_module(files[i], g));
    assert(level2_hit(zs, ts, files, owner));
}

/// A Validate task waits for exactly the Src and Deps tasks that share one
/// of its crates: a task of the table is among the computed dependencies
/// when its kind is Src or Deps and one of its crates is one of the given
/// crates, and every computed dependency is the id of such a task.
pub proof fn law_validate_waits_for_src_and_deps(ts: Seq<TaskView>, crates: Seq<Seq<char>>)
    ensures
        forall|k: int, a: int, b: int|
            #![trigger ts[k].target_crates[a], crates[b]]
            0 <= k < ts.len() && (ts[k].kind == crate::tasks::TaskKind::Src || ts[k].kind
                == crate::tasks::TaskKind::Deps) && 0 <= a < ts[k].target_crates.len() && 0 <= b
                < crates.len() && ts[k].target_crates[a] == crates[b] ==> crate::tasks::dep_ids(
                ts,
                crates,
            ).contains(ts[k].id),
        forall|x: Seq<char>|
            #[trigger] crate::tasks::dep_ids(ts, crates).contains(x) ==> exists|k: int, a: int, b: int|
                0 <= k < ts.len() && ts[k].id == x && (ts[k].kind == crate::tasks::TaskKind::Src
                    || ts[k].kind == crate::tasks::TaskKind::Deps) && 0 <= a < ts[k].target_crates.len()
                    && 0 <= b < crates.len() && ts[k].target_crates[a] == crates[b],
    decreases ts.len(),
{
    let d = crate::tasks::dep_ids(ts, crates);
    if ts.len() > 0 {
        let p = ts.drop_last();
        law_validate_waits_for_src_and_deps(p, crates);
        let dp = crate::tasks::dep_ids(p, crates);
        let t = ts.last();
        assert(forall|y: Seq<char>| dp.contains(y) ==> d.contains(y)) by {
            assert forall|y: Seq<char>| dp.contains(y) implies d.contains(y) by {
                let j = choose|j: int| 0 <= j < dp.len() && dp[j] == y;
                assert(d[j] == dp[j]);
            }
        }
        assert forall|k: int, a: int, b: int|
            #![trigger ts[k].target_crates[a], crates[b]]
            0 <= k < ts.len() && (ts[k].kind == crate::tasks::TaskKind::Src || ts[k].kind
                == crate::tasks::TaskKind::Deps) && 0 <= a < ts[k].target_crates.len() && 0 <= b
                < crates.len() && ts[k].target_crates[a] == crates[b] implies d.contains(ts[k].id) by {
            if k < p.len() {
                assert(p[k] == ts[k]);
                assert(p[k].target_crates[a] == crates[b]);
                assert(dp.contains(p[k].id));
            } else {
                assert(crate::tasks::crates_meet(t.target_crates, crates));
                assert(d[d.len() - 1] == t.id);
            }
        }
        assert forall|x: Seq<char>| #[trigger] d.contains(x) implies exists|k: int, a: int, b: int|
            0 <= k < ts.len() && ts[k].id == x && (ts[k].kind == crate::tasks::TaskKind::Src
                || ts[k].kind == crate::tasks::TaskKind::Deps) && 0 <= a < ts[k].target_crates.len()
                && 0 <= b < crates.len() && ts[k].target_crates[a] == crates[b] by {
            let j = choose|j: int| 0 <= j < d.len() && d[j] == x;
            if j < dp.len() {
                assert(dp[j] == x);
                assert(dp.contains(x));
                let (k, a, b) = choose|k: int, a: int, b: int|
                    0 <= k < p.len() && p[k].id == x && (p[k].kind == crate::tasks::TaskKind::Src
                        || p[k].kind == crate::tasks::TaskKind::Deps) && 0 <= a < p[k].target_crates.len()
                        && 0 <= b < crates.len() && p[k].target_crates[a] == crates[b];
                assert(ts[k] == p[k]);
            } else {
                let (a, b) = choose|a: int, b: int|
                    0 <= a < t.target_crates.len() && 0 <= b < crates.len() && t.target_crates[a]
                        == crates[b];
                assert(ts[ts.len() - 1] == t);
            }
        }
    }
}

/// A slave leaving is news for the agent exactly when it still owns work:
/// a `slave_left` event is an action when some task of the departed slave
/// is neither Done nor Failed (Scheduled, Ready, Assigned or Working), and
/// noise when every task it owns is Done or Failed.
pub proof fn law_departure_with_open_work_is_action(tasks: Seq<TaskView>, e: Event)
    requires
        e.kind@ == "slave_left"@,
    ensures
        (exists|k: int|
            0 <= k < tasks.len() && tasks[k].owner == e.session_id@ && #[trigger] tasks[k].state
                != TaskState::Done && tasks[k].state != TaskState::Failed) ==> class_of(tasks, e)
            == EventClass::Action,
        (forall|k: int|
            0 <= k < tasks.len() && #[trigger] tasks[k].owner == e.session_id@ ==> tasks[k].state
                == TaskState::Done || tasks[k].state == TaskState::Failed) ==> class_of(tasks, e)
            == EventClass::Noise,
{
    reveal_strlit("slave_left");
    reveal_strlit("blocked");
    reveal_strlit("error");
    reveal_strlit("conflict_reported");
    reveal_strlit("conflict");
    reveal_strlit("rpc_request");
    reveal_strlit("approval_escalation");
    reveal_strlit("done");
    reveal_strlit("task");
    assert(e.kind@.len() == 10);
    assert(!crate::events::is_decision_kind(e.kind@));
    assert(e.kind@ != "task"@);
    if exists|k: int|
        0 <= k < tasks.len() && tasks[k].owner == e.session_id@ && #[trigger] tasks[k].state
            != TaskState::Done && tasks[k].state != TaskState::Failed {
        let k = choose|k: int|
            0 <= k < tasks.len() && tasks[k].owner == e.session_id@ && #[trigger] tasks[k].state
                != TaskState::Done && tasks[k].state != TaskState::Failed;
        assert(crate::tasks::has_unfinished(tasks, e.session_id@));
    }
}

/// A watch that names an exact path fires only for that path: when the
/// event's path is another one (or the event has none), the watch does not
/// match; with no prefix asked for, it matches when the path is the same.
/// A watch with an empty filter matches every event.
pub proof fn law_exact_path_watch(
    filter: crate::watch::WatchFilter,
    event_path: Option<Seq<char>>,
)
    ensures
        filter.path matches Some(p) && event_path != Some(p@) ==> !crate::watch::filter_matches(
            filter,
            event_path,
        ),
        filter.path matches Some(p) && filter.path_prefix is None && event_path == Some(p@)
            ==> crate::watch::filter_matches(filter, event_path),
        filter.path is None && filter.path_prefix is None ==> crate::watch::filter_matches(
            filter,
            event_path,
        ),
{
}

/// A message published on `<root>/status/<sid>`, `<root>/hb/<sid>`,
/// `<root>/registry/<sid>` or `<root>/conflict/<sid>` reaches the handler of
/// its kind, on every node; the route carries `<sid>` (see `route_topic`).
pub proof fn law_sender_topics_reach_their_handler(
    topic: Seq<char>,
    root: Seq<char>,
    kind: Seq<char>,
    sid: Seq<char>,
    self_sid: Seq<char>,
    is_master: bool,
)
    requires
        crate::text::split_seq(topic) == seq![root, kind, sid],
    ensures
        kind == "status"@ ==> crate::topics::route_of(topic, root, self_sid, is_master)
            == crate::topics::Route::Status,
        kind == "hb"@ ==> crate::topics::route_of(topic, root, self_sid, is_master)
            == crate::topics::Route::Hb,
        kind == "registry"@ ==> crate::topics::route_of(topic, root, self_sid, is_master)
            == crate::topics::Route::Registry,
        kind == "conflict"@ ==> crate::topics::route_of(topic, root, self_sid, is_master)
            == crate::topics::Route::Conflict,
{
    reveal_strlit("status");
    reveal_strlit("hb");
    reveal_strlit("registry");
    reveal_strlit("conflict");
    let ps = crate::text::split_seq(topic);
    let rel = ps.drop_first();
    assert(rel =~= seq![kind, sid]);
    assert(ps[0] == root);
    assert("status"@.len() == 6 && "hb"@.len() == 2 && "registry"@.len() == 8
        && "conflict"@.len() == 8);
    assert("registry"@[0] != "conflict"@[0]);
}

} // verus!
