//! Restoring the coordination state a node persisted (`state.json`): the
//! task table, the zone registry, the conflict history, approval
//! escalations and traces, the digest high-water mark and the event counter.
//! Reading and writing the file happen at the edge.
use vstd::prelude::*;
use crate::approval::{Approval, Escalation};
use crate::conflicts::{
    conflict_index, conflicts_unique, cview, has_conflict, put_conflict, Conflict, ConflictView,
};
use crate::state::{approvals_unique, has_approval, has_task, put_approval, put_task, State};
use crate::tasks::{ids_unique, tview, Task, TaskView};
use crate::zones::{adopt_zones, has_zone, paths_unique, put_all, zview, Zone, ZoneView};

verus! {

/// The table made of `inc`, task by task (a later task with a taken id
/// replaces the earlier one in place).
pub open spec fn put_tasks(ts: Seq<TaskView>, inc: Seq<TaskView>) -> Seq<TaskView>
    decreases inc.len(),
{
    if inc.len() == 0 {
        ts
    } else {
        put_task(put_tasks(ts, inc.drop_last()), inc.last())
    }
}

/// The history made of `inc`, report by report.
pub open spec fn put_conflicts(cs: Seq<ConflictView>, inc: Seq<ConflictView>) -> Seq<ConflictView>
    decreases inc.len(),
{
    if inc.len() == 0 {
        cs
    } else {
        put_conflict(put_conflicts(cs, inc.drop_last()), inc.last())
    }
}

/// The traces made of `inc`, trace by trace.
pub open spec fn put_approvals(a: Seq<Approval>, inc: Seq<Approval>) -> Seq<Approval>
    decreases inc.len(),
{
    if inc.len() == 0 {
        a
    } else {
        put_approval(put_approvals(a, inc.drop_last()), inc.last())
    }
}

/// A table without repeated ids is rebuilt as it is.
pub proof fn lemma_put_tasks_unique(inc: Seq<TaskView>)
    requires
        ids_unique(inc),
    ensures
        put_tasks(Seq::empty(), inc) == inc,
    decreases inc.len(),
{
    if inc.len() > 0 {
        let d = inc.drop_last();
        assert(ids_unique(d)) by {
            assert forall|i: int, j: int| 0 <= i < d.len() && 0 <= j < d.len() && i != j implies d[i].id
                != d[j].id by {
                assert(d[i] == inc[i] && d[j] == inc[j]);
            }
        }
        lemma_put_tasks_unique(d);
        if has_task(d, inc.last().id) {
            let k = choose|k: int| 0 <= k < d.len() && d[k].id == inc.last().id;
            assert(d[k] == inc[k]);
            assert(false);
        }
        assert(d.push(inc.last()) =~= inc);
    }
}

/// A registry without repeated paths is rebuilt as it is.
pub proof fn lemma_put_all_unique(inc: Seq<ZoneView>)
    requires
        paths_unique(inc),
    ensures
        put_all(Seq::empty(), inc) == inc,
    decreases inc.len(),
{
    if inc.len() > 0 {
        let d = inc.drop_last();
        assert(paths_unique(d)) by {
            assert forall|i: int, j: int| 0 <= i < d.len() && 0 <= j < d.len() && i != j implies d[i].path
                != d[j].path by {
                assert(d[i] == inc[i] && d[j] == inc[j]);
            }
        }
        lemma_put_all_unique(d);
        if has_zone(d, inc.last().path) {
            let k = choose|k: int| 0 <= k < d.len() && d[k].path == inc.last().path;
            assert(d[k] == inc[k]);
            assert(false);
        }
        assert(d.push(inc.last()) =~= inc);
    }
}

/// A history without repeated ids is rebuilt as it is.
pub proof fn lemma_put_conflicts_unique(inc: Seq<ConflictView>)
    requires
        conflicts_unique(inc),
    ensures
        put_conflicts(Seq::empty(), inc) == inc,
    decreases inc.len(),
{
    if inc.len() > 0 {
        let d = inc.drop_last();
        assert(conflicts_unique(d)) by {
            assert forall|i: int, j: int| 0 <= i < d.len() && 0 <= j < d.len() && i != j implies d[i].id
                != d[j].id by {
                assert(d[i] == inc[i] && d[j] == inc[j]);
            }
        }
        lemma_put_conflicts_unique(d);
        if has_conflict(d, inc.last().id) {
            let k = choose|k: int| 0 <= k < d.len() && d[k].id == inc.last().id;
            assert(d[k] == inc[k]);
            assert(false);
        }
        assert(d.push(inc.last()) =~= inc);
    }
}

/// Traces without repeated request ids are rebuilt as they are.
pub proof fn lemma_put_approvals_unique(inc: Seq<Approval>)
    requires
        approvals_unique(inc),
    ensures
        put_approvals(Seq::empty(), inc) == inc,
    decreases inc.len(),
{
    if inc.len() > 0 {
        let d = inc.drop_last();
        assert(approvals_unique(d)) by {
            assert forall|i: int, j: int| 0 <= i < d.len() && 0 <= j < d.len() && i != j implies d[i].req_id@
                != d[j].req_id@ by {
                assert(d[i] == inc[i] && d[j] == inc[j]);
            }
        }
        lemma_put_approvals_unique(d);
        if has_approval(d, inc.last().req_id@) {
            let k = choose|k: int| 0 <= k < d.len() && d[k].req_id@ == inc.last().req_id@;
            assert(d[k] == inc[k]);
            assert(false);
        }
        assert(d.push(inc.last()) =~= inc);
    }
}

/// The report kept under `id` in a history.
pub open spec fn report_for(cs: Seq<ConflictView>, id: Seq<char>) -> ConflictView {
    cs[conflict_index(cs, id)]
}

/// Recording one report keeps ids unique, keeps it under its id, and leaves
/// every other id as it was.
pub proof fn lemma_put_conflict_facts(cs: Seq<ConflictView>, c: ConflictView)
    requires
        conflicts_unique(cs),
    ensures
        conflicts_unique(put_conflict(cs, c)),
        has_conflict(put_conflict(cs, c), c.id),
        report_for(put_conflict(cs, c), c.id) == c,
        forall|id: Seq<char>|
            id != c.id ==> (has_conflict(put_conflict(cs, c), id) == has_conflict(cs, id) && (has_conflict(
                cs,
                id,
            ) ==> #[trigger] report_for(put_conflict(cs, c), id) == report_for(cs, id))),
{
    let r = put_conflict(cs, c);
    let p = if has_conflict(cs, c.id) {
        conflict_index(cs, c.id)
    } else {
        cs.len() as int
    };
    assert(r[p] == c);
    assert(forall|j: int| 0 <= j < r.len() && j != p ==> r[j] == cs[j]);
    assert forall|i: int, j: int| 0 <= i < r.len() && 0 <= j < r.len() && i != j implies r[i].id
        != r[j].id by {
        if i != p && j != p {
            assert(r[i] == cs[i] && r[j] == cs[j]);
        } else if i == p {
            assert(r[j] == cs[j]);
            if p < cs.len() {
                assert(cs[j].id != cs[p].id);
            }
        } else {
            assert(r[i] == cs[i]);
            if p < cs.len() {
                assert(cs[i].id != cs[p].id);
            }
        }
    }
    let q = conflict_index(r, c.id);
    assert(r[q].id == c.id);
    assert(q == p);
    assert forall|id: Seq<char>| id != c.id implies (has_conflict(r, id) == has_conflict(cs, id) && (
    has_conflict(cs, id) ==> #[trigger] report_for(r, id) == report_for(cs, id))) by {
        if has_conflict(cs, id) {
            let k = conflict_index(cs, id);
            assert(k != p);
            assert(r[k] == cs[k]);
            let k2 = conflict_index(r, id);
            assert(r[k2].id == id);
            if k2 != k {
                assert(k2 != p);
                assert(r[k2] == cs[k2]);
            }
        }
        if has_conflict(r, id) {
            let k2 = conflict_index(r, id);
            assert(k2 != p);
            assert(r[k2] == cs[k2]);
        }
    }
}

/// Recording reports one list after another is recording the two lists
/// joined.
pub proof fn lemma_put_conflicts_append(x: Seq<ConflictView>, a: Seq<ConflictView>, b: Seq<ConflictView>)
    ensures
        put_conflicts(x, a + b) == put_conflicts(put_conflicts(x, a), b),
    decreases b.len(),
{
    if b.len() == 0 {
        assert(a + b =~= a);
    } else {
        assert((a + b).drop_last() =~= a + b.drop_last());
        assert((a + b).last() == b.last());
        lemma_put_conflicts_append(x, a, b.drop_last());
    }
}

/// Recording reports keeps ids unique.
pub proof fn lemma_put_conflicts_unique_ids(x: Seq<ConflictView>, b: Seq<ConflictView>)
    requires
        conflicts_unique(x),
    ensures
        conflicts_unique(put_conflicts(x, b)),
    decreases b.len(),
{
    if b.len() > 0 {
        lemma_put_conflicts_unique_ids(x, b.drop_last());
        lemma_put_conflict_facts(put_conflicts(x, b.drop_last()), b.last());
    }
}

/// Recording reports with distinct ids over a history: each of them is kept
/// under its id, and every earlier report whose id none of them takes stays.
pub proof fn lemma_overlay(x: Seq<ConflictView>, b: Seq<ConflictView>)
    requires
        conflicts_unique(x),
        conflicts_unique(b),
    ensures
        conflicts_unique(put_conflicts(x, b)),
        forall|k: int|
            0 <= k < b.len() ==> has_conflict(put_conflicts(x, b), b[k].id) && #[trigger] report_for(
                put_conflicts(x, b),
                b[k].id,
            ) == b[k],
        forall|j: int|
            0 <= j < x.len() && (forall|k: int| 0 <= k < b.len() ==> b[k].id != x[j].id) ==> has_conflict(
                put_conflicts(x, b),
                x[j].id,
            ) && #[trigger] report_for(put_conflicts(x, b), x[j].id) == x[j],
    decreases b.len(),
{
    lemma_put_conflicts_unique_ids(x, b);
    if b.len() == 0 {
        assert forall|j: int| 0 <= j < x.len() implies has_conflict(x, x[j].id) && #[trigger] report_for(
            x,
            x[j].id,
        ) == x[j] by {
            let k = conflict_index(x, x[j].id);
            assert(x[k].id == x[j].id);
        }
    } else {
        let d = b.drop_last();
        let c = b.last();
        assert(conflicts_unique(d)) by {
            assert forall|i: int, j: int| 0 <= i < d.len() && 0 <= j < d.len() && i != j implies d[i].id
                != d[j].id by {
                assert(d[i] == b[i] && d[j] == b[j]);
            }
        }
        lemma_overlay(x, d);
        let m = put_conflicts(x, d);
        lemma_put_conflict_facts(m, c);
        assert forall|k: int| 0 <= k < b.len() implies has_conflict(put_conflicts(x, b), b[k].id)
            && #[trigger] report_for(put_conflicts(x, b), b[k].id) == b[k] by {
            if k < d.len() {
                assert(b[k] == d[k]);
                assert(b[k].id != c.id);
                assert(report_for(m, d[k].id) == d[k]);
            }
        }
        assert forall|j: int|
            0 <= j < x.len() && (forall|k: int| 0 <= k < b.len() ==> b[k].id != x[j].id) implies has_conflict(
            put_conflicts(x, b),
            x[j].id,
        ) && #[trigger] report_for(put_conflicts(x, b), x[j].id) == x[j] by {
            assert forall|k: int| 0 <= k < d.len() implies d[k].id != x[j].id by {
                assert(d[k] == b[k]);
            }
            assert(c.id != x[j].id) by {
                assert(c == b[b.len() - 1]);
            }
            assert(report_for(m, x[j].id) == x[j]);
        }
    }
}

impl State {
    /// The state restored from persisted parts. Conflicts are given oldest
    /// source first (the legacy `conflicts.json`, then `state.json`), so a
    /// later report with the same id wins; tasks, zones and traces keep one
    /// entry per key, the last given.
    pub fn restore(
        master_sid: Option<String>,
        tasks: Vec<Task>,
        zones: Vec<Zone>,
        conflicts: Vec<Conflict>,
        escalations: Vec<Escalation>,
        approvals: Vec<Approval>,
        last_digest_ts: u64,
        event_seq: u64,
    ) -> (r: State)
        ensures
            r.wf(),
            tview(r.tasks@) == put_tasks(Seq::empty(), tview(tasks@)),
            zview(r.zones@) == put_all(Seq::empty(), zview(zones@)),
            cview(r.conflicts@) == put_conflicts(Seq::empty(), cview(conflicts@)),
            r.escalations@ == escalations@,
            r.approvals@ == put_approvals(Seq::empty(), approvals@),
            r.events@.len() == 0,
            r.watches@.len() == 0,
            r.pending@.len() == 0,
            r.rpc_meta@.len() == 0,
            r.registry@.len() == 0,
            r.last_digest_ts == last_digest_ts,
            r.event_seq == event_seq,
            r.master_sid == master_sid,
    {
        let mut s = State::new(master_sid);
        proof {
            assert(tview(s.tasks@) =~= Seq::<TaskView>::empty());
            assert(cview(s.conflicts@) =~= Seq::<ConflictView>::empty());
            assert(s.approvals@ =~= Seq::<Approval>::empty());
        }
        let ghost tv = tview(tasks@);
        let mut src = tasks;
        let total = src.len();
        let mut i: usize = 0;
        while src.len() > 0
            invariant
                s.wf(),
                i <= tv.len(),
                tv.len() == total,
                src@.len() + i == tv.len(),
                tview(src@) == tv.skip(i as int),
                tview(s.tasks@) == put_tasks(Seq::empty(), tv.take(i as int)),
                s.events@.len() == 0,
                s.zones@.len() == 0,
                s.conflicts@.len() == 0,
                s.approvals@.len() == 0,
                s.escalations@.len() == 0,
                s.watches@.len() == 0,
                s.pending@.len() == 0,
                s.rpc_meta@.len() == 0,
                s.registry@.len() == 0,
                s.master_sid == master_sid,
                s.event_seq == 0,
                s.last_digest_ts == 0,
            decreases src@.len(),
        {
            let ghost s0 = src@;
            proof {
                assert(tview(s0)[0] == s0[0]@);
            }
            let t = src.remove(0);
            proof {
                assert(t@ == tv[i as int]);
                assert(tv.take(i + 1).drop_last() =~= tv.take(i as int));
                assert(src@ =~= s0.drop_first());
                assert(tview(src@) =~= tview(s0).drop_first());
            }
            s.put_task(t);
            i = i + 1;
        }
        proof {
            assert(tv.take(tv.len() as int) =~= tv);
        }
        s.zones = adopt_zones(zones);
        let ghost cv = cview(conflicts@);
        let mut csrc = conflicts;
        let ctotal = csrc.len();
        let mut j: usize = 0;
        while csrc.len() > 0
            invariant
                s.wf(),
                j <= cv.len(),
                cv.len() == ctotal,
                csrc@.len() + j == cv.len(),
                cview(csrc@) == cv.skip(j as int),
                cview(s.conflicts@) == put_conflicts(Seq::empty(), cv.take(j as int)),
                tview(s.tasks@) == put_tasks(Seq::empty(), tv),
                zview(s.zones@) == put_all(Seq::empty(), zview(zones@)),
                s.events@.len() == 0,
                s.approvals@.len() == 0,
                s.escalations@.len() == 0,
                s.watches@.len() == 0,
                s.pending@.len() == 0,
                s.rpc_meta@.len() == 0,
                s.registry@.len() == 0,
                s.master_sid == master_sid,
                s.event_seq == 0,
                s.last_digest_ts == 0,
            decreases csrc@.len(),
        {
            let ghost s0 = csrc@;
            proof {
                assert(cview(s0)[0] == s0[0]@);
            }
            let c = csrc.remove(0);
            proof {
                assert(c@ == cv[j as int]);
                assert(cv.take(j + 1).drop_last() =~= cv.take(j as int));
                assert(csrc@ =~= s0.drop_first());
                assert(cview(csrc@) =~= cview(s0).drop_first());
            }
            s.record_conflict(c);
            j = j + 1;
        }
        proof {
            assert(cv.take(cv.len() as int) =~= cv);
        }
        let ghost av = approvals@;
        let mut asrc = approvals;
        let atotal = asrc.len();
        let mut k: usize = 0;
        while asrc.len() > 0
            invariant
                s.wf(),
                k <= av.len(),
                av.len() == atotal,
                asrc@.len() + k == av.len(),
                asrc@ == av.skip(k as int),
                s.approvals@ == put_approvals(Seq::empty(), av.take(k as int)),
                cview(s.conflicts@) == put_conflicts(Seq::empty(), cv),
                tview(s.tasks@) == put_tasks(Seq::empty(), tv),
                zview(s.zones@) == put_all(Seq::empty(), zview(zones@)),
                s.events@.len() == 0,
                s.escalations@.len() == 0,
                s.watches@.len() == 0,
                s.pending@.len() == 0,
                s.rpc_meta@.len() == 0,
                s.registry@.len() == 0,
                s.master_sid == master_sid,
                s.event_seq == 0,
                s.last_digest_ts == 0,
            decreases asrc@.len(),
        {
            let ghost s0 = asrc@;
            let a = asrc.remove(0);
            proof {
                assert(a == av[k as int]);
                assert(av.take(k + 1).drop_last() =~= av.take(k as int));
                assert(asrc@ =~= av.skip(k + 1));
            }
            s.put_approval(a);
            k = k + 1;
        }
        proof {
            assert(av.take(av.len() as int) =~= av);
        }
        s.escalations = escalations;
        s.last_digest_ts = last_digest_ts;
        s.event_seq = event_seq;
        s
    }
}

} // verus!
