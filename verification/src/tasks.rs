//! Task table and dependency scheduling.
//!
//! A task is created by an `assign` with a declared kind, crate set and
//! file set. Validate tasks depend on every Src/Deps task whose crates meet
//! theirs; a Scheduled task becomes Ready once all its dependencies are Done
//! and, when it touches global shared state, no other such task is active.
use vstd::prelude::*;
use crate::paths::{is_global_path, is_global_shared_path};
use crate::text::{str_eq, views};

verus! {

/// What a task does.
#[derive(Clone, Copy, PartialEq, Eq, Debug, Structural)]
pub enum TaskKind {
    Src,
    Validate,
    Docs,
    Deps,
    Release,
}

/// Where a task is in its life.
#[derive(Clone, Copy, PartialEq, Eq, Debug, Structural)]
pub enum TaskState {
    Scheduled,
    Ready,
    Assigned,
    Working,
    Done,
    Failed,
}

/// One row of the task table.
#[derive(Debug)]
pub struct Task {
    pub id: String,
    pub kind: TaskKind,
    pub target_crates: Vec<String>,
    pub files: Vec<String>,
    pub owner: String,
    pub state: TaskState,
    pub depends_on: Vec<String>,
    pub created_at: u64,
    pub updated_at: u64,
}

/// The mathematical content of a task.
pub struct TaskView {
    pub id: Seq<char>,
    pub kind: TaskKind,
    pub target_crates: Seq<Seq<char>>,
    pub files: Seq<Seq<char>>,
    pub owner: Seq<char>,
    pub state: TaskState,
    pub depends_on: Seq<Seq<char>>,
    pub created_at: u64,
    pub updated_at: u64,
}

impl View for Task {
    type V = TaskView;

    open spec fn view(&self) -> TaskView {
        TaskView {
            id: self.id@,
            kind: self.kind,
            target_crates: views(self.target_crates@),
            files: views(self.files@),
            owner: self.owner@,
            state: self.state,
            depends_on: views(self.depends_on@),
            created_at: self.created_at,
            updated_at: self.updated_at,
        }
    }
}

/// The views of a task table.
pub open spec fn tview(ts: Seq<Task>) -> Seq<TaskView> {
    ts.map_values(|t: Task| t@)
}

/// An automatic `release` control owed to the owner of a Validate task that
/// just became Ready.
#[derive(Debug)]
pub struct Release {
    pub owner: String,
    pub task_id: String,
    /// Why the task is released: `deps_ready`.
    pub reason: String,
    /// What the owner is released to run: `validate`.
    pub kind: String,
}

pub open spec fn kind_name(k: TaskKind) -> Seq<char> {
    match k {
        TaskKind::Src => "Src"@,
        TaskKind::Validate => "Validate"@,
        TaskKind::Docs => "Docs"@,
        TaskKind::Deps => "Deps"@,
        TaskKind::Release => "Release"@,
    }
}

pub open spec fn state_name(s: TaskState) -> Seq<char> {
    match s {
        TaskState::Scheduled => "Scheduled"@,
        TaskState::Ready => "Ready"@,
        TaskState::Assigned => "Assigned"@,
        TaskState::Working => "Working"@,
        TaskState::Done => "Done"@,
        TaskState::Failed => "Failed"@,
    }
}

/// The names `assign` accepts as a task kind.
pub open spec fn is_kind_name(s: Seq<char>) -> bool {
    s == "Src"@ || s == "Validate"@ || s == "Docs"@ || s == "Deps"@ || s == "Release"@
}

/// The names `task_force` accepts as a task state.
pub open spec fn is_state_name(s: Seq<char>) -> bool {
    s == "Scheduled"@ || s == "Ready"@ || s == "Assigned"@ || s == "Working"@ || s == "Done"@
        || s == "Failed"@
}

/// Task state implied by a reported status: `done` -> Done, `error` /
/// `failed` -> Failed, anything else (blocked, conflict, working) -> Working.
pub open spec fn status_to_state(status: Seq<char>) -> TaskState {
    if status == "done"@ {
        TaskState::Done
    } else if status == "error"@ || status == "failed"@ {
        TaskState::Failed
    } else {
        TaskState::Working
    }
}

/// Do two crate lists share a name?
pub open spec fn crates_meet(a: Seq<Seq<char>>, b: Seq<Seq<char>>) -> bool {
    exists|i: int, j: int| 0 <= i < a.len() && 0 <= j < b.len() && a[i] == b[j]
}

/// Ids of the Src/Deps tasks, in table order, whose crates meet `crates`.
pub open spec fn dep_ids(ts: Seq<TaskView>, crates: Seq<Seq<char>>) -> Seq<Seq<char>>
    decreases ts.len(),
{
    if ts.len() == 0 {
        Seq::empty()
    } else {
        let r = dep_ids(ts.drop_last(), crates);
        let t = ts.last();
        if (t.kind == TaskKind::Src || t.kind == TaskKind::Deps) && crates_meet(
            t.target_crates,
            crates,
        ) {
            r.push(t.id)
        } else {
            r
        }
    }
}

/// Every dependency of `t` that is in the table is Done.
pub open spec fn deps_done(ts: Seq<TaskView>, t: TaskView) -> bool {
    forall|d: int, k: int|
        0 <= d < t.depends_on.len() && 0 <= k < ts.len() && #[trigger] ts[k].id
            == #[trigger] t.depends_on[d] ==> ts[k].state == TaskState::Done
}

/// Does the task declare a global shared path among its files?
pub open spec fn touches_global(t: TaskView) -> bool {
    exists|i: int| 0 <= i < t.files.len() && is_global_path(#[trigger] t.files[i])
}

/// Assigned and Working tasks hold their files.
pub open spec fn is_active(s: TaskState) -> bool {
    s == TaskState::Working || s == TaskState::Assigned
}

/// No other task touching global state is active (trivially true when `t`
/// itself touches none).
pub open spec fn serial_free(ts: Seq<TaskView>, t: TaskView) -> bool {
    !touches_global(t) || forall|k: int|
        0 <= k < ts.len() ==> (#[trigger] ts[k]).id == t.id || !touches_global(ts[k])
            || !is_active(ts[k].state)
}

/// A Scheduled task whose dependencies are Done and whose global slot is free.
pub open spec fn promotable(ts: Seq<TaskView>, t: TaskView) -> bool {
    t.state == TaskState::Scheduled && deps_done(ts, t) && serial_free(ts, t)
}

/// `t` moved to Ready at time `now`.
pub open spec fn promoted(t: TaskView, now: u64) -> TaskView {
    TaskView { state: TaskState::Ready, updated_at: now, ..t }
}

/// The table after one scheduling pass.
pub open spec fn after_pass(ts: Seq<TaskView>, now: u64) -> Seq<TaskView> {
    Seq::new(
        ts.len(),
        |i: int|
            if promotable(ts, ts[i]) {
                promoted(ts[i], now)
            } else {
                ts[i]
            },
    )
}

/// Indices (in table order) of the tasks among the first `n` that a pass over
/// `ts` promotes.
pub open spec fn promoted_indices(ts: Seq<TaskView>, n: int) -> Seq<int>
    decreases n,
{
    if n <= 0 {
        Seq::empty()
    } else {
        let r = promoted_indices(ts, n - 1);
        if promotable(ts, ts[n - 1]) {
            r.push(n - 1)
        } else {
            r
        }
    }
}

/// Does `sid` own a task that is neither Done nor Failed?
pub open spec fn has_unfinished(ts: Seq<TaskView>, sid: Seq<char>) -> bool {
    exists|k: int|
        0 <= k < ts.len() && (#[trigger] ts[k]).owner == sid && ts[k].state != TaskState::Done
            && ts[k].state != TaskState::Failed
}

/// Ids are unique in the table.
pub open spec fn ids_unique(ts: Seq<TaskView>) -> bool {
    forall|i: int, j: int|
        0 <= i < ts.len() && 0 <= j < ts.len() && i != j ==> ts[i].id != ts[j].id
}

/// A copy of a list of strings.
pub fn copy_strings(v: &Vec<String>) -> (r: Vec<String>)
    ensures
        r@ == v@,
{
    let mut out: Vec<String> = Vec::new();
    let mut i: usize = 0;
    while i < v.len()
        invariant
            i <= v@.len(),
            out@ == v@.take(i as int),
        decreases v@.len() - i,
    {
        out.push(v[i].clone());
        proof {
            assert(v@.take(i + 1) =~= v@.take(i as int).push(v@[i as int]));
        }
        i = i + 1;
    }
    proof {
        assert(v@.take(v@.len() as int) =~= v@);
    }
    out
}

impl Task {
    /// A copy of the task.
    pub fn copy(&self) -> (r: Task)
        ensures
            r@ == self@,
    {
        let r = Task {
            id: self.id.clone(),
            kind: self.kind,
            target_crates: copy_strings(&self.target_crates),
            files: copy_strings(&self.files),
            owner: self.owner.clone(),
            state: self.state,
            depends_on: copy_strings(&self.depends_on),
            created_at: self.created_at,
            updated_at: self.updated_at,
        };
        r
    }
}

/// The name of a task kind.
pub fn task_kind_name(k: TaskKind) -> (r: String)
    ensures
        r@ == kind_name(k),
{
    match k {
        TaskKind::Src => String::from_str("Src"),
        TaskKind::Validate => String::from_str("Validate"),
        TaskKind::Docs => String::from_str("Docs"),
        TaskKind::Deps => String::from_str("Deps"),
        TaskKind::Release => String::from_str("Release"),
    }
}

/// The name of a task state.
pub fn task_state_name(s: TaskState) -> (r: String)
    ensures
        r@ == state_name(s),
{
    match s {
        TaskState::Scheduled => String::from_str("Scheduled"),
        TaskState::Ready => String::from_str("Ready"),
        TaskState::Assigned => String::from_str("Assigned"),
        TaskState::Working => String::from_str("Working"),
        TaskState::Done => String::from_str("Done"),
        TaskState::Failed => String::from_str("Failed"),
    }
}

/// Is `kind` one of `Src`, `Validate`, `Docs`, `Deps`, `Release`?
pub fn task_kind_valid(kind: &str) -> (r: bool)
    ensures
        r == is_kind_name(kind@),
{
    str_eq(kind, "Src") || str_eq(kind, "Validate") || str_eq(kind, "Docs") || str_eq(
        kind,
        "Deps",
    ) || str_eq(kind, "Release")
}

/// The task kind named `kind`.
pub fn parse_task_kind(kind: &str) -> (r: Option<TaskKind>)
    ensures
        r matches Some(k) ==> kind_name(k) == kind@,
        r is None <==> !is_kind_name(kind@),
{
    if str_eq(kind, "Src") {
        Some(TaskKind::Src)
    } else if str_eq(kind, "Validate") {
        Some(TaskKind::Validate)
    } else if str_eq(kind, "Docs") {
        Some(TaskKind::Docs)
    } else if str_eq(kind, "Deps") {
        Some(TaskKind::Deps)
    } else if str_eq(kind, "Release") {
        Some(TaskKind::Release)
    } else {
        None
    }
}

/// The task state named `state`.
pub fn parse_task_state(state: &str) -> (r: Option<TaskState>)
    ensures
        r matches Some(s) ==> state_name(s) == state@,
        r is None <==> !is_state_name(state@),
{
    if str_eq(state, "Scheduled") {
        Some(TaskState::Scheduled)
    } else if str_eq(state, "Ready") {
        Some(TaskState::Ready)
    } else if str_eq(state, "Assigned") {
        Some(TaskState::Assigned)
    } else if str_eq(state, "Working") {
        Some(TaskState::Working)
    } else if str_eq(state, "Done") {
        Some(TaskState::Done)
    } else if str_eq(state, "Failed") {
        Some(TaskState::Failed)
    } else {
        None
    }
}

/// Map a slave-reported status state onto a task state. `blocked` /
/// `conflict` stay `Working`: the owner is still on the task, just waiting —
/// only a hard error/failure moves the task to `Failed`.
pub fn task_state_from_status(status: &str) -> (r: TaskState)
    ensures
        r == status_to_state(status@),
{
    if str_eq(status, "done") {
        TaskState::Done
    } else if str_eq(status, "error") || str_eq(status, "failed") {
        TaskState::Failed
    } else {
        TaskState::Working
    }
}

/// True when two crate lists overlap (opaque strings; no manifest parsing).
pub fn crates_intersect(a: &Vec<String>, b: &Vec<String>) -> (r: bool)
    ensures
        r == crates_meet(views(a@), views(b@)),
{
    let mut i: usize = 0;
    while i < a.len()
        invariant
            i <= a@.len(),
            forall|x: int, y: int| 0 <= x < i && 0 <= y < b@.len() ==> a@[x]@ != b@[y]@,
        decreases a@.len() - i,
    {
        let mut j: usize = 0;
        while j < b.len()
            invariant
                i < a@.len(),
                j <= b@.len(),
                forall|x: int, y: int| 0 <= x < i && 0 <= y < b@.len() ==> a@[x]@ != b@[y]@,
                forall|y: int| 0 <= y < j ==> a@[i as int]@ != b@[y]@,
            decreases b@.len() - j,
        {
            if a[i] == b[j] {
                proof {
                    assert(views(a@)[i as int] == views(b@)[j as int]);
                }
                return true;
            }
            j = j + 1;
        }
        i = i + 1;
    }
    proof {
        if crates_meet(views(a@), views(b@)) {
            let (x, y) = choose|x: int, y: int|
                0 <= x < views(a@).len() && 0 <= y < views(b@).len() && views(a@)[x] == views(
                    b@,
                )[y];
            assert(a@[x]@ != b@[y]@);
        }
    }
    false
}

/// What a new task waits for: a Validate task waits for every Src/Deps task
/// whose `target_crates` meet its own crates, in table order; a task of any
/// other type waits for none.
pub fn compute_depends_on(tasks: &Vec<Task>, kind: TaskKind, target_crates: &Vec<String>) -> (r:
    Vec<String>)
    ensures
        views(r@) == (if kind == TaskKind::Validate {
            dep_ids(tview(tasks@), views(target_crates@))
        } else {
            Seq::empty()
        }),
{
    let mut out: Vec<String> = Vec::new();
    if kind != TaskKind::Validate {
        proof {
            assert(views(out@) =~= Seq::<Seq<char>>::empty());
        }
        return out;
    }
    let ghost crates = views(target_crates@);
    let ghost all = tview(tasks@);
    let mut i: usize = 0;
    proof {
        assert(all.take(0) =~= Seq::<TaskView>::empty());
        assert(views(out@) =~= Seq::<Seq<char>>::empty());
    }
    while i < tasks.len()
        invariant
            i <= tasks@.len(),
            crates == views(target_crates@),
            all == tview(tasks@),
            views(out@) == dep_ids(all.take(i as int), crates),
        decreases tasks@.len() - i,
    {
        let t = &tasks[i];
        proof {
            assert(all.take(i + 1).drop_last() =~= all.take(i as int));
            assert(all.take(i + 1).last() == t@);
        }
        if (t.kind == TaskKind::Src || t.kind == TaskKind::Deps) && crates_intersect(
            &t.target_crates,
            target_crates,
        ) {
            let ghost before = out@;
            out.push(t.id.clone());
            proof {
                assert(views(out@) =~= views(before).push(t.id@));
            }
        }
        i = i + 1;
    }
    proof {
        assert(all.take(all.len() as int) =~= all);
    }
    out
}

/// All `depends_on` tasks are Done.
pub fn deps_clear(tasks: &Vec<Task>, task: &Task) -> (r: bool)
    ensures
        r == deps_done(tview(tasks@), task@),
{
    let ghost all = tview(tasks@);
    let ghost deps = task@.depends_on;
    let mut d: usize = 0;
    while d < task.depends_on.len()
        invariant
            all == tview(tasks@),
            deps == task@.depends_on,
            d <= deps.len(),
            forall|x: int, k: int|
                0 <= x < d && 0 <= k < all.len() && #[trigger] all[k].id == #[trigger] deps[x]
                    ==> all[k].state == TaskState::Done,
        decreases deps.len() - d,
    {
        let mut k: usize = 0;
        while k < tasks.len()
            invariant
                all == tview(tasks@),
                deps == task@.depends_on,
                d < deps.len(),
                k <= all.len(),
                forall|x: int, k2: int|
                    0 <= x < d && 0 <= k2 < all.len() && #[trigger] all[k2].id == #[trigger] deps[x]
                        ==> all[k2].state == TaskState::Done,
                forall|k2: int|
                    0 <= k2 < k && #[trigger] all[k2].id == deps[d as int] ==> all[k2].state
                        == TaskState::Done,
            decreases all.len() - k,
        {
            if tasks[k].id == task.depends_on[d] && tasks[k].state != TaskState::Done {
                proof {
                    assert(all[k as int].id == deps[d as int]);
                }
                return false;
            }
            k = k + 1;
        }
        d = d + 1;
    }
    true
}

/// Does the task touch global shared state (Cargo.lock, .git, generated dirs,
/// root manifest)?
pub fn task_touches_global(task: &Task) -> (r: bool)
    ensures
        r == touches_global(task@),
{
    let ghost files = task@.files;
    let mut i: usize = 0;
    while i < task.files.len()
        invariant
            files == task@.files,
            i <= files.len(),
            forall|j: int| 0 <= j < i ==> !is_global_path(#[trigger] files[j]),
        decreases files.len() - i,
    {
        if is_global_shared_path(task.files[i].as_str()) {
            assert(is_global_path(files[i as int]));
            return true;
        }
        i = i + 1;
    }
    false
}

/// Global shared state is serial: at most one such task may be Working/Assigned
/// mesh-wide; the rest queue in Scheduled.
pub fn global_serial_free(tasks: &Vec<Task>, task: &Task) -> (r: bool)
    ensures
        r == serial_free(tview(tasks@), task@),
{
    if !task_touches_global(task) {
        return true;
    }
    let ghost all = tview(tasks@);
    let mut k: usize = 0;
    while k < tasks.len()
        invariant
            all == tview(tasks@),
            touches_global(task@),
            k <= all.len(),
            forall|j: int|
                0 <= j < k ==> (#[trigger] all[j]).id == task@.id || !touches_global(all[j])
                    || !is_active(all[j].state),
        decreases all.len() - k,
    {
        let t = &tasks[k];
        if !(t.id == task.id) && task_touches_global(t) && (t.state == TaskState::Working
            || t.state == TaskState::Assigned) {
            assert(all[k as int] == t@);
            return false;
        }
        k = k + 1;
    }
    true
}

/// Does `sid` own any task that is not finished (not Done/Failed)?
pub fn slave_has_unfinished_tasks(tasks: &Vec<Task>, sid: &str) -> (r: bool)
    ensures
        r == has_unfinished(tview(tasks@), sid@),
{
    let ghost all = tview(tasks@);
    let mut k: usize = 0;
    while k < tasks.len()
        invariant
            all == tview(tasks@),
            k <= all.len(),
            forall|j: int|
                0 <= j < k ==> !((#[trigger] all[j]).owner == sid@ && all[j].state
                    != TaskState::Done && all[j].state != TaskState::Failed),
        decreases all.len() - k,
    {
        let t = &tasks[k];
        if str_eq(t.owner.as_str(), sid) && t.state != TaskState::Done && t.state
            != TaskState::Failed {
            assert(all[k as int] == t@);
            return true;
        }
        k = k + 1;
    }
    false
}

/// Two tables that agree on ids, files and on which tasks are Done or active
/// give every task the same promotability.
proof fn lemma_promotable_stable(a: Seq<TaskView>, b: Seq<TaskView>, t: TaskView)
    requires
        a.len() == b.len(),
        forall|k: int|
            0 <= k < a.len() ==> (#[trigger] a[k]).id == b[k].id && a[k].files == b[k].files
                && (a[k].state == TaskState::Done) == (b[k].state == TaskState::Done) && is_active(
                a[k].state,
            ) == is_active(b[k].state),
    ensures
        promotable(a, t) == promotable(b, t),
{
    assert forall|k: int| 0 <= k < a.len() implies touches_global(a[k]) == touches_global(
        b[k],
    ) by {
        assert(a[k].files == b[k].files);
    }
    if deps_done(a, t) {
        assert forall|d: int, k: int|
            0 <= d < t.depends_on.len() && 0 <= k < b.len() && #[trigger] b[k].id
                == #[trigger] t.depends_on[d] implies b[k].state == TaskState::Done by {
            assert(a[k].id == t.depends_on[d]);
        }
    }
    if deps_done(b, t) {
        assert forall|d: int, k: int|
            0 <= d < t.depends_on.len() && 0 <= k < a.len() && #[trigger] a[k].id
                == #[trigger] t.depends_on[d] implies a[k].state == TaskState::Done by {
            assert(b[k].id == t.depends_on[d]);
        }
    }
    if serial_free(a, t) && touches_global(t) {
        assert forall|k: int| 0 <= k < b.len() implies (#[trigger] b[k]).id == t.id
            || !touches_global(b[k]) || !is_active(b[k].state) by {
            assert(a[k].id == t.id || !touches_global(a[k]) || !is_active(a[k].state));
        }
    }
    if serial_free(b, t) && touches_global(t) {
        assert forall|k: int| 0 <= k < a.len() implies (#[trigger] a[k]).id == t.id
            || !touches_global(a[k]) || !is_active(a[k].state) by {
            assert(b[k].id == t.id || !touches_global(b[k]) || !is_active(b[k].state));
        }
    }
}

/// One scheduling pass: every Scheduled task whose dependencies are Done and
/// whose global slot is free becomes Ready (stamped `now`). Returns the
/// promoted tasks (after promotion) in table order.
pub fn promote_ready(tasks: &mut Vec<Task>, now: u64) -> (r: Vec<Task>)
    ensures
        tview(final(tasks)@) == after_pass(tview(old(tasks)@), now),
        tview(r@) == promoted_indices(tview(old(tasks)@), old(tasks)@.len() as int).map_values(
            |k: int| promoted(tview(old(tasks)@)[k], now),
        ),
{
    let ghost orig = tview(tasks@);
    let mut out: Vec<Task> = Vec::new();
    let n = tasks.len();
    let mut i: usize = 0;
    proof {
        assert(tview(out@) =~= promoted_indices(orig, 0).map_values(
            |k: int| promoted(orig[k], now),
        ));
    }
    while i < n
        invariant
            n == orig.len(),
            tasks@.len() == n,
            i <= n,
            forall|k: int|
                0 <= k < i ==> #[trigger] tview(tasks@)[k] == (if promotable(orig, orig[k]) {
                    promoted(orig[k], now)
                } else {
                    orig[k]
                }),
            forall|k: int| i <= k < n ==> #[trigger] tview(tasks@)[k] == orig[k],
            tview(out@) == promoted_indices(orig, i as int).map_values(
                |k: int| promoted(orig[k], now),
            ),
        decreases n - i,
    {
        proof {
            let cur = tview(tasks@);
            assert forall|k: int| 0 <= k < n implies (#[trigger] cur[k]).id == orig[k].id
                && cur[k].files == orig[k].files && (cur[k].state == TaskState::Done) == (
            orig[k].state == TaskState::Done) && is_active(cur[k].state) == is_active(
                orig[k].state,
            ) by {
                if k < i && promotable(orig, orig[k]) {
                    assert(orig[k].state == TaskState::Scheduled);
                }
            }
            lemma_promotable_stable(cur, orig, orig[i as int]);
            assert(cur[i as int] == tasks@[i as int]@);
        }
        let promote = tasks[i].state == TaskState::Scheduled && deps_clear(&tasks, &tasks[i])
            && global_serial_free(&tasks, &tasks[i]);
        if promote {
            let mut t = tasks[i].copy();
            t.state = TaskState::Ready;
            t.updated_at = now;
            let c = t.copy();
            let ghost before_out = out@;
            let ghost before_tasks = tasks@;
            tasks.set(i, t);
            out.push(c);
            proof {
                assert(tview(out@) =~= tview(before_out).push(promoted(orig[i as int], now)));
                assert(promoted_indices(orig, i + 1) == promoted_indices(orig, i as int).push(
                    i as int,
                ));
                assert(promoted_indices(orig, i + 1).map_values(|k: int| promoted(orig[k], now))
                    =~= promoted_indices(orig, i as int).map_values(
                    |k: int| promoted(orig[k], now),
                ).push(promoted(orig[i as int], now)));
                assert forall|k: int| 0 <= k < n && k != i implies #[trigger] tview(tasks@)[k]
                    == tview(before_tasks)[k] by {}
            }
        } else {
            proof {
                assert(promoted_indices(orig, i + 1) == promoted_indices(orig, i as int));
            }
        }
        i = i + 1;
    }
    proof {
        assert(tview(tasks@) =~= after_pass(orig, now));
    }
    out
}

/// After a pass no task is promotable any more: a second pass changes nothing.
pub proof fn lemma_pass_idempotent(ts: Seq<TaskView>, now: u64)
    ensures
        forall|k: int|
            0 <= k < ts.len() ==> !promotable(after_pass(ts, now), #[trigger] after_pass(ts, now)[k]),
        after_pass(after_pass(ts, now), now) == after_pass(ts, now),
{
    let a = after_pass(ts, now);
    assert forall|k: int| 0 <= k < a.len() implies (#[trigger] a[k]).id == ts[k].id
        && a[k].files == ts[k].files && (a[k].state == TaskState::Done) == (ts[k].state
        == TaskState::Done) && is_active(a[k].state) == is_active(ts[k].state) by {}
    assert forall|k: int| 0 <= k < ts.len() implies !promotable(a, #[trigger] a[k]) by {
        lemma_promotable_stable(a, ts, a[k]);
        if promotable(ts, ts[k]) {
            assert(a[k].state == TaskState::Ready);
        } else {
            assert(a[k] == ts[k]);
        }
    }
    assert(after_pass(a, now) =~= a);
}

} // verus!
