//! The five-level `may_i_touch` impact check and approval records.
//!
//! Auto-approval covers only risk-free requests: files nobody else claims,
//! no shared global state, no neighbour of another owner's work and no
//! conflict history — or a repeat by the owner who already holds them.
//! Everything risky is escalated to the master agent.
use vstd::prelude::*;
use crate::conflicts::{conflict_paths, conflict_paths_of, cview, Conflict, ConflictView};
use crate::paths::{
    is_global_path, is_global_shared_path, is_workspace_crate_src, parent_dir, parent_dir_of,
    top_components, top_of, workspace_crate_src,
};
use crate::tasks::{copy_strings, is_active, tview, Task, TaskState, TaskView};
use crate::text::{starts_with, views};
use crate::zones::{zview, Zone, ZoneView};

verus! {

/// Answer of the impact check.
#[derive(Clone, Copy, PartialEq, Eq, Debug, Structural)]
pub enum MayIResult {
    AutoApproved,
    Denied,
    Escalated { level: u8 },
}

/// The master agent's answer to an escalation.
#[derive(Clone, Copy, PartialEq, Eq, Debug, Structural)]
pub enum Decision {
    Approve,
    Deny,
    Queue,
}

/// An escalated `may_i_touch` request awaiting `approval_decide`.
#[derive(Debug)]
pub struct Escalation {
    pub req_id: String,
    pub files: Vec<String>,
    pub owner: String,
    pub level: u8,
    pub reason: String,
    pub reply_to: Option<String>,
    pub ts: u64,
}

/// An approval trace: an automatic approval, or the outcome of a decision.
#[derive(Debug)]
pub struct Approval {
    pub req_id: String,
    pub files: Vec<String>,
    pub owner: String,
    pub level: u8,
    /// Approved by the impact check without the agent.
    pub auto_approved: bool,
    pub approved: bool,
    /// The agent's decision, for decided escalations.
    pub decision: Option<Decision>,
    pub ts: u64,
}

impl Escalation {
    /// A copy of the escalation.
    pub fn copy(&self) -> (r: Escalation)
        ensures
            r.req_id@ == self.req_id@,
            views(r.files@) == views(self.files@),
            r.owner@ == self.owner@,
            r.level == self.level,
            r.reason@ == self.reason@,
            r.reply_to == self.reply_to,
            r.ts == self.ts,
    {
        Escalation {
            req_id: self.req_id.clone(),
            files: copy_strings(&self.files),
            owner: self.owner.clone(),
            level: self.level,
            reason: self.reason.clone(),
            reply_to: match &self.reply_to {
                Some(r) => Some(r.clone()),
                None => None,
            },
            ts: self.ts,
        }
    }
}

/// Does the task declare file `f`?
pub open spec fn has_file(t: TaskView, f: Seq<char>) -> bool {
    t.files.contains(f)
}

/// A zone on exactly `f` held by someone other than `owner`.
pub open spec fn zone_claims_other(zs: Seq<ZoneView>, f: Seq<char>, owner: Seq<char>) -> bool {
    exists|z: int|
        0 <= z < zs.len() && #[trigger] zs[z].path == f && zs[z].owner.len() > 0 && zs[z].owner
            != owner
}

/// An active task of another owner declares exactly `f`.
pub open spec fn task_claims_other(ts: Seq<TaskView>, f: Seq<char>, owner: Seq<char>) -> bool {
    exists|k: int|
        0 <= k < ts.len() && is_active(ts[k].state) && ts[k].owner != owner && has_file(
            #[trigger] ts[k],
            f,
        )
}

/// Level 1: some requested file is claimed exactly by another owner.
pub open spec fn exact_claim(
    zs: Seq<ZoneView>,
    ts: Seq<TaskView>,
    files: Seq<Seq<char>>,
    owner: Seq<char>,
) -> bool {
    exists|i: int|
        0 <= i < files.len() && (zone_claims_other(zs, #[trigger] files[i], owner)
            || task_claims_other(ts, files[i], owner))
}

/// `owner` already holds `f`: a zone on it, or one of its tasks declares it.
pub open spec fn owned_spec(zs: Seq<ZoneView>, ts: Seq<TaskView>, f: Seq<char>, owner: Seq<char>) -> bool {
    (exists|z: int| 0 <= z < zs.len() && #[trigger] zs[z].path == f && zs[z].owner == owner)
        || (exists|k: int| 0 <= k < ts.len() && ts[k].owner == owner && has_file(#[trigger] ts[k], f))
}

/// `g` is claimed by an owner other than `owner` (zone or active task).
pub open spec fn claimed_by_other(
    zs: Seq<ZoneView>,
    ts: Seq<TaskView>,
    owner: Seq<char>,
    g: Seq<char>,
) -> bool {
    zone_claims_other(zs, g, owner) || task_claims_other(ts, g, owner)
}

/// Same module: same parent directory or same first two components.
pub open spec fn same_module(f: Seq<char>, g: Seq<char>) -> bool {
    g != f && (parent_dir_of(g) == parent_dir_of(f) || top_of(g, 2) == top_of(f, 2))
}

/// Workspace neighbours: different crates of one workspace container.
pub open spec fn workspace_neighbor(f: Seq<char>, g: Seq<char>) -> bool {
    g != f && top_of(g, 1) == top_of(f, 1) && top_of(g, 2) != top_of(f, 2)
        && is_workspace_crate_src(g) && is_workspace_crate_src(f)
}

/// `f` and `c` are the same path or one lies under the other.
pub open spec fn overlaps(f: Seq<char>, c: Seq<char>) -> bool {
    f == c || c.push('/').is_prefix_of(f) || f.push('/').is_prefix_of(c)
}

pub open spec fn level2_hit(
    zs: Seq<ZoneView>,
    ts: Seq<TaskView>,
    files: Seq<Seq<char>>,
    owner: Seq<char>,
) -> bool {
    exists|i: int, g: Seq<char>|
        0 <= i < files.len() && claimed_by_other(zs, ts, owner, g) && #[trigger] same_module(
            files[i],
            g,
        )
}

pub open spec fn level3_hit(
    zs: Seq<ZoneView>,
    ts: Seq<TaskView>,
    files: Seq<Seq<char>>,
    owner: Seq<char>,
) -> bool {
    exists|i: int, g: Seq<char>|
        0 <= i < files.len() && claimed_by_other(zs, ts, owner, g) && #[trigger] workspace_neighbor(
            files[i],
            g,
        )
}

pub open spec fn level5_hit(cs: Seq<ConflictView>, files: Seq<Seq<char>>) -> bool {
    exists|i: int, j: int|
        0 <= i < files.len() && 0 <= j < conflict_paths_of(cs).len() && #[trigger] overlaps(
            files[i],
            conflict_paths_of(cs)[j],
        )
}

/// The five-level impact check, in order: empty request -> approved;
/// level 1 exact claim -> denied; level 4 global state -> escalated; a
/// same-owner repeat -> approved; level 2 same module, level 3 workspace
/// neighbour, level 5 conflict history -> escalated; otherwise approved.
pub open spec fn may_i_spec(
    zs: Seq<ZoneView>,
    ts: Seq<TaskView>,
    cs: Seq<ConflictView>,
    files: Seq<Seq<char>>,
    owner: Seq<char>,
) -> MayIResult {
    if files.len() == 0 {
        MayIResult::AutoApproved
    } else if exact_claim(zs, ts, files, owner) {
        MayIResult::Denied
    } else if exists|i: int| 0 <= i < files.len() && is_global_path(#[trigger] files[i]) {
        MayIResult::Escalated { level: 4 }
    } else if forall|i: int| 0 <= i < files.len() ==> owned_spec(zs, ts, #[trigger] files[i], owner) {
        MayIResult::AutoApproved
    } else if level2_hit(zs, ts, files, owner) {
        MayIResult::Escalated { level: 2 }
    } else if level3_hit(zs, ts, files, owner) {
        MayIResult::Escalated { level: 3 }
    } else if level5_hit(cs, files) {
        MayIResult::Escalated { level: 5 }
    } else {
        MayIResult::AutoApproved
    }
}

fn contains_str(v: &Vec<String>, s: &String) -> (r: bool)
    ensures
        r == views(v@).contains(s@),
{
    let mut i: usize = 0;
    while i < v.len()
        invariant
            i <= v@.len(),
            forall|j: int| 0 <= j < i ==> v@[j]@ != s@,
        decreases v@.len() - i,
    {
        if v[i] == *s {
            proof {
                assert(views(v@)[i as int] == s@);
            }
            return true;
        }
        i = i + 1;
    }
    proof {
        if views(v@).contains(s@) {
            let j = choose|j: int| 0 <= j < views(v@).len() && views(v@)[j] == s@;
            assert(v@[j]@ == s@);
        }
    }
    false
}

/// Does the task declare file `f`?
pub fn task_has_file(t: &Task, f: &String) -> (r: bool)
    ensures
        r == has_file(t@, f@),
{
    contains_str(&t.files, f)
}

/// Is `f` already claimed by `owner` (its zone, or any of its task files)?
pub fn owned_by(zones: &Vec<Zone>, tasks: &Vec<Task>, f: &String, owner: &String) -> (r: bool)
    ensures
        r == owned_spec(zview(zones@), tview(tasks@), f@, owner@),
{
    let ghost zs = zview(zones@);
    let ghost ts = tview(tasks@);
    let mut z: usize = 0;
    while z < zones.len()
        invariant
            zs == zview(zones@),
            z <= zs.len(),
            forall|j: int| 0 <= j < z ==> !(#[trigger] zs[j].path == f@ && zs[j].owner == owner@),
        decreases zs.len() - z,
    {
        if zones[z].path == *f && zones[z].owner == *owner {
            assert(zs[z as int].path == f@);
            return true;
        }
        z = z + 1;
    }
    let mut k: usize = 0;
    while k < tasks.len()
        invariant
            ts == tview(tasks@),
            zs == zview(zones@),
            k <= ts.len(),
            !(exists|j: int| 0 <= j < zs.len() && #[trigger] zs[j].path == f@ && zs[j].owner == owner@),
            forall|j: int| 0 <= j < k ==> !(ts[j].owner == owner@ && has_file(#[trigger] ts[j], f@)),
        decreases ts.len() - k,
    {
        if tasks[k].owner == *owner && task_has_file(&tasks[k], f) {
            assert(has_file(ts[k as int], f@));
            return true;
        }
        k = k + 1;
    }
    false
}

/// Every path claimed by an owner other than `owner`: zones they hold and the
/// files of their active tasks.
pub fn other_claimed_paths(zones: &Vec<Zone>, tasks: &Vec<Task>, owner: &String) -> (r: Vec<String>)
    ensures
        forall|g: Seq<char>|
            views(r@).contains(g) <==> claimed_by_other(zview(zones@), tview(tasks@), owner@, g),
{
    let ghost zs = zview(zones@);
    let ghost ts = tview(tasks@);
    let mut out: Vec<String> = Vec::new();
    let mut z: usize = 0;
    while z < zones.len()
        invariant
            zs == zview(zones@),
            z <= zs.len(),
            forall|g: Seq<char>|
                views(out@).contains(g) <==> exists|j: int|
                    0 <= j < z && #[trigger] zs[j].path == g && zs[j].owner.len() > 0
                        && zs[j].owner != owner@,
        decreases zs.len() - z,
    {
        let hit = zones[z].owner.unicode_len() > 0 && !(zones[z].owner == *owner);
        let ghost before = out@;
        if hit {
            out.push(zones[z].path.clone());
        }
        proof {
            let pz = zs[z as int].path;
            if hit {
                assert(views(out@) =~= views(before).push(pz));
            } else {
                assert(views(out@) == views(before));
            }
            assert forall|g: Seq<char>| views(out@).contains(g) <==> exists|j: int|
                0 <= j < z + 1 && #[trigger] zs[j].path == g && zs[j].owner.len() > 0
                    && zs[j].owner != owner@ by {
                if views(out@).contains(g) {
                    let p = choose|p: int| 0 <= p < views(out@).len() && views(out@)[p] == g;
                    if p < views(before).len() {
                        assert(views(before)[p] == g);
                        assert(views(before).contains(g));
                    } else {
                        assert(g == pz);
                        assert(zs[z as int].path == g);
                    }
                }
                if exists|j: int|
                    0 <= j < z + 1 && #[trigger] zs[j].path == g && zs[j].owner.len() > 0
                        && zs[j].owner != owner@ {
                    let j = choose|j: int|
                        0 <= j < z + 1 && #[trigger] zs[j].path == g && zs[j].owner.len() > 0
                            && zs[j].owner != owner@;
                    if j < z {
                        assert(views(before).contains(g));
                        let p = choose|p: int| 0 <= p < views(before).len() && views(before)[p] == g;
                        assert(views(out@)[p] == g);
                    } else {
                        assert(hit);
                        assert(views(out@)[views(before).len() as int] == g);
                    }
                }
            }
        }
        z = z + 1;
    }
    let mut k: usize = 0;
    while k < tasks.len()
        invariant
            zs == zview(zones@),
            ts == tview(tasks@),
            k <= ts.len(),
            forall|g: Seq<char>|
                views(out@).contains(g) <==> (zone_claims_other(zs, g, owner@) || exists|j: int|
                    0 <= j < k && is_active(ts[j].state) && ts[j].owner != owner@ && has_file(
                        #[trigger] ts[j],
                        g,
                    )),
        decreases ts.len() - k,
    {
        let t = &tasks[k];
        let ghost before = out@;
        if (t.state == TaskState::Assigned || t.state == TaskState::Working) && !(t.owner
            == *owner) {
            let mut fs = copy_strings(&t.files);
            out.append(&mut fs);
            proof {
                assert(views(out@) =~= views(before) + ts[k as int].files);
            }
        }
        proof {
            assert forall|g: Seq<char>| views(out@).contains(g) <==> (zone_claims_other(
                zs,
                g,
                owner@,
            ) || exists|j: int|
                0 <= j < k + 1 && is_active(ts[j].state) && ts[j].owner != owner@ && has_file(
                    #[trigger] ts[j],
                    g,
                )) by {
                let tk = ts[k as int];
                let hit = is_active(tk.state) && tk.owner != owner@;
                if hit {
                    if views(out@).contains(g) {
                        let p = choose|p: int| 0 <= p < views(out@).len() && views(out@)[p] == g;
                        if p >= views(before).len() {
                            assert(tk.files[p - views(before).len()] == g);
                            assert(has_file(tk, g));
                        } else {
                            assert(views(before)[p] == g);
                            assert(views(before).contains(g));
                        }
                    }
                    if has_file(tk, g) {
                        let p = choose|p: int| 0 <= p < tk.files.len() && tk.files[p] == g;
                        assert(views(out@)[views(before).len() + p] == g);
                    }
                    if views(before).contains(g) {
                        let p = choose|p: int| 0 <= p < views(before).len() && views(before)[p] == g;
                        assert(views(out@)[p] == g);
                    }
                } else {
                    assert(views(out@) == views(before));
                }
            }
        }
        k = k + 1;
    }
    proof {
        assert forall|g: Seq<char>| views(out@).contains(g) <==> claimed_by_other(
            zs,
            ts,
            owner@,
            g,
        ) by {}
    }
    out
}

fn same_module_exec(f: &String, g: &String) -> (r: bool)
    ensures
        r == same_module(f@, g@),
{
    !(*g == *f) && (parent_dir(g.as_str()) == parent_dir(f.as_str()) || top_components(
        g.as_str(),
        2,
    ) == top_components(f.as_str(), 2))
}

fn workspace_neighbor_exec(f: &String, g: &String) -> (r: bool)
    ensures
        r == workspace_neighbor(f@, g@),
{
    !(*g == *f) && top_components(g.as_str(), 1) == top_components(f.as_str(), 1) && !(
    top_components(g.as_str(), 2) == top_components(f.as_str(), 2)) && workspace_crate_src(
        g.as_str(),
    ) && workspace_crate_src(f.as_str())
}

fn overlaps_exec(f: &String, c: &String) -> (r: bool)
    ensures
        r == overlaps(f@, c@),
{
    if *f == *c {
        return true;
    }
    proof {
        reveal_strlit("/");
    }
    let mut c2 = c.clone();
    c2.append("/");
    let mut f2 = f.clone();
    f2.append("/");
    starts_with(f.as_str(), c2.as_str()) || starts_with(c.as_str(), f2.as_str())
}

/// Does some requested file hit one of `claimed` under `pair`
/// (0: same module, 1: workspace neighbour)?
fn any_pair(files: &Vec<String>, claimed: &Vec<String>, which: u8) -> (r: bool)
    ensures
        which == 0 ==> r == exists|i: int, p: int|
            0 <= i < files@.len() && 0 <= p < claimed@.len() && #[trigger] same_module(
                files@[i]@,
                claimed@[p]@,
            ),
        which != 0 ==> r == exists|i: int, p: int|
            0 <= i < files@.len() && 0 <= p < claimed@.len() && #[trigger] workspace_neighbor(
                files@[i]@,
                claimed@[p]@,
            ),
{
    let mut i: usize = 0;
    while i < files.len()
        invariant
            i <= files@.len(),
            which == 0 ==> forall|a: int, p: int|
                0 <= a < i && 0 <= p < claimed@.len() ==> !#[trigger] same_module(
                    files@[a]@,
                    claimed@[p]@,
                ),
            which != 0 ==> forall|a: int, p: int|
                0 <= a < i && 0 <= p < claimed@.len() ==> !#[trigger] workspace_neighbor(
                    files@[a]@,
                    claimed@[p]@,
                ),
        decreases files@.len() - i,
    {
        let mut p: usize = 0;
        while p < claimed.len()
            invariant
                i < files@.len(),
                p <= claimed@.len(),
                which == 0 ==> forall|a: int, q: int|
                    0 <= a < i && 0 <= q < claimed@.len() ==> !#[trigger] same_module(
                        files@[a]@,
                        claimed@[q]@,
                    ),
                which != 0 ==> forall|a: int, q: int|
                    0 <= a < i && 0 <= q < claimed@.len() ==> !#[trigger] workspace_neighbor(
                        files@[a]@,
                        claimed@[q]@,
                    ),
                which == 0 ==> forall|q: int|
                    0 <= q < p ==> !#[trigger] same_module(files@[i as int]@, claimed@[q]@),
                which != 0 ==> forall|q: int|
                    0 <= q < p ==> !#[trigger] workspace_neighbor(files@[i as int]@, claimed@[q]@),
            decreases claimed@.len() - p,
        {
            let hit = if which == 0 {
                same_module_exec(&files[i], &claimed[p])
            } else {
                workspace_neighbor_exec(&files[i], &claimed[p])
            };
            if hit {
                return true;
            }
            p = p + 1;
        }
        i = i + 1;
    }
    false
}

/// The five-level impact check (order 1 -> 5). Auto-approval is limited to
/// never-touched files with no zone claim and no conflict history, or a
/// same-owner repeat. Everything risky escalates to the master agent via
/// `approval_decide`.
#[verifier::loop_isolation(false)]
pub fn check_may_i_touch(
    zones: &Vec<Zone>,
    tasks: &Vec<Task>,
    conflicts: &Vec<Conflict>,
    files: &Vec<String>,
    owner: &String,
) -> (r: MayIResult)
    ensures
        r == may_i_spec(zview(zones@), tview(tasks@), cview(conflicts@), views(files@), owner@),
{
    let ghost zs = zview(zones@);
    let ghost ts = tview(tasks@);
    let ghost fs = views(files@);
    if files.len() == 0 {
        return MayIResult::AutoApproved;
    }
    // Level 1: an exact file is claimed by another active owner (zone or task).
    let mut i: usize = 0;
    while i < files.len()
        invariant
            fs == views(files@),
            zs == zview(zones@),
            ts == tview(tasks@),
            i <= fs.len(),
            forall|a: int|
                0 <= a < i ==> !(zone_claims_other(zs, #[trigger] fs[a], owner@)
                    || task_claims_other(ts, fs[a], owner@)),
        decreases fs.len() - i,
    {
        let f = &files[i];
        assert(f@ == fs[i as int]);
        let mut z: usize = 0;
        while z < zones.len()
            invariant
                f@ == fs[i as int],
                fs == views(files@),
                zs == zview(zones@),
                i < fs.len(),
                z <= zs.len(),
                forall|q: int|
                    0 <= q < z ==> !(#[trigger] zs[q].path == fs[i as int] && zs[q].owner.len() > 0
                        && zs[q].owner != owner@),
            decreases zs.len() - z,
        {
            if zones[z].path == *f && zones[z].owner.unicode_len() > 0 && !(zones[z].owner
                == *owner) {
                proof {
                    assert(zs[z as int].path == zones@[z as int].path@);
                    assert(zs[z as int].path == fs[i as int]);
                    assert(zone_claims_other(zs, fs[i as int], owner@));
                    assert(exact_claim(zs, ts, fs, owner@));
                }
                return MayIResult::Denied;
            }
            z = z + 1;
        }
        let mut k: usize = 0;
        while k < tasks.len()
            invariant
                f@ == fs[i as int],
                fs == views(files@),
                ts == tview(tasks@),
                i < fs.len(),
                k <= ts.len(),
                forall|q: int|
                    0 <= q < k ==> !(is_active(ts[q].state) && ts[q].owner != owner@ && has_file(
                        #[trigger] ts[q],
                        fs[i as int],
                    )),
            decreases ts.len() - k,
        {
            let t = &tasks[k];
            if (t.state == TaskState::Assigned || t.state == TaskState::Working) && !(t.owner
                == *owner) && task_has_file(t, f) {
                proof {
                    assert(ts[k as int] == t@);
                    assert(has_file(ts[k as int], fs[i as int]));
                    assert(task_claims_other(ts, fs[i as int], owner@));
                    assert(exact_claim(zs, ts, fs, owner@));
                }
                return MayIResult::Denied;
            }
            k = k + 1;
        }
        i = i + 1;
    }
    assert(!exact_claim(zs, ts, fs, owner@));
    // Level 4: global shared state is never auto-approved (force serial).
    let mut g: usize = 0;
    while g < files.len()
        invariant
            fs == views(files@),
            g <= fs.len(),
            forall|a: int| 0 <= a < g ==> !is_global_path(#[trigger] fs[a]),
        decreases fs.len() - g,
    {
        if is_global_shared_path(files[g].as_str()) {
            assert(is_global_path(fs[g as int]));
            assert(!exact_claim(zs, ts, fs, owner@));
            return MayIResult::Escalated { level: 4 };
        }
        g = g + 1;
    }
    // Same-owner repeat: everything requested is already claimed by this owner.
    let mut all_owned = true;
    let mut o: usize = 0;
    while o < files.len()
        invariant
            fs == views(files@),
            zs == zview(zones@),
            ts == tview(tasks@),
            o <= fs.len(),
            all_owned <==> forall|a: int| 0 <= a < o ==> owned_spec(zs, ts, #[trigger] fs[a], owner@),
        decreases fs.len() - o,
    {
        assert(files@[o as int]@ == fs[o as int]);
        if !owned_by(zones, tasks, &files[o], owner) {
            all_owned = false;
        }
        o = o + 1;
    }
    if all_owned {
        return MayIResult::AutoApproved;
    }
    let claimed = other_claimed_paths(zones, tasks, owner);
    // Level 2: same module/crate (same parent dir or same top-2 prefix).
    let l2 = any_pair(files, &claimed, 0);
    proof {
        if level2_hit(zs, ts, fs, owner@) {
            let (a, gg) = choose|a: int, gg: Seq<char>|
                0 <= a < fs.len() && claimed_by_other(zs, ts, owner@, gg) && #[trigger] same_module(
                    fs[a],
                    gg,
                );
            assert(views(claimed@).contains(gg));
            let p = choose|p: int| 0 <= p < views(claimed@).len() && views(claimed@)[p] == gg;
            assert(same_module(files@[a]@, claimed@[p]@));
        }
        if l2 {
            let (a, p) = choose|a: int, p: int|
                0 <= a < files@.len() && 0 <= p < claimed@.len() && #[trigger] same_module(
                    files@[a]@,
                    claimed@[p]@,
                );
            assert(views(claimed@)[p] == claimed@[p]@);
            assert(views(claimed@).contains(claimed@[p]@));
            assert(claimed_by_other(zs, ts, owner@, claimed@[p]@));
            assert(same_module(fs[a], claimed@[p]@));
        }
    }
    if l2 {
        return MayIResult::Escalated { level: 2 };
    }
    // Level 3: workspace dependency neighbour.
    let l3 = any_pair(files, &claimed, 1);
    proof {
        if level3_hit(zs, ts, fs, owner@) {
            let (a, gg) = choose|a: int, gg: Seq<char>|
                0 <= a < fs.len() && claimed_by_other(zs, ts, owner@, gg)
                    && #[trigger] workspace_neighbor(fs[a], gg);
            assert(views(claimed@).contains(gg));
            let p = choose|p: int| 0 <= p < views(claimed@).len() && views(claimed@)[p] == gg;
            assert(workspace_neighbor(files@[a]@, claimed@[p]@));
        }
        if l3 {
            let (a, p) = choose|a: int, p: int|
                0 <= a < files@.len() && 0 <= p < claimed@.len() && #[trigger] workspace_neighbor(
                    files@[a]@,
                    claimed@[p]@,
                );
            assert(views(claimed@)[p] == claimed@[p]@);
            assert(views(claimed@).contains(claimed@[p]@));
            assert(claimed_by_other(zs, ts, owner@, claimed@[p]@));
            assert(workspace_neighbor(fs[a], claimed@[p]@));
        }
    }
    if l3 {
        return MayIResult::Escalated { level: 3 };
    }
    // Level 5: conflict history (risk zones) covers the requested path.
    let cps = conflict_paths(conflicts);
    let ghost cp = views(cps@);
    let mut a: usize = 0;
    while a < files.len()
        invariant
            fs == views(files@),
            cp == views(cps@),
            cp == conflict_paths_of(cview(conflicts@)),
            a <= fs.len(),
            forall|x: int, y: int| 0 <= x < a && 0 <= y < cp.len() ==> !#[trigger] overlaps(fs[x], cp[y]),
        decreases fs.len() - a,
    {
        let mut c: usize = 0;
        while c < cps.len()
            invariant
                fs == views(files@),
                cp == views(cps@),
                a < fs.len(),
                c <= cp.len(),
                forall|x: int, y: int|
                    0 <= x < a && 0 <= y < cp.len() ==> !#[trigger] overlaps(fs[x], cp[y]),
                forall|y: int| 0 <= y < c ==> !#[trigger] overlaps(fs[a as int], cp[y]),
            decreases cp.len() - c,
        {
            if overlaps_exec(&files[a], &cps[c]) {
                assert(overlaps(fs[a as int], cp[c as int]));
                assert(level5_hit(cview(conflicts@), fs));
                return MayIResult::Escalated { level: 5 };
            }
            c = c + 1;
        }
        a = a + 1;
    }
    MayIResult::AutoApproved
}

} // verus!
