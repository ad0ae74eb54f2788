//! Conflict history: the reports slaves file, and the paths they mark.
use vstd::prelude::*;
use crate::events::{Event, EventBody};
use crate::ids::{is_lower_hex, new_id};
use crate::state::{bump, State};
use crate::tasks::copy_strings;
use crate::text::{str_eq, views};

verus! {

/// A recorded conflict report. `zone` is empty when the report names none;
/// `json` holds the report's other fields (description, suggestion, sender)
/// as a JSON object, kept for listing.
#[derive(Debug)]
pub struct Conflict {
    pub id: String,
    pub files: Vec<String>,
    pub zone: String,
    pub severity: Option<String>,
    /// Milliseconds since the epoch (0 when the report has no time).
    pub ts: u64,
    pub json: String,
}

pub struct ConflictView {
    pub id: Seq<char>,
    pub files: Seq<Seq<char>>,
    pub zone: Seq<char>,
    pub severity: Option<Seq<char>>,
    pub ts: u64,
    pub json: Seq<char>,
}

impl View for Conflict {
    type V = ConflictView;

    open spec fn view(&self) -> ConflictView {
        ConflictView {
            id: self.id@,
            files: views(self.files@),
            zone: self.zone@,
            severity: match self.severity {
                Some(s) => Some(s@),
                None => None,
            },
            ts: self.ts,
            json: self.json@,
        }
    }
}

/// The views of a conflict list.
pub open spec fn cview(cs: Seq<Conflict>) -> Seq<ConflictView> {
    cs.map_values(|c: Conflict| c@)
}

/// The non-empty paths one report marks: its files, then its zone.
pub open spec fn marked_paths(c: ConflictView) -> Seq<Seq<char>> {
    let f = c.files.filter(|p: Seq<char>| p.len() > 0);
    if c.zone.len() > 0 {
        f.push(c.zone)
    } else {
        f
    }
}

/// Paths with conflict history, report by report.
pub open spec fn conflict_paths_of(cs: Seq<ConflictView>) -> Seq<Seq<char>>
    decreases cs.len(),
{
    if cs.len() == 0 {
        Seq::empty()
    } else {
        conflict_paths_of(cs.drop_last()) + marked_paths(cs.last())
    }
}

impl Conflict {
    /// A copy of the report.
    pub fn copy(&self) -> (r: Conflict)
        ensures
            r@ == self@,
    {
        Conflict {
            id: self.id.clone(),
            files: copy_strings(&self.files),
            zone: self.zone.clone(),
            severity: match &self.severity {
                Some(s) => Some(s.clone()),
                None => None,
            },
            ts: self.ts,
            json: self.json.clone(),
        }
    }
}

fn marked(c: &Conflict) -> (r: Vec<String>)
    ensures
        views(r@) == marked_paths(c@),
{
    let mut out: Vec<String> = Vec::new();
    let ghost fs = views(c.files@);
    let mut i: usize = 0;
    proof {
        assert(fs.take(0) =~= Seq::<Seq<char>>::empty());
        assert(fs.take(0).filter(|p: Seq<char>| p.len() > 0) =~= Seq::<Seq<char>>::empty());
        assert(views(out@) =~= Seq::<Seq<char>>::empty());
    }
    while i < c.files.len()
        invariant
            fs == views(c.files@),
            i <= fs.len(),
            views(out@) == fs.take(i as int).filter(|p: Seq<char>| p.len() > 0),
        decreases fs.len() - i,
    {
        proof {
            assert(fs.take(i + 1).drop_last() =~= fs.take(i as int));
            reveal_with_fuel(Seq::filter, 1);
        }
        if c.files[i].unicode_len() > 0 {
            let ghost before = out@;
            out.push(c.files[i].clone());
            proof {
                assert(views(out@) =~= views(before).push(fs[i as int]));
            }
        }
        i = i + 1;
    }
    proof {
        assert(fs.take(fs.len() as int) =~= fs);
    }
    if c.zone.unicode_len() > 0 {
        let ghost before = out@;
        out.push(c.zone.clone());
        proof {
            assert(views(out@) =~= views(before).push(c.zone@));
        }
    }
    out
}

/// Paths with conflict history (files and zones of every report, in order).
pub fn conflict_paths(conflicts: &Vec<Conflict>) -> (r: Vec<String>)
    ensures
        views(r@) == conflict_paths_of(cview(conflicts@)),
{
    let ghost all = cview(conflicts@);
    let mut out: Vec<String> = Vec::new();
    let mut i: usize = 0;
    proof {
        assert(all.take(0) =~= Seq::<ConflictView>::empty());
        assert(views(out@) =~= Seq::<Seq<char>>::empty());
    }
    while i < conflicts.len()
        invariant
            all == cview(conflicts@),
            i <= all.len(),
            views(out@) == conflict_paths_of(all.take(i as int)),
        decreases all.len() - i,
    {
        let mut m = marked(&conflicts[i]);
        let ghost before = out@;
        let ghost mm = m@;
        out.append(&mut m);
        proof {
            assert(all.take(i + 1).drop_last() =~= all.take(i as int));
            assert(all.take(i + 1).last() == conflicts@[i as int]@);
            assert(views(out@) =~= views(before) + views(mm));
        }
        i = i + 1;
    }
    proof {
        assert(all.take(all.len() as int) =~= all);
    }
    out
}


/// Reports are keyed by id.
pub open spec fn conflicts_unique(cs: Seq<ConflictView>) -> bool {
    forall|i: int, j: int| 0 <= i < cs.len() && 0 <= j < cs.len() && i != j ==> cs[i].id != cs[j].id
}

pub open spec fn has_conflict(cs: Seq<ConflictView>, id: Seq<char>) -> bool {
    exists|k: int| 0 <= k < cs.len() && cs[k].id == id
}

pub open spec fn conflict_index(cs: Seq<ConflictView>, id: Seq<char>) -> int {
    choose|k: int| 0 <= k < cs.len() && cs[k].id == id
}

/// `cs` with the report `c` recorded: replacing the one with its id, else
/// appended.
pub open spec fn put_conflict(cs: Seq<ConflictView>, c: ConflictView) -> Seq<ConflictView> {
    if has_conflict(cs, c.id) {
        cs.update(conflict_index(cs, c.id), c)
    } else {
        cs.push(c)
    }
}

/// The recorded severity of a local report: one of the four levels, else
/// `medium`.
pub open spec fn severity_of(s: Seq<char>) -> Seq<char> {
    if s == "low"@ || s == "medium"@ || s == "high"@ || s == "critical"@ {
        s
    } else {
        "medium"@
    }
}

/// Normalize a severity (see `severity_of`).
pub fn normalize_severity(s: &str) -> (r: String)
    ensures
        r@ == severity_of(s@),
{
    if str_eq(s, "low") || str_eq(s, "medium") || str_eq(s, "high") || str_eq(s, "critical") {
        String::from_str(s)
    } else {
        String::from_str("medium")
    }
}

/// `c` placed among `s` (newest first): after every report at least as new.
pub open spec fn insert_newest_first(s: Seq<ConflictView>, c: ConflictView) -> Seq<ConflictView>
    decreases s.len(),
{
    if s.len() == 0 {
        seq![c]
    } else if s[0].ts < c.ts {
        seq![c] + s
    } else {
        seq![s[0]] + insert_newest_first(s.drop_first(), c)
    }
}

/// The reports newest first; reports of equal time keep their order.
pub open spec fn newest_first(cs: Seq<ConflictView>) -> Seq<ConflictView>
    decreases cs.len(),
{
    if cs.len() == 0 {
        Seq::empty()
    } else {
        insert_newest_first(newest_first(cs.drop_last()), cs.last())
    }
}

proof fn lemma_insert_len(s: Seq<ConflictView>, c: ConflictView)
    ensures
        insert_newest_first(s, c).len() == s.len() + 1,
    decreases s.len(),
{
    if s.len() > 0 && s[0].ts >= c.ts {
        lemma_insert_len(s.drop_first(), c);
    }
}

proof fn lemma_newest_len(cs: Seq<ConflictView>)
    ensures
        newest_first(cs).len() == cs.len(),
    decreases cs.len(),
{
    if cs.len() > 0 {
        lemma_newest_len(cs.drop_last());
        lemma_insert_len(newest_first(cs.drop_last()), cs.last());
    }
}

/// The insertion point of `c`: the first report older than it.
proof fn lemma_insert_at(s: Seq<ConflictView>, c: ConflictView, k: int)
    requires
        0 <= k <= s.len(),
        forall|j: int| 0 <= j < k ==> s[j].ts >= c.ts,
        k == s.len() || s[k].ts < c.ts,
    ensures
        insert_newest_first(s, c) == s.take(k).push(c) + s.skip(k),
    decreases s.len(),
{
    if k == 0 {
        if s.len() == 0 {
            assert(s.take(0).push(c) + s.skip(0) =~= seq![c]);
        } else {
            assert(s.take(0).push(c) + s.skip(0) =~= seq![c] + s);
        }
    } else {
        let t = s.drop_first();
        assert forall|j: int| 0 <= j < k - 1 implies t[j].ts >= c.ts by {
            assert(t[j] == s[j + 1]);
        }
        if k - 1 < t.len() {
            assert(t[k - 1] == s[k]);
        }
        lemma_insert_at(t, c, k - 1);
        assert(seq![s[0]] + (t.take(k - 1).push(c) + t.skip(k - 1)) =~= s.take(k).push(c) + s.skip(k));
    }
}

/// Copy `v` with `c` inserted at `k`.
fn insert_copy(v: &Vec<Conflict>, c: &Conflict, k: usize) -> (r: Vec<Conflict>)
    requires
        k <= v@.len(),
    ensures
        cview(r@) == cview(v@).take(k as int).push(c@) + cview(v@).skip(k as int),
{
    let mut out: Vec<Conflict> = Vec::new();
    let mut i: usize = 0;
    while i < v.len()
        invariant
            k <= v@.len(),
            i <= v@.len(),
            i <= k ==> cview(out@) == cview(v@).take(i as int),
            i > k ==> cview(out@) == cview(v@).take(k as int).push(c@) + cview(v@).subrange(k as int, i as int),
        decreases v@.len() - i,
    {
        let ghost before = cview(out@);
        if i == k {
            out.push(c.copy());
            proof {
                assert(cview(out@) =~= before.push(c@));
            }
        }
        let ghost mid = cview(out@);
        out.push(v[i].copy());
        proof {
            assert(cview(out@) =~= mid.push(v@[i as int]@));
            if i < k {
                assert(cview(v@).take(i + 1) =~= cview(v@).take(i as int).push(v@[i as int]@));
            } else {
                assert(cview(v@).subrange(k as int, i + 1) =~= cview(v@).subrange(k as int, i as int).push(v@[i as int]@));
                if i == k {
                    assert(cview(v@).subrange(k as int, k as int) =~= Seq::<ConflictView>::empty());
                }
            }
        }
        i = i + 1;
    }
    if k == v.len() {
        let ghost before = cview(out@);
        out.push(c.copy());
        proof {
            assert(cview(out@) =~= before.push(c@));
            assert(cview(v@).take(k as int) =~= cview(v@));
            assert(cview(v@).skip(k as int) =~= Seq::<ConflictView>::empty());
        }
    } else {
        proof {
            assert(cview(v@).subrange(k as int, v@.len() as int) =~= cview(v@).skip(k as int));
        }
    }
    out
}

/// The reports newest first, equal times keeping their order (see
/// `newest_first`).
pub fn sort_newest_first(cs: &Vec<Conflict>) -> (r: Vec<Conflict>)
    ensures
        cview(r@) == newest_first(cview(cs@)),
{
    let ghost all = cview(cs@);
    let mut out: Vec<Conflict> = Vec::new();
    let mut i: usize = 0;
    proof {
        assert(all.take(0) =~= Seq::<ConflictView>::empty());
    }
    while i < cs.len()
        invariant
            all == cview(cs@),
            i <= all.len(),
            cview(out@) == newest_first(all.take(i as int)),
        decreases all.len() - i,
    {
        proof {
            assert(all.take(i + 1).drop_last() =~= all.take(i as int));
            assert(all.take(i + 1).last() == cs@[i as int]@);
        }
        let c = &cs[i];
        let mut k: usize = 0;
        while k < out.len() && out[k].ts >= c.ts
            invariant
                k <= out@.len(),
                forall|j: int| 0 <= j < k ==> cview(out@)[j].ts >= c@.ts,
            decreases out@.len() - k,
        {
            k = k + 1;
        }
        proof {
            lemma_insert_at(cview(out@), c@, k as int);
        }
        out = insert_copy(&out, c, k);
        i = i + 1;
    }
    proof {
        assert(all.take(all.len() as int) =~= all);
    }
    out
}

/// How many reports a listing keeps: `max(limit, 1)`, at most all of them.
pub open spec fn keep_count(limit: i64, n: nat) -> int {
    let w: int = if limit < 1 {
        1
    } else {
        limit as int
    };
    if w > n {
        n as int
    } else {
        w
    }
}

/// Outcome of a conflict report arriving at the master.
#[derive(Debug)]
pub enum Intake {
    /// Not the master, or an empty report (neither id nor description).
    Ignored,
    /// Recorded under `id`; `wake` tells whether to wake the agent.
    Recorded { id: String, wake: bool },
}

impl State {
    /// Everything but the conflict history, the event queue and the event
    /// counter is as in `other`.
    pub open spec fn same_but_conflicts(&self, other: State) -> bool {
        &&& self.tasks == other.tasks
        &&& self.zones == other.zones
        &&& self.escalations == other.escalations
        &&& self.approvals == other.approvals
        &&& self.watches == other.watches
        &&& self.pending == other.pending
        &&& self.rpc_meta == other.rpc_meta
        &&& self.registry == other.registry
        &&& self.last_digest_ts == other.last_digest_ts
        &&& self.master_sid == other.master_sid
    }

    fn find_conflict(&self, id: &str) -> (r: Option<usize>)
        requires
            self.wf(),
        ensures
            r matches Some(k) ==> k < self.conflicts@.len() && has_conflict(cview(self.conflicts@), id@)
                && conflict_index(cview(self.conflicts@), id@) == k,
            r is None <==> !has_conflict(cview(self.conflicts@), id@),
    {
        let ghost cs = cview(self.conflicts@);
        let mut k: usize = 0;
        while k < self.conflicts.len()
            invariant
                self.wf(),
                cs == cview(self.conflicts@),
                k <= cs.len(),
                forall|j: int| 0 <= j < k ==> cs[j].id != id@,
            decreases cs.len() - k,
        {
            if str_eq(self.conflicts[k].id.as_str(), id) {
                proof {
                    assert(cs[k as int].id == id@);
                    let j = conflict_index(cs, id@);
                    if j != k {
                        assert(cs[j].id != cs[k as int].id);
                    }
                }
                return Some(k);
            }
            k = k + 1;
        }
        None
    }

    /// Record a report, replacing any report with the same id.
    pub fn record_conflict(&mut self, c: Conflict)
        requires
            old(self).wf(),
        ensures
            final(self).wf(),
            cview(final(self).conflicts@) == put_conflict(cview(old(self).conflicts@), c@),
            final(self).same_but_conflicts(*old(self)),
            final(self).events == old(self).events,
            final(self).event_seq == old(self).event_seq,
    {
        let ghost old_c = cview(self.conflicts@);
        let ghost cv = c@;
        match self.find_conflict(c.id.as_str()) {
            Some(k) => {
                self.conflicts.set(k, c);
                proof {
                    assert(cview(self.conflicts@) =~= old_c.update(k as int, cv));
                    assert forall|i: int, j: int|
                        0 <= i < old_c.len() && 0 <= j < old_c.len() && i != j implies cview(self.conflicts@)[i].id
                            != cview(self.conflicts@)[j].id by {
                        if i != k && j != k {
                            assert(old_c[i].id != old_c[j].id);
                        } else if i == k {
                            assert(old_c[k as int].id != old_c[j].id);
                        } else {
                            assert(old_c[i].id != old_c[k as int].id);
                        }
                    }
                }
            },
            None => {
                self.conflicts.push(c);
                proof {
                    assert(cview(self.conflicts@) =~= old_c.push(cv));
                    assert forall|i: int, j: int|
                        0 <= i < old_c.len() + 1 && 0 <= j < old_c.len() + 1 && i != j implies cview(self.conflicts@)[i].id
                            != cview(self.conflicts@)[j].id by {
                        if i < old_c.len() && j < old_c.len() {
                            assert(old_c[i].id != old_c[j].id);
                        } else if i < old_c.len() {
                            assert(old_c[i].id != cv.id);
                        } else {
                            assert(old_c[j].id != cv.id);
                        }
                    }
                }
            },
        }
    }

    /// File a conflict report from this node (`report_conflict`): a fresh id,
    /// the given files and zone (none is recorded as empty), the severity
    /// normalized, stamped `now`; recorded and returned for publication.
    pub fn report_conflict(
        &mut self,
        files: Vec<String>,
        zone: Option<String>,
        severity: &str,
        extras: String,
        now: u64,
    ) -> (r: Conflict)
        requires
            old(self).wf(),
        ensures
            final(self).wf(),
            final(self).same_but_conflicts(*old(self)),
            final(self).events == old(self).events,
            cview(final(self).conflicts@) == put_conflict(cview(old(self).conflicts@), r@),
            r@.id.len() == 32,
            forall|i: int| 0 <= i < 32 ==> is_lower_hex(#[trigger] r@.id[i]),
            r@.files == views(files@),
            r@.zone == match zone {
                Some(z) => z@,
                None => Seq::<char>::empty(),
            },
            r@.severity == Some(severity_of(severity@)),
            r@.ts == now,
            r@.json == extras@,
    {
        let c = Conflict {
            id: new_id(),
            files,
            zone: match zone {
                Some(z) => z,
                None => String::new(),
            },
            severity: Some(normalize_severity(severity)),
            ts: now,
            json: extras,
        };
        let out = c.copy();
        self.record_conflict(c);
        out
    }

    /// A conflict report at the master from `sid`. A report with neither id
    /// nor description is ignored. A report without id gets a fresh one, one
    /// without time is stamped `now`; it is recorded and queued as a
    /// `conflict_reported` event, which always wakes the agent.
    pub fn on_conflict(
        &mut self,
        is_master: bool,
        sid: String,
        report: Conflict,
        has_ts: bool,
        has_description: bool,
        now: u64,
    ) -> (r: Intake)
        requires
            old(self).wf(),
        ensures
            final(self).wf(),
            final(self).same_but_conflicts(*old(self)),
            !is_master || (report.id@.len() == 0 && !has_description) ==> r is Ignored && *final(self)
                == *old(self),
            is_master && (report.id@.len() > 0 || has_description) ==> ({
                let c = final(self).events@.last();
                &&& r matches Intake::Recorded { id, wake } && wake && (report.id@.len() > 0 ==> id@
                    == report.id@) && (report.id@.len() == 0 ==> id@.len() == 32)
                &&& c.body matches EventBody::Conflict(e) && {
                    &&& cview(final(self).conflicts@) == put_conflict(cview(old(self).conflicts@), e@)
                    &&& r matches Intake::Recorded { id, wake } && e.id@ == id@
                    &&& e@.files == report@.files
                    &&& e@.zone == report@.zone
                    &&& e@.severity == report@.severity
                    &&& e@.json == report@.json
                    &&& e@.ts == (if has_ts {
                        report.ts
                    } else {
                        now
                    })
                }
                &&& final(self).events@.len() == old(self).events@.len() + 1
                &&& final(self).events@.drop_last() == old(self).events@
                &&& c.kind@ == "conflict_reported"@
                &&& c.session_id@ == sid@
                &&& c.ts == Some(now)
                &&& final(self).event_seq == bump(old(self).event_seq, 1)
            }),
    {
        if !is_master || (report.id.unicode_len() == 0 && !has_description) {
            return Intake::Ignored;
        }
        let id = if report.id.unicode_len() == 0 {
            new_id()
        } else {
            report.id
        };
        let entry = Conflict {
            id: id.clone(),
            files: report.files,
            zone: report.zone,
            severity: report.severity,
            ts: if has_ts {
                report.ts
            } else {
                now
            },
            json: report.json,
        };
        let copy = entry.copy();
        self.record_conflict(entry);
        let ev = Event {
            kind: String::from_str("conflict_reported"),
            session_id: sid,
            state: String::new(),
            info_state: String::new(),
            ts: Some(now),
            body: EventBody::Conflict(copy),
        };
        self.push_event(ev, now);
        Intake::Recorded { id, wake: true }
    }

    /// `list_conflicts`: the newest `max(limit, 1)` reports, newest first
    /// (equal times in recording order), and how many there are in all.
    pub fn list_conflicts(&self, limit: i64) -> (r: (Vec<Conflict>, usize))
        ensures
            r.1 == self.conflicts@.len(),
            cview(r.0@) == newest_first(cview(self.conflicts@)).take(keep_count(limit, self.conflicts@.len())),
    {
        let sorted = sort_newest_first(&self.conflicts);
        proof {
            lemma_newest_len(cview(self.conflicts@));
        }
        let total = self.conflicts.len();
        let want: usize = if limit < 1 {
            if total < 1 {
                total
            } else {
                1
            }
        } else if limit as u64 > total as u64 {
            total
        } else {
            limit as usize
        };
        proof {
            if limit >= 1 && !(limit as u64 > total as u64) {
                assert(limit as u64 == limit);
                assert(limit as usize == limit);
            }
            assert(want == keep_count(limit, self.conflicts@.len()));
        }
        let mut out: Vec<Conflict> = Vec::new();
        let mut i: usize = 0;
        while i < want
            invariant
                want <= sorted@.len(),
                i <= want,
                cview(out@) == cview(sorted@).take(i as int),
            decreases sorted@.len() - i,
        {
            let ghost before = cview(out@);
            out.push(sorted[i].copy());
            proof {
                assert(cview(out@) =~= before.push(sorted@[i as int]@));
                assert(cview(sorted@).take(i + 1) =~= cview(sorted@).take(i as int).push(sorted@[i as int]@));
            }
            i = i + 1;
        }
        proof {
            if want > sorted@.len() {
                assert(cview(sorted@).take(sorted@.len() as int) =~= cview(sorted@));
            }
        }
        (out, total)
    }
}

/// A path with conflict history, as `risk_zones` reports it.
#[derive(Debug)]
pub struct RiskZone {
    pub path: String,
    /// How many reports mark the path.
    pub count: u64,
    /// The severities reported for it, in order, each once.
    pub severities: Vec<String>,
    /// The newest report's time.
    pub last: u64,
}

pub struct RiskView {
    pub path: Seq<char>,
    pub count: u64,
    pub severities: Seq<Seq<char>>,
    pub last: u64,
}

pub open spec fn risk_view(z: RiskZone) -> RiskView {
    RiskView { path: z.path@, count: z.count, severities: views(z.severities@), last: z.last }
}

pub open spec fn rviews(zs: Seq<RiskZone>) -> Seq<RiskView> {
    zs.map_values(|z: RiskZone| risk_view(z))
}

/// The severity a report counts under (`medium` when it names none).
pub open spec fn severity_or_medium(c: ConflictView) -> Seq<char> {
    match c.severity {
        Some(s) => s,
        None => "medium"@,
    }
}

pub open spec fn has_risk(agg: Seq<RiskView>, path: Seq<char>) -> bool {
    exists|k: int| 0 <= k < agg.len() && agg[k].path == path
}

pub open spec fn risk_index(agg: Seq<RiskView>, path: Seq<char>) -> int {
    choose|k: int| 0 <= k < agg.len() && agg[k].path == path
}

/// One more report (severity `sev`, time `ts`) marking `path`.
pub open spec fn tally(agg: Seq<RiskView>, path: Seq<char>, sev: Seq<char>, ts: u64) -> Seq<RiskView> {
    if has_risk(agg, path) {
        let k = risk_index(agg, path);
        let z = agg[k];
        agg.update(
            k,
            RiskView {
                path,
                count: crate::state::bump(z.count, 1),
                severities: if z.severities.contains(sev) {
                    z.severities
                } else {
                    crate::text::insert_sorted(z.severities, sev)
                },
                last: if ts > z.last {
                    ts
                } else {
                    z.last
                },
            },
        )
    } else {
        agg.push(RiskView { path, count: 1, severities: seq![sev], last: ts })
    }
}

pub open spec fn tally_paths(agg: Seq<RiskView>, paths: Seq<Seq<char>>, sev: Seq<char>, ts: u64) -> Seq<RiskView>
    decreases paths.len(),
{
    if paths.len() == 0 {
        agg
    } else {
        tally(tally_paths(agg, paths.drop_last(), sev, ts), paths.last(), sev, ts)
    }
}

/// The history aggregated per path, paths in order of first mention.
pub open spec fn tally_all(cs: Seq<ConflictView>) -> Seq<RiskView>
    decreases cs.len(),
{
    if cs.len() == 0 {
        Seq::empty()
    } else {
        let c = cs.last();
        tally_paths(tally_all(cs.drop_last()), marked_paths(c), severity_or_medium(c), c.ts)
    }
}

/// Riskier first: more reports, then a newer last report.
pub open spec fn ranks_before(a: RiskView, b: RiskView) -> bool {
    a.count > b.count || (a.count == b.count && a.last > b.last)
}

pub open spec fn insert_ranked(s: Seq<RiskView>, x: RiskView) -> Seq<RiskView>
    decreases s.len(),
{
    if s.len() == 0 {
        seq![x]
    } else if ranks_before(x, s[0]) {
        seq![x] + s
    } else {
        seq![s[0]] + insert_ranked(s.drop_first(), x)
    }
}

/// The aggregates riskiest first; equally risky ones keep their order.
pub open spec fn ranked(v: Seq<RiskView>) -> Seq<RiskView>
    decreases v.len(),
{
    if v.len() == 0 {
        Seq::empty()
    } else {
        insert_ranked(ranked(v.drop_last()), v.last())
    }
}

pub open spec fn risk_paths_unique(agg: Seq<RiskView>) -> bool {
    forall|i: int, j: int| 0 <= i < agg.len() && 0 <= j < agg.len() && i != j ==> agg[i].path != agg[j].path
}

proof fn lemma_insert_ranked_at(s: Seq<RiskView>, x: RiskView, k: int)
    requires
        0 <= k <= s.len(),
        forall|j: int| 0 <= j < k ==> !ranks_before(x, #[trigger] s[j]),
        k == s.len() || ranks_before(x, s[k]),
    ensures
        insert_ranked(s, x) == s.take(k).push(x) + s.skip(k),
    decreases s.len(),
{
    if k == 0 {
        if s.len() == 0 {
            assert(s.take(0).push(x) + s.skip(0) =~= seq![x]);
        } else {
            assert(s.take(0).push(x) + s.skip(0) =~= seq![x] + s);
        }
    } else {
        let t = s.drop_first();
        assert forall|j: int| 0 <= j < k - 1 implies !ranks_before(x, #[trigger] t[j]) by {
            assert(t[j] == s[j + 1]);
        }
        if k - 1 < t.len() {
            assert(t[k - 1] == s[k]);
        }
        lemma_insert_ranked_at(t, x, k - 1);
        assert(seq![s[0]] + (t.take(k - 1).push(x) + t.skip(k - 1)) =~= s.take(k).push(x) + s.skip(k));
    }
}

fn copy_risk(z: &RiskZone) -> (r: RiskZone)
    ensures
        risk_view(r) == risk_view(*z),
{
    RiskZone { path: z.path.clone(), count: z.count, severities: copy_strings(&z.severities), last: z.last }
}

/// Count one report marking `path` into `agg`.
fn tally_exec(agg: &mut Vec<RiskZone>, path: &String, sev: &String, ts: u64)
    requires
        risk_paths_unique(rviews(old(agg)@)),
    ensures
        rviews(final(agg)@) == tally(rviews(old(agg)@), path@, sev@, ts),
        risk_paths_unique(rviews(final(agg)@)),
{
    let ghost a0 = rviews(agg@);
    let mut k: usize = 0;
    while k < agg.len() && !str_eq(agg[k].path.as_str(), path.as_str())
        invariant
            a0 == rviews(agg@),
            k <= agg@.len(),
            forall|j: int| 0 <= j < k ==> agg@[j].path@ != path@,
        decreases agg@.len() - k,
    {
        k = k + 1;
    }
    if k < agg.len() {
        proof {
            assert(a0[k as int].path == path@);
            let j = risk_index(a0, path@);
            if j != k {
                assert(a0[j].path != a0[k as int].path);
            }
        }
        let z = &agg[k];
        let sevs = if crate::text::contains_str(&z.severities, sev.as_str()) {
            copy_strings(&z.severities)
        } else {
            crate::text::insert_sorted_exec(&z.severities, sev.as_str())
        };
        let nz = RiskZone {
            path: z.path.clone(),
            count: z.count.saturating_add(1),
            severities: sevs,
            last: if ts > z.last {
                ts
            } else {
                z.last
            },
        };
        agg.set(k, nz);
        proof {
            assert(rviews(agg@) =~= a0.update(k as int, risk_view(agg@[k as int])));
            assert forall|i: int, j: int|
                0 <= i < agg@.len() && 0 <= j < agg@.len() && i != j implies rviews(agg@)[i].path
                    != rviews(agg@)[j].path by {
                assert(rviews(agg@)[i].path == a0[i].path);
                assert(rviews(agg@)[j].path == a0[j].path);
            }
        }
    } else {
        let ghost before = rviews(agg@);
        let mut sevs: Vec<String> = Vec::new();
        sevs.push(sev.clone());
        agg.push(RiskZone { path: path.clone(), count: 1, severities: sevs, last: ts });
        proof {
            assert(views(sevs@) =~= seq![sev@]);
            assert(rviews(agg@) =~= before.push(RiskView { path: path@, count: 1, severities: seq![sev@], last: ts }));
            assert(!has_risk(a0, path@)) by {
                if has_risk(a0, path@) {
                    let j = choose|j: int| 0 <= j < a0.len() && a0[j].path == path@;
                    assert(agg@[j].path@ == path@);
                }
            }
            assert forall|i: int, j: int|
                0 <= i < agg@.len() && 0 <= j < agg@.len() && i != j implies rviews(agg@)[i].path
                    != rviews(agg@)[j].path by {
                if i < a0.len() && j < a0.len() {
                } else if i < a0.len() {
                    assert(agg@[i].path@ != path@);
                } else {
                    assert(agg@[j].path@ != path@);
                }
            }
        }
    }
}

/// `risk_zones`: the conflict history aggregated per marked path (its
/// files, then its zone) — how many reports, which severities (`medium`
/// when a report names none), the newest time — riskiest first (see
/// `ranked`).
pub fn risk_zones(conflicts: &Vec<Conflict>) -> (r: Vec<RiskZone>)
    ensures
        rviews(r@) == ranked(tally_all(cview(conflicts@))),
{
    let ghost cs = cview(conflicts@);
    let mut agg: Vec<RiskZone> = Vec::new();
    let mut i: usize = 0;
    proof {
        assert(cs.take(0) =~= Seq::<ConflictView>::empty());
        assert(rviews(agg@) =~= Seq::<RiskView>::empty());
    }
    while i < conflicts.len()
        invariant
            cs == cview(conflicts@),
            i <= cs.len(),
            rviews(agg@) == tally_all(cs.take(i as int)),
            risk_paths_unique(rviews(agg@)),
        decreases cs.len() - i,
    {
        proof {
            assert(cs.take(i + 1).drop_last() =~= cs.take(i as int));
            assert(cs.take(i + 1).last() == conflicts@[i as int]@);
        }
        let c = &conflicts[i];
        let paths = marked(c);
        let sev = match &c.severity {
            Some(s) => s.clone(),
            None => String::from_str("medium"),
        };
        let ghost base = rviews(agg@);
        let ghost pv = views(paths@);
        let mut j: usize = 0;
        proof {
            assert(pv.take(0) =~= Seq::<Seq<char>>::empty());
        }
        while j < paths.len()
            invariant
                pv == views(paths@),
                j <= pv.len(),
                rviews(agg@) == tally_paths(base, pv.take(j as int), sev@, c.ts),
                risk_paths_unique(rviews(agg@)),
            decreases pv.len() - j,
        {
            proof {
                assert(pv.take(j + 1).drop_last() =~= pv.take(j as int));
                assert(pv.take(j + 1).last() == paths@[j as int]@);
            }
            tally_exec(&mut agg, &paths[j], &sev, c.ts);
            j = j + 1;
        }
        proof {
            assert(pv.take(pv.len() as int) =~= pv);
        }
        i = i + 1;
    }
    proof {
        assert(cs.take(cs.len() as int) =~= cs);
    }
    let ghost all = rviews(agg@);
    let mut out: Vec<RiskZone> = Vec::new();
    let mut m: usize = 0;
    proof {
        assert(all.take(0) =~= Seq::<RiskView>::empty());
        assert(rviews(out@) =~= Seq::<RiskView>::empty());
    }
    while m < agg.len()
        invariant
            all == rviews(agg@),
            m <= all.len(),
            rviews(out@) == ranked(all.take(m as int)),
        decreases all.len() - m,
    {
        proof {
            assert(all.take(m + 1).drop_last() =~= all.take(m as int));
            assert(all.take(m + 1).last() == risk_view(agg@[m as int]));
        }
        let x = &agg[m];
        let mut k: usize = 0;
        while k < out.len() && !(x.count > out[k].count || (x.count == out[k].count && x.last > out[k].last))
            invariant
                k <= out@.len(),
                forall|j: int| 0 <= j < k ==> !ranks_before(risk_view(*x), #[trigger] rviews(out@)[j]),
            decreases out@.len() - k,
        {
            k = k + 1;
        }
        proof {
            lemma_insert_ranked_at(rviews(out@), risk_view(*x), k as int);
        }
        let ghost before = rviews(out@);
        out.insert(k, copy_risk(x));
        proof {
            assert(rviews(out@) =~= before.take(k as int).push(risk_view(*x)) + before.skip(k as int));
        }
        m = m + 1;
    }
    proof {
        assert(all.take(all.len() as int) =~= all);
    }
    out
}

} // verus!
