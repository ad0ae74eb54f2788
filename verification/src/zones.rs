//! The master's zone-lock registry: `path -> {owner, queued[]}`.
use vstd::prelude::*;
use crate::tasks::copy_strings;
use crate::text::views;

verus! {

/// One locked zone: its current owner (empty when none) and the FIFO queue
/// of sessions waiting for it.
#[derive(Debug)]
pub struct Zone {
    pub path: String,
    pub owner: String,
    pub queued: Vec<String>,
}

pub struct ZoneView {
    pub path: Seq<char>,
    pub owner: Seq<char>,
    pub queued: Seq<Seq<char>>,
}

impl View for Zone {
    type V = ZoneView;

    open spec fn view(&self) -> ZoneView {
        ZoneView { path: self.path@, owner: self.owner@, queued: views(self.queued@) }
    }
}

/// The views of a zone registry.
pub open spec fn zview(zs: Seq<Zone>) -> Seq<ZoneView> {
    zs.map_values(|z: Zone| z@)
}

/// Paths are unique in the registry.
pub open spec fn paths_unique(zs: Seq<ZoneView>) -> bool {
    forall|i: int, j: int|
        0 <= i < zs.len() && 0 <= j < zs.len() && i != j ==> zs[i].path != zs[j].path
}

/// Is there a zone for `path`?
pub open spec fn has_zone(zs: Seq<ZoneView>, path: Seq<char>) -> bool {
    exists|k: int| 0 <= k < zs.len() && zs[k].path == path
}

/// The index of the zone for `path` (meaningful when `has_zone`).
pub open spec fn zone_index(zs: Seq<ZoneView>, path: Seq<char>) -> int {
    choose|k: int| 0 <= k < zs.len() && zs[k].path == path
}

/// The zone for `path` (meaningful when `has_zone`).
pub open spec fn zone_of(zs: Seq<ZoneView>, path: Seq<char>) -> ZoneView {
    zs[zone_index(zs, path)]
}

/// `zs` with the zone for `path` set to `z`, appended when absent.
pub open spec fn put_zone(zs: Seq<ZoneView>, path: Seq<char>, z: ZoneView) -> Seq<ZoneView> {
    if has_zone(zs, path) {
        zs.update(zone_index(zs, path), z)
    } else {
        zs.push(z)
    }
}

/// Outcome of an acquire.
#[derive(Debug)]
pub enum Acquire {
    /// Only the master decides zone ownership.
    NotMaster,
    /// Another session holds the zone; the requester waits in its queue.
    Queued { current: String },
    /// The requester (or the assigned owner) now holds the zone.
    Granted { owner: String },
}

/// Outcome of a release.
#[derive(Debug)]
pub enum ReleaseOutcome {
    NotMaster,
    NoZone,
    /// The named owner does not hold the zone.
    WrongOwner { current: String },
    /// Released; the first queued session (if any) now holds it.
    Released { next_owner: Option<String> },
}

/// Registry after an acquire of `path` for `owner`.
pub open spec fn acquire_spec(zs: Seq<ZoneView>, path: Seq<char>, owner: Seq<char>, force: bool) -> Seq<
    ZoneView,
> {
    if has_zone(zs, path) {
        let z = zone_of(zs, path);
        if z.owner.len() > 0 && z.owner != owner && !force {
            if z.queued.contains(owner) {
                zs
            } else {
                zs.update(
                    zone_index(zs, path),
                    ZoneView { path, owner: z.owner, queued: z.queued.push(owner) },
                )
            }
        } else {
            zs.update(zone_index(zs, path), ZoneView { path, owner, queued: z.queued })
        }
    } else {
        zs.push(ZoneView { path, owner, queued: Seq::empty() })
    }
}

/// Does the acquire queue instead of granting?
pub open spec fn acquire_queues(zs: Seq<ZoneView>, path: Seq<char>, owner: Seq<char>, force: bool) -> bool {
    has_zone(zs, path) && zone_of(zs, path).owner.len() > 0 && zone_of(zs, path).owner != owner
        && !force
}

/// Registry after a successful release of `path`.
pub open spec fn release_spec(zs: Seq<ZoneView>, path: Seq<char>) -> Seq<ZoneView> {
    let z = zone_of(zs, path);
    if z.queued.len() > 0 {
        zs.update(
            zone_index(zs, path),
            ZoneView { path, owner: z.queued[0], queued: z.queued.drop_first() },
        )
    } else {
        zs.remove(zone_index(zs, path))
    }
}

pub(crate) fn find_zone(zones: &Vec<Zone>, path: &String) -> (r: Option<usize>)
    ensures
        r matches Some(k) ==> k < zones@.len() && zones@[k as int].path@ == path@,
        r is None <==> !has_zone(zview(zones@), path@),
{
    let mut k: usize = 0;
    while k < zones.len()
        invariant
            k <= zones@.len(),
            forall|j: int| 0 <= j < k ==> zones@[j].path@ != path@,
        decreases zones@.len() - k,
    {
        if zones[k].path == *path {
            proof {
                assert(zview(zones@)[k as int].path == path@);
            }
            return Some(k);
        }
        k = k + 1;
    }
    proof {
        if has_zone(zview(zones@), path@) {
            let j = choose|j: int| 0 <= j < zview(zones@).len() && zview(zones@)[j].path == path@;
            assert(zones@[j].path@ == path@);
        }
    }
    None
}

pub(crate) proof fn lemma_unique_index(zs: Seq<ZoneView>, path: Seq<char>, k: int)
    requires
        paths_unique(zs),
        0 <= k < zs.len(),
        zs[k].path == path,
    ensures
        has_zone(zs, path),
        zone_index(zs, path) == k,
{
    assert(has_zone(zs, path));
    let j = zone_index(zs, path);
    assert(zs[j].path == path);
}

pub(crate) fn contains_string(v: &Vec<String>, s: &String) -> (r: bool)
    ensures
        r == views(v@).contains(s@),
{
    let mut i: usize = 0;
    while i < v.len()
        invariant
            i <= v@.len(),
            forall|j: int| 0 <= j < i ==> v@[j]@ != s@,
        decreases v@.len() - i,
    {
        if v[i] == *s {
            proof {
                assert(views(v@)[i as int] == s@);
            }
            return true;
        }
        i = i + 1;
    }
    proof {
        if views(v@).contains(s@) {
            let j = choose|j: int| 0 <= j < views(v@).len() && views(v@)[j] == s@;
            assert(v@[j]@ == s@);
        }
    }
    false
}

/// Acquire (or assign) `path` for `owner`. When another session holds it and
/// `force` is not set, `owner` joins the FIFO queue (once) and the current
/// owner stays; otherwise `owner` takes the zone, keeping its queue.
pub fn acquire_zone(zones: &mut Vec<Zone>, path: String, owner: String, force: bool) -> (r: Acquire)
    requires
        paths_unique(zview(old(zones)@)),
    ensures
        paths_unique(zview(final(zones)@)),
        zview(final(zones)@) == acquire_spec(zview(old(zones)@), path@, owner@, force),
        acquire_queues(zview(old(zones)@), path@, owner@, force) ==> (r matches Acquire::Queued {
            current,
        } && current@ == zone_of(zview(old(zones)@), path@).owner),
        !acquire_queues(zview(old(zones)@), path@, owner@, force) ==> (r matches Acquire::Granted {
            owner: o,
        } && o@ == owner@),
{
    let ghost zs = zview(zones@);
    let ghost p = path@;
    let ghost ow = owner@;
    match find_zone(zones, &path) {
        Some(k) => {
            proof {
                lemma_unique_index(zs, p, k as int);
            }
            let cur = zones[k].owner.clone();
            if cur.unicode_len() > 0 && !(cur == owner) && !force {
                if !contains_string(&zones[k].queued, &owner) {
                    let mut queued = copy_strings(&zones[k].queued);
                    let ghost q0 = queued@;
                    queued.push(owner);
                    proof {
                        assert(views(queued@) =~= views(q0).push(ow));
                    }
                    zones.set(k, Zone { path, owner: cur.clone(), queued });
                }
                proof {
                    assert(zview(zones@) =~= acquire_spec(zs, p, ow, force));
                    assert forall|i: int, j: int|
                        0 <= i < zview(zones@).len() && 0 <= j < zview(zones@).len() && i != j
                            implies zview(zones@)[i].path != zview(zones@)[j].path by {
                        assert(zs[i].path != zs[j].path);
                    }
                }
                Acquire::Queued { current: cur }
            } else {
                let queued = copy_strings(&zones[k].queued);
                let o = owner.clone();
                zones.set(k, Zone { path, owner, queued });
                proof {
                    assert(zview(zones@) =~= acquire_spec(zs, p, ow, force));
                    assert forall|i: int, j: int|
                        0 <= i < zview(zones@).len() && 0 <= j < zview(zones@).len() && i != j
                            implies zview(zones@)[i].path != zview(zones@)[j].path by {
                        assert(zs[i].path != zs[j].path);
                    }
                }
                Acquire::Granted { owner: o }
            }
        },
        None => {
            let o = owner.clone();
            let empty: Vec<String> = Vec::new();
            proof {
                assert(views(empty@) =~= Seq::<Seq<char>>::empty());
            }
            zones.push(Zone { path, owner, queued: empty });
            proof {
                assert(zview(zones@) =~= acquire_spec(zs, p, o@, force));
                assert forall|i: int, j: int|
                    0 <= i < zview(zones@).len() && 0 <= j < zview(zones@).len() && i != j
                        implies zview(zones@)[i].path != zview(zones@)[j].path by {
                    if i < zs.len() && j < zs.len() {
                        assert(zs[i].path != zs[j].path);
                    } else if i < zs.len() {
                        assert(zs[i].path != p);
                    } else {
                        assert(zs[j].path != p);
                    }
                }
            }
            Acquire::Granted { owner: o }
        },
    }
}

/// Release `path`. With `owner` given, only that owner may release. The zone
/// passes to the first queued session, or disappears when nobody waits.
pub fn release_zone(zones: &mut Vec<Zone>, path: &String, owner: Option<String>) -> (r:
    ReleaseOutcome)
    requires
        paths_unique(zview(old(zones)@)),
    ensures
        paths_unique(zview(final(zones)@)),
        !has_zone(zview(old(zones)@), path@) ==> r is NoZone && final(zones)@ == old(zones)@,
        has_zone(zview(old(zones)@), path@) && owner is Some && owner->0@ != zone_of(
            zview(old(zones)@),
            path@,
        ).owner ==> (r matches ReleaseOutcome::WrongOwner { current } && current@ == zone_of(
            zview(old(zones)@),
            path@,
        ).owner && final(zones)@ == old(zones)@),
        has_zone(zview(old(zones)@), path@) && (owner is None || owner->0@ == zone_of(
            zview(old(zones)@),
            path@,
        ).owner) ==> {
            &&& zview(final(zones)@) == release_spec(zview(old(zones)@), path@)
            &&& r matches ReleaseOutcome::Released { next_owner }
            &&& (zone_of(zview(old(zones)@), path@).queued.len() > 0 ==> (next_owner matches Some(
                n,
            ) && n@ == zone_of(zview(old(zones)@), path@).queued[0]))
            &&& (zone_of(zview(old(zones)@), path@).queued.len() == 0 ==> next_owner is None)
        },
{
    let ghost zs = zview(zones@);
    match find_zone(zones, path) {
        None => ReleaseOutcome::NoZone,
        Some(k) => {
            proof {
                lemma_unique_index(zs, path@, k as int);
            }
            let cur = zones[k].owner.clone();
            match &owner {
                Some(o) => {
                    if !(*o == cur) {
                        return ReleaseOutcome::WrongOwner { current: cur };
                    }
                },
                None => {},
            }
            if zones[k].queued.len() > 0 {
                let mut queued = copy_strings(&zones[k].queued);
                let ghost q0 = queued@;
                let nxt = queued.remove(0);
                proof {
                    assert(views(queued@) =~= views(q0).drop_first());
                }
                let n2 = nxt.clone();
                zones.set(k, Zone { path: path.clone(), owner: nxt, queued });
                proof {
                    assert(zview(zones@) =~= release_spec(zs, path@));
                    assert forall|i: int, j: int|
                        0 <= i < zview(zones@).len() && 0 <= j < zview(zones@).len() && i != j
                            implies zview(zones@)[i].path != zview(zones@)[j].path by {
                        assert(zs[i].path != zs[j].path);
                    }
                }
                ReleaseOutcome::Released { next_owner: Some(n2) }
            } else {
                zones.remove(k);
                proof {
                    assert(zview(zones@) =~= release_spec(zs, path@));
                    assert forall|i: int, j: int|
                        0 <= i < zview(zones@).len() && 0 <= j < zview(zones@).len() && i != j
                            implies zview(zones@)[i].path != zview(zones@)[j].path by {
                        let i2 = if i < k {
                            i
                        } else {
                            i + 1
                        };
                        let j2 = if j < k {
                            j
                        } else {
                            j + 1
                        };
                        assert(zs[i2].path != zs[j2].path);
                    }
                }
                ReleaseOutcome::Released { next_owner: None }
            }
        },
    }
}

/// Force `path` to `new_owner`, keeping its queue (created when absent).
pub fn steal_zone(zones: &mut Vec<Zone>, path: String, new_owner: String)
    requires
        paths_unique(zview(old(zones)@)),
    ensures
        paths_unique(zview(final(zones)@)),
        zview(final(zones)@) == put_zone(
            zview(old(zones)@),
            path@,
            ZoneView {
                path: path@,
                owner: new_owner@,
                queued: if has_zone(zview(old(zones)@), path@) {
                    zone_of(zview(old(zones)@), path@).queued
                } else {
                    Seq::empty()
                },
            },
        ),
{
    let ghost zs = zview(zones@);
    let ghost p = path@;
    let ghost no = new_owner@;
    match find_zone(zones, &path) {
        Some(k) => {
            proof {
                lemma_unique_index(zs, p, k as int);
            }
            let queued = copy_strings(&zones[k].queued);
            zones.set(k, Zone { path, owner: new_owner, queued });
            proof {
                assert forall|i: int, j: int|
                    0 <= i < zview(zones@).len() && 0 <= j < zview(zones@).len() && i != j
                        implies zview(zones@)[i].path != zview(zones@)[j].path by {
                    assert(zs[i].path != zs[j].path);
                }
            }
        },
        None => {
            let empty: Vec<String> = Vec::new();
            proof {
                assert(views(empty@) =~= Seq::<Seq<char>>::empty());
            }
            zones.push(Zone { path, owner: new_owner, queued: empty });
            proof {
                assert forall|i: int, j: int|
                    0 <= i < zview(zones@).len() && 0 <= j < zview(zones@).len() && i != j
                        implies zview(zones@)[i].path != zview(zones@)[j].path by {
                    if i < zs.len() && j < zs.len() {
                        assert(zs[i].path != zs[j].path);
                    } else if i < zs.len() {
                        assert(zs[i].path != p);
                    } else {
                        assert(zs[j].path != p);
                    }
                }
            }
        },
    }
    proof {
        assert(zview(zones@) =~= put_zone(
            zs,
            p,
            ZoneView {
                path: p,
                owner: no,
                queued: if has_zone(zs, p) {
                    zone_of(zs, p).queued
                } else {
                    Seq::empty()
                },
            },
        ));
    }
}


/// `q` with each of `items` appended unless already present.
pub open spec fn merge_queue(q: Seq<Seq<char>>, items: Seq<Seq<char>>) -> Seq<Seq<char>>
    decreases items.len(),
{
    if items.len() == 0 {
        q
    } else {
        let m = merge_queue(q, items.drop_last());
        if m.contains(items.last()) {
            m
        } else {
            m.push(items.last())
        }
    }
}

/// The views of a bus snapshot: `(path, queued)` per zone.
pub open spec fn bus_view(bus: Seq<(String, Vec<String>)>) -> Seq<(Seq<char>, Seq<Seq<char>>)> {
    bus.map_values(|e: (String, Vec<String>)| (e.0@, views(e.1@)))
}

/// The registry after merging, zone by zone, the waiters of a bus snapshot
/// into the zones it already manages; owners and unknown zones are left
/// alone.
pub open spec fn merge_bus(zs: Seq<ZoneView>, bus: Seq<(Seq<char>, Seq<Seq<char>>)>) -> Seq<ZoneView>
    decreases bus.len(),
{
    if bus.len() == 0 {
        zs
    } else {
        let m = merge_bus(zs, bus.drop_last());
        let path = bus.last().0;
        if has_zone(m, path) {
            let z = zone_of(m, path);
            m.update(
                zone_index(m, path),
                ZoneView { path: z.path, owner: z.owner, queued: merge_queue(z.queued, bus.last().1) },
            )
        } else {
            m
        }
    }
}

/// The registry made of a bus snapshot, a later entry for a path replacing
/// an earlier one.
pub open spec fn put_all(zs: Seq<ZoneView>, incoming: Seq<ZoneView>) -> Seq<ZoneView>
    decreases incoming.len(),
{
    if incoming.len() == 0 {
        zs
    } else {
        let m = put_all(zs, incoming.drop_last());
        put_zone(m, incoming.last().path, incoming.last())
    }
}

/// `q` with each of `items` appended unless already present.
pub fn merge_queue_exec(q: &Vec<String>, items: &Vec<String>) -> (r: Vec<String>)
    ensures
        views(r@) == merge_queue(views(q@), views(items@)),
{
    let mut r = copy_strings(q);
    let mut j: usize = 0;
    proof {
        assert(views(items@).take(0) =~= Seq::<Seq<char>>::empty());
    }
    while j < items.len()
        invariant
            j <= items@.len(),
            views(r@) == merge_queue(views(q@), views(items@).take(j as int)),
        decreases items@.len() - j,
    {
        proof {
            assert(views(items@).take(j + 1).drop_last() =~= views(items@).take(j as int));
            assert(views(items@).take(j + 1).last() == items@[j as int]@);
        }
        if !contains_string(&r, &items[j]) {
            let ghost before = views(r@);
            r.push(items[j].clone());
            proof {
                assert(views(r@) =~= before.push(items@[j as int]@));
            }
        }
        j = j + 1;
    }
    proof {
        assert(views(items@).take(items@.len() as int) =~= views(items@));
    }
    r
}

/// Merge the waiters of a bus snapshot into the zones this registry already
/// manages (see `merge_bus`).
pub fn merge_queued(zones: &mut Vec<Zone>, bus: &Vec<(String, Vec<String>)>)
    requires
        paths_unique(zview(old(zones)@)),
    ensures
        zview(final(zones)@) == merge_bus(zview(old(zones)@), bus_view(bus@)),
        paths_unique(zview(final(zones)@)),
{
    let ghost z0 = zview(zones@);
    let ghost bv = bus_view(bus@);
    let mut i: usize = 0;
    proof {
        assert(bv.take(0) =~= Seq::<(Seq<char>, Seq<Seq<char>>)>::empty());
    }
    while i < bus.len()
        invariant
            i <= bus@.len(),
            bv == bus_view(bus@),
            z0 == zview(old(zones)@),
            zones@.len() == z0.len(),
            forall|k: int| 0 <= k < z0.len() ==> #[trigger] zones@[k].path@ == z0[k].path,
            paths_unique(z0),
            zview(zones@) == merge_bus(z0, bv.take(i as int)),
        decreases bus@.len() - i,
    {
        proof {
            assert(bv.take(i + 1).drop_last() =~= bv.take(i as int));
            assert(bv.take(i + 1).last() == bv[i as int]);
            assert forall|a: int, b: int|
                0 <= a < zones@.len() && 0 <= b < zones@.len() && a != b implies zview(zones@)[a].path
                    != zview(zones@)[b].path by {
                assert(zones@[a].path@ == z0[a].path);
                assert(zones@[b].path@ == z0[b].path);
            }
        }
        let path = &bus[i].0;
        match find_zone(zones, path) {
            Some(k) => {
                proof {
                    lemma_unique_index(zview(zones@), path@, k as int);
                }
                let merged = merge_queue_exec(&zones[k].queued, &bus[i].1);
                let z = Zone { path: zones[k].path.clone(), owner: zones[k].owner.clone(), queued: merged };
                let ghost before = zview(zones@);
                zones.set(k, z);
                proof {
                    assert(zview(zones@) =~= before.update(
                        k as int,
                        ZoneView {
                            path: before[k as int].path,
                            owner: before[k as int].owner,
                            queued: merge_queue(before[k as int].queued, bv[i as int].1),
                        },
                    ));
                }
            },
            None => {},
        }
        i = i + 1;
    }
    proof {
        assert(bv.take(bus@.len() as int) =~= bv);
        assert forall|a: int, b: int|
            0 <= a < zones@.len() && 0 <= b < zones@.len() && a != b implies zview(zones@)[a].path
                != zview(zones@)[b].path by {
            assert(zones@[a].path@ == z0[a].path);
            assert(zones@[b].path@ == z0[b].path);
        }
    }
}

/// A registry made of a bus snapshot (see `put_all`).
pub fn adopt_zones(incoming: Vec<Zone>) -> (r: Vec<Zone>)
    ensures
        zview(r@) == put_all(Seq::empty(), zview(incoming@)),
        paths_unique(zview(r@)),
{
    let ghost inc = zview(incoming@);
    let mut out: Vec<Zone> = Vec::new();
    let mut src = incoming;
    let total = src.len();
    let mut i: usize = 0;
    proof {
        assert(inc.take(0) =~= Seq::<ZoneView>::empty());
        assert(zview(out@) =~= Seq::<ZoneView>::empty());
        assert(zview(src@) =~= inc.skip(0));
    }
    while src.len() > 0
        invariant
            i <= inc.len(),
            inc.len() == total,
            src@.len() + i == inc.len(),
            zview(src@) == inc.skip(i as int),
            zview(out@) == put_all(Seq::empty(), inc.take(i as int)),
            paths_unique(zview(out@)),
        decreases src@.len(),
    {
        let ghost s0 = src@;
        proof {
            assert(zview(s0)[0] == s0[0]@);
        }
        let z = src.remove(0);
        proof {
            assert(z@ == inc[i as int]);
            assert(inc.take(i + 1).drop_last() =~= inc.take(i as int));
            assert(src@ =~= s0.drop_first());
            assert(zview(src@) =~= zview(s0).drop_first());
            assert(zview(src@) =~= inc.skip(i + 1));
        }
        let ghost before = zview(out@);
        match find_zone(&out, &z.path) {
            Some(k) => {
                proof {
                    lemma_unique_index(before, z.path@, k as int);
                }
                out.set(k, z);
                proof {
                    assert(zview(out@) =~= before.update(k as int, inc[i as int]));
                    assert forall|a: int, b: int|
                        0 <= a < zview(out@).len() && 0 <= b < zview(out@).len() && a != b implies zview(out@)[a].path
                            != zview(out@)[b].path by {
                        assert(zview(out@)[a].path == before[a].path);
                        assert(zview(out@)[b].path == before[b].path);
                    }
                }
            },
            None => {
                out.push(z);
                proof {
                    assert(zview(out@) =~= before.push(inc[i as int]));
                    assert forall|a: int, b: int|
                        0 <= a < zview(out@).len() && 0 <= b < zview(out@).len() && a != b implies zview(out@)[a].path
                            != zview(out@)[b].path by {
                        if a < before.len() && b < before.len() {
                        } else if a < before.len() {
                            assert(before[a].path != inc[i as int].path);
                        } else {
                            assert(before[b].path != inc[i as int].path);
                        }
                    }
                }
            },
        }
        i = i + 1;
    }
    proof {
        assert(inc.take(inc.len() as int) =~= inc);
    }
    out
}

} // verus!
