//! The slave tree the master knows: each peer hangs under the peer named by
//! its `parent_id`; peers with no parent (or an empty one, or the master
//! itself) hang under the master, except other masters. Children are listed
//! in session-id order.
use vstd::prelude::*;
use crate::registry::{slot_text, text_is, Peer};
use crate::text::{sort_string_vec, sort_strings, str_eq, views};

verus! {

/// Does `p` hang directly under `sid` in the tree rooted at `root`?
pub open spec fn hangs_under(p: Peer, root: Seq<char>, sid: Seq<char>) -> bool {
    if sid == root {
        &&& p.sid@ != sid
        &&& !text_is(p.info.role, "master"@)
        &&& match slot_text(p.info.parent_id) {
            Some(x) => x == sid || x.len() == 0,
            None => true,
        }
    } else {
        slot_text(p.info.parent_id) == Some(sid)
    }
}

/// The ids of the peers directly under `sid`, in registry order.
pub open spec fn child_ids(reg: Seq<Peer>, root: Seq<char>, sid: Seq<char>) -> Seq<Seq<char>>
    decreases reg.len(),
{
    if reg.len() == 0 {
        Seq::empty()
    } else {
        let r = child_ids(reg.drop_last(), root, sid);
        if hangs_under(reg.last(), root, sid) {
            r.push(reg.last().sid@)
        } else {
            r
        }
    }
}

/// The children of `sid`, in session-id order.
pub open spec fn children_of(reg: Seq<Peer>, root: Seq<char>, sid: Seq<char>) -> Seq<Seq<char>> {
    sort_strings(child_ids(reg, root, sid))
}

/// The subtree of `sid` at `depth`, in preorder, as (session id, depth)
/// rows; at most `fuel` levels deep.
pub open spec fn tree_rows(reg: Seq<Peer>, root: Seq<char>, sid: Seq<char>, depth: nat, fuel: nat) -> Seq<(Seq<char>, nat)>
    decreases fuel, 0nat,
{
    if fuel == 0 {
        Seq::empty()
    } else {
        seq![(sid, depth)] + forest_rows(reg, root, children_of(reg, root, sid), depth + 1, (fuel - 1) as nat)
    }
}

/// The subtrees of `cs`, one after the other.
pub open spec fn forest_rows(reg: Seq<Peer>, root: Seq<char>, cs: Seq<Seq<char>>, depth: nat, fuel: nat) -> Seq<(Seq<char>, nat)>
    decreases fuel, cs.len() + 1,
{
    if cs.len() == 0 {
        Seq::empty()
    } else {
        forest_rows(reg, root, cs.drop_last(), depth, fuel) + tree_rows(reg, root, cs.last(), depth, fuel)
    }
}

/// The rows of a topology listing.
pub open spec fn rows_view(rows: Seq<(String, usize)>) -> Seq<(Seq<char>, nat)> {
    rows.map_values(|r: (String, usize)| (r.0@, r.1 as nat))
}

/// How deep the listing goes: one level per known peer, plus the master. A
/// path down the tree visits distinct peers, so no tree is cut short.
pub open spec fn tree_fuel(n: nat) -> nat {
    if n < usize::MAX {
        (n + 1) as nat
    } else {
        n
    }
}

/// The ids of the peers directly under `sid` (see `child_ids`).
fn child_ids_exec(reg: &Vec<Peer>, root: &str, sid: &str) -> (r: Vec<String>)
    ensures
        views(r@) == child_ids(reg@, root@, sid@),
{
    let at_root = str_eq(sid, root);
    let mut out: Vec<String> = Vec::new();
    let mut i: usize = 0;
    proof {
        assert(reg@.take(0) =~= Seq::<Peer>::empty());
        assert(views(out@) =~= Seq::<Seq<char>>::empty());
    }
    while i < reg.len()
        invariant
            at_root == (sid@ == root@),
            i <= reg@.len(),
            views(out@) == child_ids(reg@.take(i as int), root@, sid@),
        decreases reg@.len() - i,
    {
        proof {
            assert(reg@.take(i + 1).drop_last() =~= reg@.take(i as int));
            assert(reg@.take(i + 1).last() == reg@[i as int]);
        }
        let p = &reg[i];
        let parent_ok = match &p.info.parent_id {
            crate::registry::Slot::Text(x) => if at_root {
                str_eq(x.as_str(), sid) || x.unicode_len() == 0
            } else {
                str_eq(x.as_str(), sid)
            },
            _ => at_root,
        };
        let under = if at_root {
            let is_master = match &p.info.role {
                crate::registry::Slot::Text(r) => str_eq(r.as_str(), "master"),
                _ => false,
            };
            !str_eq(p.sid.as_str(), sid) && !is_master && parent_ok
        } else {
            parent_ok
        };
        if under {
            let ghost before = views(out@);
            out.push(p.sid.clone());
            proof {
                assert(views(out@) =~= before.push(p.sid@));
            }
        }
        i = i + 1;
    }
    proof {
        assert(reg@.take(reg@.len() as int) =~= reg@);
    }
    out
}

fn tree_rows_exec(
    reg: &Vec<Peer>,
    root: &str,
    sid: &str,
    depth: usize,
    fuel: usize,
    out: &mut Vec<(String, usize)>,
)
    requires
        depth + fuel <= usize::MAX,
    ensures
        rows_view(final(out)@) == rows_view(old(out)@) + tree_rows(reg@, root@, sid@, depth as nat, fuel as nat),
    decreases fuel, 0nat,
{
    if fuel == 0 {
        proof {
            assert(rows_view(out@) =~= rows_view(out@) + Seq::<(Seq<char>, nat)>::empty());
        }
        return;
    }
    let ghost start = rows_view(out@);
    out.push((String::from_str(sid), depth));
    proof {
        assert(rows_view(out@) =~= start.push((sid@, depth as nat)));
    }
    let cs = sort_string_vec(&child_ids_exec(reg, root, sid));
    forest_rows_exec(reg, root, &cs, depth + 1, fuel - 1, out);
    proof {
        assert(start + tree_rows(reg@, root@, sid@, depth as nat, fuel as nat) =~= start.push((sid@, depth as nat))
            + forest_rows(reg@, root@, children_of(reg@, root@, sid@), (depth + 1) as nat, (fuel - 1) as nat));
    }
}

fn forest_rows_exec(
    reg: &Vec<Peer>,
    root: &str,
    cs: &Vec<String>,
    depth: usize,
    fuel: usize,
    out: &mut Vec<(String, usize)>,
)
    requires
        depth + fuel <= usize::MAX,
    ensures
        rows_view(final(out)@) == rows_view(old(out)@) + forest_rows(reg@, root@, views(cs@), depth as nat, fuel as nat),
    decreases fuel, cs@.len() + 1,
{
    let ghost start = rows_view(out@);
    let ghost cv = views(cs@);
    let mut i: usize = 0;
    proof {
        assert(cv.take(0) =~= Seq::<Seq<char>>::empty());
        assert(rows_view(out@) =~= start + forest_rows(reg@, root@, cv.take(0), depth as nat, fuel as nat));
    }
    while i < cs.len()
        invariant
            depth + fuel <= usize::MAX,
            cv == views(cs@),
            i <= cv.len(),
            rows_view(out@) == start + forest_rows(reg@, root@, cv.take(i as int), depth as nat, fuel as nat),
        decreases cv.len() - i,
    {
        proof {
            assert(cv.take(i + 1).drop_last() =~= cv.take(i as int));
            assert(cv.take(i + 1).last() == cs@[i as int]@);
        }
        let ghost before = rows_view(out@);
        tree_rows_exec(reg, root, cs[i].as_str(), depth, fuel, out);
        proof {
            assert(start + forest_rows(reg@, root@, cv.take(i + 1), depth as nat, fuel as nat) =~= before
                + tree_rows(reg@, root@, cs@[i as int]@, depth as nat, fuel as nat));
        }
        i = i + 1;
    }
    proof {
        assert(cv.take(cv.len() as int) =~= cv);
    }
}

/// `topology`: the tree under this node (`root_sid`), in preorder, as
/// (session id, depth) rows, the root first at depth 0.
pub fn build_tree(reg: &Vec<Peer>, root_sid: &str) -> (r: Vec<(String, usize)>)
    ensures
        rows_view(r@) == tree_rows(reg@, root_sid@, root_sid@, 0, tree_fuel(reg@.len())),
        r@.len() > 0 && r@[0].0@ == root_sid@ && r@[0].1 == 0,
{
    let fuel: usize = if reg.len() < usize::MAX {
        reg.len() + 1
    } else {
        reg.len()
    };
    let mut out: Vec<(String, usize)> = Vec::new();
    tree_rows_exec(reg, root_sid, root_sid, 0, fuel, &mut out);
    proof {
        assert(rows_view(Seq::<(String, usize)>::empty()) =~= Seq::<(Seq<char>, nat)>::empty());
        assert(rows_view(out@) =~= tree_rows(reg@, root_sid@, root_sid@, 0, fuel as nat));
        assert(rows_view(out@)[0] == (root_sid@, 0nat));
    }
    out
}

} // verus!
