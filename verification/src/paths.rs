//! Path shapes used by the impact check and the global-serial rule.
use vstd::prelude::*;
use crate::text::{
    join_prefix, join_slash, keep_nonempty, nonempty_parts, split_seq, split_slash, str_eq,
    trim_dot_slash, trim_dot_slash_str, views,
};

verus! {

/// The non-empty `/`-separated components of `p` after leading `./` are dropped.
pub open spec fn components_of(p: Seq<char>) -> Seq<Seq<char>> {
    nonempty_parts(split_seq(trim_dot_slash(p)))
}

/// Parent directory of a file path (`a/b/c.rs` -> `a/b`; `x.rs` -> empty).
pub open spec fn parent_dir_of(p: Seq<char>) -> Seq<char> {
    let c = components_of(p);
    if c.len() <= 1 {
        Seq::empty()
    } else {
        join_slash(c.take(c.len() - 1))
    }
}

/// The first `n` components of `p` joined with `/`.
pub open spec fn top_of(p: Seq<char>, n: int) -> Seq<char> {
    let c = components_of(p);
    let m = if n < c.len() {
        n
    } else {
        c.len() as int
    };
    if m <= 0 {
        Seq::empty()
    } else {
        join_slash(c.take(m))
    }
}

/// `<container>/<crate>/src/...` layout.
pub open spec fn is_workspace_crate_src(p: Seq<char>) -> bool {
    let c = components_of(p);
    c.len() >= 3 && c[2] == "src"@
}

/// Root manifests of the common build systems.
pub open spec fn is_root_manifest(name: Seq<char>) -> bool {
    ||| name == "Cargo.toml"@
    ||| name == "package.json"@
    ||| name == "go.mod"@
    ||| name == "pyproject.toml"@
    ||| name == "pom.xml"@
}

/// Build-output and generated directories.
pub open spec fn is_generated_dir(c: Seq<char>) -> bool {
    ||| c == "target"@
    ||| c == "build"@
    ||| c == "dist"@
    ||| c == "generated"@
    ||| c == "node_modules"@
}

/// Global shared state: `Cargo.lock` anywhere, a `.git` component, a root
/// manifest, or a generated directory anywhere in the path.
pub open spec fn is_global_path(path: Seq<char>) -> bool {
    let comps = split_seq(trim_dot_slash(path));
    let name = comps.last();
    ||| name == "Cargo.lock"@
    ||| (exists|i: int| 0 <= i < comps.len() && comps[i] == ".git"@)
    ||| (comps.len() == 1 && is_root_manifest(name))
    ||| (exists|i: int| 0 <= i < comps.len() && is_generated_dir(comps[i]))
}

/// Stable per-file path components.
pub fn path_components(p: &str) -> (r: Vec<String>)
    ensures
        views(r@) == components_of(p@),
{
    let t = trim_dot_slash_str(p);
    let parts = split_slash(t.as_str());
    keep_nonempty(parts)
}

/// Parent directory of a file path (`a/b/c.rs` -> `a/b`; `x.rs` -> "").
pub fn parent_dir(p: &str) -> (r: String)
    ensures
        r@ == parent_dir_of(p@),
{
    let comps = path_components(p);
    if comps.len() <= 1 {
        String::new()
    } else {
        join_prefix(&comps, comps.len() - 1)
    }
}

/// First `n` path components joined (`a/b/c.rs`, 2 -> `a/b`).
pub fn top_components(p: &str, n: usize) -> (r: String)
    ensures
        r@ == top_of(p@, n as int),
{
    let comps = path_components(p);
    let m = if n < comps.len() {
        n
    } else {
        comps.len()
    };
    if m == 0 {
        String::new()
    } else {
        join_prefix(&comps, m)
    }
}

/// True when `p` follows a workspace-crate source layout:
/// `<container>/<crate>/src/...` (e.g. `crates/a/src/lib.rs`).
pub fn workspace_crate_src(p: &str) -> (r: bool)
    ensures
        r == is_workspace_crate_src(p@),
{
    let comps = path_components(p);
    comps.len() >= 3 && str_eq(comps[2].as_str(), "src")
}

fn is_root_manifest_exec(name: &str) -> (r: bool)
    ensures
        r == is_root_manifest(name@),
{
    str_eq(name, "Cargo.toml") || str_eq(name, "package.json") || str_eq(name, "go.mod")
        || str_eq(name, "pyproject.toml") || str_eq(name, "pom.xml")
}

fn is_generated_dir_exec(c: &str) -> (r: bool)
    ensures
        r == is_generated_dir(c@),
{
    str_eq(c, "target") || str_eq(c, "build") || str_eq(c, "dist") || str_eq(c, "generated")
        || str_eq(c, "node_modules")
}

proof fn lemma_split_nonempty(s: Seq<char>)
    ensures
        split_seq(s).len() >= 1,
    decreases s.len(),
{
    if s.len() > 0 {
        lemma_split_nonempty(s.drop_last());
    }
}

/// Global shared state paths: Cargo.lock anywhere, .git paths, generated
/// directories and root manifests.
pub fn is_global_shared_path(path: &str) -> (r: bool)
    ensures
        r == is_global_path(path@),
{
    let t = trim_dot_slash_str(path);
    let comps = split_slash(t.as_str());
    proof {
        lemma_split_nonempty(t@);
    }
    let ghost cs = views(comps@);
    assert(cs == split_seq(trim_dot_slash(path@)));
    let n = comps.len();
    let name = comps[n - 1].as_str();
    if str_eq(name, "Cargo.lock") {
        return true;
    }
    let mut i: usize = 0;
    while i < n
        invariant
            n == comps@.len(),
            cs == views(comps@),
            cs == split_seq(trim_dot_slash(path@)),
            i <= n,
            forall|j: int| 0 <= j < i ==> cs[j] != ".git"@,
        decreases n - i,
    {
        if str_eq(comps[i].as_str(), ".git") {
            assert(cs[i as int] == ".git"@);
            assert(split_seq(trim_dot_slash(path@))[i as int] == ".git"@);
            return true;
        }
        i = i + 1;
    }
    if n == 1 && is_root_manifest_exec(name) {
        return true;
    }
    let mut k: usize = 0;
    while k < n
        invariant
            n == comps@.len(),
            cs == views(comps@),
            cs == split_seq(trim_dot_slash(path@)),
            k <= n,
            forall|j: int| 0 <= j < k ==> !is_generated_dir(#[trigger] cs[j]),
        decreases n - k,
    {
        if is_generated_dir_exec(comps[k].as_str()) {
            assert(is_generated_dir(split_seq(trim_dot_slash(path@))[k as int]));
            return true;
        }
        k = k + 1;
    }
    false
}

} // verus!
