//! Topic roots, `~` expansion and session-id resolution.
//!
//! A single config dir (default `~/mqtt`) holds `mqtt.conf`. The MQTT topic
//! root defaults to the project directory (git repo root / cwd) with the home
//! prefix stripped, so each project gets its own isolated mesh; `--root` or a
//! `root` field in `mqtt.conf` overrides it.
//!
//! What the file system and the environment know (`$HOME`, canonical paths,
//! the git root) is read at the edge and handed in as plain strings; paths
//! are compared component by component, as `std::path::Path` does on Unix.
use vstd::prelude::*;
use crate::text::{join_slash, split_seq, str_eq, trim_slashes, trim_slashes_of, trim_str, trim_ws, views};

verus! {

/// Config dir used when none is given.
pub const DEFAULT_CONFIG_DIR: &'static str = "~/mqtt";

/// Environment variable that carries the agent's session id.
pub const ENV_SESSION_ID: &'static str = "CODEX_THREAD_ID";

/// The process-level default topic root: set once at startup (from `--root`
/// or the project-dir default) so a later `mux_init` without a `root`
/// argument inherits it instead of recomputing from a different cwd.
pub struct DefaultRoot {
    pub root: Option<String>,
}

impl DefaultRoot {
    pub fn new() -> (r: DefaultRoot)
        ensures
            r.root is None,
    {
        DefaultRoot { root: None }
    }
}

/// The remembered root after a `set_default_root(root)`: the first setting
/// (slashes trimmed) wins.
pub open spec fn root_step(cur: Option<Seq<char>>, root: Seq<char>) -> Option<Seq<char>> {
    match cur {
        Some(r) => Some(r),
        None => Some(trim_slashes_of(root)),
    }
}

/// The remembered root after the settings `calls`, in order, starting from
/// `cur`.
pub open spec fn roots_after(cur: Option<Seq<char>>, calls: Seq<Seq<char>>) -> Option<Seq<char>>
    decreases calls.len(),
{
    if calls.len() == 0 {
        cur
    } else {
        root_step(roots_after(cur, calls.drop_last()), calls.last())
    }
}

pub open spec fn root_view(o: Option<String>) -> Option<Seq<char>> {
    match o {
        Some(s) => Some(s@),
        None => None,
    }
}

/// Remember `root` (with `/` trimmed at both ends) unless a root was already
/// remembered: the first setting wins.
pub fn set_default_root(cell: &mut DefaultRoot, root: &str)
    ensures
        old(cell).root is None ==> (final(cell).root matches Some(r) && r@ == trim_slashes_of(root@)),
        old(cell).root is Some ==> final(cell).root == old(cell).root,
        root_view(final(cell).root) == root_step(root_view(old(cell).root), root@),
{
    if cell.root.is_none() {
        cell.root = Some(trim_slashes(root));
    }
}

/// The remembered default topic root, if any.
pub fn default_root(cell: &DefaultRoot) -> (r: Option<&str>)
    ensures
        match cell.root {
            Some(s) => r matches Some(x) && x@ == s@,
            None => r is None,
        },
{
    match &cell.root {
        Some(s) => Some(s.as_str()),
        None => None,
    }
}

/// Path components kept after the first piece: empty pieces and `.` are
/// normalized away.
pub open spec fn later_comps(ps: Seq<Seq<char>>) -> Seq<Seq<char>>
    decreases ps.len(),
{
    if ps.len() == 0 {
        Seq::empty()
    } else {
        let r = later_comps(ps.drop_last());
        if ps.last().len() > 0 && ps.last() != "."@ {
            r.push(ps.last())
        } else {
            r
        }
    }
}

/// The components of a Unix path, as `Path::components` yields them, each
/// written as text: `"/"` for the root, `"."` for a leading current-dir,
/// `".."` for a parent and the name itself for a normal component.
pub open spec fn path_comps(s: Seq<char>) -> Seq<Seq<char>> {
    let ps = split_seq(s);
    if s.len() > 0 && s[0] == '/' {
        seq!["/"@] + later_comps(ps.drop_first())
    } else if ps[0].len() > 0 {
        seq![ps[0]] + later_comps(ps.drop_first())
    } else {
        later_comps(ps.drop_first())
    }
}

/// A normal (named) component.
pub open spec fn is_normal(c: Seq<char>) -> bool {
    c != "/"@ && c != "."@ && c != ".."@
}

/// The normal components of `cs`, in order.
pub open spec fn normals(cs: Seq<Seq<char>>) -> Seq<Seq<char>>
    decreases cs.len(),
{
    if cs.len() == 0 {
        Seq::empty()
    } else {
        let r = normals(cs.drop_last());
        if is_normal(cs.last()) {
            r.push(cs.last())
        } else {
            r
        }
    }
}

/// The home-relative topic path of `p`: its normal components after the
/// components of `home`, joined with `/`. `None` when there is no home, when
/// `p` is home itself, when `p` is not under home, or when nothing named
/// remains.
pub open spec fn strip_home_of(p: Seq<char>, home: Option<Seq<char>>) -> Option<Seq<char>> {
    match home {
        None => None,
        Some(h) => {
            let pc = path_comps(p);
            let hc = path_comps(h);
            if pc == hc || !hc.is_prefix_of(pc) {
                None
            } else {
                let parts = normals(pc.skip(hc.len() as int));
                if parts.len() == 0 {
                    None
                } else {
                    Some(join_slash(parts))
                }
            }
        },
    }
}

/// `Path::file_name`: the last component when it is a normal one.
pub open spec fn file_name_of(p: Seq<char>) -> Option<Seq<char>> {
    let c = path_comps(p);
    if c.len() > 0 && is_normal(c.last()) {
        Some(c.last())
    } else {
        None
    }
}

/// `PathBuf::join` on Unix: an absolute `rest` replaces `base`; otherwise a
/// separator is added when `base` does not already end with one.
pub open spec fn join_path(base: Seq<char>, rest: Seq<char>) -> Seq<char> {
    if rest.len() > 0 && rest[0] == '/' {
        rest
    } else if base.len() > 0 && base.last() != '/' {
        base + seq!['/'] + rest
    } else {
        base + rest
    }
}

/// `~` and `~/...` expanded against `home`; anything else, or any path when
/// there is no home, unchanged.
pub open spec fn expand_of(path: Seq<char>, home: Option<Seq<char>>) -> Seq<char> {
    if path == "~"@ {
        match home {
            Some(h) => h,
            None => path,
        }
    } else if "~/"@.is_prefix_of(path) {
        match home {
            Some(h) => join_path(h, path.skip(2)),
            None => path,
        }
    } else {
        path
    }
}

pub open spec fn opt_view(o: Option<&str>) -> Option<Seq<char>> {
    match o {
        Some(s) => Some(s@),
        None => None,
    }
}

pub open spec fn opt_string_view(o: Option<String>) -> Option<Seq<char>> {
    match o {
        Some(s) => Some(s@),
        None => None,
    }
}

proof fn lemma_later_step(ps: Seq<Seq<char>>, i: int)
    requires
        0 <= i < ps.len(),
    ensures
        later_comps(ps.take(i + 1)) == (if ps[i].len() > 0 && ps[i] != "."@ {
            later_comps(ps.take(i)).push(ps[i])
        } else {
            later_comps(ps.take(i))
        }),
{
    assert(ps.take(i + 1).drop_last() =~= ps.take(i));
}

proof fn lemma_normals_step(cs: Seq<Seq<char>>, i: int)
    requires
        0 <= i < cs.len(),
    ensures
        normals(cs.take(i + 1)) == (if is_normal(cs[i]) {
            normals(cs.take(i)).push(cs[i])
        } else {
            normals(cs.take(i))
        }),
{
    assert(cs.take(i + 1).drop_last() =~= cs.take(i));
}

/// The components of `s` (see `path_comps`).
pub fn components(s: &str) -> (r: Vec<String>)
    ensures
        views(r@) == path_comps(s@),
{
    let pieces = crate::text::split_slash(s);
    let ghost ps = views(pieces@);
    proof {
        crate::text::lemma_split_len(s@);
    }
    let mut out: Vec<String> = Vec::new();
    let rooted = s.unicode_len() > 0 && s.get_char(0) == '/';
    if rooted {
        out.push(String::from_str("/"));
    } else if pieces[0].unicode_len() > 0 {
        out.push(pieces[0].clone());
    }
    let ghost head = views(out@);
    let n = pieces.len();
    let mut i: usize = 1;
    proof {
        assert(ps.drop_first().take(0) =~= Seq::<Seq<char>>::empty());
        assert(views(out@) =~= head + later_comps(ps.drop_first().take(0)));
    }
    while i < n
        invariant
            n == pieces@.len(),
            ps == views(pieces@),
            1 <= i <= n,
            views(out@) == head + later_comps(ps.drop_first().take(i - 1)),
        decreases n - i,
    {
        proof {
            lemma_later_step(ps.drop_first(), i - 1);
        }
        let p = &pieces[i];
        if p.unicode_len() > 0 && !str_eq(p.as_str(), ".") {
            let ghost before = views(out@);
            out.push(p.clone());
            proof {
                assert(views(out@) =~= before.push(p@));
            }
        }
        i = i + 1;
    }
    proof {
        assert(ps.drop_first().take(n - 1) =~= ps.drop_first());
        reveal_strlit("/");
        if rooted {
            assert(head =~= seq!["/"@]);
        } else if ps[0].len() > 0 {
            assert(head =~= seq![ps[0]]);
        } else {
            assert(head =~= Seq::<Seq<char>>::empty());
            assert(views(out@) =~= later_comps(ps.drop_first()));
        }
    }
    out
}

/// Is `a` a prefix of `b`, component by component?
fn comps_prefix(a: &Vec<String>, b: &Vec<String>) -> (r: bool)
    ensures
        r == views(a@).is_prefix_of(views(b@)),
{
    if a.len() > b.len() {
        return false;
    }
    let mut i: usize = 0;
    while i < a.len()
        invariant
            a@.len() <= b@.len(),
            i <= a@.len(),
            forall|j: int| 0 <= j < i ==> a@[j]@ == b@[j]@,
        decreases a@.len() - i,
    {
        if !str_eq(a[i].as_str(), b[i].as_str()) {
            assert(views(a@)[i as int] != views(b@)[i as int]);
            return false;
        }
        i = i + 1;
    }
    assert(views(a@) =~= views(b@).take(a@.len() as int));
    true
}

/// Is component `c` a normal one?
fn comp_is_normal(c: &str) -> (r: bool)
    ensures
        r == is_normal(c@),
{
    !str_eq(c, "/") && !str_eq(c, ".") && !str_eq(c, "..")
}

/// The home-relative topic path of `p` (see `strip_home_of`). Both paths are
/// given as the edge canonicalized them; `home` is `None` when `$HOME` is
/// unset or cannot be canonicalized.
pub fn strip_home(p: &str, home: Option<&str>) -> (r: Option<String>)
    ensures
        opt_string_view(r) == strip_home_of(p@, opt_view(home)),
{
    let h = match home {
        Some(h) => h,
        None => {
            return None;
        },
    };
    let pc = components(p);
    let hc = components(h);
    let same = hc.len() == pc.len() && comps_prefix(&hc, &pc);
    if same {
        proof {
            assert(views(hc@) =~= views(pc@));
        }
        return None;
    }
    if !comps_prefix(&hc, &pc) {
        proof {
            if views(pc@) == views(hc@) {
                assert(views(hc@).is_prefix_of(views(pc@)));
            }
        }
        return None;
    }
    let ghost rest = views(pc@).skip(hc@.len() as int);
    let mut parts: Vec<String> = Vec::new();
    let m = hc.len();
    let mut i: usize = m;
    proof {
        assert(rest.take(0) =~= Seq::<Seq<char>>::empty());
    }
    while i < pc.len()
        invariant
            m == hc@.len(),
            m <= i <= pc@.len(),
            rest == views(pc@).skip(m as int),
            views(parts@) == normals(rest.take(i - m)),
        decreases pc@.len() - i,
    {
        proof {
            lemma_normals_step(rest, i - m);
            assert(rest[i - m] == pc@[i as int]@);
        }
        if comp_is_normal(pc[i].as_str()) {
            let ghost before = views(parts@);
            parts.push(pc[i].clone());
            proof {
                assert(views(parts@) =~= before.push(pc@[i as int]@));
            }
        }
        i = i + 1;
    }
    proof {
        assert(rest.take(pc@.len() - m) =~= rest);
        if views(pc@) == views(hc@) {
            assert(pc@.len() == hc@.len());
        }
    }
    if parts.len() == 0 {
        return None;
    }
    let joined = crate::text::join_prefix(&parts, parts.len());
    proof {
        assert(views(parts@).take(parts@.len() as int) =~= views(parts@));
    }
    Some(joined)
}

/// `Path::file_name` of `p` (see `file_name_of`).
pub fn file_name(p: &str) -> (r: Option<String>)
    ensures
        opt_string_view(r) == file_name_of(p@),
{
    let c = components(p);
    if c.len() == 0 {
        return None;
    }
    let last = &c[c.len() - 1];
    if comp_is_normal(last.as_str()) {
        Some(last.clone())
    } else {
        None
    }
}

/// `PathBuf::join` on Unix (see `join_path`).
fn join_path_exec(base: &str, rest: &str) -> (r: String)
    ensures
        r@ == join_path(base@, rest@),
{
    let nb = base.unicode_len();
    if rest.unicode_len() > 0 && rest.get_char(0) == '/' {
        return String::from_str(rest);
    }
    let mut out = String::from_str(base);
    if nb > 0 && base.get_char(nb - 1) != '/' {
        proof {
            reveal_strlit("/");
        }
        out.append("/");
    }
    out.append(rest);
    out
}

/// Expand a `~`-prefixed path against `home` (the value of `$HOME`, read at
/// the edge).
pub fn expand(path: &str, home: Option<&str>) -> (r: String)
    ensures
        r@ == expand_of(path@, opt_view(home)),
{
    proof {
        reveal_strlit("~");
        reveal_strlit("~/");
    }
    let n = path.unicode_len();
    if n == 1 && path.get_char(0) == '~' {
        assert(path@ =~= "~"@);
        return match home {
            Some(h) => String::from_str(h),
            None => String::from_str(path),
        };
    }
    if n >= 2 && path.get_char(0) == '~' && path.get_char(1) == '/' {
        assert("~/"@.is_prefix_of(path@));
        return match home {
            Some(h) => {
                let rest = crate::text::sub_string(path, 2, n);
                assert(rest@ =~= path@.skip(2));
                join_path_exec(h, rest.as_str())
            },
            None => String::from_str(path),
        };
    }
    proof {
        if path@ == "~"@ {
            assert(path@[0] == '~');
        }
        if "~/"@.is_prefix_of(path@) {
            assert(path@[0] == "~/"@[0] && path@[1] == "~/"@[1]);
        }
    }
    String::from_str(path)
}

/// Topic root of the project directory `dir`: its home-relative path, or its
/// file name when it is not under home. `dir_canon` is `dir` as the edge
/// canonicalized it (or `dir` itself when that failed); `home` is the
/// canonical home directory, if any.
pub fn project_root_for(dir: &str, dir_canon: &str, home: Option<&str>) -> (r: Option<String>)
    ensures
        opt_string_view(r) == match strip_home_of(dir_canon@, opt_view(home)) {
            Some(x) => Some(x),
            None => file_name_of(dir@),
        },
{
    match strip_home(dir_canon, home) {
        Some(x) => Some(x),
        None => file_name(dir),
    }
}

/// What `topic_root_for` yields (see there).
pub open spec fn topic_root_of(
    config_dir: Seq<char>,
    home: Option<Seq<char>>,
    dir_canon: Seq<char>,
    home_canon: Option<Seq<char>>,
) -> Seq<char> {
    match strip_home_of(dir_canon, home_canon) {
        Some(x) => x,
        None => match file_name_of(expand_of(config_dir, home)) {
            Some(n) => if n.len() > 0 {
                n
            } else {
                "mqtt"@
            },
            None => "mqtt"@,
        },
    }
}

/// Topic root of the config dir (`~/mqtt` -> `mqtt`), used only when no
/// project dir can be determined: the home-relative path of the expanded
/// dir, else its file name, else `mqtt`. `home` is `$HOME`; `dir_canon` is
/// the expanded dir as the edge canonicalized it; `home_canon` is the
/// canonical home, if any.
pub fn topic_root_for(
    config_dir: &str,
    home: Option<&str>,
    dir_canon: &str,
    home_canon: Option<&str>,
) -> (r: String)
    ensures
        r@ == topic_root_of(config_dir@, opt_view(home), dir_canon@, opt_view(home_canon)),
{
    match strip_home(dir_canon, home_canon) {
        Some(x) => x,
        None => {
            let d = expand(config_dir, home);
            match file_name(d.as_str()) {
                Some(n) => if n.unicode_len() > 0 {
                    n
                } else {
                    String::from_str("mqtt")
                },
                None => String::from_str("mqtt"),
            }
        },
    }
}

/// The topic root chosen by the configuration, before the project default:
/// a non-blank `root` argument (slashes trimmed), else a non-empty `root`
/// field of `mqtt.conf` (slashes trimmed). `None` when that leaves nothing,
/// and the project default applies.
pub open spec fn configured_root_of(file_root: Option<Seq<char>>, arg_root: Option<Seq<char>>) -> Option<Seq<char>> {
    let from_file = match file_root {
        Some(s) => if s.len() > 0 {
            trim_slashes_of(s)
        } else {
            Seq::empty()
        },
        None => Seq::empty(),
    };
    let chosen = match arg_root {
        Some(r) => if trim_ws(r).len() > 0 {
            trim_slashes_of(r)
        } else {
            from_file
        },
        None => from_file,
    };
    if chosen.len() == 0 {
        None
    } else {
        Some(chosen)
    }
}

/// The topic root chosen by `mqtt.conf` and the `root` argument (see
/// `configured_root_of`).
pub fn configured_root(file_root: Option<&str>, arg_root: Option<&str>) -> (r: Option<String>)
    ensures
        opt_string_view(r) == configured_root_of(opt_view(file_root), opt_view(arg_root)),
{
    let from_file = match file_root {
        Some(s) => if s.unicode_len() > 0 {
            trim_slashes(s)
        } else {
            String::new()
        },
        None => String::new(),
    };
    let chosen = match arg_root {
        Some(r) => if trim_str(r).unicode_len() > 0 {
            trim_slashes(r)
        } else {
            from_file
        },
        None => from_file,
    };
    if chosen.unicode_len() == 0 {
        None
    } else {
        Some(chosen)
    }
}

/// The `wake` field of `mqtt.conf`, white space trimmed; blank means unset.
pub fn wake_setting(raw: Option<&str>) -> (r: Option<String>)
    ensures
        opt_string_view(r) == match raw {
            Some(s) => if trim_ws(s@).len() > 0 {
                Some(trim_ws(s@))
            } else {
                None
            },
            None => None,
        },
{
    match raw {
        Some(s) => {
            let t = trim_str(s);
            if t.unicode_len() > 0 {
                Some(t)
            } else {
                None
            }
        },
        None => None,
    }
}

/// The message when no session id is known.
pub open spec fn no_session_message() -> Seq<char> {
    "no session id: pass --session-id or set CODEX_THREAD_ID. Ask the agent for its Codex session id; never generate a random one."@
}

/// Session id = the explicit argument, else the value of
/// `$CODEX_THREAD_ID` (read at the edge); empty values count as absent.
/// Never random: with neither, the error says where to get one.
pub fn resolve_session_id(session_id: Option<&str>, env_value: Option<&str>) -> (r: Result<String, String>)
    ensures
        match session_id {
            Some(s) if s@.len() > 0 => r matches Ok(x) && x@ == s@,
            _ => match env_value {
                Some(e) if e@.len() > 0 => r matches Ok(x) && x@ == e@,
                _ => r matches Err(m) && m@ == no_session_message(),
            },
        },
{
    if let Some(s) = session_id {
        if s.unicode_len() > 0 {
            return Ok(String::from_str(s));
        }
    }
    if let Some(e) = env_value {
        if e.unicode_len() > 0 {
            return Ok(String::from_str(e));
        }
    }
    Err(
        String::from_str(
            "no session id: pass --session-id or set CODEX_THREAD_ID. Ask the agent for its Codex session id; never generate a random one.",
        ),
    )
}

} // verus!
