//! Finding the tmux pane that runs this agent's TUI, from what `tmux
//! list-panes -a -F "#{pane_id} #{pane_pid} #{pane_current_command}"` printed
//! and the process's ancestor pids (both gathered at the edge). The first
//! pane whose pid is an ancestor wins, unless a later one runs codex and it
//! does not.
use vstd::prelude::*;
use crate::text::{sub_string, trim_str, trim_ws, views};

verus! {

/// The first position of `c` in `s`.
pub open spec fn first_at(s: Seq<char>, c: char) -> Option<int>
    decreases s.len(),
{
    if s.len() == 0 {
        None
    } else if s[0] == c {
        Some(0)
    } else {
        match first_at(s.drop_first(), c) {
            Some(i) => Some(i + 1),
            None => None,
        }
    }
}

pub proof fn lemma_first_at(s: Seq<char>, c: char)
    ensures
        match first_at(s, c) {
            Some(i) => 0 <= i < s.len() && s[i] == c && forall|j: int| 0 <= j < i ==> s[j] != c,
            None => forall|j: int| 0 <= j < s.len() ==> s[j] != c,
        },
    decreases s.len(),
{
    if s.len() > 0 && s[0] != c {
        lemma_first_at(s.drop_first(), c);
        match first_at(s.drop_first(), c) {
            Some(i) => {
                assert forall|j: int| 0 <= j < i + 1 implies s[j] != c by {
                    if j > 0 {
                        assert(s[j] == s.drop_first()[j - 1]);
                    }
                }
            },
            None => {
                assert forall|j: int| 0 <= j < s.len() implies s[j] != c by {
                    if j > 0 {
                        assert(s[j] == s.drop_first()[j - 1]);
                    }
                }
            },
        }
    }
}

proof fn lemma_first_at_is(s: Seq<char>, c: char, i: int)
    requires
        0 <= i <= s.len(),
        forall|j: int| 0 <= j < i ==> s[j] != c,
        i == s.len() || s[i] == c,
    ensures
        first_at(s, c) == (if i == s.len() {
            None::<int>
        } else {
            Some(i)
        }),
{
    lemma_first_at(s, c);
    match first_at(s, c) {
        Some(k) => {
            if k < i {
                assert(s[k] != c);
            } else if k > i {
                assert(s[i] != c);
            }
        },
        None => {
            if i < s.len() {
                assert(s[i] != c);
            }
        },
    }
}

/// A line without the `\r` of a `\r\n` ending.
pub open spec fn strip_cr(l: Seq<char>) -> Seq<char> {
    if l.len() > 0 && l.last() == '\r' {
        l.drop_last()
    } else {
        l
    }
}

/// `str::lines`: pieces ended by `\n` (a `\r` before it dropped); a last
/// piece without `\n` counts only when not empty.
pub open spec fn lines_of(s: Seq<char>) -> Seq<Seq<char>>
    decreases s.len(),
{
    match first_at(s, '\n') {
        None => if s.len() == 0 {
            Seq::empty()
        } else {
            seq![s]
        },
        Some(i) => {
            proof {
                lemma_first_at(s, '\n');
            }
            seq![strip_cr(s.take(i))] + lines_of(s.skip(i + 1))
        },
    }
}

/// The three fields of a listing line (`splitn(3, ' ')`): pane id, pid and
/// command (empty when missing); `None` when the line has no pid field.
pub open spec fn pane_fields(line: Seq<char>) -> Option<(Seq<char>, Seq<char>, Seq<char>)> {
    match first_at(line, ' ') {
        None => None,
        Some(i) => {
            let rest = line.skip(i + 1);
            match first_at(rest, ' ') {
                None => Some((line.take(i), rest, Seq::empty())),
                Some(j) => Some((line.take(i), rest.take(j), rest.skip(j + 1))),
            }
        },
    }
}

pub open spec fn is_digit(c: char) -> bool {
    '0' <= c && c <= '9'
}

/// The value of a string of decimal digits.
pub open spec fn decimal(d: Seq<char>) -> nat
    decreases d.len(),
{
    if d.len() == 0 {
        0
    } else {
        (decimal(d.drop_last()) * 10 + ((d.last() as int) - ('0' as int))) as nat
    }
}

/// The digits of a number: `s` without a leading `+`.
pub open spec fn unsigned_part(s: Seq<char>) -> Seq<char> {
    if s.len() > 0 && s[0] == '+' {
        s.drop_first()
    } else {
        s
    }
}

pub open spec fn all_digits(d: Seq<char>) -> bool {
    forall|i: int| 0 <= i < d.len() ==> is_digit(#[trigger] d[i])
}

/// `str::parse::<u32>`: an optional `+`, then one or more decimal digits
/// whose value fits in a `u32`.
pub open spec fn parse_u32_of(s: Seq<char>) -> Option<u32> {
    let d = unsigned_part(s);
    if d.len() == 0 || !all_digits(d) {
        None
    } else if decimal(d) > u32::MAX {
        None
    } else {
        Some(decimal(d) as u32)
    }
}

/// What `str::to_lowercase` returns for a string (full Unicode lower case).
pub uninterp spec fn lowercased(s: Seq<char>) -> Seq<char>;

/// The string in Unicode lower case (`str::to_lowercase`).
#[verifier::external_body]
fn to_lowercase(s: &str) -> (r: String)
    ensures
        r@ == lowercased(s@),
{
    s.to_lowercase()
}

/// Does `needle` occur in `hay` at position `i`?
pub open spec fn occurs_at(hay: Seq<char>, needle: Seq<char>, i: int) -> bool {
    0 <= i && i + needle.len() <= hay.len() && hay.subrange(i, i + needle.len()) == needle
}

/// Does `needle` occur in `hay`?
pub open spec fn occurs(hay: Seq<char>, needle: Seq<char>) -> bool {
    exists|i: int| #[trigger] occurs_at(hay, needle, i)
}

/// An ancestor's pane weighed against the choice so far, given its command
/// in lower case: it becomes the choice when nothing was chosen yet, or when
/// it runs codex and the choice so far does not.
pub open spec fn preferred(
    best: Option<Seq<char>>,
    best_codex: bool,
    pane: Seq<char>,
    command_lower: Seq<char>,
) -> (Option<Seq<char>>, bool) {
    let codex = occurs(command_lower, "codex"@);
    if best is None || (codex && !best_codex) {
        (Some(pane), codex)
    } else {
        (best, best_codex)
    }
}

/// One listing line considered: the pane becomes the choice when its pid is
/// an ancestor and nothing was chosen yet, or it runs codex and the choice
/// so far does not.
pub open spec fn pick_step(best: Option<Seq<char>>, best_codex: bool, line: Seq<char>, ancestors: Seq<u32>) -> (Option<Seq<char>>, bool) {
    match pane_fields(line) {
        None => (best, best_codex),
        Some((pane, pid_s, cmd)) => match parse_u32_of(trim_ws(pid_s)) {
            None => (best, best_codex),
            Some(pid) => if !ancestors.contains(pid) {
                (best, best_codex)
            } else {
                preferred(best, best_codex, pane, lowercased(trim_ws(cmd)))
            },
        },
    }
}

/// The choice after the listing's lines, in order.
pub open spec fn pick_from(lines: Seq<Seq<char>>, ancestors: Seq<u32>) -> (Option<Seq<char>>, bool)
    decreases lines.len(),
{
    if lines.len() == 0 {
        (None, false)
    } else {
        let (b, c) = pick_from(lines.drop_last(), ancestors);
        pick_step(b, c, lines.last(), ancestors)
    }
}

/// The lines of `s` (see `lines_of`).
pub fn lines(s: &str) -> (r: Vec<String>)
    ensures
        views(r@) == lines_of(s@),
{
    let n = s.unicode_len();
    let mut out: Vec<String> = Vec::new();
    let mut start: usize = 0;
    proof {
        assert(s@.skip(0) =~= s@);
    }
    while start < n
        invariant
            n == s@.len(),
            start <= n,
            views(out@) + lines_of(s@.skip(start as int)) == lines_of(s@),
        decreases n - start,
    {
        let ghost t = s@.skip(start as int);
        let mut i: usize = start;
        while i < n && s.get_char(i) != '\n'
            invariant
                n == s@.len(),
                start <= i <= n,
                t == s@.skip(start as int),
                forall|j: int| start <= j < i ==> s@[j] != '\n',
            decreases n - i,
        {
            i = i + 1;
        }
        proof {
            assert forall|j: int| 0 <= j < i - start implies t[j] != '\n' by {
                assert(t[j] == s@[start + j]);
            }
            if i < n {
                assert(t[i - start] == s@[i as int]);
            }
            lemma_first_at_is(t, '\n', i - start);
        }
        let ghost before = views(out@);
        if i < n {
            let mut end = i;
            if end > start && s.get_char(end - 1) == '\r' {
                end = end - 1;
            }
            let piece = sub_string(s, start, end);
            out.push(piece);
            proof {
                let l = t.take(i - start);
                assert(l =~= s@.subrange(start as int, i as int));
                if i > start && s@[i - 1] == '\r' {
                    assert(l.last() == s@[i - 1]);
                    assert(strip_cr(l) =~= s@.subrange(start as int, end as int));
                } else {
                    if l.len() > 0 {
                        assert(l.last() == s@[i - 1]);
                    }
                    assert(strip_cr(l) =~= s@.subrange(start as int, end as int));
                }
                assert(t.skip(i - start + 1) =~= s@.skip(i + 1));
                assert(views(out@) =~= before.push(strip_cr(l)));
                assert(lines_of(t) == seq![strip_cr(l)] + lines_of(s@.skip(i + 1)));
                assert(views(out@) + lines_of(s@.skip(i + 1)) =~= before + lines_of(t));
            }
            start = i + 1;
        } else {
            let piece = sub_string(s, start, n);
            out.push(piece);
            proof {
                assert(t.len() > 0);
                assert(piece@ =~= t);
                assert(views(out@) =~= before.push(t));
                assert(lines_of(t) == seq![t]);
                assert(s@.skip(n as int) =~= Seq::<char>::empty());
                assert(first_at(Seq::<char>::empty(), '\n') is None);
                assert(views(out@) + lines_of(s@.skip(n as int)) =~= before + lines_of(t));
            }
            start = n;
        }
    }
    proof {
        assert(s@.skip(n as int) =~= Seq::<char>::empty());
        assert(first_at(Seq::<char>::empty(), '\n') is None);
        assert(views(out@) + lines_of(s@.skip(n as int)) =~= views(out@));
    }
    out
}

/// The first position of `c` in `s` at or after `from`, or the end.
fn find_from(s: &str, c: char, from: usize) -> (r: usize)
    requires
        from <= s@.len(),
    ensures
        from <= r <= s@.len(),
        first_at(s@.skip(from as int), c) == (if r == s@.len() {
            None::<int>
        } else {
            Some(r - from)
        }),
{
    let n = s.unicode_len();
    let mut i = from;
    while i < n && s.get_char(i) != c
        invariant
            n == s@.len(),
            from <= i <= n,
            forall|j: int| from <= j < i ==> s@[j] != c,
        decreases n - i,
    {
        i = i + 1;
    }
    proof {
        let t = s@.skip(from as int);
        assert forall|j: int| 0 <= j < i - from implies t[j] != c by {
            assert(t[j] == s@[from + j]);
        }
        if i < n {
            assert(t[i - from] == s@[i as int]);
        }
        lemma_first_at_is(t, c, i - from);
    }
    i
}

/// The fields of a listing line (see `pane_fields`).
pub fn fields(line: &str) -> (r: Option<(String, String, String)>)
    ensures
        match pane_fields(line@) {
            None => r is None,
            Some((a, b, c)) => r matches Some((x, y, z)) && x@ == a && y@ == b && z@ == c,
        },
{
    let n = line.unicode_len();
    proof {
        assert(line@.skip(0) =~= line@);
    }
    let i = find_from(line, ' ', 0);
    if i == n {
        return None;
    }
    let j = find_from(line, ' ', i + 1);
    let pane = sub_string(line, 0, i);
    proof {
        let rest = line@.skip(i + 1);
        assert(line@.skip(i + 1).skip(0) =~= rest);
        assert(line@.skip(i + 1) =~= rest);
        assert(pane@ =~= line@.take(i as int));
    }
    if j == n {
        let pid = sub_string(line, i + 1, n);
        proof {
            assert(pid@ =~= line@.skip(i + 1));
            assert(first_at(line@.skip(i + 1), ' ') is None) by {
                assert(line@.skip((i + 1) as int) =~= line@.skip(i + 1));
            }
        }
        Some((pane, pid, String::new()))
    } else {
        let pid = sub_string(line, i + 1, j);
        let cmd = sub_string(line, j + 1, n);
        proof {
            let rest = line@.skip(i + 1);
            assert(pid@ =~= rest.take(j - i - 1));
            assert(cmd@ =~= rest.skip(j - i));
        }
        Some((pane, pid, cmd))
    }
}

proof fn lemma_decimal_grows(d: Seq<char>, i: int)
    requires
        0 <= i <= d.len(),
        forall|k: int| 0 <= k < d.len() ==> is_digit(#[trigger] d[k]),
    ensures
        decimal(d.take(i)) <= decimal(d),
    decreases d.len() - i,
{
    if i < d.len() {
        lemma_decimal_grows(d, i + 1);
        assert(d.take(i + 1).drop_last() =~= d.take(i));
        assert(d.take(i + 1).last() == d[i]);
    } else {
        assert(d.take(i) =~= d);
    }
}

/// `str::parse::<u32>` (see `parse_u32_of`).
pub fn parse_u32(s: &str) -> (r: Option<u32>)
    ensures
        r == parse_u32_of(s@),
{
    let n = s.unicode_len();
    let start: usize = if n > 0 && s.get_char(0) == '+' {
        1
    } else {
        0
    };
    let ghost d = unsigned_part(s@);
    proof {
        assert(d =~= s@.skip(start as int));
    }
    if start == n {
        return None;
    }
    let mut v: u64 = 0;
    let mut i: usize = start;
    proof {
        assert(d.take(0) =~= Seq::<char>::empty());
    }
    while i < n
        invariant
            n == s@.len(),
            start <= i <= n,
            start < n,
            d == s@.skip(start as int),
            d == unsigned_part(s@),
            forall|k: int| 0 <= k < i - start ==> is_digit(#[trigger] d[k]),
            v == decimal(d.take(i - start)),
            v <= u32::MAX,
        decreases n - i,
    {
        let c = s.get_char(i);
        proof {
            assert(d[i - start] == c);
            assert(d.take(i - start + 1).drop_last() =~= d.take(i - start));
            assert(d.take(i - start + 1).last() == c);
        }
        if !('0' <= c && c <= '9') {
            proof {
                assert(!is_digit(d[i - start]));
                assert(!all_digits(d));
            }
            return None;
        }
        let digit = ((c as u32) - ('0' as u32)) as u64;
        let nv = v * 10 + digit;
        proof {
            assert(digit == (c as int) - ('0' as int));
            assert(nv == decimal(d.take(i - start + 1)));
        }
        if nv > 4294967295u64 {
            proof {
                let k = i - start + 1;
                if all_digits(d) {
                    lemma_decimal_grows(d, k);
                }
            }
            return None;
        }
        v = nv;
        i = i + 1;
    }
    proof {
        assert(d.take(n - start) =~= d);
    }
    Some(v as u32)
}

/// Does `needle` occur in `hay` (see `occurs`)?
pub fn contains_text(hay: &str, needle: &str) -> (r: bool)
    ensures
        r == occurs(hay@, needle@),
{
    let n = hay.unicode_len();
    let m = needle.unicode_len();
    if m > n {
        proof {
            if occurs(hay@, needle@) {
                let i = choose|i: int| #[trigger] occurs_at(hay@, needle@, i);
            }
        }
        return false;
    }
    let mut i: usize = 0;
    while i <= n - m
        invariant
            n == hay@.len(),
            m == needle@.len(),
            m <= n,
            i <= n - m + 1,
            forall|k: int| 0 <= k < i ==> !#[trigger] occurs_at(hay@, needle@, k),
        decreases n - m + 1 - i,
    {
        let mut j: usize = 0;
        while j < m && hay.get_char(i + j) == needle.get_char(j)
            invariant
                n == hay@.len(),
                m == needle@.len(),
                i + m <= n,
                j <= m,
                forall|k: int| 0 <= k < j ==> hay@[i + k] == needle@[k],
            decreases m - j,
        {
            j = j + 1;
        }
        if j == m {
            proof {
                assert(hay@.subrange(i as int, i + m) =~= needle@);
                assert(occurs_at(hay@, needle@, i as int));
            }
            return true;
        }
        proof {
            assert(hay@.subrange(i as int, i + m)[j as int] != needle@[j as int]);
        }
        i = i + 1;
    }
    proof {
        if occurs(hay@, needle@) {
            let k = choose|k: int| #[trigger] occurs_at(hay@, needle@, k);
            assert(k < i);
        }
    }
    false
}

fn contains_u32(v: &Vec<u32>, x: u32) -> (r: bool)
    ensures
        r == v@.contains(x),
{
    let mut i: usize = 0;
    while i < v.len()
        invariant
            i <= v@.len(),
            forall|j: int| 0 <= j < i ==> v@[j] != x,
        decreases v@.len() - i,
    {
        if v[i] == x {
            return true;
        }
        i = i + 1;
    }
    false
}

pub open spec fn opt_view(o: Option<String>) -> Option<Seq<char>> {
    match o {
        Some(b) => Some(b@),
        None => None,
    }
}

/// Weigh an ancestor's pane against the choice so far, given its command
/// already in lower case (see `preferred`).
pub fn prefer_pane(best: Option<String>, best_codex: bool, pane: String, command_lower: &str) -> (r: (
    Option<String>,
    bool,
))
    ensures
        (opt_view(r.0), r.1) == preferred(opt_view(best), best_codex, pane@, command_lower@),
{
    let codex = contains_text(command_lower, "codex");
    if best.is_none() || (codex && !best_codex) {
        (Some(pane), codex)
    } else {
        (best, best_codex)
    }
}

/// One listing line considered (see `pick_step`).
fn pick_line(best: Option<String>, best_codex: bool, line: &str, ancestors: &Vec<u32>) -> (r: (Option<String>, bool))
    ensures
        (opt_view(r.0), r.1) == pick_step(opt_view(best), best_codex, line@, ancestors@),
{
    match fields(line) {
        None => (best, best_codex),
        Some((pane, pid_s, cmd)) => {
            match parse_u32(trim_str(pid_s.as_str()).as_str()) {
                None => (best, best_codex),
                Some(pid) => {
                    if contains_u32(ancestors, pid) {
                        let low = to_lowercase(trim_str(cmd.as_str()).as_str());
                        prefer_pane(best, best_codex, pane, low.as_str())
                    } else {
                        (best, best_codex)
                    }
                },
            }
        },
    }
}

/// The pane running this agent, from the listing and the ancestor pids (see
/// `pick_from`).
#[verifier::rlimit(30)]
pub fn pick_pane(listing: &str, ancestors: &Vec<u32>) -> (r: Option<String>)
    ensures
        match r {
            Some(p) => pick_from(lines_of(listing@), ancestors@).0 == Some(p@),
            None => pick_from(lines_of(listing@), ancestors@).0 is None,
        },
{
    let ls = lines(listing);
    let ghost lv = views(ls@);
    let mut best: Option<String> = None;
    let mut best_codex = false;
    let mut i: usize = 0;
    proof {
        assert(lv.take(0) =~= Seq::<Seq<char>>::empty());
    }
    while i < ls.len()
        invariant
            lv == views(ls@),
            i <= lv.len(),
            pick_from(lv.take(i as int), ancestors@) == (opt_view(best), best_codex),
        decreases lv.len() - i,
    {
        proof {
            assert(lv.take(i + 1).drop_last() =~= lv.take(i as int));
            assert(lv.take(i + 1).last() == ls@[i as int]@);
        }
        let (b2, c2) = pick_line(best, best_codex, ls[i].as_str(), ancestors);
        best = b2;
        best_codex = c2;
        i = i + 1;
    }
    proof {
        assert(lv.take(lv.len() as int) =~= lv);
    }
    best
}

} // verus!
