//! Character-level string helpers with exact specifications.
//!
//! Paths, topic roots and protocol names are handled as sequences of
//! characters; every helper here states its result over `Seq<char>`.
use vstd::prelude::*;

verus! {

/// The views of a sequence of strings.
pub open spec fn views(v: Seq<String>) -> Seq<Seq<char>> {
    v.map_values(|s: String| s@)
}

/// `s` split at every `/` (empty pieces included), as `str::split('/')` does.
pub open spec fn split_seq(s: Seq<char>) -> Seq<Seq<char>>
    decreases s.len(),
{
    if s.len() == 0 {
        seq![Seq::<char>::empty()]
    } else {
        let p = split_seq(s.drop_last());
        if s.last() == '/' {
            p.push(Seq::<char>::empty())
        } else {
            p.update(p.len() - 1, p.last().push(s.last()))
        }
    }
}

/// The pieces of `parts` that are not empty, in order.
pub open spec fn nonempty_parts(parts: Seq<Seq<char>>) -> Seq<Seq<char>>
    decreases parts.len(),
{
    if parts.len() == 0 {
        Seq::empty()
    } else {
        let r = nonempty_parts(parts.drop_last());
        if parts.last().len() > 0 {
            r.push(parts.last())
        } else {
            r
        }
    }
}

/// `s` with every leading `"./"` removed (`trim_start_matches("./")`).
pub open spec fn trim_dot_slash(s: Seq<char>) -> Seq<char>
    decreases s.len(),
{
    if s.len() >= 2 && s[0] == '.' && s[1] == '/' {
        trim_dot_slash(s.skip(2))
    } else {
        s
    }
}

/// `s` with leading `/` removed.
pub open spec fn trim_slash_start(s: Seq<char>) -> Seq<char>
    decreases s.len(),
{
    if s.len() > 0 && s[0] == '/' {
        trim_slash_start(s.drop_first())
    } else {
        s
    }
}

/// `s` with trailing `/` removed.
pub open spec fn trim_slash_end(s: Seq<char>) -> Seq<char>
    decreases s.len(),
{
    if s.len() > 0 && s.last() == '/' {
        trim_slash_end(s.drop_last())
    } else {
        s
    }
}

/// `s` with `/` removed at both ends (`trim_matches('/')`).
pub open spec fn trim_slashes_of(s: Seq<char>) -> Seq<char> {
    trim_slash_end(trim_slash_start(s))
}

/// The pieces joined with `/` between them.
pub open spec fn join_slash(parts: Seq<Seq<char>>) -> Seq<char>
    decreases parts.len(),
{
    if parts.len() == 0 {
        Seq::empty()
    } else if parts.len() == 1 {
        parts[0]
    } else {
        join_slash(parts.drop_last()) + seq!['/'] + parts.last()
    }
}

/// Unicode `White_Space`, the set `char::is_whitespace` tests.
pub open spec fn is_ws(c: char) -> bool {
    ||| ('\u{9}' <= c && c <= '\u{d}')
    ||| c == ' '
    ||| c == '\u{85}'
    ||| c == '\u{a0}'
    ||| c == '\u{1680}'
    ||| ('\u{2000}' <= c && c <= '\u{200a}')
    ||| c == '\u{2028}'
    ||| c == '\u{2029}'
    ||| c == '\u{202f}'
    ||| c == '\u{205f}'
    ||| c == '\u{3000}'
}

/// `s` without leading white space.
pub open spec fn trim_ws_start(s: Seq<char>) -> Seq<char>
    decreases s.len(),
{
    if s.len() > 0 && is_ws(s[0]) {
        trim_ws_start(s.drop_first())
    } else {
        s
    }
}

/// `s` without trailing white space.
pub open spec fn trim_ws_end(s: Seq<char>) -> Seq<char>
    decreases s.len(),
{
    if s.len() > 0 && is_ws(s.last()) {
        trim_ws_end(s.drop_last())
    } else {
        s
    }
}

/// `s` without white space at either end (`str::trim`).
pub open spec fn trim_ws(s: Seq<char>) -> Seq<char> {
    trim_ws_end(trim_ws_start(s))
}

/// What is left after trimming leading white space starts with no white
/// space.
pub proof fn lemma_ws_start_clean(s: Seq<char>)
    ensures
        trim_ws_start(s).len() == 0 || !is_ws(trim_ws_start(s)[0]),
    decreases s.len(),
{
    if s.len() > 0 && is_ws(s[0]) {
        lemma_ws_start_clean(s.drop_first());
    }
}

/// Trimming trailing white space keeps a prefix that ends in no white space.
pub proof fn lemma_ws_end_clean(s: Seq<char>)
    ensures
        trim_ws_end(s).len() <= s.len(),
        trim_ws_end(s) == s.take(trim_ws_end(s).len() as int),
        trim_ws_end(s).len() == 0 || !is_ws(trim_ws_end(s).last()),
    decreases s.len(),
{
    if s.len() > 0 && is_ws(s.last()) {
        lemma_ws_end_clean(s.drop_last());
        let r = trim_ws_end(s.drop_last());
        assert(s.drop_last().take(r.len() as int) =~= s.take(r.len() as int));
    } else {
        assert(s.take(s.len() as int) =~= s);
    }
}

/// A trimmed string has no white space at either end.
pub proof fn lemma_trim_ws_clean(s: Seq<char>)
    ensures
        trim_ws(s).len() == 0 || (!is_ws(trim_ws(s)[0]) && !is_ws(trim_ws(s).last())),
{
    let a = trim_ws_start(s);
    lemma_ws_start_clean(s);
    lemma_ws_end_clean(a);
    let t = trim_ws_end(a);
    if t.len() > 0 {
        assert(t[0] == a.take(t.len() as int)[0]);
    }
}

/// A string with no white space at either end is its own trim.
pub proof fn lemma_trim_ws_fixed(s: Seq<char>)
    requires
        s.len() == 0 || (!is_ws(s[0]) && !is_ws(s.last())),
    ensures
        trim_ws(s) == s,
{
}

/// ASCII lower case of one character.
pub open spec fn lower_char(c: char) -> char {
    if 'A' <= c && c <= 'Z' {
        ((c as u32) + 32) as char
    } else {
        c
    }
}

/// ASCII lower case of a string (`to_ascii_lowercase`).
pub open spec fn ascii_lower(s: Seq<char>) -> Seq<char> {
    s.map_values(|c: char| lower_char(c))
}

/// ASCII lower case neither adds nor removes white space.
pub proof fn lemma_lower_ws(c: char)
    ensures
        is_ws(lower_char(c)) == is_ws(c),
        lower_char(lower_char(c)) == lower_char(c),
{
}

/// Lower-casing keeps a string free of white space at its ends, and doing it
/// twice is doing it once.
pub proof fn lemma_ascii_lower_clean(s: Seq<char>)
    ensures
        ascii_lower(ascii_lower(s)) == ascii_lower(s),
        ascii_lower(s).len() == s.len(),
        s.len() > 0 ==> (is_ws(ascii_lower(s)[0]) == is_ws(s[0]) && is_ws(ascii_lower(s).last())
            == is_ws(s.last())),
{
    assert forall|i: int| 0 <= i < s.len() implies ascii_lower(ascii_lower(s))[i] == ascii_lower(s)[i] by {
        lemma_lower_ws(s[i]);
    }
    assert(ascii_lower(ascii_lower(s)) =~= ascii_lower(s));
    if s.len() > 0 {
        lemma_lower_ws(s[0]);
        lemma_lower_ws(s.last());
    }
}

/// Character equality of two strings.
pub fn str_eq(a: &str, b: &str) -> (r: bool)
    ensures
        r == (a@ == b@),
{
    let n = a.unicode_len();
    let m = b.unicode_len();
    if n != m {
        return false;
    }
    let mut i: usize = 0;
    while i < n
        invariant
            n == a@.len(),
            m == b@.len(),
            n == m,
            i <= n,
            forall|j: int| 0 <= j < i ==> a@[j] == b@[j],
        decreases n - i,
    {
        if a.get_char(i) != b.get_char(i) {
            return false;
        }
        i = i + 1;
    }
    assert(a@ =~= b@);
    true
}

/// Does `s` begin with `prefix`?
pub fn starts_with(s: &str, prefix: &str) -> (r: bool)
    ensures
        r == prefix@.is_prefix_of(s@),
{
    let n = s.unicode_len();
    let m = prefix.unicode_len();
    if m > n {
        return false;
    }
    let mut i: usize = 0;
    while i < m
        invariant
            n == s@.len(),
            m == prefix@.len(),
            m <= n,
            i <= m,
            forall|j: int| 0 <= j < i ==> prefix@[j] == s@[j],
        decreases m - i,
    {
        if s.get_char(i) != prefix.get_char(i) {
            return false;
        }
        i = i + 1;
    }
    true
}

/// Append one character (`String::push`).
#[verifier::external_body]
pub(crate) fn push_char(s: &mut String, c: char)
    ensures
        final(s)@ == old(s)@.push(c),
{
    s.push(c);
}

/// An owned copy of `s[from..to]` counted in characters.
pub fn sub_string(s: &str, from: usize, to: usize) -> (r: String)
    requires
        from <= to <= s@.len(),
    ensures
        r@ == s@.subrange(from as int, to as int),
{
    String::from_str(s.substring_char(from, to))
}

pub proof fn lemma_split_len(s: Seq<char>)
    ensures
        split_seq(s).len() >= 1,
    decreases s.len(),
{
    if s.len() > 0 {
        lemma_split_len(s.drop_last());
    }
}

/// `s` split at every `/`, as `str::split('/')` does.
pub fn split_slash(s: &str) -> (r: Vec<String>)
    ensures
        views(r@) == split_seq(s@),
{
    let n = s.unicode_len();
    let mut parts: Vec<String> = Vec::new();
    let mut start: usize = 0;
    let mut i: usize = 0;
    proof {
        assert(s@.take(0) =~= Seq::<char>::empty());
        assert(views(parts@).push(s@.subrange(0, 0)) =~= split_seq(s@.take(0)));
    }
    while i < n
        invariant
            n == s@.len(),
            start <= i <= n,
            views(parts@).push(s@.subrange(start as int, i as int)) == split_seq(s@.take(i as int)),
        decreases n - i,
    {
        let c = s.get_char(i);
        proof {
            let t = s@.take(i + 1);
            assert(t.drop_last() =~= s@.take(i as int));
            assert(t.last() == c);
        }
        if c == '/' {
            let piece = sub_string(s, start, i);
            let ghost before = parts@;
            parts.push(piece);
            start = i + 1;
            proof {
                assert(s@.subrange(start as int, (i + 1) as int) =~= Seq::<char>::empty());
                assert(views(parts@) =~= views(before).push(piece@));
            }
        } else {
            proof {
                assert(s@.subrange(start as int, (i + 1) as int) =~= s@.subrange(
                    start as int,
                    i as int,
                ).push(c));
            }
        }
        i = i + 1;
    }
    let last = sub_string(s, start, n);
    let ghost before = parts@;
    parts.push(last);
    proof {
        assert(s@.take(n as int) =~= s@);
        assert(views(parts@) =~= views(before).push(last@));
    }
    parts
}

proof fn lemma_trim_dot_slash_step(s: Seq<char>, i: int)
    requires
        0 <= i,
        i + 2 <= s.len(),
        s[i] == '.',
        s[i + 1] == '/',
    ensures
        trim_dot_slash(s.skip(i)) == trim_dot_slash(s.skip(i + 2)),
{
    assert(s.skip(i).skip(2) =~= s.skip(i + 2));
}

/// `s` with every leading `"./"` removed (`trim_start_matches("./")`).
pub fn trim_dot_slash_str(s: &str) -> (r: String)
    ensures
        r@ == trim_dot_slash(s@),
{
    let n = s.unicode_len();
    let mut i: usize = 0;
    proof {
        assert(s@.skip(0) =~= s@);
    }
    while n - i >= 2 && s.get_char(i) == '.' && s.get_char(i + 1) == '/'
        invariant
            n == s@.len(),
            i <= n,
            trim_dot_slash(s@) == trim_dot_slash(s@.skip(i as int)),
        decreases n - i,
    {
        proof {
            lemma_trim_dot_slash_step(s@, i as int);
        }
        i = i + 2;
    }
    proof {
        let t = s@.skip(i as int);
        if t.len() >= 2 && t[0] == '.' && t[1] == '/' {
            assert(s@[i as int] == '.' && s@[i + 1] == '/');
        }
    }
    let r = sub_string(s, i, n);
    proof {
        assert(s@.subrange(i as int, n as int) =~= s@.skip(i as int));
    }
    r
}

proof fn lemma_trim_start_step(s: Seq<char>, i: int)
    requires
        0 <= i < s.len(),
        s[i] == '/',
    ensures
        trim_slash_start(s.skip(i)) == trim_slash_start(s.skip(i + 1)),
{
    assert(s.skip(i).drop_first() =~= s.skip(i + 1));
}

proof fn lemma_trim_end_step(s: Seq<char>, j: int)
    requires
        0 < j <= s.len(),
        s[j - 1] == '/',
    ensures
        trim_slash_end(s.take(j)) == trim_slash_end(s.take(j - 1)),
{
    assert(s.take(j).drop_last() =~= s.take(j - 1));
}

/// `s` with `/` removed at both ends (`trim_matches('/')`).
pub fn trim_slashes(s: &str) -> (r: String)
    ensures
        r@ == trim_slashes_of(s@),
{
    let n = s.unicode_len();
    let mut i: usize = 0;
    proof {
        assert(s@.skip(0) =~= s@);
    }
    while i < n && s.get_char(i) == '/'
        invariant
            n == s@.len(),
            i <= n,
            trim_slash_start(s@) == trim_slash_start(s@.skip(i as int)),
        decreases n - i,
    {
        proof {
            lemma_trim_start_step(s@, i as int);
        }
        i = i + 1;
    }
    let ghost t = s@.skip(i as int);
    proof {
        if t.len() > 0 && t[0] == '/' {
            assert(s@[i as int] == '/');
        }
        assert(trim_slash_start(s@) == t);
    }
    let mut j: usize = n;
    proof {
        assert(t.take(t.len() as int) =~= t);
    }
    while j > i && s.get_char(j - 1) == '/'
        invariant
            n == s@.len(),
            i <= j <= n,
            t == s@.skip(i as int),
            trim_slash_end(t) == trim_slash_end(t.take(j - i)),
        decreases j,
    {
        proof {
            assert(t[j - i - 1] == s@[j - 1]);
            lemma_trim_end_step(t, j - i);
        }
        j = j - 1;
    }
    proof {
        let u = t.take(j - i);
        if u.len() > 0 && u.last() == '/' {
            assert(u.last() == s@[j - 1]);
        }
        assert(u =~= s@.subrange(i as int, j as int));
    }
    sub_string(s, i, j)
}

proof fn lemma_ws_start_step(s: Seq<char>, i: int)
    requires
        0 <= i < s.len(),
        is_ws(s[i]),
    ensures
        trim_ws_start(s.skip(i)) == trim_ws_start(s.skip(i + 1)),
{
    assert(s.skip(i).drop_first() =~= s.skip(i + 1));
}

proof fn lemma_ws_end_step(s: Seq<char>, j: int)
    requires
        0 < j <= s.len(),
        is_ws(s[j - 1]),
    ensures
        trim_ws_end(s.take(j)) == trim_ws_end(s.take(j - 1)),
{
    assert(s.take(j).drop_last() =~= s.take(j - 1));
}

/// Is `c` white space (`char::is_whitespace`)?
pub fn char_is_ws(c: char) -> (r: bool)
    ensures
        r == is_ws(c),
{
    ('\u{9}' <= c && c <= '\u{d}') || c == ' ' || c == '\u{85}' || c == '\u{a0}' || c
        == '\u{1680}' || ('\u{2000}' <= c && c <= '\u{200a}') || c == '\u{2028}' || c
        == '\u{2029}' || c == '\u{202f}' || c == '\u{205f}' || c == '\u{3000}'
}

/// `s` without white space at either end (`str::trim`).
pub fn trim_str(s: &str) -> (r: String)
    ensures
        r@ == trim_ws(s@),
{
    let n = s.unicode_len();
    let mut i: usize = 0;
    proof {
        assert(s@.skip(0) =~= s@);
    }
    while i < n && char_is_ws(s.get_char(i))
        invariant
            n == s@.len(),
            i <= n,
            trim_ws_start(s@) == trim_ws_start(s@.skip(i as int)),
        decreases n - i,
    {
        proof {
            lemma_ws_start_step(s@, i as int);
        }
        i = i + 1;
    }
    let ghost t = s@.skip(i as int);
    proof {
        if t.len() > 0 && is_ws(t[0]) {
            assert(s@[i as int] == t[0]);
        }
        assert(trim_ws_start(s@) == t);
    }
    let mut j: usize = n;
    proof {
        assert(t.take(t.len() as int) =~= t);
    }
    while j > i && char_is_ws(s.get_char(j - 1))
        invariant
            n == s@.len(),
            i <= j <= n,
            t == s@.skip(i as int),
            trim_ws_end(t) == trim_ws_end(t.take(j - i)),
        decreases j,
    {
        proof {
            assert(t[j - i - 1] == s@[j - 1]);
            lemma_ws_end_step(t, j - i);
        }
        j = j - 1;
    }
    proof {
        let u = t.take(j - i);
        if u.len() > 0 && is_ws(u.last()) {
            assert(u.last() == s@[j - 1]);
        }
        assert(u =~= s@.subrange(i as int, j as int));
    }
    sub_string(s, i, j)
}

/// ASCII lower case of one character.
pub fn lower_char_exec(c: char) -> (r: char)
    ensures
        r == lower_char(c),
{
    if 'A' <= c && c <= 'Z' {
        let u = ((c as u32) + 32) as u8;
        u as char
    } else {
        c
    }
}

/// ASCII lower case of a string (`to_ascii_lowercase`).
pub fn to_ascii_lower(s: &str) -> (r: String)
    ensures
        r@ == ascii_lower(s@),
{
    let n = s.unicode_len();
    let mut r = String::new();
    let mut i: usize = 0;
    while i < n
        invariant
            n == s@.len(),
            i <= n,
            r@ == ascii_lower(s@.take(i as int)),
        decreases n - i,
    {
        let c = s.get_char(i);
        let l = lower_char_exec(c);
        push_char(&mut r, l);
        proof {
            assert(ascii_lower(s@.take(i + 1)) =~= ascii_lower(s@.take(i as int)).push(l));
        }
        i = i + 1;
    }
    proof {
        assert(s@.take(n as int) =~= s@);
    }
    r
}

proof fn lemma_nonempty_step(parts: Seq<Seq<char>>, i: int)
    requires
        0 <= i < parts.len(),
    ensures
        nonempty_parts(parts.take(i + 1)) == (if parts[i].len() > 0 {
            nonempty_parts(parts.take(i)).push(parts[i])
        } else {
            nonempty_parts(parts.take(i))
        }),
{
    assert(parts.take(i + 1).drop_last() =~= parts.take(i));
}

/// The non-empty strings of `parts`, in order.
pub fn keep_nonempty(parts: Vec<String>) -> (r: Vec<String>)
    ensures
        views(r@) == nonempty_parts(views(parts@)),
{
    let mut out: Vec<String> = Vec::new();
    let n = parts.len();
    let mut i: usize = 0;
    proof {
        assert(views(parts@).take(0) =~= Seq::<Seq<char>>::empty());
        assert(views(out@) =~= Seq::<Seq<char>>::empty());
    }
    while i < n
        invariant
            n == parts@.len(),
            i <= n,
            views(out@) == nonempty_parts(views(parts@).take(i as int)),
        decreases n - i,
    {
        proof {
            lemma_nonempty_step(views(parts@), i as int);
        }
        let p = &parts[i];
        if p.unicode_len() > 0 {
            let ghost before = out@;
            out.push(p.clone());
            proof {
                assert(views(out@) =~= views(before).push(parts@[i as int]@));
            }
        }
        i = i + 1;
    }
    proof {
        assert(views(parts@).take(n as int) =~= views(parts@));
    }
    out
}

proof fn lemma_join_step(parts: Seq<Seq<char>>, i: int)
    requires
        1 <= i < parts.len(),
    ensures
        join_slash(parts.take(i + 1)) == join_slash(parts.take(i)) + seq!['/'] + parts[i],
{
    assert(parts.take(i + 1).drop_last() =~= parts.take(i));
}

/// The first `m` strings of `parts` joined with `/`.
pub fn join_prefix(parts: &Vec<String>, m: usize) -> (r: String)
    requires
        m <= parts@.len(),
    ensures
        r@ == join_slash(views(parts@).take(m as int)),
{
    if m == 0 {
        proof {
            assert(views(parts@).take(0) =~= Seq::<Seq<char>>::empty());
        }
        return String::new();
    }
    let mut r = parts[0].clone();
    proof {
        assert(views(parts@).take(1) =~= seq![parts@[0]@]);
    }
    let mut i: usize = 1;
    while i < m
        invariant
            m <= parts@.len(),
            1 <= i <= m,
            r@ == join_slash(views(parts@).take(i as int)),
        decreases m - i,
    {
        proof {
            lemma_join_step(views(parts@), i as int);
            reveal_strlit("/");
        }
        r.append("/");
        r.append(parts[i].as_str());
        i = i + 1;
    }
    r
}


/// Lexicographic order of strings by character (the order `String`'s `Ord`
/// gives: UTF-8 bytes compare as their characters do).
pub open spec fn seq_lt(a: Seq<char>, b: Seq<char>) -> bool
    decreases a.len(),
{
    if b.len() == 0 {
        false
    } else if a.len() == 0 {
        true
    } else if a[0] != b[0] {
        (a[0] as int) < (b[0] as int)
    } else {
        seq_lt(a.drop_first(), b.drop_first())
    }
}

pub proof fn lemma_lt_irreflexive(a: Seq<char>)
    ensures
        !seq_lt(a, a),
    decreases a.len(),
{
    if a.len() > 0 {
        lemma_lt_irreflexive(a.drop_first());
    }
}

pub proof fn lemma_lt_transitive(a: Seq<char>, b: Seq<char>, c: Seq<char>)
    requires
        seq_lt(a, b),
        seq_lt(b, c),
    ensures
        seq_lt(a, c),
    decreases a.len(),
{
    if a.len() > 0 && b.len() > 0 && c.len() > 0 && a[0] == b[0] && b[0] == c[0] {
        lemma_lt_transitive(a.drop_first(), b.drop_first(), c.drop_first());
    }
}

pub proof fn lemma_lt_total(a: Seq<char>, b: Seq<char>)
    requires
        a != b,
    ensures
        seq_lt(a, b) || seq_lt(b, a),
    decreases a.len(),
{
    if a.len() > 0 && b.len() > 0 && a[0] == b[0] {
        if a.drop_first() == b.drop_first() {
            assert(a =~= seq![a[0]] + a.drop_first());
            assert(b =~= seq![b[0]] + b.drop_first());
        }
        lemma_lt_total(a.drop_first(), b.drop_first());
    } else if a.len() == 0 && b.len() == 0 {
        assert(a =~= b);
    }
}

pub proof fn lemma_lt_asymmetric(a: Seq<char>, b: Seq<char>)
    requires
        seq_lt(a, b),
    ensures
        !seq_lt(b, a),
    decreases a.len(),
{
    if a.len() > 0 && b.len() > 0 && a[0] == b[0] {
        lemma_lt_asymmetric(a.drop_first(), b.drop_first());
    }
}

/// Is `a` before `b` in string order?
pub fn str_lt(a: &str, b: &str) -> (r: bool)
    ensures
        r == seq_lt(a@, b@),
{
    let n = a.unicode_len();
    let m = b.unicode_len();
    let mut i: usize = 0;
    proof {
        assert(a@.skip(0) =~= a@);
        assert(b@.skip(0) =~= b@);
    }
    while i < n && i < m
        invariant
            n == a@.len(),
            m == b@.len(),
            i <= n,
            i <= m,
            seq_lt(a@, b@) == seq_lt(a@.skip(i as int), b@.skip(i as int)),
        decreases n - i,
    {
        let x = a.get_char(i);
        let y = b.get_char(i);
        proof {
            assert(a@.skip(i as int)[0] == x);
            assert(b@.skip(i as int)[0] == y);
            assert(a@.skip(i as int).drop_first() =~= a@.skip(i + 1));
            assert(b@.skip(i as int).drop_first() =~= b@.skip(i + 1));
        }
        if x != y {
            return (x as u32) < (y as u32);
        }
        i = i + 1;
    }
    i < m
}

/// `x` placed into `s` before the first string after it.
pub open spec fn insert_sorted(s: Seq<Seq<char>>, x: Seq<char>) -> Seq<Seq<char>>
    decreases s.len(),
{
    if s.len() == 0 {
        seq![x]
    } else if seq_lt(x, s[0]) {
        seq![x] + s
    } else {
        seq![s[0]] + insert_sorted(s.drop_first(), x)
    }
}

/// The strings in order (each inserted in turn, as `sort` orders them).
pub open spec fn sort_strings(v: Seq<Seq<char>>) -> Seq<Seq<char>>
    decreases v.len(),
{
    if v.len() == 0 {
        Seq::empty()
    } else {
        insert_sorted(sort_strings(v.drop_last()), v.last())
    }
}

/// Strictly increasing in string order.
pub open spec fn strictly_sorted(s: Seq<Seq<char>>) -> bool {
    forall|i: int, j: int| 0 <= i < j < s.len() ==> seq_lt(#[trigger] s[i], #[trigger] s[j])
}

proof fn lemma_insert_sorted(s: Seq<Seq<char>>, x: Seq<char>)
    requires
        strictly_sorted(s),
        !s.contains(x),
    ensures
        strictly_sorted(insert_sorted(s, x)),
        insert_sorted(s, x).to_multiset() == s.to_multiset().insert(x),
        insert_sorted(s, x).len() == s.len() + 1,
    decreases s.len(),
{
    broadcast use vstd::seq_lib::group_to_multiset_ensures;
    let r = insert_sorted(s, x);
    if s.len() == 0 {
        assert(r =~= seq![x]);
        assert(seq![x] =~= Seq::<Seq<char>>::empty().push(x));
    } else if seq_lt(x, s[0]) {
        assert forall|i: int, j: int| 0 <= i < j < r.len() implies seq_lt(#[trigger] r[i], #[trigger] r[j]) by {
            if i == 0 {
                if j > 1 {
                    lemma_lt_transitive(x, s[0], s[j - 1]);
                }
            } else {
                assert(r[i] == s[i - 1] && r[j] == s[j - 1]);
            }
        }
        assert(r =~= seq![x] + s);
        lemma_prepend_multiset(s, x);
    } else {
        let t = s.drop_first();
        assert(x != s[0]);
        lemma_lt_total(x, s[0]);
        assert forall|i: int, j: int| 0 <= i < j < t.len() implies seq_lt(#[trigger] t[i], #[trigger] t[j]) by {
            assert(t[i] == s[i + 1] && t[j] == s[j + 1]);
        }
        assert(!t.contains(x)) by {
            if t.contains(x) {
                let k = choose|k: int| 0 <= k < t.len() && t[k] == x;
                assert(s[k + 1] == x);
            }
        }
        lemma_insert_sorted(t, x);
        let u = insert_sorted(t, x);
        assert(r =~= seq![s[0]] + u);
        assert forall|i: int, j: int| 0 <= i < j < r.len() implies seq_lt(#[trigger] r[i], #[trigger] r[j]) by {
            if i == 0 {
                assert(r[j] == u[j - 1]);
                assert(u.to_multiset().count(u[j - 1]) > 0);
                assert(t.to_multiset().insert(x).count(u[j - 1]) > 0);
                if u[j - 1] == x {
                } else {
                    assert(t.to_multiset().count(u[j - 1]) > 0);
                    assert(t.contains(u[j - 1]));
                    let k = choose|k: int| 0 <= k < t.len() && t[k] == u[j - 1];
                    assert(s[k + 1] == u[j - 1]);
                }
            } else {
                assert(r[i] == u[i - 1] && r[j] == u[j - 1]);
            }
        }
        lemma_prepend_multiset(u, s[0]);
        lemma_prepend_multiset(t, s[0]);
        assert(s =~= seq![s[0]] + t);
    }
}

proof fn lemma_prepend_multiset(s: Seq<Seq<char>>, x: Seq<char>)
    ensures
        (seq![x] + s).to_multiset() == s.to_multiset().insert(x),
{
    broadcast use vstd::seq_lib::group_to_multiset_ensures;
    vstd::seq_lib::lemma_multiset_commutative(seq![x], s);
    assert(seq![x] =~= Seq::<Seq<char>>::empty().push(x));
    assert(Seq::<Seq<char>>::empty().to_multiset() =~= vstd::multiset::Multiset::empty());
}

/// Sorting distinct strings gives them in strictly increasing order, each
/// exactly once.
pub proof fn lemma_sort_strings(v: Seq<Seq<char>>)
    requires
        v.no_duplicates(),
    ensures
        strictly_sorted(sort_strings(v)),
        sort_strings(v).to_multiset() == v.to_multiset(),
        sort_strings(v).len() == v.len(),
    decreases v.len(),
{
    broadcast use vstd::seq_lib::group_to_multiset_ensures;
    if v.len() > 0 {
        let w = v.drop_last();
        assert(w.no_duplicates());
        lemma_sort_strings(w);
        let s = sort_strings(w);
        assert(!s.contains(v.last())) by {
            if s.contains(v.last()) {
                assert(s.to_multiset().count(v.last()) > 0);
                assert(w.to_multiset().count(v.last()) > 0);
                assert(w.contains(v.last()));
                let k = choose|k: int| 0 <= k < w.len() && w[k] == v.last();
                assert(v[k] == v[v.len() - 1]);
            }
        }
        lemma_insert_sorted(s, v.last());
        assert(v =~= w.push(v.last()));
    } else {
        assert(v.to_multiset() =~= vstd::multiset::Multiset::empty());
    }
}

/// The strings of `v` in order (see `sort_strings`).
pub fn sort_string_vec(v: &Vec<String>) -> (r: Vec<String>)
    ensures
        views(r@) == sort_strings(views(v@)),
{
    let ghost all = views(v@);
    let mut out: Vec<String> = Vec::new();
    let mut i: usize = 0;
    proof {
        assert(all.take(0) =~= Seq::<Seq<char>>::empty());
        assert(views(out@) =~= Seq::<Seq<char>>::empty());
    }
    while i < v.len()
        invariant
            all == views(v@),
            i <= all.len(),
            views(out@) == sort_strings(all.take(i as int)),
        decreases all.len() - i,
    {
        proof {
            assert(all.take(i + 1).drop_last() =~= all.take(i as int));
            assert(all.take(i + 1).last() == v@[i as int]@);
        }
        let x = v[i].as_str();
        let mut k: usize = 0;
        while k < out.len() && !str_lt(x, out[k].as_str())
            invariant
                k <= out@.len(),
                forall|j: int| 0 <= j < k ==> !seq_lt(x@, #[trigger] views(out@)[j]),
            decreases out@.len() - k,
        {
            k = k + 1;
        }
        proof {
            lemma_insert_sorted_at(views(out@), x@, k as int);
        }
        let ghost before = views(out@);
        out.insert(k, v[i].clone());
        proof {
            assert(views(out@) =~= before.take(k as int).push(x@) + before.skip(k as int));
        }
        i = i + 1;
    }
    proof {
        assert(all.take(all.len() as int) =~= all);
    }
    out
}

proof fn lemma_insert_sorted_at(s: Seq<Seq<char>>, x: Seq<char>, k: int)
    requires
        0 <= k <= s.len(),
        forall|j: int| 0 <= j < k ==> !seq_lt(x, #[trigger] s[j]),
        k == s.len() || seq_lt(x, s[k]),
    ensures
        insert_sorted(s, x) == s.take(k).push(x) + s.skip(k),
    decreases s.len(),
{
    if k == 0 {
        if s.len() == 0 {
            assert(s.take(0).push(x) + s.skip(0) =~= seq![x]);
        } else {
            assert(s.take(0).push(x) + s.skip(0) =~= seq![x] + s);
        }
    } else {
        let t = s.drop_first();
        assert forall|j: int| 0 <= j < k - 1 implies !seq_lt(x, #[trigger] t[j]) by {
            assert(t[j] == s[j + 1]);
        }
        if k - 1 < t.len() {
            assert(t[k - 1] == s[k]);
        }
        lemma_insert_sorted_at(t, x, k - 1);
        assert(seq![s[0]] + (t.take(k - 1).push(x) + t.skip(k - 1)) =~= s.take(k).push(x) + s.skip(k));
    }
}

/// `v` with `x` placed before the first string after it (see
/// `insert_sorted`).
pub fn insert_sorted_exec(v: &Vec<String>, x: &str) -> (r: Vec<String>)
    ensures
        views(r@) == insert_sorted(views(v@), x@),
{
    let mut out = crate::tasks::copy_strings(v);
    let mut k: usize = 0;
    while k < out.len() && !str_lt(x, out[k].as_str())
        invariant
            views(out@) == views(v@),
            k <= out@.len(),
            forall|j: int| 0 <= j < k ==> !seq_lt(x@, #[trigger] views(out@)[j]),
        decreases out@.len() - k,
    {
        k = k + 1;
    }
    proof {
        lemma_insert_sorted_at(views(out@), x@, k as int);
    }
    let ghost before = views(out@);
    out.insert(k, String::from_str(x));
    proof {
        assert(views(out@) =~= before.take(k as int).push(x@) + before.skip(k as int));
    }
    out
}

/// Is `x` one of `v`?
pub fn contains_str(v: &Vec<String>, x: &str) -> (r: bool)
    ensures
        r == views(v@).contains(x@),
{
    let mut i: usize = 0;
    while i < v.len()
        invariant
            i <= v@.len(),
            forall|j: int| 0 <= j < i ==> v@[j]@ != x@,
        decreases v@.len() - i,
    {
        if str_eq(v[i].as_str(), x) {
            assert(views(v@)[i as int] == x@);
            return true;
        }
        i = i + 1;
    }
    proof {
        if views(v@).contains(x@) {
            let j = choose|j: int| 0 <= j < v@.len() && views(v@)[j] == x@;
            assert(v@[j]@ == x@);
        }
    }
    false
}

} // verus!
