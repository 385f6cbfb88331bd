//! Path algebra on paths held as strings, with the meaning that std's `Path`
//! gives them on unix, or on Windows when asked to: components, file names
//! and stems, and joining.
//!
//! On Windows a path may start with a prefix — a drive (`C:`), a UNC share
//! (`\\server\share`), a device (`\\.\COM1`) or a verbatim prefix (`\\?\…`).
//! After a verbatim prefix only `\` separates and `.` is a component of its
//! own; elsewhere both `/` and `\` separate and `.` components vanish.

use vstd::prelude::*;
use crate::text::{chars_of, push_char, push_str, string_of_range};

verus! {

// ─── Separators ─────────────────────────────────────────────────────

/// Whether `c` separates components, `\` counting when `backslash`, `/` when
/// `slash`.
pub open spec fn separates(c: char, backslash: bool, slash: bool) -> bool {
    (slash && c == '/') || (backslash && c == '\\')
}

fn separates_exec(c: char, backslash: bool, slash: bool) -> (res: bool)
    ensures
        res == separates(c, backslash, slash),
{
    (slash && c == '/') || (backslash && c == '\\')
}

/// Either separator of a Windows path.
pub open spec fn is_sep_any(c: char) -> bool {
    c == '/' || c == '\\'
}

/// The index of the first separator in `s`, or `s.len()`.
pub open spec fn first_separator(s: Seq<char>, backslash: bool, slash: bool) -> int
    decreases s.len(),
{
    if s.len() == 0 {
        0
    } else if separates(s[0], backslash, slash) {
        0
    } else {
        1 + first_separator(s.drop_first(), backslash, slash)
    }
}

/// Where `first_separator` points: at the first separator, or at the end.
pub proof fn lemma_first_separator(s: Seq<char>, backslash: bool, slash: bool)
    ensures
        0 <= first_separator(s, backslash, slash) <= s.len(),
        first_separator(s, backslash, slash) < s.len() ==> separates(s[first_separator(s, backslash, slash)], backslash, slash),
        forall|k: int| 0 <= k < first_separator(s, backslash, slash) ==> !separates(s[k], backslash, slash),
    decreases s.len(),
{
    if s.len() > 0 && !separates(s[0], backslash, slash) {
        lemma_first_separator(s.drop_first(), backslash, slash);
        assert forall|k: int| 0 <= k < first_separator(s, backslash, slash) implies !separates(s[k], backslash, slash) by {
            if k > 0 {
                assert(s[k] == s.drop_first()[k - 1]);
            }
        }
    }
}

/// The first separator in `v[from..]`, as an index into `v`, or `v.len()`.
fn find_first_separator(v: &Vec<char>, from: usize, backslash: bool, slash: bool) -> (res: usize)
    requires
        from <= v@.len(),
    ensures
        res as int == from + first_separator(v@.skip(from as int), backslash, slash),
        from <= res <= v@.len(),
{
    let mut i = from;
    proof {
        lemma_first_separator(v@.skip(from as int), backslash, slash);
    }
    while i < v.len()
        invariant
            from <= i <= v@.len(),
            first_separator(v@.skip(from as int), backslash, slash)
                == (i - from) + first_separator(v@.skip(i as int), backslash, slash),
        decreases v@.len() - i,
    {
        if separates_exec(v[i], backslash, slash) {
            assert(v@.skip(i as int)[0] == v@[i as int]);
            return i;
        }
        assert(v@.skip(i as int).drop_first() =~= v@.skip(i + 1));
        i = i + 1;
    }
    assert(v@.skip(i as int).len() == 0);
    i
}

/// The index of the last separator in `s`, or -1.
pub open spec fn last_separator(s: Seq<char>, backslash: bool, slash: bool) -> int
    decreases s.len(),
{
    if s.len() == 0 {
        -1
    } else if separates(s.last(), backslash, slash) {
        s.len() - 1
    } else {
        last_separator(s.drop_last(), backslash, slash)
    }
}

/// Where `last_separator` points: at a separator, with none after it.
pub proof fn lemma_last_separator(s: Seq<char>, backslash: bool, slash: bool)
    ensures
        -1 <= last_separator(s, backslash, slash) < s.len(),
        last_separator(s, backslash, slash) >= 0 ==> separates(s[last_separator(s, backslash, slash)], backslash, slash),
        forall|k: int| last_separator(s, backslash, slash) < k < s.len() ==> !separates(s[k], backslash, slash),
    decreases s.len(),
{
    if s.len() > 0 && !separates(s.last(), backslash, slash) {
        lemma_last_separator(s.drop_last(), backslash, slash);
        assert forall|k: int| last_separator(s, backslash, slash) < k < s.len() implies !separates(s[k], backslash, slash) by {
            if k < s.len() - 1 {
                assert(s[k] == s.drop_last()[k]);
            }
        }
    }
}

/// The last separator in `v[0..end]`.
fn find_last_separator(v: &Vec<char>, end: usize, backslash: bool, slash: bool) -> (res: Option<usize>)
    requires
        end <= v@.len(),
    ensures
        match res {
            Some(j) => j as int == last_separator(v@.take(end as int), backslash, slash),
            None => last_separator(v@.take(end as int), backslash, slash) == -1,
        },
{
    let mut k = end;
    while k > 0
        invariant
            k <= end <= v@.len(),
            last_separator(v@.take(end as int), backslash, slash) == last_separator(v@.take(k as int), backslash, slash),
        decreases k,
    {
        assert(v@.take(k as int).drop_last() =~= v@.take(k - 1));
        if separates_exec(v[k - 1], backslash, slash) {
            return Some(k - 1);
        }
        k = k - 1;
    }
    None
}

/// The index of the last `c` in `s`, or -1.
pub open spec fn last_index_of(s: Seq<char>, c: char) -> int
    decreases s.len(),
{
    if s.len() == 0 {
        -1
    } else if s.last() == c {
        s.len() - 1
    } else {
        last_index_of(s.drop_last(), c)
    }
}

/// Where `last_index_of` points: at a `c`, with none after it.
pub proof fn lemma_last_index_of(s: Seq<char>, c: char)
    ensures
        -1 <= last_index_of(s, c) < s.len(),
        last_index_of(s, c) >= 0 ==> s[last_index_of(s, c)] == c,
        forall|k: int| last_index_of(s, c) < k < s.len() ==> s[k] != c,
    decreases s.len(),
{
    if s.len() > 0 && s.last() != c {
        lemma_last_index_of(s.drop_last(), c);
        assert forall|k: int| last_index_of(s, c) < k < s.len() implies s[k] != c by {
            if k < s.len() - 1 {
                assert(s[k] == s.drop_last()[k]);
            }
        }
    }
}

/// The last `c` in `v[0..end]`.
fn find_last(v: &Vec<char>, end: usize, c: char) -> (res: Option<usize>)
    requires
        end <= v@.len(),
    ensures
        match res {
            Some(j) => j as int == last_index_of(v@.take(end as int), c),
            None => last_index_of(v@.take(end as int), c) == -1,
        },
{
    let mut k = end;
    while k > 0
        invariant
            k <= end <= v@.len(),
            last_index_of(v@.take(end as int), c) == last_index_of(v@.take(k as int), c),
        decreases k,
    {
        assert(v@.take(k as int).drop_last() =~= v@.take(k - 1));
        if v[k - 1] == c {
            return Some(k - 1);
        }
        k = k - 1;
    }
    None
}

// ─── Windows prefixes ───────────────────────────────────────────────

/// Whether `c` is an ASCII letter.
pub open spec fn is_ascii_letter(c: char) -> bool {
    ('a' <= c && c <= 'z') || ('A' <= c && c <= 'Z')
}

fn ascii_letter(c: char) -> (res: bool)
    ensures
        res == is_ascii_letter(c),
{
    ('a' <= c && c <= 'z') || ('A' <= c && c <= 'Z')
}

/// Whether `s` starts with a drive, `X:` with `X` an ASCII letter.
pub open spec fn starts_with_drive(s: Seq<char>) -> bool {
    s.len() >= 2 && is_ascii_letter(s[0]) && s[1] == ':'
}

/// `s` after its first component and the separator that ends it.
pub open spec fn after_component(s: Seq<char>, verbatim: bool) -> Seq<char> {
    let e = first_separator(s, true, !verbatim);
    if e < s.len() { s.skip(e + 1) } else { Seq::empty() }
}

/// The prefix of a Windows path as std parses it: its length (0 when there
/// is none), whether it is verbatim, and whether it is a plain drive.
///
/// `\\?\UNC\server\share`, `\\?\C:` and `\\?\name` are verbatim (their first
/// four characters exactly `\\?\`); `\\.\name` is a device; `\\server\share`
/// is a UNC share when both names are non-empty; `C:` is a drive. Outside
/// verbatim prefixes `/` may stand for `\` in the leading marks.
pub open spec fn windows_prefix(p: Seq<char>) -> (int, bool, bool) {
    if p.len() >= 2 && is_sep_any(p[0]) && is_sep_any(p[1]) {
        if p.len() >= 4 && p[0] == '\\' && p[1] == '\\' && p[2] == '?' && p[3] == '\\' {
            if p.len() >= 8 && p[4] == 'U' && p[5] == 'N' && p[6] == 'C' && is_sep_any(p[7]) {
                let r = p.skip(8);
                let a = first_separator(r, true, false);
                let b = first_separator(after_component(r, true), true, false);
                (8 + a + (if b > 0 { 1 + b } else { 0 }), true, false)
            } else if starts_with_drive(p.skip(4)) && (p.len() == 6 || p[6] == '\\') {
                (6, true, false)
            } else {
                (4 + first_separator(p.skip(4), true, false), true, false)
            }
        } else if p.len() >= 4 && p[2] == '.' && is_sep_any(p[3]) {
            (4 + first_separator(p.skip(4), true, true), false, false)
        } else {
            let r = p.skip(2);
            let a = first_separator(r, true, true);
            let b = first_separator(after_component(r, false), true, true);
            if a > 0 && b > 0 { (2 + a + 1 + b, false, false) } else { (0, false, false) }
        }
    } else if starts_with_drive(p) {
        (2, false, true)
    } else {
        (0, false, false)
    }
}

/// Bounds of `windows_prefix`.
pub proof fn lemma_windows_prefix(p: Seq<char>)
    ensures
        0 <= windows_prefix(p).0 <= p.len(),
        windows_prefix(p).2 ==> windows_prefix(p).0 == 2 && !windows_prefix(p).1,
        windows_prefix(p).1 ==> windows_prefix(p).0 >= 4,
{
    if p.len() >= 2 && is_sep_any(p[0]) && is_sep_any(p[1]) {
        if p.len() >= 4 && p[0] == '\\' && p[1] == '\\' && p[2] == '?' && p[3] == '\\' {
            if p.len() >= 8 && p[4] == 'U' && p[5] == 'N' && p[6] == 'C' && is_sep_any(p[7]) {
                let r = p.skip(8);
                lemma_first_separator(r, true, false);
                lemma_first_separator(after_component(r, true), true, false);
            } else {
                lemma_first_separator(p.skip(4), true, false);
            }
        } else if p.len() >= 4 && p[2] == '.' && is_sep_any(p[3]) {
            lemma_first_separator(p.skip(4), true, true);
        } else {
            let r = p.skip(2);
            lemma_first_separator(r, true, true);
            lemma_first_separator(after_component(r, false), true, true);
        }
    }
}

/// The position right after the component of `v[from..]` and its separator,
/// with the component's length.
fn component_at(v: &Vec<char>, from: usize, verbatim: bool) -> (res: (usize, usize))
    requires
        from <= v@.len(),
    ensures
        res.0 as int == first_separator(v@.skip(from as int), true, !verbatim),
        from + res.0 <= res.1 <= v@.len(),
        v@.skip(res.1 as int) == after_component(v@.skip(from as int), verbatim),
{
    let e = find_first_separator(v, from, true, !verbatim);
    if e < v.len() {
        assert(v@.skip(from as int).skip(e - from + 1) =~= v@.skip(e + 1));
        (e - from, e + 1)
    } else {
        assert(v@.skip(v@.len() as int) =~= Seq::<char>::empty());
        (e - from, e)
    }
}

/// Parses the Windows prefix of `v` (see `windows_prefix`).
fn windows_prefix_exec(v: &Vec<char>) -> (res: (usize, bool, bool))
    ensures
        res.0 as int == windows_prefix(v@).0,
        res.1 == windows_prefix(v@).1,
        res.2 == windows_prefix(v@).2,
{
    let n = v.len();
    let sep0 = n >= 2 && (v[0] == '/' || v[0] == '\\');
    let sep1 = n >= 2 && (v[1] == '/' || v[1] == '\\');
    if sep0 && sep1 {
        if n >= 4 && v[0] == '\\' && v[1] == '\\' && v[2] == '?' && v[3] == '\\' {
            if n >= 8 && v[4] == 'U' && v[5] == 'N' && v[6] == 'C' && (v[7] == '/' || v[7] == '\\') {
                let (a, next) = component_at(v, 8, true);
                let (b, _) = component_at(v, next, true);
                proof {
                    lemma_first_separator(v@.skip(8), true, false);
                }
                let len = if b > 0 { 8 + a + 1 + b } else { 8 + a };
                (len, true, false)
            } else if n >= 6 && ascii_letter(v[4]) && v[5] == ':' && (n == 6 || v[6] == '\\') {
                assert(starts_with_drive(v@.skip(4)));
                (6, true, false)
            } else {
                assert(!(starts_with_drive(v@.skip(4)) && (n == 6 || v@[6] == '\\'))) by {
                    if starts_with_drive(v@.skip(4)) {
                        assert(v@.skip(4)[0] == v@[4] && v@.skip(4)[1] == v@[5]);
                    }
                }
                let (a, _) = component_at(v, 4, true);
                (4 + a, true, false)
            }
        } else if n >= 4 && v[2] == '.' && (v[3] == '/' || v[3] == '\\') {
            let (a, _) = component_at(v, 4, false);
            (4 + a, false, false)
        } else {
            let (a, next) = component_at(v, 2, false);
            let (b, _) = component_at(v, next, false);
            if a > 0 && b > 0 {
                (2 + a + 1 + b, false, false)
            } else {
                (0, false, false)
            }
        }
    } else if n >= 2 && ascii_letter(v[0]) && v[1] == ':' {
        (2, false, true)
    } else {
        (0, false, false)
    }
}

// ─── File names ─────────────────────────────────────────────────────

/// The last component of `p`, skipping empty components and, unless
/// `keep_dot`, `.` components; `None` when there is none.
pub open spec fn last_component(p: Seq<char>, backslash: bool, slash: bool, keep_dot: bool) -> Option<Seq<char>>
    decreases p.len(),
{
    let j = last_separator(p, backslash, slash);
    let tail = p.subrange(j + 1, p.len() as int);
    if tail.len() > 0 && (keep_dot || tail != seq!['.']) {
        Some(tail)
    } else if j < 0 {
        None
    } else {
        proof {
            lemma_last_separator(p, backslash, slash);
        }
        last_component(p.take(j), backslash, slash, keep_dot)
    }
}

/// The final component of a path as `Path::file_name` gives it: `None` when
/// the path has no components after its root or prefix, or ends in `..` (or,
/// after a verbatim prefix, in `.`). With `windows` false this is the unix
/// meaning; with it true the Windows one.
pub open spec fn file_name_of(p: Seq<char>, windows: bool) -> Option<Seq<char>> {
    let (len, verbatim, _) = if windows { windows_prefix(p) } else { (0int, false, false) };
    let last = last_component(p.skip(len), windows, !verbatim, verbatim);
    match last {
        Some(c) => if c == seq!['.', '.'] || c == seq!['.'] { None } else { Some(c) },
        None => None,
    }
}

/// The stem of a file name as `Path::file_stem` takes it: the part before the
/// last `.`, unless that `.` is the first character or there is none.
pub open spec fn stem_of(name: Seq<char>) -> Seq<char> {
    let k = last_index_of(name, '.');
    if k <= 0 { name } else { name.take(k) }
}

/// The stem of the final component of a path.
pub open spec fn file_stem_of(p: Seq<char>, windows: bool) -> Option<Seq<char>> {
    match file_name_of(p, windows) {
        Some(n) => Some(stem_of(n)),
        None => None,
    }
}

/// The last component of `v`, as `last_component` finds it.
fn last_component_exec(v: &Vec<char>, backslash: bool, slash: bool, keep_dot: bool) -> (res: Option<(usize, usize)>)
    ensures
        match res {
            Some((a, b)) => a <= b <= v@.len()
                && last_component(v@, backslash, slash, keep_dot) == Some(v@.subrange(a as int, b as int)),
            None => last_component(v@, backslash, slash, keep_dot) is None,
        },
{
    let mut end = v.len();
    assert(v@.take(end as int) =~= v@);
    loop
        invariant
            end <= v@.len(),
            last_component(v@, backslash, slash, keep_dot)
                == last_component(v@.take(end as int), backslash, slash, keep_dot),
        decreases end,
    {
        let ghost p = v@.take(end as int);
        proof {
            lemma_last_separator(p, backslash, slash);
        }
        let j = find_last_separator(v, end, backslash, slash);
        let start = match j {
            Some(j) => j + 1,
            None => 0,
        };
        let ghost tail = p.subrange(start as int, p.len() as int);
        assert(tail =~= v@.subrange(start as int, end as int));
        let len = end - start;
        let is_dot = len == 1 && v[start] == '.';
        assert(is_dot == (tail == seq!['.'])) by {
            if len == 1 {
                assert(tail[0] == v@[start as int]);
                if v@[start as int] == '.' {
                    assert(tail =~= seq!['.']);
                }
            }
        }
        if len > 0 && (keep_dot || !is_dot) {
            return Some((start, end));
        }
        match j {
            None => {
                return None;
            },
            Some(j) => {
                assert(p.take(j as int) =~= v@.take(j as int));
                end = j;
            },
        }
    }
}

/// The final component of `path` (see `file_name_of`), read the Windows way
/// when `windows`.
pub fn file_name(path: &str, windows: bool) -> (res: Option<String>)
    ensures
        match res {
            Some(n) => file_name_of(path@, windows) == Some(n@),
            None => file_name_of(path@, windows) is None,
        },
{
    let all = chars_of(path);
    let (len, verbatim, _) = if windows { windows_prefix_exec(&all) } else { (0, false, false) };
    proof {
        lemma_windows_prefix(all@);
    }
    let rest = string_of_range(&all, len, all.len());
    let v = chars_of(rest.as_str());
    assert(v@ =~= path@.skip(len as int));
    match last_component_exec(&v, windows, !verbatim, verbatim) {
        None => None,
        Some((a, b)) => {
            let n = b - a;
            let dots = (n == 1 && v[a] == '.') || (n == 2 && v[a] == '.' && v[a + 1] == '.');
            let name = string_of_range(&v, a, b);
            assert(dots == (name@ == seq!['.', '.'] || name@ == seq!['.'])) by {
                assert(name@.len() == n);
                assert(seq!['.'].len() == 1);
                assert(seq!['.', '.'].len() == 2);
                if name@ == seq!['.'] {
                    assert(name@[0] == v@[a as int]);
                }
                if name@ == seq!['.', '.'] {
                    assert(name@[0] == v@[a as int]);
                    assert(name@[1] == v@[a + 1]);
                }
                if n == 1 {
                    assert(name@[0] == v@[a as int]);
                    if v@[a as int] == '.' {
                        assert(name@ =~= seq!['.']);
                    }
                }
                if n == 2 {
                    assert(name@[0] == v@[a as int]);
                    assert(name@[1] == v@[a + 1]);
                    if v@[a as int] == '.' && v@[a + 1] == '.' {
                        assert(name@ =~= seq!['.', '.']);
                    }
                }
            }
            if dots { None } else { Some(name) }
        },
    }
}

/// The stem of the final component of `path` (see `file_stem_of`), read the
/// Windows way when `windows`.
pub fn file_stem(path: &str, windows: bool) -> (res: Option<String>)
    ensures
        match res {
            Some(s) => file_stem_of(path@, windows) == Some(s@),
            None => file_stem_of(path@, windows) is None,
        },
{
    match file_name(path, windows) {
        None => None,
        Some(name) => {
            let v = chars_of(name.as_str());
            let k = find_last(&v, v.len(), '.');
            assert(v@.take(v@.len() as int) =~= v@);
            proof {
                lemma_last_index_of(v@, '.');
            }
            match k {
                Some(k) => {
                    if k == 0 {
                        Some(name)
                    } else {
                        Some(string_of_range(&v, 0, k))
                    }
                },
                None => Some(name),
            }
        },
    }
}

// ─── Joining ────────────────────────────────────────────────────────

/// The components of `s` in order, split at separators, without empty
/// components and, when `drop_dot`, without `.` components.
pub open spec fn split_parts(s: Seq<char>, backslash: bool, slash: bool, drop_dot: bool) -> Seq<Seq<char>>
    decreases s.len(),
{
    if s.len() == 0 {
        Seq::empty()
    } else {
        let e = first_separator(s, backslash, slash);
        let c = s.take(e);
        let rest = if e < s.len() { s.skip(e + 1) } else { Seq::<char>::empty() };
        proof {
            lemma_first_separator(s, backslash, slash);
        }
        let tail = split_parts(rest, backslash, slash, drop_dot);
        if c.len() == 0 || (drop_dot && c == seq!['.']) { tail } else { seq![c] + tail }
    }
}

/// Whether a component names something, as opposed to `.` or `..`.
pub open spec fn is_normal(c: Seq<char>) -> bool {
    c != seq!['.'] && c != seq!['.', '.']
}

/// One component appended to a verbatim path's components: `..` removes a
/// preceding named component (and is otherwise dropped), anything else is
/// appended.
pub open spec fn push_part(stack: Seq<Seq<char>>, c: Seq<char>) -> Seq<Seq<char>> {
    if c == seq!['.', '.'] {
        if stack.len() > 0 && is_normal(stack.last()) { stack.drop_last() } else { stack }
    } else {
        stack.push(c)
    }
}

/// `parts` appended one by one with `push_part`.
pub open spec fn apply_parts(stack: Seq<Seq<char>>, parts: Seq<Seq<char>>) -> Seq<Seq<char>>
    decreases parts.len(),
{
    if parts.len() == 0 {
        stack
    } else {
        apply_parts(push_part(stack, parts[0]), parts.drop_first())
    }
}

/// Each component preceded by `\`.
pub open spec fn backslash_each(st: Seq<Seq<char>>) -> Seq<char>
    decreases st.len(),
{
    if st.len() == 0 {
        Seq::empty()
    } else {
        backslash_each(st.drop_last()) + seq!['\\'] + st.last()
    }
}

/// `part` joined onto a verbatim `base` whose prefix has length `prefix`:
/// the components are rebuilt after the prefix, `.` dropped and `..`
/// resolved, and a rooted `part` starts again from the prefix.
pub open spec fn verbatim_join(base: Seq<char>, prefix: int, part: Seq<char>) -> Seq<char> {
    let rooted = part.len() > 0 && is_sep_any(part[0]);
    let start = if rooted { Seq::empty() } else { split_parts(base.skip(prefix), true, false, false) };
    let has_root = rooted || (prefix < base.len() && base[prefix] == '\\');
    let st = apply_parts(start, split_parts(part, true, true, true));
    base.take(prefix) + (if st.len() == 0 && has_root { seq!['\\'] } else { Seq::empty() }) + backslash_each(st)
}

/// `base` joined with `part` as `Path::join` does, on unix or, when
/// `windows`, on Windows.
///
/// On unix an absolute `part` replaces `base`; otherwise a `/` separates them
/// unless `base` is empty or already ends with one. On Windows a `part` with
/// a prefix replaces `base`; onto a verbatim `base` the components are
/// rebuilt (see `verbatim_join`); a `part` starting with a separator keeps
/// only the prefix of `base`; otherwise a `\` separates them unless `base` is
/// empty, ends with a separator, or is a bare drive like `C:`.
pub open spec fn path_join(base: Seq<char>, part: Seq<char>, windows: bool) -> Seq<char> {
    if !windows {
        if part.len() > 0 && part[0] == '/' {
            part
        } else if base.len() == 0 || base.last() == '/' {
            base + part
        } else {
            base + seq!['/'] + part
        }
    } else {
        let (bl, verbatim, drive) = windows_prefix(base);
        if windows_prefix(part).0 > 0 {
            part
        } else if verbatim && part.len() > 0 {
            verbatim_join(base, bl, part)
        } else if part.len() > 0 && is_sep_any(part[0]) {
            base.take(bl) + part
        } else if base.len() > 0 && !is_sep_any(base.last()) && !(drive && base.len() == 2) {
            base + seq!['\\'] + part
        } else {
            base + part
        }
    }
}

/// The components of `v[from..]` (see `split_parts`).
fn split_parts_exec(v: &Vec<char>, from: usize, backslash: bool, slash: bool, drop_dot: bool) -> (res: Vec<Vec<char>>)
    requires
        from <= v@.len(),
    ensures
        res@.len() == split_parts(v@.skip(from as int), backslash, slash, drop_dot).len(),
        forall|i: int| 0 <= i < res@.len() ==> #[trigger] res@[i]@ == split_parts(v@.skip(from as int), backslash, slash, drop_dot)[i],
{
    let mut res: Vec<Vec<char>> = Vec::new();
    let ghost g: Seq<Seq<char>> = Seq::empty();
    let mut pos = from;
    while pos < v.len()
        invariant
            from <= pos <= v@.len(),
            res@.len() == g.len(),
            forall|i: int| 0 <= i < res@.len() ==> #[trigger] res@[i]@ == g[i],
            split_parts(v@.skip(from as int), backslash, slash, drop_dot)
                == g + split_parts(v@.skip(pos as int), backslash, slash, drop_dot),
        decreases v@.len() - pos,
    {
        let ghost s = v@.skip(pos as int);
        let e = find_first_separator(v, pos, backslash, slash);
        proof {
            lemma_first_separator(s, backslash, slash);
        }
        let ghost c = s.take(e - pos);
        assert(c =~= v@.subrange(pos as int, e as int));
        let next = if e < v.len() { e + 1 } else { e };
        let ghost rest = if e - pos < s.len() { s.skip(e - pos + 1) } else { Seq::<char>::empty() };
        assert(rest =~= v@.skip(next as int));
        let n = e - pos;
        let is_dot = n == 1 && v[pos] == '.';
        assert(is_dot == (c == seq!['.'])) by {
            assert(c.len() == n);
            assert(seq!['.'].len() == 1);
            if n == 1 {
                assert(c[0] == v@[pos as int]);
                if v@[pos as int] == '.' {
                    assert(c =~= seq!['.']);
                }
            }
        }
        if n > 0 && !(drop_dot && is_dot) {
            let mut comp: Vec<char> = Vec::new();
            let mut k = pos;
            while k < e
                invariant
                    pos <= k <= e <= v@.len(),
                    comp@ == v@.subrange(pos as int, k as int),
                decreases e - k,
            {
                comp.push(v[k]);
                assert(v@.subrange(pos as int, k + 1) =~= v@.subrange(pos as int, k as int).push(v@[k as int]));
                k = k + 1;
            }
            res.push(comp);
            proof {
                assert(g.push(c) + split_parts(rest, backslash, slash, drop_dot)
                    =~= g + (seq![c] + split_parts(rest, backslash, slash, drop_dot)));
                g = g.push(c);
            }
        }
        pos = next;
    }
    assert(v@.skip(pos as int) =~= Seq::<char>::empty());
    assert(g + Seq::<Seq<char>>::empty() =~= g);
    res
}

fn is_dot_dot(c: &Vec<char>) -> (res: bool)
    ensures
        res == (c@ == seq!['.', '.']),
{
    let r = c.len() == 2 && c[0] == '.' && c[1] == '.';
    assert(r == (c@ == seq!['.', '.'])) by {
        if c@ == seq!['.', '.'] {
            assert(c@.len() == 2);
            assert(c@[0] == '.' && c@[1] == '.');
        }
        if r {
            assert(c@ =~= seq!['.', '.']);
        }
    }
    r
}

fn is_normal_exec(c: &Vec<char>) -> (res: bool)
    ensures
        res == is_normal(c@),
{
    let dot = c.len() == 1 && c[0] == '.';
    assert(dot == (c@ == seq!['.'])) by {
        if c@ == seq!['.'] {
            assert(c@.len() == 1);
            assert(c@[0] == '.');
        }
        if dot {
            assert(c@ =~= seq!['.']);
        }
    }
    !dot && !is_dot_dot(c)
}

/// `parts` appended onto `stack` (see `apply_parts`).
fn apply_parts_exec(stack: Vec<Vec<char>>, parts: Vec<Vec<char>>, Ghost(s0): Ghost<Seq<Seq<char>>>, Ghost(ps): Ghost<Seq<Seq<char>>>) -> (res: Vec<Vec<char>>)
    requires
        stack@.len() == s0.len(),
        forall|i: int| 0 <= i < stack@.len() ==> #[trigger] stack@[i]@ == s0[i],
        parts@.len() == ps.len(),
        forall|i: int| 0 <= i < parts@.len() ==> #[trigger] parts@[i]@ == ps[i],
    ensures
        res@.len() == apply_parts(s0, ps).len(),
        forall|i: int| 0 <= i < res@.len() ==> #[trigger] res@[i]@ == apply_parts(s0, ps)[i],
{
    let mut st = stack;
    let ghost mut g = s0;
    let mut i: usize = 0;
    assert(ps.skip(0) =~= ps);
    while i < parts.len()
        invariant
            i <= parts@.len(),
            parts@.len() == ps.len(),
            forall|j: int| 0 <= j < parts@.len() ==> #[trigger] parts@[j]@ == ps[j],
            st@.len() == g.len(),
            forall|j: int| 0 <= j < st@.len() ==> #[trigger] st@[j]@ == g[j],
            apply_parts(s0, ps) == apply_parts(g, ps.skip(i as int)),
        decreases parts@.len() - i,
    {
        assert(ps.skip(i as int)[0] == ps[i as int]);
        assert(ps.skip(i as int).drop_first() =~= ps.skip(i + 1));
        let c = &parts[i];
        let ghost gc = ps[i as int];
        let ghost before = g;
        assert(c@ == gc);
        if is_dot_dot(c) {
            if st.len() > 0 && is_normal_exec(&st[st.len() - 1]) {
                st.pop();
                proof {
                    g = g.drop_last();
                }
            }
        } else {
            st.push(c.clone());
            proof {
                g = g.push(gc);
            }
        }
        assert(g =~= push_part(before, gc));
        i = i + 1;
    }
    assert(ps.skip(parts@.len() as int) =~= Seq::<Seq<char>>::empty());
    st
}

/// Appends each of `st`'s components preceded by `\`.
fn push_backslash_each(out: &mut String, st: &Vec<Vec<char>>, Ghost(gs): Ghost<Seq<Seq<char>>>)
    requires
        st@.len() == gs.len(),
        forall|i: int| 0 <= i < st@.len() ==> #[trigger] st@[i]@ == gs[i],
    ensures
        final(out)@ == old(out)@ + backslash_each(gs),
{
    let ghost start = out@;
    let mut i: usize = 0;
    assert(gs.take(0) =~= Seq::<Seq<char>>::empty());
    assert(out@ =~= start + backslash_each(gs.take(0)));
    while i < st.len()
        invariant
            i <= st@.len(),
            st@.len() == gs.len(),
            forall|j: int| 0 <= j < st@.len() ==> #[trigger] st@[j]@ == gs[j],
            out@ == start + backslash_each(gs.take(i as int)),
        decreases st@.len() - i,
    {
        let ghost mid = out@;
        push_char(out, '\\');
        let c = &st[i];
        assert(c@ == gs[i as int]);
        let mut k: usize = 0;
        while k < c.len()
            invariant
                k <= c@.len(),
                out@ == mid + seq!['\\'] + c@.take(k as int),
            decreases c@.len() - k,
        {
            push_char(out, c[k]);
            assert(c@.take(k + 1) =~= c@.take(k as int).push(c@[k as int]));
            k = k + 1;
        }
        assert(c@.take(c@.len() as int) =~= c@);
        assert(gs.take(i + 1).drop_last() =~= gs.take(i as int));
        assert(gs.take(i + 1).last() == gs[i as int]);
        assert(out@ =~= start + backslash_each(gs.take(i + 1)));
        i = i + 1;
    }
    assert(gs.take(st@.len() as int) =~= gs);
}

/// `base` joined with `part` (see `path_join`), the Windows way when
/// `windows`.
pub fn join(base: &str, part: &str, windows: bool) -> (res: String)
    ensures
        res@ == path_join(base@, part@, windows),
{
    let b = chars_of(base);
    let p = chars_of(part);
    assert(b@.subrange(0, b@.len() as int) =~= b@);
    assert(p@.subrange(0, p@.len() as int) =~= p@);
    if !windows {
        if p.len() > 0 && p[0] == '/' {
            return string_of_range(&p, 0, p.len());
        }
        let mut res = string_of_range(&b, 0, b.len());
        if b.len() > 0 && b[b.len() - 1] != '/' {
            push_char(&mut res, '/');
        }
        push_str(&mut res, part);
        return res;
    }
    let (bl, verbatim, drive) = windows_prefix_exec(&b);
    let (pl, _, _) = windows_prefix_exec(&p);
    proof {
        lemma_windows_prefix(b@);
        lemma_windows_prefix(p@);
    }
    if pl > 0 {
        return string_of_range(&p, 0, p.len());
    }
    let rooted = p.len() > 0 && (p[0] == '/' || p[0] == '\\');
    if verbatim && p.len() > 0 {
        let ghost start_g = if rooted { Seq::<Seq<char>>::empty() } else { split_parts(b@.skip(bl as int), true, false, false) };
        let start = if rooted { Vec::new() } else { split_parts_exec(&b, bl, true, false, false) };
        let has_root = rooted || (bl < b.len() && b[bl] == '\\');
        let parts = split_parts_exec(&p, 0, true, true, true);
        assert(p@.skip(0) =~= p@);
        let ghost ps = split_parts(p@, true, true, true);
        let st = apply_parts_exec(start, parts, Ghost(start_g), Ghost(ps));
        let ghost gst = apply_parts(start_g, ps);
        let mut res = string_of_range(&b, 0, bl);
        assert(b@.subrange(0, bl as int) =~= b@.take(bl as int));
        if st.len() == 0 && has_root {
            push_char(&mut res, '\\');
        }
        assert(res@ =~= b@.take(bl as int) + (if gst.len() == 0 && has_root { seq!['\\'] } else { Seq::<char>::empty() }));
        push_backslash_each(&mut res, &st, Ghost(gst));
        return res;
    }
    if rooted {
        let mut res = string_of_range(&b, 0, bl);
        assert(b@.subrange(0, bl as int) =~= b@.take(bl as int));
        push_str(&mut res, part);
        return res;
    }
    let mut res = string_of_range(&b, 0, b.len());
    if b.len() > 0 && b[b.len() - 1] != '/' && b[b.len() - 1] != '\\' && !(drive && b.len() == 2) {
        push_char(&mut res, '\\');
    }
    push_str(&mut res, part);
    res
}

} // verus!
