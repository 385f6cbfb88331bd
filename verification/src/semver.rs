//! Version comparison for self-update: `major.minor.patch`, each part read
//! up to its first `-`, missing or unreadable parts counting as zero.

use vstd::prelude::*;
use crate::text::{chars_of, decimal, digit_char, digit_value};

verus! {

/// The index of the first `c` in `s`, or `s.len()` when there is none.
pub open spec fn first_index_of(s: Seq<char>, c: char) -> int
    decreases s.len(),
{
    if s.len() == 0 {
        0
    } else if s[0] == c {
        0
    } else {
        1 + first_index_of(s.drop_first(), c)
    }
}

/// Where `first_index_of` points: at the first `c`, or at the end.
pub proof fn lemma_first_index_of(s: Seq<char>, c: char)
    ensures
        0 <= first_index_of(s, c) <= s.len(),
        first_index_of(s, c) < s.len() ==> s[first_index_of(s, c)] == c,
        forall|k: int| 0 <= k < first_index_of(s, c) ==> s[k] != c,
    decreases s.len(),
{
    if s.len() > 0 && s[0] != c {
        lemma_first_index_of(s.drop_first(), c);
        assert forall|k: int| 0 <= k < first_index_of(s, c) implies s[k] != c by {
            if k > 0 {
                assert(s[k] == s.drop_first()[k - 1]);
            }
        }
    }
}

/// The `k`-th `.`-separated field of `s`, counting from zero, as
/// `str::split('.')` yields them; `None` past the last field.
pub open spec fn dot_field(s: Seq<char>, k: nat) -> Option<Seq<char>>
    decreases k,
{
    let j = first_index_of(s, '.');
    if k == 0 {
        Some(s.take(j))
    } else if j < s.len() {
        dot_field(s.skip(j + 1), (k - 1) as nat)
    } else {
        None
    }
}

/// Whether every character of `d` is a decimal digit.
pub open spec fn all_digits(d: Seq<char>) -> bool {
    forall|i: int| 0 <= i < d.len() ==> digit_value(#[trigger] d[i]) is Some
}

/// The number that the decimal digits `d` spell.
pub open spec fn digits_value(d: Seq<char>) -> nat
    decreases d.len(),
{
    if d.len() == 0 {
        0
    } else {
        digits_value(d.drop_last()) * 10 + match digit_value(d.last()) {
            Some(v) => v,
            None => 0,
        }
    }
}

/// `t` read as a `u64` the way `str::parse::<u64>` reads it: an optional
/// leading `+`, then one or more decimal digits, with a value that fits.
pub open spec fn parse_u64(t: Seq<char>) -> Option<nat> {
    if t.len() == 0 {
        None
    } else {
        let d = if t[0] == '+' { t.drop_first() } else { t };
        if d.len() == 0 || !all_digits(d) || digits_value(d) > u64::MAX {
            None
        } else {
            Some(digits_value(d))
        }
    }
}

/// Part `k` of a version string: the `k`-th dot field up to its first `-`,
/// read as a number; zero when the field is missing or does not read.
pub open spec fn version_part(s: Seq<char>, k: nat) -> nat {
    match dot_field(s, k) {
        Some(f) => match parse_u64(f.take(first_index_of(f, '-'))) {
            Some(v) => v,
            None => 0,
        },
        None => 0,
    }
}

/// The `(major, minor, patch)` key of a version string.
pub open spec fn version_key(s: Seq<char>) -> (nat, nat, nat) {
    (version_part(s, 0), version_part(s, 1), version_part(s, 2))
}

/// Lexicographic order on version keys: `a` comes strictly after `b`.
pub open spec fn key_newer(a: (nat, nat, nat), b: (nat, nat, nat)) -> bool {
    a.0 > b.0 || (a.0 == b.0 && (a.1 > b.1 || (a.1 == b.1 && a.2 > b.2)))
}

proof fn lemma_digits_value_prefix(d: Seq<char>, m: int)
    requires
        0 <= m <= d.len(),
        all_digits(d),
    ensures
        digits_value(d.take(m)) <= digits_value(d),
    decreases d.len(),
{
    if m < d.len() {
        assert(all_digits(d.drop_last())) by {
            assert forall|i: int| 0 <= i < d.drop_last().len() implies digit_value(#[trigger] d.drop_last()[i]) is Some by {
                assert(d.drop_last()[i] == d[i]);
            }
        }
        lemma_digits_value_prefix(d.drop_last(), m);
        assert(d.drop_last().take(m) =~= d.take(m));
    } else {
        assert(d.take(m) =~= d);
    }
}

fn digit_of(c: char) -> (res: Option<u128>)
    ensures
        match res {
            Some(v) => digit_value(c) == Some(v as nat) && v < 10,
            None => digit_value(c) is None,
        },
{
    if c == '0' { Some(0) }
    else if c == '1' { Some(1) }
    else if c == '2' { Some(2) }
    else if c == '3' { Some(3) }
    else if c == '4' { Some(4) }
    else if c == '5' { Some(5) }
    else if c == '6' { Some(6) }
    else if c == '7' { Some(7) }
    else if c == '8' { Some(8) }
    else if c == '9' { Some(9) }
    else { None }
}

/// Reads `v[from..to]` as `parse_u64` does.
fn parse_u64_range(v: &Vec<char>, from: usize, to: usize) -> (res: Option<u64>)
    requires
        from <= to <= v@.len(),
    ensures
        match res {
            Some(x) => parse_u64(v@.subrange(from as int, to as int)) == Some(x as nat),
            None => parse_u64(v@.subrange(from as int, to as int)) is None,
        },
{
    let ghost t = v@.subrange(from as int, to as int);
    if from == to {
        return None;
    }
    let start = if v[from] == '+' { from + 1 } else { from };
    let ghost d = v@.subrange(start as int, to as int);
    assert(d =~= (if t[0] == '+' { t.drop_first() } else { t }));
    if start == to {
        return None;
    }
    let mut acc: u128 = 0;
    let mut i = start;
    while i < to
        invariant
            from <= start <= i <= to <= v@.len(),
            t == v@.subrange(from as int, to as int),
            t.len() > 0,
            d.len() > 0,
            d == (if t[0] == '+' { t.drop_first() } else { t }),
            d == v@.subrange(start as int, to as int),
            acc == digits_value(d.take(i - start)),
            acc <= u64::MAX,
            forall|k: int| 0 <= k < i - start ==> digit_value(#[trigger] d[k]) is Some,
        decreases to - i,
    {
        let ghost before = d.take(i - start);
        match digit_of(v[i]) {
            None => {
                assert(d[i - start] == v@[i as int]);
                assert(!all_digits(d));
                return None;
            },
            Some(dg) => {
                assert(d[i - start] == v@[i as int]);
                assert(d.take(i - start + 1).drop_last() =~= before);
                assert(d.take(i - start + 1).last() == v@[i as int]);
                acc = acc * 10 + dg;
                if acc > 0xffff_ffff_ffff_ffff {
                    proof {
                        if all_digits(d) {
                            lemma_digits_value_prefix(d, i - start + 1);
                        }
                    }
                    return None;
                }
            },
        }
        i = i + 1;
    }
    assert(d.take(to - start) =~= d);
    Some(acc as u64)
}

/// The first index of `c` in `v[from..]`, or `v.len()`.
fn find_first(v: &Vec<char>, from: usize, c: char) -> (res: usize)
    requires
        from <= v@.len(),
    ensures
        res as int == from + first_index_of(v@.skip(from as int), c),
        from <= res <= v@.len(),
{
    let mut i = from;
    proof {
        lemma_first_index_of(v@.skip(from as int), c);
    }
    while i < v.len()
        invariant
            from <= i <= v@.len(),
            first_index_of(v@.skip(from as int), c) == (i - from) + first_index_of(v@.skip(i as int), c),
        decreases v@.len() - i,
    {
        if v[i] == c {
            assert(v@.skip(i as int)[0] == c);
            return i;
        }
        assert(v@.skip(i as int).drop_first() =~= v@.skip(i + 1));
        i = i + 1;
    }
    assert(v@.skip(i as int).len() == 0);
    i
}

/// The bounds of the `k`-th dot field of `v`, if there is one.
fn dot_field_range(v: &Vec<char>, k: usize) -> (res: Option<(usize, usize)>)
    ensures
        match res {
            Some((a, b)) => a <= b <= v@.len() && dot_field(v@, k as nat) == Some(v@.subrange(a as int, b as int)),
            None => dot_field(v@, k as nat) is None,
        },
{
    let mut start: usize = 0;
    let mut i: usize = 0;
    assert(v@.skip(0) =~= v@);
    loop
        invariant
            i <= k,
            start <= v@.len(),
            dot_field(v@, k as nat) == dot_field(v@.skip(start as int), (k - i) as nat),
        decreases k - i,
    {
        let j = find_first(v, start, '.');
        let ghost s = v@.skip(start as int);
        proof {
            lemma_first_index_of(s, '.');
        }
        if i == k {
            assert(s.take(j - start) =~= v@.subrange(start as int, j as int));
            return Some((start, j));
        }
        if j == v.len() {
            return None;
        }
        assert(s.skip(j - start + 1) =~= v@.skip(j + 1));
        start = j + 1;
        i = i + 1;
    }
}

/// Part `k` of the version whose characters are `v` (see `version_part`).
fn version_part_exec(v: &Vec<char>, k: usize) -> (res: u64)
    ensures
        res as nat == version_part(v@, k as nat),
{
    match dot_field_range(v, k) {
        None => 0,
        Some((a, b)) => {
            let ghost f = v@.subrange(a as int, b as int);
            let dash = find_first(v, a, '-');
            let end = if dash < b { dash } else { b };
            proof {
                lemma_first_index_of(f, '-');
                lemma_first_index_of(v@.skip(a as int), '-');
                assert forall|q: int| 0 <= q < f.len() implies f[q] == v@.skip(a as int)[q] by {}
                if dash < b {
                    assert(first_index_of(f, '-') <= dash - a) by {
                        if first_index_of(f, '-') > dash - a {
                            assert(f[dash - a] == v@[dash as int]);
                        }
                    }
                    assert(first_index_of(f, '-') >= dash - a) by {
                        if first_index_of(f, '-') < dash - a {
                            let q = first_index_of(f, '-');
                            assert(v@.skip(a as int)[q] == f[q]);
                        }
                    }
                } else {
                    assert(first_index_of(f, '-') == f.len()) by {
                        if first_index_of(f, '-') < f.len() {
                            let q = first_index_of(f, '-');
                            assert(v@.skip(a as int)[q] == f[q]);
                        }
                    }
                }
                assert(f.take(end - a) =~= v@.subrange(a as int, end as int));
            }
            match parse_u64_range(v, a, end) {
                Some(x) => x,
                None => 0,
            }
        },
    }
}

/// Whether the version `latest` is strictly newer than `current`, comparing
/// `(major, minor, patch)` keys.
pub fn is_semver_newer(latest: &str, current: &str) -> (res: bool)
    ensures
        res == key_newer(version_key(latest@), version_key(current@)),
{
    let a = chars_of(latest);
    let b = chars_of(current);
    let a0 = version_part_exec(&a, 0);
    let a1 = version_part_exec(&a, 1);
    let a2 = version_part_exec(&a, 2);
    let b0 = version_part_exec(&b, 0);
    let b1 = version_part_exec(&b, 1);
    let b2 = version_part_exec(&b, 2);
    a0 > b0 || (a0 == b0 && (a1 > b1 || (a1 == b1 && a2 > b2)))
}

/// No version is newer than itself.
pub proof fn lemma_newer_irreflexive(v: Seq<char>)
    ensures
        !key_newer(version_key(v), version_key(v)),
{
}

/// Of two versions, at most one is newer than the other.
pub proof fn lemma_newer_asymmetric(a: Seq<char>, b: Seq<char>)
    ensures
        key_newer(version_key(a), version_key(b)) ==> !key_newer(version_key(b), version_key(a)),
{
}

/// Newer than a newer version means newer.
pub proof fn lemma_newer_transitive(a: Seq<char>, b: Seq<char>, c: Seq<char>)
    ensures
        key_newer(version_key(a), version_key(b)) && key_newer(version_key(b), version_key(c))
            ==> key_newer(version_key(a), version_key(c)),
{
}

/// Two versions are either ordered one way, or the other, or have the same key.
pub proof fn lemma_newer_total(a: Seq<char>, b: Seq<char>)
    ensures
        key_newer(version_key(a), version_key(b)) || key_newer(version_key(b), version_key(a))
            || version_key(a) == version_key(b),
{
}

proof fn lemma_digit_roundtrip(d: nat)
    requires
        d < 10,
    ensures
        digit_value(digit_char(d)) == Some(d),
{
}

proof fn lemma_digits_value_push(s: Seq<char>, c: char)
    ensures
        digits_value(s.push(c)) == digits_value(s) * 10 + match digit_value(c) {
            Some(v) => v,
            None => 0,
        },
{
    assert(s.push(c).drop_last() =~= s);
}

/// The decimal rendering of `n` is a non-empty run of digits that spells `n`.
proof fn lemma_decimal_digits(n: nat)
    ensures
        decimal(n).len() > 0,
        all_digits(decimal(n)),
        digits_value(decimal(n)) == n,
    decreases n,
{
    if n < 10 {
        lemma_digit_roundtrip(n);
        assert(decimal(n) =~= seq![digit_char(n)]);
        assert(seq![digit_char(n)] =~= Seq::<char>::empty().push(digit_char(n)));
        lemma_digits_value_push(Seq::<char>::empty(), digit_char(n));
    } else {
        lemma_decimal_digits(n / 10);
        lemma_digit_roundtrip(n % 10);
        let d = decimal(n / 10);
        lemma_digits_value_push(d, digit_char(n % 10));
        assert forall|i: int| 0 <= i < decimal(n).len() implies digit_value(#[trigger] decimal(n)[i]) is Some by {
            if i < d.len() {
                assert(decimal(n)[i] == d[i]);
            }
        }
    }
}

proof fn lemma_first_index_of_concat(a: Seq<char>, b: Seq<char>, c: char)
    requires
        forall|i: int| 0 <= i < a.len() ==> a[i] != c,
    ensures
        first_index_of(a + b, c) == a.len() + first_index_of(b, c),
    decreases a.len(),
{
    if a.len() == 0 {
        assert(a + b =~= b);
    } else {
        assert((a + b).drop_first() =~= a.drop_first() + b);
        assert((a + b)[0] == a[0]);
        lemma_first_index_of_concat(a.drop_first(), b, c);
    }
}

proof fn lemma_digits_have_no(d: Seq<char>, c: char)
    requires
        all_digits(d),
        digit_value(c) is None,
    ensures
        forall|i: int| 0 <= i < d.len() ==> d[i] != c,
{
    assert forall|i: int| 0 <= i < d.len() implies d[i] != c by {
        assert(digit_value(d[i]) is Some);
    }
}

/// The key of a field made of the decimal rendering of `n`, possibly followed
/// by `.` and more.
proof fn lemma_decimal_field(n: nat, rest: Seq<char>)
    requires
        n <= u64::MAX,
        rest.len() == 0 || rest[0] == '.',
    ensures
        first_index_of(decimal(n) + rest, '.') == decimal(n).len(),
        parse_u64(decimal(n).take(first_index_of(decimal(n), '-'))) == Some(n),
{
    let d = decimal(n);
    lemma_decimal_digits(n);
    lemma_digits_have_no(d, '.');
    lemma_digits_have_no(d, '-');
    lemma_first_index_of_concat(d, rest, '.');
    assert(first_index_of(rest, '.') == 0);
    lemma_first_index_of_concat(d, Seq::<char>::empty(), '-');
    assert(d + Seq::<char>::empty() =~= d);
    assert(d.take(d.len() as int) =~= d);
    assert(digit_value(d[0]) is Some);
}

/// Each part of the version key is the number its dot field spells: for any
/// numbers `m`, `n`, `p` that fit a `u64`, the key of `m.n.p` written in
/// decimal is `(m, n, p)`.
pub proof fn lemma_version_key_of_decimal(m: nat, n: nat, p: nat)
    requires
        m <= u64::MAX,
        n <= u64::MAX,
        p <= u64::MAX,
    ensures
        version_key(decimal(m) + seq!['.'] + decimal(n) + seq!['.'] + decimal(p)) == (m, n, p),
{
    let dm = decimal(m);
    let dn = decimal(n);
    let dp = decimal(p);
    let s = dm + seq!['.'] + dn + seq!['.'] + dp;
    let s1 = dn + seq!['.'] + dp;
    lemma_decimal_field(m, seq!['.'] + s1);
    assert(s =~= dm + (seq!['.'] + s1));
    assert(s.take(dm.len() as int) =~= dm);
    assert(s.skip(dm.len() as int + 1) =~= s1);
    lemma_decimal_field(n, seq!['.'] + dp);
    assert(s1 =~= dn + (seq!['.'] + dp));
    assert(s1.take(dn.len() as int) =~= dn);
    assert(s1.skip(dn.len() as int + 1) =~= dp);
    lemma_decimal_field(p, Seq::<char>::empty());
    assert(dp + Seq::<char>::empty() =~= dp);
    assert(dp.take(dp.len() as int) =~= dp);
    assert(dot_field(s, 0) == Some(dm));
    assert(dot_field(s1, 0) == Some(dn));
    assert(dot_field(dp, 0) == Some(dp));
    assert(dot_field(s, 1) == dot_field(s1, 0));
    assert(dot_field(s1, 1) == dot_field(dp, 0));
    assert(dot_field(s, 2) == dot_field(s1, 1));
}

/// For versions written `m.n.p` in decimal, "newer" is the lexicographic
/// order of the numbers: `0.10.0` is newer than `0.9.0`.
pub proof fn lemma_newer_by_numbers(a: (nat, nat, nat), b: (nat, nat, nat))
    requires
        a.0 <= u64::MAX && a.1 <= u64::MAX && a.2 <= u64::MAX,
        b.0 <= u64::MAX && b.1 <= u64::MAX && b.2 <= u64::MAX,
    ensures
        key_newer(
            version_key(decimal(a.0) + seq!['.'] + decimal(a.1) + seq!['.'] + decimal(a.2)),
            version_key(decimal(b.0) + seq!['.'] + decimal(b.1) + seq!['.'] + decimal(b.2)),
        ) <==> (a.0 > b.0 || (a.0 == b.0 && a.1 > b.1) || (a.0 == b.0 && a.1 == b.1 && a.2 > b.2)),
{
    lemma_version_key_of_decimal(a.0, a.1, a.2);
    lemma_version_key_of_decimal(b.0, b.1, b.2);
}

} // verus!
