//! Output styling shared by every `*v` command-line tool: ANSI colors,
//! plural endings, humanized sizes and durations, and shell quoting.

use vstd::prelude::*;
use crate::text::{
    chars_of, decimal, decimal2, digit_char, digit_to_char, push_char, push_decimal,
    push_decimal2, push_str,
};

verus! {

// ─── ANSI styling ───────────────────────────────────────────────────

/// `s` wrapped in the ANSI SGR sequence `ESC [ code m` and a reset `ESC [ 0 m`.
pub open spec fn styled(code: Seq<char>, s: Seq<char>) -> Seq<char> {
    seq!['\x1b', '['] + code + seq!['m'] + s + seq!['\x1b', '[', '0', 'm']
}

fn style(code: &str, s: &str) -> (res: String)
    ensures
        res@ == styled(code@, s@),
{
    let mut res = String::new();
    push_char(&mut res, '\x1b');
    push_char(&mut res, '[');
    push_str(&mut res, code);
    push_char(&mut res, 'm');
    push_str(&mut res, s);
    push_char(&mut res, '\x1b');
    push_char(&mut res, '[');
    push_char(&mut res, '0');
    push_char(&mut res, 'm');
    assert(res@ =~= styled(code@, s@));
    res
}

/// A green check mark, reset afterwards.
pub fn success_mark() -> (res: &'static str)
    ensures
        res@ == styled(seq!['3', '2'], seq!['\u{2713}']),
{
    proof {
        reveal_strlit("\x1b[32m\u{2713}\x1b[0m");
    }
    let res = "\x1b[32m\u{2713}\x1b[0m";
    assert(res@ =~= styled(seq!['3', '2'], seq!['\u{2713}']));
    res
}

/// `s` in dim (faint) intensity.
pub fn dim(s: &str) -> (res: String)
    ensures
        res@ == styled(seq!['2'], s@),
{
    proof {
        reveal_strlit("2");
    }
    style("2", s)
}

/// `s` in green.
pub fn green(s: &str) -> (res: String)
    ensures
        res@ == styled(seq!['3', '2'], s@),
{
    proof {
        reveal_strlit("32");
    }
    style("32", s)
}

/// `s` in yellow.
pub fn yellow(s: &str) -> (res: String)
    ensures
        res@ == styled(seq!['3', '3'], s@),
{
    proof {
        reveal_strlit("33");
    }
    style("33", s)
}

/// `s` in cyan.
pub fn cyan(s: &str) -> (res: String)
    ensures
        res@ == styled(seq!['3', '6'], s@),
{
    proof {
        reveal_strlit("36");
    }
    style("36", s)
}

/// `s` in bold.
pub fn bold(s: &str) -> (res: String)
    ensures
        res@ == styled(seq!['1'], s@),
{
    proof {
        reveal_strlit("1");
    }
    style("1", s)
}

/// The plural ending for a count of `n`: empty for exactly one, `s` otherwise.
pub fn plural(n: usize) -> (res: &'static str)
    ensures
        n == 1 ==> res@ == Seq::<char>::empty(),
        n != 1 ==> res@ == seq!['s'],
{
    proof {
        reveal_strlit("");
        reveal_strlit("s");
    }
    if n == 1 { "" } else { "s" }
}

// ─── Shell quoting ──────────────────────────────────────────────────

/// What one character of the argument becomes inside a POSIX single-quoted
/// word: a single quote closes the quotes, is written escaped, and reopens them.
pub open spec fn sh_piece(c: char) -> Seq<char> {
    if c == '\'' { seq!['\'', '\\', '\'', '\''] } else { seq![c] }
}

/// The body of the POSIX quoting of `s`, piece by piece.
pub open spec fn sh_escape(s: Seq<char>) -> Seq<char>
    decreases s.len(),
{
    if s.len() == 0 { Seq::empty() } else { sh_escape(s.drop_last()) + sh_piece(s.last()) }
}

/// What one character of the argument becomes inside a PowerShell
/// single-quoted string: a single quote is doubled.
pub open spec fn ps_piece(c: char) -> Seq<char> {
    if c == '\'' { seq!['\'', '\''] } else { seq![c] }
}

/// The body of the PowerShell quoting of `s`, piece by piece.
pub open spec fn ps_escape(s: Seq<char>) -> Seq<char>
    decreases s.len(),
{
    if s.len() == 0 { Seq::empty() } else { ps_escape(s.drop_last()) + ps_piece(s.last()) }
}

/// `s` quoted for a POSIX shell: wrapped in single quotes, each embedded
/// single quote written as `'\''`.
pub fn quote_sh(s: &str) -> (res: String)
    ensures
        res@ == seq!['\''] + sh_escape(s@) + seq!['\''],
{
    let cs = chars_of(s);
    let mut res = String::new();
    push_char(&mut res, '\'');
    let mut i: usize = 0;
    while i < cs.len()
        invariant
            cs@ == s@,
            i <= cs@.len(),
            res@ == seq!['\''] + sh_escape(cs@.take(i as int)),
        decreases cs@.len() - i,
    {
        let c = cs[i];
        if c == '\'' {
            push_char(&mut res, '\'');
            push_char(&mut res, '\\');
            push_char(&mut res, '\'');
            push_char(&mut res, '\'');
        } else {
            push_char(&mut res, c);
        }
        proof {
            assert(cs@.take(i + 1).drop_last() =~= cs@.take(i as int));
            assert(res@ =~= seq!['\''] + sh_escape(cs@.take(i + 1)));
        }
        i = i + 1;
    }
    push_char(&mut res, '\'');
    assert(cs@.take(cs@.len() as int) =~= cs@);
    res
}

/// `s` quoted for PowerShell: wrapped in single quotes, each embedded
/// single quote doubled.
pub fn quote_ps(s: &str) -> (res: String)
    ensures
        res@ == seq!['\''] + ps_escape(s@) + seq!['\''],
{
    let cs = chars_of(s);
    let mut res = String::new();
    push_char(&mut res, '\'');
    let mut i: usize = 0;
    while i < cs.len()
        invariant
            cs@ == s@,
            i <= cs@.len(),
            res@ == seq!['\''] + ps_escape(cs@.take(i as int)),
        decreases cs@.len() - i,
    {
        let c = cs[i];
        if c == '\'' {
            push_char(&mut res, '\'');
            push_char(&mut res, '\'');
        } else {
            push_char(&mut res, c);
        }
        proof {
            assert(cs@.take(i + 1).drop_last() =~= cs@.take(i as int));
            assert(res@ =~= seq!['\''] + ps_escape(cs@.take(i + 1)));
        }
        i = i + 1;
    }
    push_char(&mut res, '\'');
    assert(cs@.take(cs@.len() as int) =~= cs@);
    res
}

/// How a POSIX shell reads a word built from single-quoted runs and
/// backslash-escaped characters: the characters it stands for, or `None`
/// when the word holds anything else or leaves a quote open.
pub open spec fn sh_read(w: Seq<char>, quoted: bool) -> Option<Seq<char>>
    decreases w.len(),
{
    if w.len() == 0 {
        if quoted { None } else { Some(Seq::empty()) }
    } else if quoted {
        if w[0] == '\'' {
            sh_read(w.drop_first(), false)
        } else {
            match sh_read(w.drop_first(), true) {
                Some(r) => Some(seq![w[0]] + r),
                None => None,
            }
        }
    } else if w[0] == '\'' {
        sh_read(w.drop_first(), true)
    } else if w[0] == '\\' && w.len() >= 2 {
        match sh_read(w.subrange(2, w.len() as int), false) {
            Some(r) => Some(seq![w[1]] + r),
            None => None,
        }
    } else {
        None
    }
}

/// The characters PowerShell takes for a single quote: the ASCII one and the
/// typographic quotes U+2018 to U+201B.
pub open spec fn is_ps_quote(c: char) -> bool {
    c == '\'' || c == '\u{2018}' || c == '\u{2019}' || c == '\u{201A}' || c == '\u{201B}'
}

/// How PowerShell reads the rest of a single-quoted string after its opening
/// quote, when the string is the whole word: two quote characters in a row
/// stand for the second of them, a lone one closes the string.
pub open spec fn ps_read_body(w: Seq<char>) -> Option<Seq<char>>
    decreases w.len(),
{
    if w.len() == 0 {
        None
    } else if is_ps_quote(w[0]) {
        if w.len() >= 2 && is_ps_quote(w[1]) {
            match ps_read_body(w.subrange(2, w.len() as int)) {
                Some(r) => Some(seq![w[1]] + r),
                None => None,
            }
        } else if w.len() == 1 {
            Some(Seq::empty())
        } else {
            None
        }
    } else {
        match ps_read_body(w.drop_first()) {
            Some(r) => Some(seq![w[0]] + r),
            None => None,
        }
    }
}

/// How PowerShell reads a word that is one single-quoted string.
pub open spec fn ps_read(w: Seq<char>) -> Option<Seq<char>> {
    if w.len() > 0 && is_ps_quote(w[0]) { ps_read_body(w.drop_first()) } else { None }
}

proof fn lemma_sh_escape_concat(a: Seq<char>, b: Seq<char>)
    ensures
        sh_escape(a + b) == sh_escape(a) + sh_escape(b),
    decreases b.len(),
{
    if b.len() == 0 {
        assert(a + b =~= a);
        assert(sh_escape(a) + sh_escape(b) =~= sh_escape(a));
    } else {
        lemma_sh_escape_concat(a, b.drop_last());
        assert((a + b).drop_last() =~= a + b.drop_last());
        assert(sh_escape(a + b) =~= sh_escape(a) + sh_escape(b));
    }
}

proof fn lemma_ps_escape_concat(a: Seq<char>, b: Seq<char>)
    ensures
        ps_escape(a + b) == ps_escape(a) + ps_escape(b),
    decreases b.len(),
{
    if b.len() == 0 {
        assert(a + b =~= a);
        assert(ps_escape(a) + ps_escape(b) =~= ps_escape(a));
    } else {
        lemma_ps_escape_concat(a, b.drop_last());
        assert((a + b).drop_last() =~= a + b.drop_last());
        assert(ps_escape(a + b) =~= ps_escape(a) + ps_escape(b));
    }
}

proof fn lemma_sh_escape_front(s: Seq<char>)
    requires
        s.len() > 0,
    ensures
        sh_escape(s) == sh_piece(s[0]) + sh_escape(s.drop_first()),
{
    lemma_sh_escape_concat(seq![s[0]], s.drop_first());
    assert(seq![s[0]] + s.drop_first() =~= s);
    let e = seq![s[0]];
    assert(e.drop_last() =~= Seq::<char>::empty());
    assert(sh_escape(e.drop_last()) == Seq::<char>::empty());
    assert(e.last() == s[0]);
    assert(sh_escape(e) =~= sh_piece(s[0]));
}

proof fn lemma_ps_escape_front(s: Seq<char>)
    requires
        s.len() > 0,
    ensures
        ps_escape(s) == ps_piece(s[0]) + ps_escape(s.drop_first()),
{
    lemma_ps_escape_concat(seq![s[0]], s.drop_first());
    assert(seq![s[0]] + s.drop_first() =~= s);
    let e = seq![s[0]];
    assert(e.drop_last() =~= Seq::<char>::empty());
    assert(ps_escape(e.drop_last()) == Seq::<char>::empty());
    assert(e.last() == s[0]);
    assert(ps_escape(e) =~= ps_piece(s[0]));
}

proof fn lemma_sh_read_quoted_body(s: Seq<char>)
    ensures
        sh_read(sh_escape(s) + seq!['\''], true) == Some(s),
    decreases s.len(),
{
    let w = sh_escape(s) + seq!['\''];
    if s.len() == 0 {
        assert(w =~= seq!['\'']);
        assert(w.drop_first() =~= Seq::<char>::empty());
        assert(sh_read(w.drop_first(), false) == Some(Seq::<char>::empty()));
        assert(s =~= Seq::<char>::empty());
    } else {
        lemma_sh_escape_front(s);
        let t = s.drop_first();
        let wt = sh_escape(t) + seq!['\''];
        lemma_sh_read_quoted_body(t);
        if s[0] == '\'' {
            // '\''  closes the quotes, escapes a quote, reopens them
            assert(w =~= seq!['\'', '\\', '\'', '\''] + wt);
            let w1 = w.drop_first();
            assert(w1 =~= seq!['\\', '\'', '\''] + wt);
            let w2 = w1.subrange(2, w1.len() as int);
            assert(w2 =~= seq!['\''] + wt);
            assert(w2.drop_first() =~= wt);
            assert(sh_read(w2, false) == Some(t));
            assert(sh_read(w1, false) == Some(seq![w1[1]] + t));
            assert(seq![w1[1]] + t =~= s);
            assert(sh_read(w, true) == sh_read(w1, false));
        } else {
            assert(w =~= seq![s[0]] + wt);
            assert(w.drop_first() =~= wt);
            assert(seq![s[0]] + t =~= s);
            assert(sh_read(w, true) == Some(seq![w[0]] + t));
        }
    }
}

/// A POSIX shell reads the quoting of `s` back as exactly `s`, as one word.
pub proof fn lemma_quote_sh_reads_back(s: Seq<char>)
    ensures
        sh_read(seq!['\''] + sh_escape(s) + seq!['\''], false) == Some(s),
{
    let w = seq!['\''] + sh_escape(s) + seq!['\''];
    assert(w.drop_first() =~= sh_escape(s) + seq!['\'']);
    lemma_sh_read_quoted_body(s);
}

proof fn lemma_ps_read_body(s: Seq<char>)
    requires
        forall|i: int| 0 <= i < s.len() ==> !is_ps_quote(s[i]) || s[i] == '\'',
    ensures
        ps_read_body(ps_escape(s) + seq!['\'']) == Some(s),
    decreases s.len(),
{
    let w = ps_escape(s) + seq!['\''];
    if s.len() == 0 {
        assert(w =~= seq!['\'']);
        assert(s =~= Seq::<char>::empty());
    } else {
        lemma_ps_escape_front(s);
        let t = s.drop_first();
        let wt = ps_escape(t) + seq!['\''];
        assert forall|i: int| 0 <= i < t.len() implies !is_ps_quote(t[i]) || t[i] == '\'' by {
            assert(t[i] == s[i + 1]);
        }
        lemma_ps_read_body(t);
        if s[0] == '\'' {
            assert(w =~= seq!['\'', '\''] + wt);
            assert(w.subrange(2, w.len() as int) =~= wt);
            assert(seq![w[1]] + t =~= s);
        } else {
            assert(!is_ps_quote(s[0]));
            assert(w =~= seq![s[0]] + wt);
            assert(w.drop_first() =~= wt);
            assert(seq![s[0]] + t =~= s);
        }
    }
}

/// PowerShell reads the quoting of `s` back as exactly `s`, provided `s` holds
/// none of the typographic single quotes that PowerShell also takes as quotes.
pub proof fn lemma_quote_ps_reads_back(s: Seq<char>)
    requires
        forall|i: int| 0 <= i < s.len() ==> !is_ps_quote(s[i]) || s[i] == '\'',
    ensures
        ps_read(seq!['\''] + ps_escape(s) + seq!['\'']) == Some(s),
{
    let w = seq!['\''] + ps_escape(s) + seq!['\''];
    assert(w.drop_first() =~= ps_escape(s) + seq!['\'']);
    lemma_ps_read_body(s);
}

// ─── Humanized durations and sizes ──────────────────────────────────

/// `n / d` rounded to the nearest integer, ties to the even neighbour: the
/// rounding of IEEE 754 binary64 arithmetic and of std's fixed-precision
/// float formatting.
pub open spec fn round_half_even(n: nat, d: nat) -> nat
    recommends
        d > 0,
{
    let q = n / d;
    let r = n % d;
    if 2 * r > d || (2 * r == d && q % 2 == 1) { q + 1 } else { q }
}

fn round_half_even_exec(n: u128, d: u128) -> (res: u128)
    requires
        0 < d < 0x1_0000_0000_0000_0000_0000,
        n < 0x1_0000_0000_0000_0000_0000,
    ensures
        res == round_half_even(n as nat, d as nat),
{
    let q = n / d;
    let r = n % d;
    if 2 * r > d || (2 * r == d && q % 2 == 1) { q + 1 } else { q }
}

/// For `1000 <= ms < 64000`: `2^(52 - e)`, where `2^e <= ms / 1000 < 2^(e + 1)`,
/// so that the binary64 value nearest to `ms / 1000` is a whole number of
/// `1 / seconds_scale(ms)`.
pub open spec fn seconds_scale(ms: nat) -> nat {
    if ms < 2000 { 0x10_0000_0000_0000 }
    else if ms < 4000 { 0x8_0000_0000_0000 }
    else if ms < 8000 { 0x4_0000_0000_0000 }
    else if ms < 16000 { 0x2_0000_0000_0000 }
    else if ms < 32000 { 0x1_0000_0000_0000 }
    else { 0x8000_0000_0000 }
}

/// The hundredths of a second shown for `ms` milliseconds: the binary64
/// quotient `ms / 1000.0` printed with two decimals.
pub open spec fn shown_centiseconds(ms: nat) -> nat {
    let scale = seconds_scale(ms);
    round_half_even(round_half_even(ms * scale, 1000) * 100, scale)
}

/// The text for a duration of `ms` milliseconds: `<ms>ms` below a second,
/// `<s>.<cc>s` below a minute, `<m>m<ss>s` from a minute on.
pub open spec fn duration_text(ms: nat) -> Seq<char> {
    if ms < 1000 {
        decimal(ms) + seq!['m', 's']
    } else if ms < 60000 {
        let c = shown_centiseconds(ms);
        decimal(c / 100) + seq!['.'] + decimal2(c % 100) + seq!['s']
    } else {
        let secs = ms / 1000;
        decimal(secs / 60) + seq!['m'] + decimal2(secs % 60) + seq!['s']
    }
}

fn seconds_scale_exec(ms: u128) -> (res: u128)
    requires
        1000 <= ms < 60000,
    ensures
        res == seconds_scale(ms as nat),
        0x8000_0000_0000 <= res <= 0x10_0000_0000_0000,
{
    if ms < 2000 { 0x10_0000_0000_0000 }
    else if ms < 4000 { 0x8_0000_0000_0000 }
    else if ms < 8000 { 0x4_0000_0000_0000 }
    else if ms < 16000 { 0x2_0000_0000_0000 }
    else if ms < 32000 { 0x1_0000_0000_0000 }
    else { 0x8000_0000_0000 }
}

/// A duration in milliseconds as short human-readable text.
pub fn format_duration_ms(ms: u128) -> (res: String)
    ensures
        res@ == duration_text(ms as nat),
{
    let mut res = String::new();
    if ms < 1000 {
        push_decimal(&mut res, ms);
        push_char(&mut res, 'm');
        push_char(&mut res, 's');
    } else if ms < 60000 {
        let scale = seconds_scale_exec(ms);
        assert(ms * scale < 0x1_0000_0000_0000_0000_0000) by (nonlinear_arith)
            requires
                ms < 60000,
                scale <= 0x10_0000_0000_0000,
        ;
        let q = round_half_even_exec(ms * scale, 1000);
        assert(q <= ms * scale / 1000 + 1);
        assert(q * 100 < 0x1_0000_0000_0000_0000_0000) by (nonlinear_arith)
            requires
                q <= ms * scale / 1000 + 1,
                ms < 60000,
                scale <= 0x10_0000_0000_0000,
        ;
        let c = round_half_even_exec(q * 100, scale);
        push_decimal(&mut res, c / 100);
        push_char(&mut res, '.');
        push_decimal2(&mut res, c % 100);
        push_char(&mut res, 's');
    } else {
        let secs = ms / 1000;
        push_decimal(&mut res, secs / 60);
        push_char(&mut res, 'm');
        push_decimal2(&mut res, secs % 60);
        push_char(&mut res, 's');
    }
    assert(res@ =~= duration_text(ms as nat));
    res
}

/// `1024^i`, for the unit indices `0..=5`.
pub open spec fn unit_size(i: nat) -> nat {
    if i == 0 { 1 }
    else if i == 1 { 0x400 }
    else if i == 2 { 0x10_0000 }
    else if i == 3 { 0x4000_0000 }
    else if i == 4 { 0x100_0000_0000 }
    else { 0x4_0000_0000_0000 }
}

/// The largest unit, up to PiB, that is no larger than `bytes`.
pub open spec fn unit_index(bytes: nat) -> nat {
    if bytes < unit_size(1) { 0 }
    else if bytes < unit_size(2) { 1 }
    else if bytes < unit_size(3) { 2 }
    else if bytes < unit_size(4) { 3 }
    else if bytes < unit_size(5) { 4 }
    else { 5 }
}

/// The name of the unit `1024^i`.
pub open spec fn unit_name(i: nat) -> Seq<char> {
    if i == 0 { seq!['B'] }
    else if i == 1 { seq!['K', 'i', 'B'] }
    else if i == 2 { seq!['M', 'i', 'B'] }
    else if i == 3 { seq!['G', 'i', 'B'] }
    else if i == 4 { seq!['T', 'i', 'B'] }
    else { seq!['P', 'i', 'B'] }
}

/// The gap between neighbouring binary64 values around `n < 2^64`: one below
/// `2^53`, doubling with each binade above.
pub open spec fn binary64_gap(n: nat) -> nat {
    if n < 0x20_0000_0000_0000 { 1 }
    else if n < 0x40_0000_0000_0000 { 2 }
    else if n < 0x80_0000_0000_0000 { 4 }
    else if n < 0x100_0000_0000_0000 { 8 }
    else if n < 0x200_0000_0000_0000 { 16 }
    else if n < 0x400_0000_0000_0000 { 32 }
    else if n < 0x800_0000_0000_0000 { 64 }
    else if n < 0x1000_0000_0000_0000 { 128 }
    else if n < 0x2000_0000_0000_0000 { 256 }
    else if n < 0x4000_0000_0000_0000 { 512 }
    else if n < 0x8000_0000_0000_0000 { 1024 }
    else { 2048 }
}

/// `n` converted to binary64: the nearest representable value, ties to even.
pub open spec fn as_binary64(n: nat) -> nat {
    round_half_even(n, binary64_gap(n)) * binary64_gap(n)
}

/// The text for a size of `bytes`: the size in the largest binary unit up to
/// PiB that it reaches, without decimals from 100 on or in bytes, with one
/// decimal otherwise.
pub open spec fn size_text(bytes: nat) -> Seq<char> {
    if bytes == 0 {
        seq!['0', ' ', 'B']
    } else {
        let i = unit_index(bytes);
        let d = unit_size(i);
        let v = as_binary64(bytes);
        let number = if v >= 100 * d || i == 0 {
            decimal(round_half_even(v, d))
        } else {
            let t = round_half_even(10 * v, d);
            decimal(t / 10) + seq!['.', digit_char(t % 10)]
        };
        number + seq![' '] + unit_name(i)
    }
}

fn binary64_gap_exec(n: u64) -> (res: u128)
    ensures
        res == binary64_gap(n as nat),
        1 <= res <= 2048,
{
    if n < 0x20_0000_0000_0000 { 1 }
    else if n < 0x40_0000_0000_0000 { 2 }
    else if n < 0x80_0000_0000_0000 { 4 }
    else if n < 0x100_0000_0000_0000 { 8 }
    else if n < 0x200_0000_0000_0000 { 16 }
    else if n < 0x400_0000_0000_0000 { 32 }
    else if n < 0x800_0000_0000_0000 { 64 }
    else if n < 0x1000_0000_0000_0000 { 128 }
    else if n < 0x2000_0000_0000_0000 { 256 }
    else if n < 0x4000_0000_0000_0000 { 512 }
    else if n < 0x8000_0000_0000_0000 { 1024 }
    else { 2048 }
}

fn unit_exec(bytes: u64) -> (res: (usize, u128))
    ensures
        res.0 == unit_index(bytes as nat),
        res.1 == unit_size(res.0 as nat),
        res.0 <= 5,
{
    if bytes < 0x400 { (0, 1) }
    else if bytes < 0x10_0000 { (1, 0x400) }
    else if bytes < 0x4000_0000 { (2, 0x10_0000) }
    else if bytes < 0x100_0000_0000 { (3, 0x4000_0000) }
    else if bytes < 0x4_0000_0000_0000 { (4, 0x100_0000_0000) }
    else { (5, 0x4_0000_0000_0000) }
}

fn push_unit_name(s: &mut String, i: usize)
    requires
        i <= 5,
    ensures
        final(s)@ == old(s)@ + unit_name(i as nat),
{
    if i == 0 {
        push_char(s, 'B');
    } else {
        if i == 1 {
            push_char(s, 'K');
        } else if i == 2 {
            push_char(s, 'M');
        } else if i == 3 {
            push_char(s, 'G');
        } else if i == 4 {
            push_char(s, 'T');
        } else {
            push_char(s, 'P');
        }
        push_char(s, 'i');
        push_char(s, 'B');
    }
    assert(final(s)@ =~= old(s)@ + unit_name(i as nat));
}

/// A size in bytes as short human-readable text in binary units.
pub fn humanize_bytes(bytes: u64) -> (res: String)
    ensures
        res@ == size_text(bytes as nat),
{
    let mut res = String::new();
    if bytes == 0 {
        push_char(&mut res, '0');
        push_char(&mut res, ' ');
        push_char(&mut res, 'B');
        assert(res@ =~= size_text(0));
        return res;
    }
    let (i, d) = unit_exec(bytes);
    let gap = binary64_gap_exec(bytes);
    let r = round_half_even_exec(bytes as u128, gap);
    assert(r * gap <= 0x1_0000_0000_0000_0800) by (nonlinear_arith)
        requires
            r <= bytes as nat / gap as nat + 1,
            1 <= gap <= 2048,
            bytes < 0x1_0000_0000_0000_0000,
    ;
    let v = r * gap;
    if v >= 100 * d || i == 0 {
        let n = round_half_even_exec(v, d);
        push_decimal(&mut res, n);
    } else {
        let t = round_half_even_exec(10 * v, d);
        push_decimal(&mut res, t / 10);
        push_char(&mut res, '.');
        push_char(&mut res, digit_to_char(t % 10));
    }
    push_char(&mut res, ' ');
    push_unit_name(&mut res, i);
    assert(res@ =~= size_text(bytes as nat));
    res
}

/// Sizes below one KiB are shown exactly, in bytes.
pub proof fn lemma_small_sizes_exact(bytes: nat)
    requires
        0 < bytes < 1024,
    ensures
        size_text(bytes) == decimal(bytes) + seq![' ', 'B'],
{
    assert(round_half_even(bytes, 1) == bytes);
    assert(size_text(bytes) =~= decimal(bytes) + seq![' ', 'B']);
}

/// A whole number of seconds below a minute is shown exactly, with two zero
/// decimals.
pub proof fn lemma_whole_seconds_exact(k: nat)
    requires
        1 <= k < 60,
    ensures
        duration_text(1000 * k) == decimal(k) + seq!['.', '0', '0', 's'],
{
    let ms = 1000 * k;
    let scale = seconds_scale(ms);
    assert(scale > 0);
    assert((ms * scale) / 1000 == k * scale && (ms * scale) % 1000 == 0) by (nonlinear_arith)
        requires
            ms == 1000 * k,
            scale > 0,
    {
        assert(ms * scale == (k * scale) * 1000);
    }
    assert(round_half_even(ms * scale, 1000) == k * scale);
    assert((k * scale * 100) / scale == 100 * k && (k * scale * 100) % scale == 0) by (nonlinear_arith)
        requires
            scale > 0,
    {
        assert(k * scale * 100 == (100 * k) * scale);
    }
    assert(shown_centiseconds(ms) == 100 * k);
    assert((100 * k) / 100 == k && (100 * k) % 100 == 0) by (nonlinear_arith);
    assert(duration_text(ms) =~= decimal(k) + seq!['.', '0', '0', 's']);
}

/// From one minute on, the text is the whole minutes and the seconds left
/// over, the seconds always as two digits: `m` minutes and `s` seconds with
/// `60 * m + s` the whole seconds of `ms` and `s < 60`.
pub proof fn lemma_minutes_text(ms: nat)
    requires
        ms >= 60000,
    ensures
        duration_text(ms) == decimal(ms / 60000) + seq!['m'] + decimal2((ms / 1000) % 60) + seq!['s'],
        60 * (ms / 60000) + (ms / 1000) % 60 == ms / 1000,
        (ms / 1000) % 60 < 60,
{
    vstd::arithmetic::div_mod::lemma_div_denominator(ms as int, 1000, 60);
    assert(ms / 1000 / 60 == ms / 60000);
}

/// Below one second the text is the milliseconds themselves.
pub proof fn lemma_millis_text(ms: nat)
    requires
        ms < 1000,
    ensures
        duration_text(ms) == decimal(ms) + seq!['m', 's'],
{
}

} // verus!
