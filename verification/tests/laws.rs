use anyv_core::presentation::{format_duration_ms, humanize_bytes, quote_ps, quote_sh};
use anyv_core::semver::is_semver_newer;

/// Reads a word made of single-quoted runs and backslash escapes, as a POSIX
/// shell does.
fn sh_read(w: &str) -> Option<String> {
    let mut out = String::new();
    let mut quoted = false;
    let mut it = w.chars();
    while let Some(c) = it.next() {
        if quoted {
            if c == '\'' { quoted = false } else { out.push(c) }
        } else if c == '\'' {
            quoted = true;
        } else if c == '\\' {
            out.push(it.next()?);
        } else {
            return None;
        }
    }
    if quoted { None } else { Some(out) }
}

fn is_ps_quote(c: char) -> bool {
    matches!(c, '\'' | '\u{2018}' | '\u{2019}' | '\u{201A}' | '\u{201B}')
}

/// Reads a word that is one PowerShell single-quoted string.
fn ps_read(w: &str) -> Option<String> {
    let cs: Vec<char> = w.chars().collect();
    if cs.is_empty() || !is_ps_quote(cs[0]) {
        return None;
    }
    let mut out = String::new();
    let mut i = 1;
    while i < cs.len() {
        if is_ps_quote(cs[i]) {
            if i + 1 < cs.len() && is_ps_quote(cs[i + 1]) {
                out.push(cs[i + 1]);
                i += 2;
            } else if i + 1 == cs.len() {
                return Some(out);
            } else {
                return None;
            }
        } else {
            out.push(cs[i]);
            i += 1;
        }
    }
    None
}

const SAMPLES: [&str; 8] = ["", "plain", "it's", "'''", "a\\'b", "$(rm -rf /)", "x y\tz\n", "\"q\""];

#[test]
fn quote_sh_reads_back() {
    for s in SAMPLES {
        assert_eq!(sh_read(&quote_sh(s)).as_deref(), Some(s), "{s:?}");
    }
}

#[test]
fn quote_ps_reads_back_without_typographic_quotes() {
    for s in SAMPLES {
        assert_eq!(ps_read(&quote_ps(s)).as_deref(), Some(s), "{s:?}");
    }
    // A typographic quote is taken as a quote by PowerShell but not doubled.
    assert_ne!(ps_read(&quote_ps("\u{2019}")).as_deref(), Some("\u{2019}"));
}

#[test]
fn semver_is_a_strict_order() {
    let vs = ["0.1.0", "0.1.1", "0.2", "1.0.0-rc1", "1.0.0", "1.0.1", "v1.0.0", "10.0.0", ""];
    for a in vs {
        assert!(!is_semver_newer(a, a));
        for b in vs {
            assert!(!(is_semver_newer(a, b) && is_semver_newer(b, a)));
            for c in vs {
                if is_semver_newer(a, b) && is_semver_newer(b, c) {
                    assert!(is_semver_newer(a, c));
                }
            }
        }
    }
}

#[test]
fn small_sizes_and_whole_seconds_are_exact() {
    assert_eq!(humanize_bytes(512), "512 B");
    assert_eq!(humanize_bytes(1023), "1023 B");
    for k in 1..60u128 {
        assert_eq!(format_duration_ms(1000 * k), format!("{k}.00s"));
    }
}
