use anyv_core::presentation::{
    bold, cyan, dim, format_duration_ms, green, humanize_bytes, plural, quote_ps, quote_sh,
    success_mark, yellow,
};

fn float_duration(ms: u128) -> String {
    if ms < 1_000 {
        format!("{ms}ms")
    } else if ms < 60_000 {
        format!("{:.2}s", ms as f64 / 1_000.0)
    } else {
        let s = ms / 1_000;
        format!("{}m{:02}s", s / 60, s % 60)
    }
}

fn float_bytes(bytes: u64) -> String {
    const U: [&str; 6] = ["B", "KiB", "MiB", "GiB", "TiB", "PiB"];
    if bytes == 0 {
        return "0 B".into();
    }
    let mut v = bytes as f64;
    let mut i = 0;
    while v >= 1024.0 && i < U.len() - 1 {
        v /= 1024.0;
        i += 1;
    }
    if v >= 100.0 || i == 0 {
        format!("{:.0} {}", v, U[i])
    } else {
        format!("{:.1} {}", v, U[i])
    }
}

#[test]
fn styles_wrap_and_reset() {
    assert_eq!(dim("x"), "\x1b[2mx\x1b[0m");
    assert_eq!(green("ok"), "\x1b[32mok\x1b[0m");
    assert_eq!(yellow(""), "\x1b[33m\x1b[0m");
    assert_eq!(cyan("go 1.22"), "\x1b[36mgo 1.22\x1b[0m");
    assert_eq!(bold("β"), "\x1b[1mβ\x1b[0m");
    assert_eq!(success_mark(), "\x1b[32m\u{2713}\x1b[0m");
}

#[test]
fn plural_endings() {
    assert_eq!(plural(0), "s");
    assert_eq!(plural(1), "");
    assert_eq!(plural(2), "s");
    assert_eq!(plural(usize::MAX), "s");
}

#[test]
fn quote_sh_examples() {
    assert_eq!(quote_sh("plain"), "'plain'");
    assert_eq!(quote_sh(""), "''");
    assert_eq!(quote_sh("it's"), "'it'\\''s'");
    assert_eq!(quote_sh("'"), "''\\'''");
    assert_eq!(quote_sh("a b $HOME"), "'a b $HOME'");
}

#[test]
fn quote_ps_examples() {
    assert_eq!(quote_ps("plain"), "'plain'");
    assert_eq!(quote_ps(""), "''");
    assert_eq!(quote_ps("it's"), "'it''s'");
    assert_eq!(quote_ps("''"), "''''''");
    assert_eq!(quote_ps("C:\\Program Files"), "'C:\\Program Files'");
}

#[test]
fn duration_examples() {
    assert_eq!(format_duration_ms(0), "0ms");
    assert_eq!(format_duration_ms(999), "999ms");
    assert_eq!(format_duration_ms(1_000), "1.00s");
    assert_eq!(format_duration_ms(1_234), "1.23s");
    assert_eq!(format_duration_ms(59_999), "60.00s");
    assert_eq!(format_duration_ms(60_000), "1m00s");
    assert_eq!(format_duration_ms(61_500), "1m01s");
    assert_eq!(format_duration_ms(3_600_000), "60m00s");
    assert_eq!(format_duration_ms(u128::MAX), float_duration(u128::MAX));
}

#[test]
fn duration_matches_float_formatting_below_two_minutes() {
    for ms in 0..120_000u128 {
        assert_eq!(format_duration_ms(ms), float_duration(ms), "ms = {ms}");
    }
}

#[test]
fn bytes_examples() {
    assert_eq!(humanize_bytes(0), "0 B");
    assert_eq!(humanize_bytes(1), "1 B");
    assert_eq!(humanize_bytes(1023), "1023 B");
    assert_eq!(humanize_bytes(1024), "1.0 KiB");
    assert_eq!(humanize_bytes(1536), "1.5 KiB");
    assert_eq!(humanize_bytes(102_400), "100 KiB");
    assert_eq!(humanize_bytes(1_048_576), "1.0 MiB");
    assert_eq!(humanize_bytes(1u64 << 50), "1.0 PiB");
    assert_eq!(humanize_bytes(u64::MAX), "16384 PiB");
}

#[test]
fn bytes_match_float_formatting() {
    let mut samples: Vec<u64> = Vec::new();
    for shift in 0..64u32 {
        let p = 1u64 << shift;
        for d in 0..8u64 {
            samples.push(p.wrapping_add(d));
            samples.push(p.wrapping_sub(d));
        }
    }
    for k in 1..=5u32 {
        let unit = 1u64 << (10 * k);
        for tenths in 0..1_200u64 {
            let base = unit / 20 * tenths;
            for d in [0u64, 1, unit / 40, unit / 40 + 1, unit / 20 - 1] {
                samples.push(base.wrapping_add(d));
            }
        }
    }
    for b in 0..5_000u64 {
        samples.push(b);
    }
    let mut x: u64 = 0x9e37_79b9_7f4a_7c15;
    for _ in 0..200_000 {
        x ^= x << 13;
        x ^= x >> 7;
        x ^= x << 17;
        samples.push(x >> (x % 64));
    }
    for b in samples {
        assert_eq!(humanize_bytes(b), float_bytes(b), "bytes = {b}");
    }
}
