use anyv_core::selfupdate::{
    first_word_of, is_white_space_char, verify_checksum, Outcome, SelfUpdate, UpdateStep,
};
use anyv_core::semver::is_semver_newer;

const GV: SelfUpdate = SelfUpdate { repo: "O6lvl4/gv", bin_name: "gv", current_version: "0.3.1" };

#[test]
fn semver_ordering() {
    assert!(is_semver_newer("0.3.2", "0.3.1"));
    assert!(is_semver_newer("1.0.0", "0.99.99"));
    assert!(is_semver_newer("0.4", "0.3.9"));
    assert!(!is_semver_newer("0.3.1", "0.3.1"));
    assert!(!is_semver_newer("0.3.0", "0.3.1"));
    assert!(!is_semver_newer("1.2.3-rc1", "1.2.3"));
    assert!(is_semver_newer("1.2.4-rc1", "1.2.3"));
    assert!(!is_semver_newer("garbage", "0.0.0"));
    assert!(is_semver_newer("+1.0.0", "0.9.0"));
    assert!(!is_semver_newer("-1.0.0", "0.0.0"));
    assert!(is_semver_newer("0.0.18446744073709551615", "0.0.1"));
    assert!(!is_semver_newer("0.0.18446744073709551616", "0.0.1"));
    assert!(is_semver_newer("1.0.0.9", "0.9"));
    assert!(!is_semver_newer("", ""));
    assert!(is_semver_newer("1..", "0.5.5"));
}

#[test]
fn urls_and_agent() {
    assert_eq!(GV.release_api_url(), "https://api.github.com/repos/O6lvl4/gv/releases/latest");
    assert_eq!(GV.user_agent(), "gv/0.3.1");
}

#[test]
fn plan_up_to_date() {
    match GV.plan("v0.3.1", false, Some("x86_64-unknown-linux-musl"), false) {
        UpdateStep::Finished(info) => {
            assert_eq!(info.current, "0.3.1");
            assert_eq!(info.latest, "0.3.1");
            assert_eq!(info.outcome, Outcome::AlreadyUpToDate);
            assert_eq!(info.binary_path, None);
        }
        other => panic!("unexpected {other:?}"),
    }
}

#[test]
fn plan_check_only() {
    match GV.plan("v0.4.0", true, None, false) {
        UpdateStep::Finished(info) => {
            assert_eq!(info.latest, "0.4.0");
            assert_eq!(info.outcome, Outcome::NewerAvailable);
        }
        other => panic!("unexpected {other:?}"),
    }
}

#[test]
fn plan_unsupported_platform() {
    assert!(matches!(GV.plan("v0.4.0", false, None, false), UpdateStep::UnsupportedPlatform));
    assert!(matches!(GV.plan("0.1.0", false, None, false), UpdateStep::Finished(_)));
}

#[test]
fn plan_install_unix() {
    match GV.plan("v0.4.0", false, Some("x86_64-unknown-linux-musl"), false) {
        UpdateStep::Install(p) => {
            assert_eq!(p.latest_tag, "v0.4.0");
            assert_eq!(p.latest, "0.4.0");
            assert_eq!(p.current, "0.3.1");
            assert_eq!(p.archive_name, "gv-v0.4.0-x86_64-unknown-linux-musl.tar.gz");
            assert_eq!(
                p.archive_url,
                "https://github.com/O6lvl4/gv/releases/download/v0.4.0/gv-v0.4.0-x86_64-unknown-linux-musl.tar.gz"
            );
            assert_eq!(p.checksum_url, format!("{}.sha256", p.archive_url));
            assert_eq!(p.temp_prefix, "gv-self-update-");
            assert_eq!(p.stage_dir, "gv-v0.4.0-x86_64-unknown-linux-musl");
            assert_eq!(p.exe_name, "gv");
            let info = p.into_updated("/usr/local/bin/gv".to_string());
            assert_eq!(info.outcome, Outcome::Updated);
            assert_eq!(info.binary_path.as_deref(), Some("/usr/local/bin/gv"));
            assert_eq!(info.latest, "0.4.0");
        }
        other => panic!("unexpected {other:?}"),
    }
}

#[test]
fn plan_install_windows() {
    match GV.plan("1.0.0", false, Some("x86_64-pc-windows-msvc"), true) {
        UpdateStep::Install(p) => {
            assert_eq!(p.archive_name, "gv-1.0.0-x86_64-pc-windows-msvc.zip");
            assert_eq!(p.exe_name, "gv.exe");
        }
        other => panic!("unexpected {other:?}"),
    }
}

#[test]
fn whitespace_matches_std() {
    for u in 0..=0x10FFFFu32 {
        if let Some(c) = char::from_u32(u) {
            assert_eq!(is_white_space_char(c), c.is_whitespace(), "U+{u:04X}");
        }
    }
}

#[test]
fn first_word_matches_split_whitespace() {
    for s in ["", "   ", "abc", "  abc def\n", "abc  file.tar.gz\n", "\u{3000}x\u{2028}y", "\tq"] {
        assert_eq!(first_word_of(s), s.split_whitespace().next().unwrap_or(""), "{s:?}");
    }
}

const HELLO_SHA256: &str = "2cf24dba5fb0a30e26e83b2ac5b9e29e1b161e5c1fa7425e73043362938b9824";

#[test]
fn checksum_accepts_matching_digest() {
    assert!(verify_checksum(&format!("{HELLO_SHA256}  gv.tar.gz\n"), b"hello").is_ok());
    assert!(verify_checksum(HELLO_SHA256, b"hello").is_ok());

}

#[test]
fn checksum_rejects_blank_file() {
    let err = verify_checksum("", b"hello").unwrap_err();
    assert_eq!(err.expected, "");
    assert_eq!(err.actual, HELLO_SHA256);
    assert!(verify_checksum(" \n ", b"hello").is_err());
}

#[test]
fn checksum_rejects_other_digest() {
    let err = verify_checksum(&format!("{HELLO_SHA256}  gv.tar.gz\n"), b"hello!").unwrap_err();
    assert_eq!(err.expected, HELLO_SHA256);
    assert_eq!(err.actual, "ce06092fb948d9ffac7d1a376e404b26b7575bcc11ee05a4615fef4fec3a308b");
    let upper = HELLO_SHA256.to_uppercase();
    let err = verify_checksum(&upper, b"hello").unwrap_err();
    assert_eq!(err.actual, HELLO_SHA256);
}
