use anyv_core::argv0::is_x_dispatch;
use anyv_core::extract::{archive_format, ArchiveFormat};
use anyv_core::fs::{ignored_name, walk_action, DirTally, EntryKind, WalkAction};
use anyv_core::target::target_triple_for;

#[test]
fn archive_formats() {
    assert_eq!(archive_format("/tmp/gv-v1-x86_64-pc-windows-msvc.zip", false), ArchiveFormat::Zip);
    assert_eq!(archive_format("/tmp/gv-v1-x86_64-unknown-linux-musl.tar.gz", false), ArchiveFormat::TarGz);
    assert_eq!(archive_format("release.zip/", false), ArchiveFormat::Zip);
    assert_eq!(archive_format("a.zip/..", false), ArchiveFormat::TarGz);
    assert_eq!(archive_format("", false), ArchiveFormat::TarGz);
    assert_eq!(archive_format(".zip", false), ArchiveFormat::Zip);
    assert_eq!(archive_format("x.ZIP", false), ArchiveFormat::TarGz);
    assert_eq!(archive_format("C:\\tmp\\gv.zip", true), ArchiveFormat::Zip);
    assert_eq!(archive_format("C:\\tmp\\gv.zip\\..", true), ArchiveFormat::TarGz);
}

#[test]
fn x_dispatch() {
    assert!(is_x_dispatch("gv", "gvx", false));
    assert!(is_x_dispatch("gv", "/usr/local/bin/gvx", false));
    assert!(is_x_dispatch("gv", "C/gvx.exe", false));
    assert!(!is_x_dispatch("gv", "gv", false));
    assert!(!is_x_dispatch("gv", "/usr/bin/rvx", false));
    assert!(!is_x_dispatch("gv", "gvxx", false));
    assert!(!is_x_dispatch("gv", "", false));
    assert!(is_x_dispatch("gv", "C:\\gvx", true));
    assert!(is_x_dispatch("gv", "C:\\Users\\me\\bin\\gvx.exe", true));
    assert!(!is_x_dispatch("gv", "C:\\gvx", false));
}

#[test]
fn triples() {
    assert_eq!(target_triple_for("macos", "aarch64"), Some("aarch64-apple-darwin"));
    assert_eq!(target_triple_for("macos", "x86_64"), Some("x86_64-apple-darwin"));
    assert_eq!(target_triple_for("linux", "aarch64"), Some("aarch64-unknown-linux-musl"));
    assert_eq!(target_triple_for("linux", "x86_64"), Some("x86_64-unknown-linux-musl"));
    assert_eq!(target_triple_for("windows", "x86_64"), Some("x86_64-pc-windows-msvc"));
    assert_eq!(target_triple_for("windows", "aarch64"), None);
    assert_eq!(target_triple_for("freebsd", "x86_64"), None);
}

#[test]
fn tally_counts_links_not_targets() {
    let mut t = DirTally::new();
    assert!(t.record(true, EntryKind::Dir, 4096));
    assert!(!t.record(true, EntryKind::File, 10));
    assert!(!t.record(true, EntryKind::Symlink, 12));
    assert!(!t.record(false, EntryKind::File, 5));
    assert!(!t.record(false, EntryKind::Symlink, 7));
    assert_eq!(t, DirTally { total: 34, count: 3 });
}

#[test]
fn tally_lone_symlink() {
    let mut t = DirTally::new();
    assert!(!t.record(true, EntryKind::Symlink, 9));
    assert_eq!(t, DirTally { total: 9, count: 1 });
}

#[test]
fn walk_filter() {
    assert!(ignored_name(".git"));
    assert!(ignored_name("vendor"));
    assert!(ignored_name("node_modules"));
    assert!(!ignored_name("src"));
    assert!(!ignored_name("vendored"));
    assert_eq!(walk_action("src", true, 0, 2), WalkAction::Descend);
    assert_eq!(walk_action("src", true, 2, 2), WalkAction::Skip);
    assert_eq!(walk_action("main.go", false, 5, 2), WalkAction::Collect);
    assert_eq!(walk_action(".env", false, 0, 2), WalkAction::Skip);
    assert_eq!(walk_action("vendor", true, 0, 2), WalkAction::Skip);
}
