use anyv_core::path::{file_name, file_stem, join};
use anyv_core::paths::{home_env_var, legacy_data_dir, xdg_dir, Paths};
use std::path::Path;

fn sample() -> Paths {
    Paths {
        app: "gv",
        data: "/home/u/.local/share/gv".to_string(),
        config: "/home/u/.config/gv".to_string(),
        cache: "/home/u/.cache/gv".to_string(),
        windows: false,
    }
}

const PATHS: [&str; 22] = [
    "", "/", "a", "a/", "/a", "/a/", "a/b", "a//b", "a/.", "a/..", ".", "..", "./", "./a", "../a",
    "a.b/c.tar.gz", "x.zip/", "/usr/bin/gvx", ".hidden", "dir/.rc", "a/b/.", "a/./b",
];

#[test]
fn join_matches_std() {
    for base in PATHS {
        for part in PATHS {
            let std_join = Path::new(base).join(part);
            assert_eq!(join(base, part, false), std_join.to_str().unwrap(), "{base:?} + {part:?}");
        }
    }
}

#[test]
fn file_name_matches_std() {
    for p in PATHS {
        let std_name = Path::new(p).file_name().map(|s| s.to_str().unwrap().to_string());
        assert_eq!(file_name(p, false), std_name, "{p:?}");
        let std_stem = Path::new(p).file_stem().map(|s| s.to_str().unwrap().to_string());
        assert_eq!(file_stem(p, false), std_stem, "{p:?}");
    }
    assert_eq!(file_stem("/x/go1.22.tar.gz", false).as_deref(), Some("go1.22.tar"));
    assert_eq!(file_stem("archive.", false).as_deref(), Some("archive"));
}

#[test]
fn windows_file_names() {
    assert_eq!(file_name("C:\\tools\\gvx.exe", true).as_deref(), Some("gvx.exe"));
    assert_eq!(file_stem("C:\\tools\\gvx.exe", true).as_deref(), Some("gvx"));
    assert_eq!(file_name("C:gvx", true).as_deref(), Some("gvx"));
    assert_eq!(file_name("C:", true), None);
    assert_eq!(file_name("C:\\", true), None);
    assert_eq!(file_name("a\\b\\..", true), None);
    assert_eq!(file_name("dir\\.\\", true).as_deref(), Some("dir"));
    assert_eq!(file_name("a/b\\c", true).as_deref(), Some("c"));
    assert_eq!(file_name("a/b\\c", false).as_deref(), Some("b\\c"));
    assert_eq!(file_name("1:x", true).as_deref(), Some("1:x"));
}

#[test]
fn layout_under_data_and_config() {
    let p = sample();
    assert_eq!(p.store(), "/home/u/.local/share/gv/store");
    assert_eq!(p.versions(), "/home/u/.local/share/gv/versions");
    assert_eq!(p.version_dir("1.22.0"), "/home/u/.local/share/gv/versions/1.22.0");
    assert_eq!(p.tools(), "/home/u/.local/share/gv/tools");
    assert_eq!(p.global_version_file(), "/home/u/.config/gv/global");
}

#[test]
fn dirs_to_ensure_in_order() {
    let p = sample();
    let dirs = p.dirs_to_ensure();
    assert_eq!(
        dirs,
        vec![
            p.data.clone(),
            p.config.clone(),
            p.cache.clone(),
            p.store(),
            p.versions(),
            p.tools(),
        ]
    );
}

#[test]
fn under_root_layout() {
    let p = Paths::under_root("rv", "/tmp/rvhome", false);
    assert_eq!(p.app, "rv");
    assert_eq!(p.data, "/tmp/rvhome/data");
    assert_eq!(p.config, "/tmp/rvhome/config");
    assert_eq!(p.cache, "/tmp/rvhome/cache");
    let q = Paths::under_root("rv", "/tmp/rvhome/", false);
    assert_eq!(q.data, "/tmp/rvhome/data");
}

#[test]
fn env_var_names() {
    assert_eq!(home_env_var("gv"), "GV_HOME");
    assert_eq!(home_env_var("rv"), "RV_HOME");
    assert_eq!(home_env_var("My-app2"), "MY-APP2_HOME");
    assert_eq!(home_env_var("é"), "é_HOME");
    for app in ["abc", "Zz9", "ünï"] {
        assert_eq!(home_env_var(app), format!("{}_HOME", app.to_ascii_uppercase()));
    }
}

#[test]
fn xdg_dirs() {
    assert_eq!(xdg_dir(Some("/x/data"), "/home/u", ".local/share", "gv"), "/x/data/gv");
    assert_eq!(xdg_dir(None, "/home/u", ".local/share", "gv"), "/home/u/.local/share/gv");
    assert_eq!(xdg_dir(None, "/home/u", ".config", "rv"), "/home/u/.config/rv");
}

#[test]
fn legacy_layout() {
    assert_eq!(
        legacy_data_dir("/Users/me", "gv"),
        "/Users/me/Library/Application Support/dev.O6lvl4.gv"
    );
}

#[test]
fn windows_prefixed_file_names() {
    assert_eq!(file_name(r"\\server\share", true), None);
    assert_eq!(file_name(r"\\server\share\", true), None);
    assert_eq!(file_name(r"\\server\share\tools\gvx.exe", true).as_deref(), Some("gvx.exe"));
    assert_eq!(file_name(r"//server/share/gvx", true).as_deref(), Some("gvx"));
    assert_eq!(file_name(r"\\server", true).as_deref(), Some("server"));
    assert_eq!(file_name(r"\\.\COM1", true), None);
    assert_eq!(file_name(r"\\.\pipe\gvx", true).as_deref(), Some("gvx"));
    assert_eq!(file_name(r"\\?\C:", true), None);
    assert_eq!(file_name(r"\\?\C:\bin\gvx.exe", true).as_deref(), Some("gvx.exe"));
    assert_eq!(file_name(r"\\?\C:\bin/gvx", true).as_deref(), Some("bin/gvx"));
    assert_eq!(file_name(r"\\?\C:\bin\.", true), None);
    assert_eq!(file_name(r"\\?\UNC\server\share", true), None);
    assert_eq!(file_name(r"\\?\UNC\server\share\x.zip", true).as_deref(), Some("x.zip"));
    assert_eq!(file_name(r"\\?\pictures", true), None);
    assert_eq!(file_name(r"\\?\pictures\a", true).as_deref(), Some("a"));
}

#[test]
fn windows_join() {
    assert_eq!(join(r"C:\gv", "data", true), r"C:\gv\data");
    assert_eq!(join(r"C:\gv\", "data", true), r"C:\gv\data");
    assert_eq!(join("C:/gv/", "data", true), "C:/gv/data");
    assert_eq!(join("C:", "data", true), "C:data");
    assert_eq!(join("", "data", true), "data");
    assert_eq!(join(r"C:\gv", r"D:\x", true), r"D:\x");
    assert_eq!(join(r"C:\gv", "D:x", true), "D:x");
    assert_eq!(join(r"C:\gv", r"\x", true), r"C:\x");
    assert_eq!(join(r"\\server\share\gv", r"\x", true), r"\\server\share\x");
    assert_eq!(join("gv", r"\x", true), r"\x");
    assert_eq!(join(r"C:\gv", "", true), r"C:\gv\");
    assert_eq!(join(r"\\?\C:\gv", "data", true), r"\\?\C:\gv\data");
    assert_eq!(join(r"\\?\C:\gv", r"a/./b/../c", true), r"\\?\C:\gv\a\c");
    assert_eq!(join(r"\\?\C:\gv", r"..\..\..\x", true), r"\\?\C:\x");
    assert_eq!(join(r"\\?\C:\gv", r"\x", true), r"\\?\C:\x");
    assert_eq!(join(r"\\?\C:", "x", true), r"\\?\C:\x");
    assert_eq!(join(r"\\?\C:\", ".", true), r"\\?\C:\");
    let p = Paths::under_root("gv", r"C:\Users\me\gvhome", true);
    assert_eq!(p.data, r"C:\Users\me\gvhome\data");
    assert_eq!(p.version_dir("1.22.0"), r"C:\Users\me\gvhome\data\versions\1.22.0");
    assert_eq!(p.global_version_file(), r"C:\Users\me\gvhome\config\global");
}
