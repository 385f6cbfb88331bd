//! The Rust target triple that releases are built for, from the operating
//! system and architecture names that std reports.

use vstd::prelude::*;
use crate::text::str_eq;

verus! {

/// The release triple for an operating system and architecture (as named by
/// `std::env::consts::OS` and `ARCH`), or `None` where no release is built.
pub open spec fn triple_for(os: Seq<char>, arch: Seq<char>) -> Option<Seq<char>> {
    if os == "macos"@ && arch == "aarch64"@ {
        Some("aarch64-apple-darwin"@)
    } else if os == "macos"@ && arch == "x86_64"@ {
        Some("x86_64-apple-darwin"@)
    } else if os == "linux"@ && arch == "aarch64"@ {
        Some("aarch64-unknown-linux-musl"@)
    } else if os == "linux"@ && arch == "x86_64"@ {
        Some("x86_64-unknown-linux-musl"@)
    } else if os == "windows"@ && arch == "x86_64"@ {
        Some("x86_64-pc-windows-msvc"@)
    } else {
        None
    }
}

/// The canonical target triple for `os` and `arch`, or `None` on platforms
/// without releases.
pub fn target_triple_for(os: &str, arch: &str) -> (res: Option<&'static str>)
    ensures
        match res {
            Some(t) => triple_for(os@, arch@) == Some(t@),
            None => triple_for(os@, arch@) is None,
        },
{
    let macos = str_eq(os, "macos");
    let linux = str_eq(os, "linux");
    let windows = str_eq(os, "windows");
    let aarch64 = str_eq(arch, "aarch64");
    let x86_64 = str_eq(arch, "x86_64");
    if macos && aarch64 {
        Some("aarch64-apple-darwin")
    } else if macos && x86_64 {
        Some("x86_64-apple-darwin")
    } else if linux && aarch64 {
        Some("aarch64-unknown-linux-musl")
    } else if linux && x86_64 {
        Some("x86_64-unknown-linux-musl")
    } else if windows && x86_64 {
        Some("x86_64-pc-windows-msvc")
    } else {
        None
    }
}

/// Releases exist for exactly five platforms — macOS and Linux on aarch64
/// and x86_64, Windows on x86_64 — and the triple for one of them starts
/// with its architecture, followed by the vendor and system of its
/// operating system.
pub proof fn lemma_triple_for_released_platforms(os: Seq<char>, arch: Seq<char>)
    ensures
        (triple_for(os, arch) is Some) <==> (
            (os == "macos"@ && (arch == "aarch64"@ || arch == "x86_64"@))
            || (os == "linux"@ && (arch == "aarch64"@ || arch == "x86_64"@))
            || (os == "windows"@ && arch == "x86_64"@)),
        triple_for(os, arch) matches Some(t) ==> t == arch + seq!['-'] + (
            if os == "macos"@ { "apple-darwin"@ }
            else if os == "linux"@ { "unknown-linux-musl"@ }
            else { "pc-windows-msvc"@ }),
{
    reveal_strlit("macos");
    reveal_strlit("linux");
    reveal_strlit("windows");
    reveal_strlit("aarch64");
    reveal_strlit("x86_64");
    reveal_strlit("apple-darwin");
    reveal_strlit("unknown-linux-musl");
    reveal_strlit("pc-windows-msvc");
    reveal_strlit("aarch64-apple-darwin");
    reveal_strlit("x86_64-apple-darwin");
    reveal_strlit("aarch64-unknown-linux-musl");
    reveal_strlit("x86_64-unknown-linux-musl");
    reveal_strlit("x86_64-pc-windows-msvc");
    assert("macos"@[0] != "linux"@[0]);
    assert("macos"@ != "linux"@);
    assert("macos"@.len() != "windows"@.len());
    assert("linux"@.len() != "windows"@.len());
    assert("macos"@ != "windows"@);
    assert("linux"@ != "windows"@);
    assert("aarch64"@ + seq!['-'] + "apple-darwin"@ =~= "aarch64-apple-darwin"@);
    assert("x86_64"@ + seq!['-'] + "apple-darwin"@ =~= "x86_64-apple-darwin"@);
    assert("aarch64"@ + seq!['-'] + "unknown-linux-musl"@ =~= "aarch64-unknown-linux-musl"@);
    assert("x86_64"@ + seq!['-'] + "unknown-linux-musl"@ =~= "x86_64-unknown-linux-musl"@);
    assert("x86_64"@ + seq!['-'] + "pc-windows-msvc"@ =~= "x86_64-pc-windows-msvc"@);
}

} // verus!
