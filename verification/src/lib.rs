//! Verified core of a toolchain-manager substrate: path layout, output
//! styling, archive dispatch, disk accounting, target detection and the
//! decisions of self-update.

pub mod argv0;
pub mod extract;
pub mod fs;
pub mod path;
pub mod paths;
pub mod presentation;
pub mod selfupdate;
pub mod semver;
pub mod target;
pub mod text;

pub use paths::Paths;
