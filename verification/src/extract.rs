//! Archive format detection: `.zip` archives and gzip-compressed tarballs
//! share one entry point, chosen by the archive's file name.

use vstd::prelude::*;
use crate::path::{file_name, file_name_of};
use crate::text::{chars_of, ends_with, vec_ends_with};

verus! {

/// The two archive formats that releases ship in.
#[derive(Debug, Clone, Copy, PartialEq, Eq, Structural)]
pub enum ArchiveFormat {
    Zip,
    TarGz,
}

/// The format of the archive at `path`: zip when its file name ends with
/// `.zip`, a gzip-compressed tarball otherwise (the unix default). A path
/// without a file name counts as an empty name. The path is read the Windows
/// way when `windows`.
pub open spec fn archive_format_of(path: Seq<char>, windows: bool) -> ArchiveFormat {
    let name = match file_name_of(path, windows) {
        Some(n) => n,
        None => Seq::empty(),
    };
    if ends_with(name, seq!['.', 'z', 'i', 'p']) { ArchiveFormat::Zip } else { ArchiveFormat::TarGz }
}

/// Decides how the archive at `archive` must be unpacked, reading the path
/// the Windows way when `windows`.
pub fn archive_format(archive: &str, windows: bool) -> (res: ArchiveFormat)
    ensures
        res == archive_format_of(archive@, windows),
{
    let name = match file_name(archive, windows) {
        Some(n) => chars_of(n.as_str()),
        None => Vec::new(),
    };
    let mut zip: Vec<char> = Vec::new();
    zip.push('.');
    zip.push('z');
    zip.push('i');
    zip.push('p');
    assert(zip@ =~= seq!['.', 'z', 'i', 'p']);
    assert(name@ == match file_name_of(archive@, windows) {
        Some(n) => n,
        None => Seq::<char>::empty(),
    });
    if vec_ends_with(&name, &zip) { ArchiveFormat::Zip } else { ArchiveFormat::TarGz }
}

} // verus!
