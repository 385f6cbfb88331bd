//! Disk accounting for `cache info` / `cache prune` style commands, and the
//! filter of a bounded file walk. Symlinks are not followed: the link itself
//! is accounted (its own length, and as an entry of the root when it sits
//! there), never the target it points to, so nothing is counted twice.

use vstd::prelude::*;
use crate::text::{chars_of, str_eq};

verus! {

/// What a directory entry is, as its own metadata says (links not followed).
#[derive(Debug, Clone, Copy, PartialEq, Eq, Structural)]
pub enum EntryKind {
    Symlink,
    Dir,
    File,
}

/// Running totals of a size walk: bytes of all files below the root, and the
/// number of entries directly in it.
#[derive(Debug, Clone, Copy, PartialEq, Eq, Structural)]
pub struct DirTally {
    pub total: u64,
    pub count: usize,
}

impl DirTally {
    /// Nothing counted yet.
    pub fn new() -> (res: DirTally)
        ensures
            res.total == 0,
            res.count == 0,
    {
        DirTally { total: 0, count: 0 }
    }

    /// Accounts for one entry met during the walk, `top_level` when it sits
    /// directly in the root, `len` being the length its own metadata gives
    /// (for a symlink, that of the link, not of its target). Every entry in
    /// the root is counted; every entry that is not a directory adds its
    /// length. Returns whether the walk must descend into the entry, which it
    /// does for directories only, never through a symlink.
    pub fn record(&mut self, top_level: bool, kind: EntryKind, len: u64) -> (descend: bool)
        requires
            kind != EntryKind::Dir ==> old(self).total + len <= u64::MAX,
            top_level ==> old(self).count < usize::MAX,
        ensures
            descend == (kind == EntryKind::Dir),
            final(self).total == old(self).total + (if kind != EntryKind::Dir { len as int } else { 0 }),
            final(self).count == old(self).count + (if top_level { 1int } else { 0 }),
    {
        if top_level {
            self.count = self.count + 1;
        }
        match kind {
            EntryKind::Dir => true,
            _ => {
                self.total = self.total + len;
                false
            },
        }
    }
}

/// Directory names a file walk never enters or reports: dotfiles, `vendor`
/// and `node_modules`.
pub open spec fn is_ignored_name(name: Seq<char>) -> bool {
    (name.len() > 0 && name[0] == '.') || name == "vendor"@ || name == "node_modules"@
}

/// What a bounded walk does with one entry.
#[derive(Debug, Clone, Copy, PartialEq, Eq, Structural)]
pub enum WalkAction {
    /// Leave it out.
    Skip,
    /// Walk into it, one level deeper.
    Descend,
    /// Report it as a file.
    Collect,
}

/// The fate of an entry named `name` at `depth` in a walk limited to
/// `max_depth`: ignored names are skipped; directories are entered while
/// the depth limit allows; everything else is reported.
pub open spec fn walk_action_of(name: Seq<char>, is_dir: bool, depth: nat, max_depth: nat) -> WalkAction {
    if is_ignored_name(name) {
        WalkAction::Skip
    } else if is_dir {
        if depth < max_depth { WalkAction::Descend } else { WalkAction::Skip }
    } else {
        WalkAction::Collect
    }
}

/// Whether `name` is one the walk ignores (see `is_ignored_name`).
pub fn ignored_name(name: &str) -> (res: bool)
    ensures
        res == is_ignored_name(name@),
{
    let v = chars_of(name);
    if v.len() > 0 && v[0] == '.' {
        return true;
    }
    str_eq(name, "vendor") || str_eq(name, "node_modules")
}

/// Decides what the walk does with one entry (see `walk_action_of`).
pub fn walk_action(name: &str, is_dir: bool, depth: usize, max_depth: usize) -> (res: WalkAction)
    ensures
        res == walk_action_of(name@, is_dir, depth as nat, max_depth as nat),
{
    if ignored_name(name) {
        WalkAction::Skip
    } else if is_dir {
        if depth < max_depth { WalkAction::Descend } else { WalkAction::Skip }
    } else {
        WalkAction::Collect
    }
}

/// A walk limited to `max_depth` enters a directory met at depth `depth`
/// exactly when its name is not ignored and `depth < max_depth`, so files
/// `max_depth` directories below the root are still reported; it reports
/// exactly the entries that are neither directories nor ignored.
pub proof fn lemma_walk_depth(name: Seq<char>, is_dir: bool, depth: nat, max_depth: nat)
    ensures
        (walk_action_of(name, is_dir, depth, max_depth) == WalkAction::Descend)
            <==> (is_dir && !is_ignored_name(name) && depth < max_depth),
        (walk_action_of(name, is_dir, depth, max_depth) == WalkAction::Collect)
            <==> (!is_dir && !is_ignored_name(name)),
        (walk_action_of(name, is_dir, depth, max_depth) == WalkAction::Skip)
            <==> (is_ignored_name(name) || (is_dir && depth >= max_depth)),
{
}

} // verus!
