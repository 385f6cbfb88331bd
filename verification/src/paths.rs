//! Standard XDG-style paths for an anyv-family tool. The app name (`"gv"`,
//! `"rv"`, …) parameterizes the directory layout; an optional environment
//! override (`<APP>_HOME`) redirects everything under one root.
//!
//! Paths are held as strings and joined as std's `Path::join` joins them,
//! the Windows way for a layout resolved on Windows (see `crate::path`).

use vstd::prelude::*;
use crate::path::{join, path_join};
use crate::text::{chars_of, push_char, push_str};

verus! {

// ─── The directory layout ───────────────────────────────────────────

/// The resolved directories of one tool: data, config and cache roots.
/// Subdirectories are joined the Windows way when `windows`.
#[derive(Debug, Clone)]
pub struct Paths {
    pub app: &'static str,
    pub data: String,
    pub config: String,
    pub cache: String,
    pub windows: bool,
}

impl Paths {
    /// The layout under an explicit root, as `<APP>_HOME` asks for:
    /// `root/data`, `root/config`, `root/cache`.
    pub fn under_root(app: &'static str, root: &str, windows: bool) -> (res: Paths)
        ensures
            res.app == app,
            res.windows == windows,
            res.data@ == path_join(root@, seq!['d', 'a', 't', 'a'], windows),
            res.config@ == path_join(root@, seq!['c', 'o', 'n', 'f', 'i', 'g'], windows),
            res.cache@ == path_join(root@, seq!['c', 'a', 'c', 'h', 'e'], windows),
    {
        proof {
            reveal_strlit("data");
            assert("data"@ =~= seq!['d', 'a', 't', 'a']);
            reveal_strlit("config");
            assert("config"@ =~= seq!['c', 'o', 'n', 'f', 'i', 'g']);
            reveal_strlit("cache");
            assert("cache"@ =~= seq!['c', 'a', 'c', 'h', 'e']);
        }
        Paths {
            app,
            data: join(root, "data", windows),
            config: join(root, "config", windows),
            cache: join(root, "cache", windows),
            windows,
        }
    }

    /// Where installed content is stored: `data/store`.
    pub fn store(&self) -> (res: String)
        ensures
            res@ == path_join(self.data@, seq!['s', 't', 'o', 'r', 'e'], self.windows),
    {
        proof {
            reveal_strlit("store");
            assert("store"@ =~= seq!['s', 't', 'o', 'r', 'e']);
        }
        join(self.data.as_str(), "store", self.windows)
    }

    /// Where installed versions live: `data/versions`.
    pub fn versions(&self) -> (res: String)
        ensures
            res@ == path_join(self.data@, seq!['v', 'e', 'r', 's', 'i', 'o', 'n', 's'], self.windows),
    {
        proof {
            reveal_strlit("versions");
            assert("versions"@ =~= seq!['v', 'e', 'r', 's', 'i', 'o', 'n', 's']);
        }
        join(self.data.as_str(), "versions", self.windows)
    }

    /// The directory of one installed version: `data/versions/<version>`.
    pub fn version_dir(&self, version: &str) -> (res: String)
        ensures
            res@ == path_join(
                path_join(self.data@, seq!['v', 'e', 'r', 's', 'i', 'o', 'n', 's'], self.windows),
                version@,
                self.windows,
            ),
    {
        let versions = self.versions();
        join(versions.as_str(), version, self.windows)
    }

    /// Where auxiliary tools live: `data/tools`.
    pub fn tools(&self) -> (res: String)
        ensures
            res@ == path_join(self.data@, seq!['t', 'o', 'o', 'l', 's'], self.windows),
    {
        proof {
            reveal_strlit("tools");
            assert("tools"@ =~= seq!['t', 'o', 'o', 'l', 's']);
        }
        join(self.data.as_str(), "tools", self.windows)
    }

    /// The file that pins the global version: `config/global`.
    pub fn global_version_file(&self) -> (res: String)
        ensures
            res@ == path_join(self.config@, seq!['g', 'l', 'o', 'b', 'a', 'l'], self.windows),
    {
        proof {
            reveal_strlit("global");
            assert("global"@ =~= seq!['g', 'l', 'o', 'b', 'a', 'l']);
        }
        join(self.config.as_str(), "global", self.windows)
    }

    /// The directories that must exist before the tool runs, in the order in
    /// which they are created: data, config, cache, store, versions, tools.
    pub fn dirs_to_ensure(&self) -> (res: Vec<String>)
        ensures
            res@.len() == 6,
            res@[0]@ == self.data@,
            res@[1]@ == self.config@,
            res@[2]@ == self.cache@,
            res@[3]@ == path_join(self.data@, seq!['s', 't', 'o', 'r', 'e'], self.windows),
            res@[4]@ == path_join(self.data@, seq!['v', 'e', 'r', 's', 'i', 'o', 'n', 's'], self.windows),
            res@[5]@ == path_join(self.data@, seq!['t', 'o', 'o', 'l', 's'], self.windows),
    {
        let mut res: Vec<String> = Vec::new();
        res.push(self.data.clone());
        res.push(self.config.clone());
        res.push(self.cache.clone());
        res.push(self.store());
        res.push(self.versions());
        res.push(self.tools());
        res
    }
}

/// `c` in ASCII upper case: `a`..`z` become `A`..`Z`, all else is kept.
pub open spec fn ascii_upper(c: char) -> char {
    if 'a' <= c && c <= 'z' { ((c as int) - 32) as char } else { c }
}

fn ascii_upper_exec(c: char) -> (res: char)
    ensures
        res == ascii_upper(c),
{
    if 'a' <= c && c <= 'z' {
        let b = c as u8;
        assert(b as int == c as int);
        ((b - 32) as char)
    } else {
        c
    }
}

/// The environment variable that overrides the layout of `app`: its name in
/// ASCII upper case followed by `_HOME`.
pub open spec fn home_env_var_of(app: Seq<char>) -> Seq<char> {
    app.map_values(|c: char| ascii_upper(c)) + seq!['_', 'H', 'O', 'M', 'E']
}

/// The name of the environment variable that overrides the layout of `app`.
pub fn home_env_var(app: &str) -> (res: String)
    ensures
        res@ == home_env_var_of(app@),
{
    let v = chars_of(app);
    let mut res = String::new();
    let mut i: usize = 0;
    while i < v.len()
        invariant
            v@ == app@,
            i <= v@.len(),
            res@ == v@.take(i as int).map_values(|c: char| ascii_upper(c)),
        decreases v@.len() - i,
    {
        let u = ascii_upper_exec(v[i]);
        push_char(&mut res, u);
        assert(v@.take(i + 1).map_values(|c: char| ascii_upper(c))
            =~= v@.take(i as int).map_values(|c: char| ascii_upper(c)).push(u));
        i = i + 1;
    }
    assert(v@.take(v@.len() as int) =~= v@);
    proof {
        reveal_strlit("_HOME");
    }
    push_str(&mut res, "_HOME");
    res
}

/// One XDG base directory for `app` in the macOS layout (unix paths): below
/// the directory that the XDG variable names when it is set, else below
/// `home/default_segment`.
pub fn xdg_dir(env_value: Option<&str>, home: &str, default_segment: &str, app: &str) -> (res: String)
    ensures
        res@ == match env_value {
            Some(v) => path_join(v@, app@, false),
            None => path_join(path_join(home@, default_segment@, false), app@, false),
        },
{
    match env_value {
        Some(v) => join(v, app, false),
        None => {
            let base = join(home, default_segment, false);
            join(base.as_str(), app, false)
        },
    }
}

/// The data directory of the legacy macOS layout (unix paths):
/// `home/Library/Application Support/dev.O6lvl4.<app>`.
pub fn legacy_data_dir(home: &str, app: &str) -> (res: String)
    ensures
        res@ == path_join(
            path_join(home@, "Library/Application Support"@, false),
            "dev.O6lvl4."@ + app@,
            false,
        ),
{
    let support = join(home, "Library/Application Support", false);
    let mut name = String::new();
    push_str(&mut name, "dev.O6lvl4.");
    push_str(&mut name, app);
    join(support.as_str(), name.as_str(), false)
}

} // verus!
