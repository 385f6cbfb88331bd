//! argv[0] dispatch — the `gvx`/`rvx` shim trick. When a binary is invoked
//! under the name `<app>x`, its argument list is rewritten to
//! `[<app>, "x", ...rest]` so one binary also serves "ephemeral run".

use vstd::prelude::*;
use crate::path::{file_stem, file_stem_of};
use crate::text::{chars_of, push_char, str_eq};

verus! {

/// Whether a program whose argv[0] is `argv0` was invoked as `<app>x`: the
/// stem of argv[0]'s file name is exactly `app` followed by `x`. argv[0] is
/// read as a Windows path when `windows`.
pub fn is_x_dispatch(app: &str, argv0: &str, windows: bool) -> (res: bool)
    ensures
        res == (file_stem_of(argv0@, windows) == Some(app@.push('x'))),
{
    match file_stem(argv0, windows) {
        None => false,
        Some(stem) => {
            let mut expected = String::new();
            let a = chars_of(app);
            let mut i: usize = 0;
            while i < a.len()
                invariant
                    a@ == app@,
                    i <= a@.len(),
                    expected@ == a@.take(i as int),
                decreases a@.len() - i,
            {
                push_char(&mut expected, a[i]);
                assert(a@.take(i + 1) =~= a@.take(i as int).push(a@[i as int]));
                i = i + 1;
            }
            assert(a@.take(a@.len() as int) =~= a@);
            push_char(&mut expected, 'x');
            str_eq(stem.as_str(), expected.as_str())
        },
    }
}

} // verus!
