//! What to do when the driver starts: whether to set the driver's version
//! override for the running program.

use vstd::prelude::*;
use vstd::string::StrSliceExecFns;
use crate::text::{chars_of, same_text};

verus! {

/// The environment variable by which the driver is told to claim a version.
pub const MESA_GL_VERSION_OVERRIDE: &'static str = "MESA_GL_VERSION_OVERRIDE";

/// The version that the driver is told to claim.
pub const VERSION_OVERRIDE_VALUE: &'static str = "3.2COMPAT";

/// The file name of the program that the override is set for.
pub const GAME_EXECUTABLE: &'static str = "League of Legends.exe";

/// What the start of the driver has to do.
#[derive(Clone, Copy, Debug, PartialEq, Eq)]
pub enum InitAction<'a> {
    /// Set `MESA_GL_VERSION_OVERRIDE` to `VERSION_OVERRIDE_VALUE`.
    SetOverride,
    /// Leave the environment as it is and trace the name of the executable,
    /// if it is known.
    Trace(Option<&'a str>),
}

/// Where the file name begins in a path whose parts are parted by
/// backslashes: behind the last backslash, or at the start of a path that has
/// none.
pub open spec fn name_start(path: Seq<char>) -> nat
    decreases path.len(),
{
    if path.len() == 0 || path.last() == '\\' {
        path.len()
    } else {
        name_start(path.drop_last())
    }
}

/// The file name of a path: what follows its last backslash.
pub open spec fn file_name(path: Seq<char>) -> Seq<char> {
    path.subrange(name_start(path) as int, path.len() as int)
}

/// The file name of `path`.
pub fn executable_name(path: &str) -> (name: &str)
    ensures
        name@ == file_name(path@),
{
    let chars = chars_of(path);
    let mut start: usize = 0;
    let mut i: usize = 0;
    while i < chars.len()
        invariant
            i <= chars@.len(),
            start <= i,
            start == name_start(chars@.take(i as int)),
        decreases chars@.len() - i,
    {
        proof {
            assert(chars@.take(i + 1).drop_last() =~= chars@.take(i as int));
        }
        if chars[i] == '\\' {
            start = i + 1;
        }
        i = i + 1;
    }
    proof {
        assert(chars@.take(i as int) =~= chars@);
    }
    path.substring_char(start, chars.len())
}

/// Decides what the start of the driver does, from the path of the running
/// executable, where it could be had.
pub fn glxdrv_init_lol(exe: Option<&str>) -> (action: InitAction<'_>)
    ensures
        match exe {
            Some(path) => if file_name(path@) == GAME_EXECUTABLE@ {
                action is SetOverride
            } else {
                action matches InitAction::Trace(Some(name)) && name@ == file_name(path@)
            },
            None => action == InitAction::Trace(None),
        },
{
    match exe {
        Some(path) => {
            let name = executable_name(path);
            if same_text(name, GAME_EXECUTABLE) {
                InitAction::SetOverride
            } else {
                InitAction::Trace(Some(name))
            }
        },
        None => InitAction::Trace(None),
    }
}

} // verus!
