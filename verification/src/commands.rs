//! The total cores of the boundary commands.
//!
//! The interface swallows some failures: a path that cannot be classified
//! counts as "not a folder", a home directory that cannot be resolved becomes
//! the empty string. The caller performs the fallible probe and hands its
//! outcome here; these functions collapse it to the documented default, so
//! the fallibility stays explicit up to this point and the boundary never
//! fails. The pre-flight check for a directory argument keeps its failure:
//! an invalid directory is fatal for the caller.

use vstd::prelude::*;
use vstd::string::StringExecFns;

verus! {

/// Collapses a directory probe to the boolean the interface reports: true
/// exactly when the probe succeeded and found a directory; an error or a
/// missing path counts as false.
pub fn folder_flag(probe: Option<bool>) -> (r: bool)
    ensures
        r == (probe == Some(true)),
{
    match probe {
        Some(b) => b,
        None => false,
    }
}

/// Collapses a home-directory lookup to the string the interface reports:
/// the resolved path, or the empty string when none could be determined.
pub fn home_string(home: Option<String>) -> (r: String)
    ensures
        home matches Some(p) ==> r@ == p@,
        home is None ==> r@ == Seq::<char>::empty(),
{
    match home {
        Some(p) => p,
        None => String::new(),
    }
}

/// The message reported when a directory argument fails the pre-flight check.
pub open spec fn invalid_dir_message(dir: Seq<char>) -> Seq<char> {
    "Invalid directory passed as argument: "@ + dir
}

/// The pre-flight check for an optional directory argument: no argument
/// passes, an argument that the classifier confirmed as a directory passes,
/// anything else fails with a message naming the argument.
pub fn preflight_dir_check(dir: Option<String>, dir_is_folder: bool) -> (r: Result<(), String>)
    ensures
        dir is None ==> r is Ok,
        dir_is_folder ==> r is Ok,
        dir matches Some(d) ==> (!dir_is_folder ==> (r matches Err(m) && m@
            == invalid_dir_message(d@))),
{
    match dir {
        None => Ok(()),
        Some(d) => {
            if dir_is_folder {
                Ok(())
            } else {
                let mut m = "Invalid directory passed as argument: ".to_owned();
                m.append(d.as_str());
                Err(m)
            }
        },
    }
}

} // verus!
