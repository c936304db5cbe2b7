//! The launcher's argument: the decision which spelling identifies a
//! package towards the external program that displays it. Spawning the
//! program is a caller's business.
use vstd::prelude::*;

use crate::text::str_eq;
use vstd::string::{StringExecFns, StrSliceExecFns};

verus! {

/// The argument naming a package: its bare directory name when it lives
/// under the mandatory root, otherwise the extra root's path, a slash, and
/// the directory name.
pub open spec fn launch_argument_of(directory_name: Seq<char>, source: Seq<char>) -> Seq<char> {
    if source == "ssp"@ {
        directory_name
    } else {
        source + "/"@ + directory_name
    }
}

/// Derives the launcher argument from a package's directory name and
/// source label.
pub fn launch_argument(ghost_directory_name: &str, ghost_source: &str) -> (r: String)
    ensures
        r@ == launch_argument_of(ghost_directory_name@, ghost_source@),
{
    if str_eq(ghost_source, "ssp") {
        String::from_str(ghost_directory_name)
    } else {
        let mut s = String::from_str(ghost_source);
        s.append("/");
        s.append(ghost_directory_name);
        s
    }
}

} // verus!
