//! The version of the program.

use vstd::prelude::*;
use vstd::string::*;
use crate::text::concat3;

verus! {

/// The version of the package.
pub const VERSION: &'static str = "0.1.0";

/// The text of a version: the package version, a hyphen, the revision it was
/// built from, and a plus sign where the sources had uncommitted changes.
pub open spec fn version_text(revision: Seq<char>, dirty: bool) -> Seq<char> {
    "0.1.0"@ + "-"@ + revision + if dirty {
        "+"@
    } else {
        ""@
    }
}

/// The version of a build from the revision `revision`.
pub fn version_of(revision: &str, dirty: bool) -> (r: String)
    ensures
        r@ == version_text(revision@, dirty),
{
    let front = concat3(VERSION, "-", revision);
    if dirty {
        front.concat("+")
    } else {
        front.concat("")
    }
}

/// The version of this build, of which the revision is not known.
pub fn version() -> (r: String)
    ensures
        r@ == version_text("unknown"@, false),
{
    version_of("unknown", false)
}

} // verus!
