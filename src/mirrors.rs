//! Ranking of package mirrors before an install.
use vstd::prelude::*;

use crate::filesystem::{argv, words};

verus! {

/// The mirror list that ranking starts from.
pub const MIRRORLIST_URL: &'static str =
    "https://www.archlinux.org/mirrorlist/?country=US&protocol=https&use_mirror_status=on";

/// The shell pipeline that fetches the mirror list, uncomments its servers,
/// keeps the five fastest and writes them as pacman's mirror list.
pub open spec fn rankmirrors_script() -> Seq<char> {
    "curl -s "@ + MIRRORLIST_URL@
        + " | sed -e 's/^#Server/Server/' -e '/^#/d' | rankmirrors -n 5 - > /etc/pacman.d/mirrorlist"@
}

/// The command that ranks the mirrors.
pub fn rankmirrors() -> (r: Vec<String>)
    ensures
        argv(r) == seq!["bash"@, "-c"@, rankmirrors_script()],
{
    let script = String::from_str("curl -s ").concat(MIRRORLIST_URL).concat(
        " | sed -e 's/^#Server/Server/' -e '/^#/d' | rankmirrors -n 5 - > /etc/pacman.d/mirrorlist",
    );
    let r = words(&["bash", "-c", script.as_str()]);
    assert(argv(r) =~= seq!["bash"@, "-c"@, rankmirrors_script()]);
    r
}

} // verus!
