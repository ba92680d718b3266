//! How Prettier formats a file from stdin.
use vstd::prelude::*;

use crate::paths::views;
use crate::text::owned;

verus! {

/// `--stdin-filepath <path>`.
pub fn arguments(path: &str) -> (r: Vec<String>)
    ensures
        views(r@) == seq!["--stdin-filepath"@, path@],
{
    let mut r: Vec<String> = Vec::new();
    r.push(owned("--stdin-filepath"));
    r.push(owned(path));
    proof {
        assert(views(r@) =~= seq!["--stdin-filepath"@, path@]);
    }
    r
}

} // verus!
