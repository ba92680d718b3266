//! How Biome formats a file from stdin.
use vstd::prelude::*;

use crate::paths::views;
use crate::text::owned;

verus! {

/// `format --stdin-file-path <path>`.
pub fn arguments(path: &str) -> (r: Vec<String>)
    ensures
        views(r@) == seq!["format"@, "--stdin-file-path"@, path@],
{
    let mut r: Vec<String> = Vec::new();
    r.push(owned("format"));
    r.push(owned("--stdin-file-path"));
    r.push(owned(path));
    proof {
        assert(views(r@) =~= seq!["format"@, "--stdin-file-path"@, path@]);
    }
    r
}

} // verus!
