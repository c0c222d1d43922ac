//! Which directories the source walk skips.
use vstd::prelude::*;

use crate::text::{chars_of, str_eq};

verus! {

/// Build-output and tool directories that are never scanned.
pub open spec fn is_excluded_name(name: Seq<char>) -> bool {
    name == ".git"@ || name == "target"@ || name == "node_modules"@ || name == "vendor"@
        || name == ".direnv"@ || name == "dist"@ || name == "build"@ || name == "__pycache__"@
        || name == ".tox"@
}

/// Whether the walk skips an entry: a directory below the walk's root whose
/// name is one of the excluded ones or is hidden (starts with `.`).  The root
/// itself (depth 0) is never skipped, whatever its name.  An entry whose name
/// is not valid UTF-8 (`name` is `None`) is not skipped.
pub open spec fn excluded(is_dir: bool, name: Option<Seq<char>>, depth: usize) -> bool {
    is_dir && depth > 0 && match name {
        Some(n) => (n.len() > 0 && n[0] == '.') || is_excluded_name(n),
        None => false,
    }
}

/// Decide whether the directory walk skips an entry (see `excluded`).
pub fn is_excluded_dir(is_dir: bool, name: Option<&str>, depth: usize) -> (r: bool)
    ensures
        r == excluded(is_dir, match name {
            Some(n) => Some(n@),
            None => None,
        }, depth),
{
    if !is_dir || depth == 0 {
        return false;
    }
    match name {
        None => false,
        Some(n) => {
            let chars = chars_of(n);
            let hidden = chars.len() > 0 && chars[0] == '.';
            hidden || str_eq(n, ".git") || str_eq(n, "target") || str_eq(n, "node_modules")
                || str_eq(n, "vendor") || str_eq(n, ".direnv") || str_eq(n, "dist")
                || str_eq(n, "build") || str_eq(n, "__pycache__") || str_eq(n, ".tox")
        },
    }
}

/// Below the root, whether a directory is skipped does not depend on how
/// deep it lies.
pub proof fn lemma_exclusion_ignores_depth(is_dir: bool, name: Option<Seq<char>>, d1: usize, d2: usize)
    requires
        d1 > 0,
        d2 > 0,
    ensures
        excluded(is_dir, name, d1) == excluded(is_dir, name, d2),
{
}

/// The build and output directory names that the walk skips.
pub open spec fn build_dir_names() -> Seq<Seq<char>> {
    seq![".git"@, "target"@, "node_modules"@, "vendor"@, ".direnv"@, "dist"@, "build"@, "__pycache__"@, ".tox"@]
}

/// At every depth below the root, hidden directories and the build and
/// output directories are skipped; files are never skipped, and neither is
/// the root, whatever its name.
pub proof fn lemma_what_the_walk_skips(depth: usize)
    requires
        depth > 0,
    ensures
        forall|k: int| 0 <= k < build_dir_names().len() ==> excluded(true, Some(#[trigger] build_dir_names()[k]), depth),
        forall|n: Seq<char>| n.len() > 0 && n[0] == '.' ==> #[trigger] excluded(true, Some(n), depth),
        forall|n: Option<Seq<char>>, d: usize| !#[trigger] excluded(false, n, d),
        forall|n: Option<Seq<char>>| !#[trigger] excluded(true, n, 0),
{
    reveal_strlit(".git");
    reveal_strlit("target");
    reveal_strlit("node_modules");
    reveal_strlit("vendor");
    reveal_strlit(".direnv");
    reveal_strlit("dist");
    reveal_strlit("build");
    reveal_strlit("__pycache__");
    reveal_strlit(".tox");
    assert forall|k: int| 0 <= k < build_dir_names().len() implies excluded(true, Some(#[trigger] build_dir_names()[k]), depth) by {
        assert(is_excluded_name(build_dir_names()[k]));
    }
}

} // verus!
