//! Configuration paths: `~/`-relative directories are resolved against the
//! home directory.
use vstd::prelude::*;

use crate::text::{chars_of, copy_range, string_from_chars};

verus! {

/// The part of `path` after a leading `~/`, when it has one.
pub open spec fn home_relative_part(path: Seq<char>) -> Option<Seq<char>> {
    if path.len() >= 2 && path[0] == '~' && path[1] == '/' {
        Some(path.skip(2))
    } else {
        None
    }
}

/// For a configured directory written as `~/rest`, the `rest` to join onto
/// the home directory; `None` when the path is used as it is.
pub fn home_relative(path: &str) -> (r: Option<String>)
    ensures
        match r {
            Some(rest) => home_relative_part(path@) == Some(rest@),
            None => home_relative_part(path@) is None,
        },
{
    let p = chars_of(path);
    if p.len() >= 2 && p[0] == '~' && p[1] == '/' {
        let rest = copy_range(p.as_slice(), 2, p.len());
        assert(rest@ =~= path@.skip(2));
        Some(string_from_chars(rest.as_slice()))
    } else {
        None
    }
}

} // verus!
