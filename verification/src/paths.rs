//! Rules on paths: which files are vendor code, and how host paths become
//! the virtual paths that key the graph.

use vstd::prelude::*;
use crate::text::{chars_of, matches_at};

verus! {

/// A character that separates the segments of a host path.
pub open spec fn is_separator(c: char) -> bool {
    c == '/' || c == '\\'
}

/// `segment` stands in `path` at position `at`, as a whole segment.
pub open spec fn segment_at(path: Seq<char>, segment: Seq<char>, at: int) -> bool {
    &&& 0 <= at
    &&& at + segment.len() <= path.len()
    &&& path.subrange(at, at + segment.len()) == segment
    &&& (at == 0 || is_separator(path[at - 1]))
    &&& (at + segment.len() == path.len() || is_separator(path[at + segment.len()]))
}

/// One of the segments of `path` is `segment`.
pub open spec fn has_segment(path: Seq<char>, segment: Seq<char>) -> bool {
    exists|at: int| segment_at(path, segment, at)
}

/// A path below a `node_modules` directory.
pub open spec fn vendor_path(path: Seq<char>) -> bool {
    has_segment(path, "node_modules"@)
}

fn is_separator_char(c: char) -> (r: bool)
    ensures
        r == is_separator(c),
{
    c == '/' || c == '\\'
}

/// Whether one of the segments of `path` is `segment`.
pub fn contains_segment(path: &str, segment: &str) -> (found: bool)
    ensures
        found == has_segment(path@, segment@),
{
    let p = chars_of(path);
    let s = chars_of(segment);
    if s.len() > p.len() {
        return false;
    }
    let last = p.len() - s.len();
    let mut at: usize = 0;
    loop
        invariant
            at <= last,
            last == p.len() - s.len(),
            s.len() <= p.len(),
            p@ == path@,
            s@ == segment@,
            forall|j: int| 0 <= j < at ==> !segment_at(path@, segment@, j),
        decreases last - at,
    {
        let starts = at == 0 || is_separator_char(p[at - 1]);
        let ends = at == last || is_separator_char(p[at + s.len()]);
        if starts && ends && matches_at(&p, &s, at) {
            assert(segment_at(path@, segment@, at as int));
            return true;
        }
        if at == last {
            return false;
        }
        at += 1;
    }
}

/// Whether a host path lies below a `node_modules` directory.
pub fn is_vendor_path(fs_path: &str) -> (vendor: bool)
    ensures
        vendor == vendor_path(fs_path@),
{
    contains_segment(fs_path, "node_modules")
}

} // verus!
