//! The guard against request paths that climb out of the served directory.

use vstd::prelude::*;

verus! {

/// What the server serves for a request.
#[derive(Debug, Clone, Copy, PartialEq, Eq, Structural)]
pub enum Served {
    /// The path that the request names, below the root.
    Requested,
    /// The root itself, in place of a path that left it.
    Root,
}

/// Has a path of `candidate_depth` components left a root of `root_depth`
/// components? Both are counted on the canonical form of the path.
pub open spec fn escapes(root_depth: nat, candidate_depth: nat) -> bool {
    candidate_depth < root_depth
}

/// Decides what to serve from the number of components of the canonical root
/// and of the canonical requested path: a path with fewer components than the
/// root has left it, and the root is served instead.
pub fn guard(root_depth: usize, candidate_depth: usize) -> (r: Served)
    ensures
        escapes(root_depth as nat, candidate_depth as nat) ==> r == Served::Root,
        !escapes(root_depth as nat, candidate_depth as nat) ==> r == Served::Requested,
{
    if !(root_depth <= candidate_depth) {
        Served::Root
    } else {
        Served::Requested
    }
}

} // verus!
