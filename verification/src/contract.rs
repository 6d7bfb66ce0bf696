//! The rules a version scheme answers: which version is newer, and which
//! versions satisfy a constraint.

use vstd::prelude::*;
use crate::model::{Constraint, Version};

verus! {

/// A version scheme: the rules for ordering versions and testing constraints.
pub trait Scheme: Send + Sync {
    /// Whether the version written `b` is strictly newer than the one written `a`.
    spec fn newer_spec(&self, a: Seq<char>, b: Seq<char>) -> bool;

    /// Whether the version written `version` satisfies the constraint written
    /// `constraint`.
    spec fn satisfies_spec(&self, version: Seq<char>, constraint: Seq<char>) -> bool;

    /// Returns true if `b` is strictly newer than `a`.
    fn is_newer(&self, a: &Version, b: &Version) -> (r: bool)
        ensures
            r == self.newer_spec(a.0@, b.0@),
    ;

    /// Returns true if `version` satisfies `constraint`.
    fn satisfies(&self, version: &Version, constraint: &Constraint) -> (r: bool)
        ensures
            r == self.satisfies_spec(version.0@, constraint.0@),
    ;
}

} // verus!
