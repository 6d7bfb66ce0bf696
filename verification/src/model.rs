//! The universal vocabulary: coordinates, constraints, versions, dependencies,
//! what a source knows of a coordinate, and the verdict on each dependency.

use vstd::prelude::*;

verus! {

/// What uniquely names a thing to be versioned (a package name).
#[derive(Debug, Clone, PartialEq, Eq, Hash)]
pub struct Coordinate(pub String);

/// What the manifest asks for, such as `1.36` or `^1.2`.
#[derive(Debug, Clone, PartialEq, Eq, Hash)]
pub struct Constraint(pub String);

/// A single concrete release, such as `1.45.0`.
#[derive(Debug, Clone, PartialEq, Eq, Hash)]
pub struct Version(pub String);

/// Where a dependency sits in the manifest, as byte offsets.
#[derive(Debug, Clone, Copy, PartialEq, Eq, Hash)]
pub struct Span {
    pub start: usize,
    pub end: usize,
}

/// One declared requirement.
#[derive(Debug, Clone)]
pub struct Dependency {
    pub coordinate: Coordinate,
    pub constraint: Constraint,
    pub span: Option<Span>,
    pub source_hint: Option<String>,
    /// The manifest section that declared it, such as `dependencies`.
    pub section: Option<String>,
}

/// What a source returns for a coordinate.
#[derive(Debug, Clone)]
pub struct Availability {
    pub versions: Vec<VersionMetadata>,
}

/// A single version with its metadata.
#[derive(Debug, Clone)]
pub struct VersionMetadata {
    pub version: Version,
    pub yanked: bool,
    pub prerelease: bool,
}

/// The judgment on one dependency.
#[derive(Debug, Clone, PartialEq, Eq)]
pub enum Verdict {
    Current { latest: Version, latest_pre: Option<Version> },
    Outdated { compatible: Option<Version>, latest: Version, latest_pre: Option<Version> },
    Yanked,
    Unsatisfiable { constraint: Constraint },
    Errored(String),
}

/// The collected verdicts.
#[derive(Debug, Clone)]
pub struct Report {
    pub verdicts: Vec<(Dependency, Verdict)>,
}

impl Version {
    /// A fresh copy of this version.
    pub fn copy(&self) -> (r: Version)
        ensures
            r == *self,
    {
        Version(self.0.clone())
    }
}

impl Constraint {
    /// A fresh copy of this constraint.
    pub fn copy(&self) -> (r: Constraint)
        ensures
            r == *self,
    {
        Constraint(self.0.clone())
    }
}

impl Report {
    /// An empty report.
    pub fn new() -> (r: Report)
        ensures
            r.verdicts@ == Seq::<(Dependency, Verdict)>::empty(),
    {
        Report { verdicts: Vec::new() }
    }

    /// Appends the verdict on one dependency.
    pub fn push(&mut self, dependency: Dependency, verdict: Verdict)
        ensures
            final(self).verdicts@ == old(self).verdicts@.push((dependency, verdict)),
    {
        self.verdicts.push((dependency, verdict));
    }
}

impl Default for Report {
    fn default() -> (r: Report)
        ensures
            r.verdicts@ == Seq::<(Dependency, Verdict)>::empty(),
    {
        Report::new()
    }
}

} // verus!
