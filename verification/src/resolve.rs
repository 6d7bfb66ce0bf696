//! The SemVer scheme, the version a constraint declares, and the verdict on a
//! dependency given the versions that exist.

use vstd::prelude::*;
use crate::candidates::{
    is_last_highest, last_highest, lemma_last_highest_unique, parsed_as, ranks_no_higher, texts_view,
};
use crate::contract::Scheme;
use crate::model::{Availability, Constraint, Dependency, Verdict, Version, VersionMetadata};
use crate::text::{chars_of, texts_equal};
use crate::versioning::{
    order_versions, req_matches, semver_order, semver_parse, semver_req_matches,
    semver_req_parse, semver_text, reparses, ParsedReq, ParsedVersion, ReqOp, SemVer,
};

verus! {

/// The SemVer scheme, as the `semver` crate parses, orders and matches.
pub struct SemverScheme;

impl Scheme for SemverScheme {
    /// Both texts parse and `b` orders after `a`.
    open spec fn newer_spec(&self, a: Seq<char>, b: Seq<char>) -> bool {
        &&& semver_parse(a) is Some
        &&& semver_parse(b) is Some
        &&& semver_order(b, a) > 0
    }

    /// The version and the requirement parse and the requirement matches.
    open spec fn satisfies_spec(&self, version: Seq<char>, constraint: Seq<char>) -> bool {
        &&& semver_parse(version) is Some
        &&& semver_req_parse(constraint) is Some
        &&& semver_req_matches(constraint, version)
    }

    /// No version is newer than itself, and of two versions at most one is
    /// newer than the other.
    fn is_newer(&self, a: &Version, b: &Version) -> (r: bool)
        ensures
            a.0@ == b.0@ ==> !r,
            r ==> !self.newer_spec(b.0@, a.0@),
    {
        match (ParsedVersion::parse(a.0.as_str()), ParsedVersion::parse(b.0.as_str())) {
            (Some(pa), Some(pb)) => order_versions(&pb, &pa) > 0,
            _ => false,
        }
    }

    fn satisfies(&self, version: &Version, constraint: &Constraint) -> (r: bool) {
        match (ParsedVersion::parse(version.0.as_str()), ParsedReq::parse(constraint.0.as_str())) {
            (Some(v), Some(req)) => req_matches(&req, &v),
            _ => false,
        }
    }
}

/// The version a list of comparators declares: the first comparator that is
/// not an upper bound (`<` or `<=`), with a missing minor or patch read as 0;
/// `0.0.0` where every comparator is an upper bound.
pub open spec fn declared_from(
    cs: Seq<(ReqOp, u64, Option<u64>, Option<u64>, Seq<char>)>,
) -> (u64, u64, u64, Seq<char>, Seq<char>)
    decreases cs.len(),
{
    if cs.len() == 0 {
        (0, 0, 0, Seq::<char>::empty(), Seq::<char>::empty())
    } else if cs[0].0 == ReqOp::Less || cs[0].0 == ReqOp::LessEq {
        declared_from(cs.drop_first())
    } else {
        (
            cs[0].1,
            match cs[0].2 { Some(m) => m, None => 0 },
            match cs[0].3 { Some(p) => p, None => 0 },
            cs[0].4,
            Seq::<char>::empty(),
        )
    }
}

/// The version a constraint declares; `None` where semver does not parse it
/// as a requirement.
pub open spec fn declared_spec(constraint: Seq<char>) -> Option<(u64, u64, u64, Seq<char>, Seq<char>)> {
    match semver_req_parse(constraint) {
        Some(cs) => Some(declared_from(cs)),
        None => None,
    }
}

/// The version a constraint declares, so that partial versions and ranges
/// become one comparable version: `1.36` gives `1.36.0`, `^1.2` gives `1.2.0`,
/// `>=1, <2` gives `1.0.0`.
pub fn declared_version(constraint: &str) -> (r: Option<SemVer>)
    ensures
        match r {
            Some(v) => declared_spec(constraint@) == Some(v@),
            None => declared_spec(constraint@) is None,
        },
        r matches Some(v) ==> semver_parse(semver_text(v@)) == Some(v@),
{
    let req = match ParsedReq::parse(constraint) {
        Some(req) => req,
        None => return None,
    };
    let cs = req.comparators();
    let ghost cv = crate::versioning::comparators_view(cs@);
    assert(reparses(Seq::<char>::empty()));
    assert(semver_req_parse(constraint@) == Some(cv));
    assert(forall|k: int| 0 <= k < cv.len() ==> #[trigger] reparses(cv[k].4));
    let n = cs.len();
    let mut i: usize = 0;
    assert(cv.skip(0) == cv);
    while i < n
        invariant
            n == cs.len(),
            cv == crate::versioning::comparators_view(cs@),
            i <= n,
            declared_spec(constraint@) == Some(declared_from(cv)),
            declared_from(cv) == declared_from(cv.skip(i as int)),
            reparses(Seq::<char>::empty()),
            forall|k: int| 0 <= k < cv.len() ==> #[trigger] reparses(cv[k].4),
        decreases n - i,
    {
        let c = &cs[i];
        assert(cv.skip(i as int)[0] == c@);
        if c.op != ReqOp::Less && c.op != ReqOp::LessEq {
            let minor = match c.minor { Some(m) => m, None => 0 };
            let patch = match c.patch { Some(p) => p, None => 0 };
            let pre = c.pre.clone();
            let build = String::new();
            assert(cv.skip(i as int).len() > 0);
            assert(declared_from(cv.skip(i as int)) == (c.major, minor, patch, pre@, build@));
            assert(cv[i as int] == c@);
            assert(reparses(cv[i as int].4));
            assert(build@ == Seq::<char>::empty());
            assert(semver_parse(semver_text((c.major, minor, patch, pre@, Seq::<char>::empty())))
                == Some((c.major, minor, patch, pre@, Seq::<char>::empty())));
            return Some(SemVer { major: c.major, minor, patch, pre, build });
        }
        assert(cv.skip(i as int).drop_first() == cv.skip(i + 1));
        i = i + 1;
    }
    let none = String::new();
    assert(semver_parse(semver_text((0u64, 0u64, 0u64, Seq::<char>::empty(), Seq::<char>::empty())))
        == Some((0u64, 0u64, 0u64, Seq::<char>::empty(), Seq::<char>::empty())));
    Some(SemVer { major: 0, minor: 0, patch: 0, pre: none, build: String::new() })
}

/// Whether bumping a dependency declared as `constraint` to `target` moves it
/// forward: where `target` is SemVer and the constraint declares a version,
/// `target` must order after the declared version; otherwise the texts must
/// differ.
pub open spec fn actual_upgrade_spec(constraint: Seq<char>, target: Seq<char>) -> bool {
    match declared_spec(constraint) {
        Some(b) if semver_parse(target) is Some => semver_order(target, semver_text(b)) > 0,
        _ => target != constraint,
    }
}

/// Whether writing `target` over `constraint` is an upgrade. The declared
/// version is compared through its SemVer text, which semver parses back to
/// the declared parts.
pub fn is_actual_upgrade(constraint: &str, target: &str) -> (r: bool)
    ensures
        r == actual_upgrade_spec(constraint@, target@),
{
    let parsed_target = ParsedVersion::parse(target);
    let base = declared_version(constraint);
    match (parsed_target, base) {
        (Some(t), Some(b)) => {
            let text = b.to_text();
            match ParsedVersion::parse(text.as_str()) {
                Some(pb) => order_versions(&t, &pb) > 0,
                None => {
                    assert(false);
                    false
                },
            }
        },
        _ => !texts_equal(target, constraint),
    }
}

/// The version texts of a list of version metadata.
pub open spec fn version_texts(vs: Seq<VersionMetadata>) -> Seq<Seq<char>> {
    vs.map_values(|m: VersionMetadata| m.version.0@)
}

/// A version is a candidate when it is not yanked, and is not a pre-release
/// unless pre-releases are included.
pub open spec fn is_candidate(m: VersionMetadata, include_prerelease: bool) -> bool {
    !m.yanked && (include_prerelease || !m.prerelease)
}

/// Which versions are candidates.
pub open spec fn candidate_flags(vs: Seq<VersionMetadata>, include_prerelease: bool) -> Seq<bool> {
    vs.map_values(|m: VersionMetadata| is_candidate(m, include_prerelease))
}

/// Which versions are candidates that satisfy the constraint.
pub open spec fn compatible_flags<S: Scheme + ?Sized>(
    vs: Seq<VersionMetadata>,
    include_prerelease: bool,
    scheme: &S,
    constraint: Seq<char>,
) -> Seq<bool> {
    vs.map_values(|m: VersionMetadata| is_candidate(m, include_prerelease) && scheme.satisfies_spec(m.version.0@, constraint))
}

/// Which versions are pre-releases, not yanked, that semver parses.
pub open spec fn prerelease_flags(vs: Seq<VersionMetadata>) -> Seq<bool> {
    vs.map_values(|m: VersionMetadata| !m.yanked && m.prerelease && semver_parse(m.version.0@) is Some)
}

/// Whether any flag is set.
pub open spec fn any_flag(flags: Seq<bool>) -> bool {
    exists|i: int| 0 <= i < flags.len() && flags[i]
}

/// The text of the last of the highest-ranking flagged versions; `None` where
/// none is flagged.
pub open spec fn highest_text(vs: Seq<VersionMetadata>, flags: Seq<bool>) -> Option<Seq<char>> {
    if exists|j: int| is_last_highest(version_texts(vs), flags, j) {
        Some(version_texts(vs)[choose|j: int| is_last_highest(version_texts(vs), flags, j)])
    } else {
        None
    }
}

/// The newest pre-release that orders after `latest`, where `latest` is
/// SemVer: the last of the highest pre-releases by semver's order.
pub open spec fn newer_prerelease(vs: Seq<VersionMetadata>, latest: Seq<char>) -> Option<Seq<char>> {
    match highest_text(vs, prerelease_flags(vs)) {
        Some(p) => if semver_parse(latest) is Some && semver_order(p, latest) > 0 { Some(p) } else { None },
        None => None,
    }
}

/// Whether some listed pre-release, not yanked and parsed by semver, orders
/// after `latest`, where `latest` is SemVer.
pub open spec fn prerelease_above(vs: Seq<VersionMetadata>, latest: Seq<char>) -> bool {
    &&& semver_parse(latest) is Some
    &&& exists|i: int| 0 <= i < vs.len() && #[trigger] prerelease_flags(vs)[i]
        && semver_order(vs[i].version.0@, latest) > 0
}

/// The text of the version a constraint declares: its SemVer text where
/// semver parses the constraint, else the constraint itself.
pub open spec fn declared_text(constraint: Seq<char>) -> Seq<char> {
    match declared_spec(constraint) {
        Some(v) => semver_text(v),
        None => constraint,
    }
}

/// The text of an optional version.
pub open spec fn opt_text(v: Option<Version>) -> Option<Seq<char>> {
    match v {
        Some(v) => Some(v.0@),
        None => None,
    }
}

/// What `resolve` answers for a dependency, given the versions that exist.
pub open spec fn resolved<S: Scheme + ?Sized>(
    r: Verdict,
    dependency: Dependency,
    vs: Seq<VersionMetadata>,
    scheme: &S,
    include_prerelease: bool,
) -> bool {
    let cands = candidate_flags(vs, include_prerelease);
    let constraint = dependency.constraint.0@;
    match r {
        Verdict::Unsatisfiable { constraint: c } => !any_flag(cands) && c == dependency.constraint,
        Verdict::Current { latest, latest_pre } => {
            &&& any_flag(cands)
            &&& highest_text(vs, cands) == Some(latest.0@)
            &&& !scheme.newer_spec(declared_text(constraint), latest.0@)
            &&& opt_text(latest_pre) == newer_prerelease(vs, latest.0@)
            &&& (latest_pre is Some <==> prerelease_above(vs, latest.0@))
        },
        Verdict::Outdated { compatible, latest, latest_pre } => {
            &&& any_flag(cands)
            &&& highest_text(vs, cands) == Some(latest.0@)
            &&& scheme.newer_spec(declared_text(constraint), latest.0@)
            &&& opt_text(compatible) == highest_text(vs, compatible_flags(vs, include_prerelease, scheme, constraint))
            &&& (compatible is None <==> !any_flag(compatible_flags(vs, include_prerelease, scheme, constraint)))
            &&& opt_text(latest_pre) == newer_prerelease(vs, latest.0@)
            &&& (latest_pre is Some <==> prerelease_above(vs, latest.0@))
        },
        _ => false,
    }
}

/// The text of the highest flagged version, found at `found`.
proof fn lemma_highest_found(vs: Seq<VersionMetadata>, flags: Seq<bool>, found: Option<usize>)
    requires
        flags.len() == vs.len(),
        found is None <==> forall|i: int| 0 <= i < flags.len() ==> !#[trigger] flags[i],
        found matches Some(j) ==> is_last_highest(version_texts(vs), flags, j as int),
    ensures
        match found {
            Some(j) => highest_text(vs, flags) == Some(version_texts(vs)[j as int]),
            None => highest_text(vs, flags) is None,
        },
{
    match found {
        Some(j) => {
            assert(flags[j as int]);
            let k = choose|k: int| is_last_highest(version_texts(vs), flags, k);
            lemma_last_highest_unique(version_texts(vs), flags, j as int, k);
        },
        None => {},
    }
}

/// The verdict on `dependency` given what exists of it. Yanked versions are
/// never candidates, pre-releases only where `include_prerelease` holds.
/// Candidates rank as semver orders them, above those semver cannot parse;
/// `latest` is the highest, `compatible` the highest that satisfies the
/// constraint, and `latest_pre` the highest pre-release that is newer than
/// `latest`. The dependency is outdated where the scheme finds `latest`
/// newer than the version its constraint declares.
pub fn resolve<S: Scheme + ?Sized>(
    dependency: &Dependency,
    availability: &Availability,
    scheme: &S,
    include_prerelease: bool,
) -> (r: Verdict)
    ensures
        resolved(r, *dependency, availability.versions@, scheme, include_prerelease),
{
    let vs = &availability.versions;
    let ghost vsv = vs@;
    let ghost constraint = dependency.constraint.0@;
    let n = vs.len();
    let mut parsed: Vec<Option<ParsedVersion>> = Vec::new();
    let mut texts: Vec<Vec<char>> = Vec::new();
    let mut cands: Vec<bool> = Vec::new();
    let mut compat: Vec<bool> = Vec::new();
    let mut pres: Vec<bool> = Vec::new();
    for i in 0..n
        invariant
            n == vs.len(),
            vsv == vs@,
            constraint == dependency.constraint.0@,
            parsed.len() == i,
            texts.len() == i,
            cands.len() == i,
            compat.len() == i,
            pres.len() == i,
            forall|k: int| 0 <= k < i ==> parsed_as(#[trigger] parsed@[k], texts@[k]@),
            forall|k: int| 0 <= k < i ==> #[trigger] texts@[k]@ == vsv[k].version.0@,
            forall|k: int| 0 <= k < i ==> #[trigger] cands@[k] == is_candidate(vsv[k], include_prerelease),
            forall|k: int| 0 <= k < i ==> #[trigger] compat@[k] == (is_candidate(vsv[k], include_prerelease) && scheme.satisfies_spec(vsv[k].version.0@, constraint)),
            forall|k: int| 0 <= k < i ==> #[trigger] pres@[k] == (!vsv[k].yanked && vsv[k].prerelease && semver_parse(vsv[k].version.0@) is Some),
    {
        let m = &vs[i];
        let p = ParsedVersion::parse(m.version.0.as_str());
        let is_cand = !m.yanked && (include_prerelease || !m.prerelease);
        let is_compat = is_cand && scheme.satisfies(&m.version, &dependency.constraint);
        let is_pre = !m.yanked && m.prerelease && p.is_some();
        texts.push(chars_of(m.version.0.as_str()));
        parsed.push(p);
        cands.push(is_cand);
        compat.push(is_compat);
        pres.push(is_pre);
    }
    proof {
        assert(texts_view(texts@) == version_texts(vsv));
        assert(cands@ == candidate_flags(vsv, include_prerelease));
        assert(compat@ == compatible_flags(vsv, include_prerelease, scheme, constraint));
        assert(pres@ == prerelease_flags(vsv));
    }
    let top = last_highest(&parsed, &texts, &cands);
    proof {
        lemma_highest_found(vsv, cands@, top);
    }
    let j = match top {
        Some(j) => j,
        None => {
            return Verdict::Unsatisfiable { constraint: dependency.constraint.copy() };
        },
    };
    let latest = vs[j].version.copy();
    let top_compat = last_highest(&parsed, &texts, &compat);
    proof {
        lemma_highest_found(vsv, compat@, top_compat);
    }
    let compatible = match top_compat {
        Some(c) => Some(vs[c].version.copy()),
        None => None,
    };
    let top_pre = last_highest(&parsed, &texts, &pres);
    proof {
        lemma_highest_found(vsv, pres@, top_pre);
    }
    let latest_pre = match top_pre {
        Some(p) => {
            proof {
                assert(pres@[p as int]);
                assert(parsed_as(parsed@[p as int], texts@[p as int]@));
                assert(parsed_as(parsed@[j as int], texts@[j as int]@));
            }
            match (&parsed[p], &parsed[j]) {
                (Some(pp), Some(pl)) => {
                    let o = order_versions(pp, pl);
                    if o > 0 {
                        Some(vs[p].version.copy())
                    } else {
                        proof {
                            let ts = version_texts(vsv);
                            assert forall|i: int| 0 <= i < vsv.len() && #[trigger] prerelease_flags(vsv)[i]
                                implies semver_order(vsv[i].version.0@, latest.0@) <= 0 by {
                                assert(pres@[i]);
                                assert(ranks_no_higher(ts[i], ts[p as int]));
                                assert(ts[i] == vsv[i].version.0@);
                                assert(semver_order(ts[i], pp@) <= 0);
                            }
                        }
                        None
                    }
                },
                _ => None,
            }
        },
        None => None,
    };
    let declared = match declared_version(dependency.constraint.0.as_str()) {
        Some(v) => Version(v.to_text()),
        None => Version(dependency.constraint.0.clone()),
    };
    if scheme.is_newer(&declared, &latest) {
        Verdict::Outdated { compatible, latest, latest_pre }
    } else {
        Verdict::Current { latest, latest_pre }
    }
}

} // verus!
