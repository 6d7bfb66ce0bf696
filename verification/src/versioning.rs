//! SemVer versions and requirements, as the `semver` crate parses, orders
//! and matches them, held as plain values.

use vstd::prelude::*;
use crate::text::{decimal, decimal_chars, extend_chars, extend_str, string_of};
use semver::Version as SemverVersion;
use semver::VersionReq as SemverRequirement;

verus! {

#[verifier::external_type_specification]
#[verifier::external_body]
pub struct ExSemverVersion(SemverVersion);

#[verifier::external_type_specification]
#[verifier::external_body]
pub struct ExSemverVersionReq(SemverRequirement);

/// Whether semver ranks no two different texts it parses equal, nor each
/// below the other: `Version`'s order compares every part, and its parse
/// reads each text in one way only.
pub open spec fn semver_order_strict() -> bool {
    forall|a: Seq<char>, b: Seq<char>|
        semver_parse(a) is Some && semver_parse(b) is Some && #[trigger] semver_order(a, b) <= 0
            && semver_order(b, a) <= 0 ==> a == b
}

/// The parts of a SemVer version: major, minor, patch, pre-release and build
/// metadata.
#[derive(Debug, Clone, PartialEq, Eq)]
pub struct SemVer {
    pub major: u64,
    pub minor: u64,
    pub patch: u64,
    pub pre: String,
    pub build: String,
}

impl View for SemVer {
    type V = (u64, u64, u64, Seq<char>, Seq<char>);

    open spec fn view(&self) -> (u64, u64, u64, Seq<char>, Seq<char>) {
        (self.major, self.minor, self.patch, self.pre@, self.build@)
    }
}

/// What `semver::Version::parse` gives for a text, by its parts: `None` where
/// it fails.
pub uninterp spec fn semver_parse(text: Seq<char>) -> Option<(u64, u64, u64, Seq<char>, Seq<char>)>;

/// How `semver::Version::cmp` orders the versions parsed from two texts:
/// -1, 0 or 1.
pub uninterp spec fn semver_order(a: Seq<char>, b: Seq<char>) -> int;

/// The comparators of the requirement that `semver::VersionReq::parse` gives
/// for a text, by their parts: `None` where it fails.
pub uninterp spec fn semver_req_parse(text: Seq<char>) -> Option<Seq<(ReqOp, u64, Option<u64>, Option<u64>, Seq<char>)>>;

/// Whether `semver::VersionReq::matches` accepts the version parsed from
/// `version` under the requirement parsed from `req`.
pub uninterp spec fn semver_req_matches(req: Seq<char>, version: Seq<char>) -> bool;

/// The text `semver::Version`'s `Display` writes for these parts:
/// `major.minor.patch`, then `-pre` and `+build` where they are not empty.
pub open spec fn semver_text(v: (u64, u64, u64, Seq<char>, Seq<char>)) -> Seq<char> {
    decimal(v.0 as nat) + seq!['.'] + decimal(v.1 as nat) + seq!['.'] + decimal(v.2 as nat)
        + (if v.3.len() == 0 { Seq::<char>::empty() } else { seq!['-'] + v.3 })
        + (if v.4.len() == 0 { Seq::<char>::empty() } else { seq!['+'] + v.4 })
}

impl SemVer {
    /// The text of this version, as SemVer writes it.
    pub fn to_text(&self) -> (r: String)
        ensures
            r@ == semver_text(self@),
    {
        let mut cs = decimal_chars(self.major);
        cs.push('.');
        let minor = decimal_chars(self.minor);
        extend_chars(&mut cs, &minor);
        cs.push('.');
        let patch = decimal_chars(self.patch);
        extend_chars(&mut cs, &patch);
        let ghost base = cs@;
        if !self.pre.as_str().is_empty() {
            cs.push('-');
            extend_str(&mut cs, self.pre.as_str());
        }
        let ghost with_pre = cs@;
        if !self.build.as_str().is_empty() {
            cs.push('+');
            extend_str(&mut cs, self.build.as_str());
        }
        proof {
            assert(self.pre@.len() == 0 ==> with_pre == base);
            assert(self.pre@.len() != 0 ==> with_pre == base + (seq!['-'] + self.pre@));
        }
        string_of(&cs)
    }
}

/// A comparison operator of a SemVer requirement.
#[derive(Debug, Clone, Copy, PartialEq, Eq, Structural)]
pub enum ReqOp {
    Exact,
    Greater,
    GreaterEq,
    Less,
    LessEq,
    Tilde,
    Caret,
    Wildcard,
    /// An operator that a later `semver` adds.
    Unknown,
}

/// One comparator of a requirement: an operator and a partial version.
#[derive(Debug, Clone, PartialEq, Eq)]
pub struct ReqComparator {
    pub op: ReqOp,
    pub major: u64,
    pub minor: Option<u64>,
    pub patch: Option<u64>,
    pub pre: String,
}

impl View for ReqComparator {
    type V = (ReqOp, u64, Option<u64>, Option<u64>, Seq<char>);

    open spec fn view(&self) -> (ReqOp, u64, Option<u64>, Option<u64>, Seq<char>) {
        (self.op, self.major, self.minor, self.patch, self.pre@)
    }
}

/// The views of a list of comparators.
pub open spec fn comparators_view(cs: Seq<ReqComparator>) -> Seq<(ReqOp, u64, Option<u64>, Option<u64>, Seq<char>)> {
    cs.map_values(|c: ReqComparator| c@)
}

/// Whether every version text with the pre-release part `pre` and no build
/// metadata, as `semver::Version`'s `Display` writes it, parses back to its
/// parts.
pub open spec fn reparses(pre: Seq<char>) -> bool {
    forall|a: u64, b: u64, c: u64|
        #[trigger] semver_parse(semver_text((a, b, c, pre, Seq::<char>::empty())))
            == Some((a, b, c, pre, Seq::<char>::empty()))
}

/// A text that `semver` parsed as a version, with its parts.
pub struct ParsedVersion {
    text: String,
    parts: SemVer,
    raw: SemverVersion,
}

impl View for ParsedVersion {
    type V = Seq<char>;

    closed spec fn view(&self) -> Seq<char> {
        self.text@
    }
}

impl ParsedVersion {
    #[verifier::type_invariant]
    closed spec fn parsed(self) -> bool {
        semver_parse(self.text@) == Some(self.parts@)
    }

    /// Parses `text` with `semver::Version::parse`, keeping its parts as plain
    /// values; `None` where that parse fails.
    #[verifier::external_body]
    pub(crate) fn parse(text: &str) -> (r: Option<ParsedVersion>)
        ensures
            r is Some <==> semver_parse(text@) is Some,
            r matches Some(p) ==> p@ == text@,
    {
        match SemverVersion::parse(text) {
            Ok(v) => Some(ParsedVersion {
                text: text.to_string(),
                parts: SemVer {
                    major: v.major,
                    minor: v.minor,
                    patch: v.patch,
                    pre: v.pre.as_str().to_string(),
                    build: v.build.as_str().to_string(),
                },
                raw: v,
            }),
            Err(_) => None,
        }
    }

    /// The parts of this version.
    pub fn parts(&self) -> (r: &SemVer)
        ensures
            semver_parse(self@) == Some(r@),
    {
        proof {
            use_type_invariant(self);
        }
        &self.parts
    }
}

/// A text that `semver` parsed as a requirement, with its comparators.
pub struct ParsedReq {
    text: String,
    comparators: Vec<ReqComparator>,
    raw: SemverRequirement,
}

impl View for ParsedReq {
    type V = Seq<char>;

    closed spec fn view(&self) -> Seq<char> {
        self.text@
    }
}

impl ParsedReq {
    #[verifier::type_invariant]
    closed spec fn parsed(self) -> bool {
        semver_req_parse(self.text@) == Some(comparators_view(self.comparators@))
    }

    /// Parses `text` with `semver::VersionReq::parse`, keeping its comparators
    /// as plain values; `None` where that parse fails. A comparator's
    /// pre-release part is read by the same routine as a version's
    /// (`prerelease_identifier`), so a version text written with it, or with
    /// none, and any numbers, as `Version`'s `Display` writes it, parses back
    /// to those parts.
    #[verifier::external_body]
    pub(crate) fn parse(text: &str) -> (r: Option<ParsedReq>)
        ensures
            r is Some <==> semver_req_parse(text@) is Some,
            r matches Some(p) ==> p@ == text@,
            r is Some ==> reparses(Seq::<char>::empty()),
            r is Some ==> forall|i: int| 0 <= i < semver_req_parse(text@)->Some_0.len()
                ==> #[trigger] reparses(semver_req_parse(text@)->Some_0[i].4),
    {
        let raw = SemverRequirement::parse(text).ok()?;
        let comparators = raw.comparators.iter().map(|c| ReqComparator {
            op: match c.op { semver::Op::Exact => ReqOp::Exact, semver::Op::Greater => ReqOp::Greater,
                semver::Op::GreaterEq => ReqOp::GreaterEq, semver::Op::Less => ReqOp::Less,
                semver::Op::LessEq => ReqOp::LessEq, semver::Op::Tilde => ReqOp::Tilde,
                semver::Op::Caret => ReqOp::Caret, semver::Op::Wildcard => ReqOp::Wildcard, _ => ReqOp::Unknown },
            major: c.major, minor: c.minor, patch: c.patch, pre: c.pre.as_str().to_string(),
        }).collect();
        Some(ParsedReq { text: text.to_string(), comparators, raw })
    }

    /// The comparators of this requirement.
    pub fn comparators(&self) -> (r: &Vec<ReqComparator>)
        ensures
            semver_req_parse(self@) == Some(comparators_view(r@)),
    {
        proof {
            use_type_invariant(self);
        }
        &self.comparators
    }
}

/// Whether `semver::VersionReq::matches` accepts `v` under `req`.
#[verifier::external_body]
pub(crate) fn req_matches(req: &ParsedReq, v: &ParsedVersion) -> (r: bool)
    ensures
        r == semver_req_matches(req@, v@),
{
    req.raw.matches(&v.raw)
}

/// How `semver::Version::cmp` orders `a` and `b`: -1, 0 or 1. Besides the
/// value, the contract states what std's `Ord` documentation asks of every
/// implementation and semver's derived one keeps: swapping the arguments
/// reverses the order, and "not after" is transitive through `a` and `b`.
#[verifier::external_body]
pub(crate) fn order_versions(a: &ParsedVersion, b: &ParsedVersion) -> (r: i8)
    ensures
        r == semver_order(a@, b@),
        -1 <= r <= 1,
        r == -semver_order(b@, a@),
        forall|c: Seq<char>|
            #![trigger semver_order(b@, c)]
            semver_parse(c) is Some && r <= 0 && semver_order(b@, c) <= 0 ==> semver_order(a@, c) <= 0,
        forall|c: Seq<char>|
            #![trigger semver_order(c, a@)]
            semver_parse(c) is Some && semver_order(c, a@) <= 0 && r <= 0 ==> semver_order(c, b@) <= 0,
{
    match a.raw.cmp(&b.raw) {
        std::cmp::Ordering::Less => -1,
        std::cmp::Ordering::Equal => 0,
        std::cmp::Ordering::Greater => 1,
    }
}

/// Parses `text` as a SemVer version and gives its parts; `None` where semver
/// refuses it.
pub fn parse_semver(text: &str) -> (r: Option<SemVer>)
    ensures
        match r {
            Some(v) => semver_parse(text@) == Some(v@),
            None => semver_parse(text@) is None,
        },
{
    match ParsedVersion::parse(text) {
        Some(p) => {
            let parts = p.parts();
            Some(SemVer {
                major: parts.major,
                minor: parts.minor,
                patch: parts.patch,
                pre: parts.pre.clone(),
                build: parts.build.clone(),
            })
        },
        None => None,
    }
}

} // verus!

verus! {

/// Whether the text parses as a SemVer version with a pre-release part.
pub open spec fn is_prerelease_spec(version: Seq<char>) -> bool {
    semver_parse(version) matches Some(v) && v.3.len() > 0
}

/// Returns true if `version` parses as SemVer and carries a pre-release part.
pub fn is_prerelease(version: &str) -> (r: bool)
    ensures
        r == is_prerelease_spec(version@),
{
    match ParsedVersion::parse(version) {
        Some(p) => !p.parts().pre.as_str().is_empty(),
        None => false,
    }
}

} // verus!
