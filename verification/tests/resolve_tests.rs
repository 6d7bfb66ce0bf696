use ud::model::{Availability, Constraint, Coordinate, Dependency, Span, Verdict, Version, VersionMetadata};
use ud::resolve::{declared_version, is_actual_upgrade, resolve, SemverScheme};
use ud::contract::Scheme;
use ud::versioning::parse_semver;

fn meta(v: &str, yanked: bool, prerelease: bool) -> VersionMetadata {
    VersionMetadata { version: Version(v.into()), yanked, prerelease }
}

#[test]
fn test_declared_version() {
    assert_eq!(declared_version("1.36").unwrap(), parse_semver("1.36.0").unwrap());
    assert_eq!(declared_version("^1.2").unwrap(), parse_semver("1.2.0").unwrap());
    assert_eq!(declared_version(">=1, <2").unwrap(), parse_semver("1.0.0").unwrap());
    assert_eq!(declared_version("=2.3.4").unwrap(), parse_semver("2.3.4").unwrap());
    assert_eq!(declared_version("<2").unwrap(), parse_semver("0.0.0").unwrap());
}

#[test]
fn test_resolve_partial_version() {
    let dep = Dependency {
        coordinate: Coordinate("tokio".into()),
        constraint: Constraint("1.36".into()),
        span: Some(Span { start: 0, end: 0 }),
        source_hint: None,
        section: None,
    };
    let avail = Availability { versions: vec![meta("1.36.0", false, false), meta("1.45.0", false, false)] };
    let verdict = resolve(&dep, &avail, &SemverScheme, false);
    assert_eq!(
        verdict,
        Verdict::Outdated {
            compatible: Some(Version("1.45.0".into())),
            latest: Version("1.45.0".into()),
            latest_pre: None,
        }
    );
}

#[test]
fn test_resolve_compatible_and_breaking() {
    let dep = Dependency {
        coordinate: Coordinate("serde".into()),
        constraint: Constraint("^1.2".into()),
        span: Some(Span { start: 0, end: 0 }),
        source_hint: None,
        section: None,
    };
    let avail = Availability {
        versions: vec![meta("1.2.0", false, false), meta("1.9.0", false, false), meta("2.0.0", false, false)],
    };
    // latest is 2.0.0, but compatible (satisfying ^1.2) is 1.9.0
    let verdict = resolve(&dep, &avail, &SemverScheme, false);
    assert_eq!(
        verdict,
        Verdict::Outdated {
            compatible: Some(Version("1.9.0".into())),
            latest: Version("2.0.0".into()),
            latest_pre: None,
        }
    );
}

#[test]
fn test_resolve_prerelease() {
    let dep = Dependency {
        coordinate: Coordinate("foo".into()),
        constraint: Constraint("^1.9".into()),
        span: Some(Span { start: 0, end: 0 }),
        source_hint: None,
        section: None,
    };
    let avail = Availability { versions: vec![meta("1.9.0", false, false), meta("2.0.0-rc.1", false, true)] };

    // Excludes prerelease by default
    assert_eq!(
        resolve(&dep, &avail, &SemverScheme, false),
        Verdict::Current {
            latest: Version("1.9.0".into()),
            latest_pre: Some(Version("2.0.0-rc.1".into())),
        }
    );

    // Includes prerelease when opted in: 2.0.0-rc.1 is the latest overall,
    // but 1.9.0 still satisfies ^1.9 so it is the compatible target.
    assert_eq!(
        resolve(&dep, &avail, &SemverScheme, true),
        Verdict::Outdated {
            compatible: Some(Version("1.9.0".into())),
            latest: Version("2.0.0-rc.1".into()),
            latest_pre: None,
        }
    );
}

#[test]
fn test_resolve_0x_breaking() {
    // For 0.x crates, minor bumps are breaking under semver caret rules
    let dep = Dependency {
        coordinate: Coordinate("tower".into()),
        constraint: Constraint("^0.4.13".into()),
        span: None,
        source_hint: None,
        section: None,
    };
    let avail = Availability {
        versions: vec![meta("0.4.13", false, false), meta("0.4.15", false, false), meta("0.5.2", false, false)],
    };
    let verdict = resolve(&dep, &avail, &SemverScheme, false);
    assert_eq!(
        verdict,
        Verdict::Outdated {
            compatible: Some(Version("0.4.15".into())),
            latest: Version("0.5.2".into()),
            latest_pre: None,
        }
    );
}

fn plain_dep(name: &str, constraint: &str) -> Dependency {
    Dependency {
        coordinate: Coordinate(name.into()),
        constraint: Constraint(constraint.into()),
        span: None,
        source_hint: None,
        section: None,
    }
}

#[test]
fn resolve_without_candidates_is_unsatisfiable() {
    let dep = plain_dep("yanked-dep", "1.0.0");
    let avail = Availability { versions: vec![meta("1.0.0", true, false)] };
    assert_eq!(
        resolve(&dep, &avail, &SemverScheme, false),
        Verdict::Unsatisfiable { constraint: Constraint("1.0.0".into()) }
    );
    let empty = Availability { versions: vec![] };
    assert_eq!(
        resolve(&dep, &empty, &SemverScheme, false),
        Verdict::Unsatisfiable { constraint: Constraint("1.0.0".into()) }
    );
}

#[test]
fn resolve_current_when_declared_is_latest() {
    let dep = plain_dep("current-dep", "2.0.0");
    let avail = Availability { versions: vec![meta("2.0.0", false, false)] };
    assert_eq!(
        resolve(&dep, &avail, &SemverScheme, false),
        Verdict::Current { latest: Version("2.0.0".into()), latest_pre: None }
    );
}

#[test]
fn resolve_ranks_by_semver_not_by_listing_order() {
    // 1.10.0 is newer than 1.9.0 although it sorts first as a string and is listed first.
    let dep = plain_dep("x", "^1.0");
    let avail = Availability {
        versions: vec![meta("1.10.0", false, false), meta("1.9.0", false, false), meta("1.2.0", true, false)],
    };
    assert_eq!(
        resolve(&dep, &avail, &SemverScheme, false),
        Verdict::Outdated {
            compatible: Some(Version("1.10.0".into())),
            latest: Version("1.10.0".into()),
            latest_pre: None,
        }
    );
}

#[test]
fn resolve_ranks_unparsable_versions_lowest() {
    let dep = plain_dep("x", "1.0.0");
    let avail = Availability {
        versions: vec![meta("zzz", false, false), meta("1.0.0", false, false), meta("abc", false, false)],
    };
    assert_eq!(
        resolve(&dep, &avail, &SemverScheme, false),
        Verdict::Current { latest: Version("1.0.0".into()), latest_pre: None }
    );
    let only_text = Availability { versions: vec![meta("abc", false, false), meta("zzz", false, false)] };
    assert_eq!(
        resolve(&dep, &only_text, &SemverScheme, false),
        Verdict::Current { latest: Version("zzz".into()), latest_pre: None }
    );
}

#[test]
fn resolve_without_compatible_version() {
    let dep = plain_dep("x", "=1.0.0");
    let avail = Availability { versions: vec![meta("2.0.0", false, false)] };
    assert_eq!(
        resolve(&dep, &avail, &SemverScheme, false),
        Verdict::Outdated { compatible: None, latest: Version("2.0.0".into()), latest_pre: None }
    );
}

#[test]
fn yanked_prerelease_is_never_reported() {
    let dep = plain_dep("x", "1.0.0");
    let avail = Availability { versions: vec![meta("1.0.0", false, false), meta("1.1.0-alpha.1", true, true)] };
    assert_eq!(
        resolve(&dep, &avail, &SemverScheme, false),
        Verdict::Current { latest: Version("1.0.0".into()), latest_pre: None }
    );
}

#[test]
fn scheme_newer_and_satisfies() {
    let s = SemverScheme;
    assert!(s.is_newer(&Version("1.0.0".into()), &Version("1.0.1".into())));
    assert!(!s.is_newer(&Version("1.0.1".into()), &Version("1.0.0".into())));
    assert!(!s.is_newer(&Version("1.0.0".into()), &Version("1.0.0".into())));
    assert!(!s.is_newer(&Version("junk".into()), &Version("1.0.0".into())));
    assert!(s.satisfies(&Version("1.4.0".into()), &Constraint("^1.2".into())));
    assert!(!s.satisfies(&Version("2.0.0".into()), &Constraint("^1.2".into())));
    assert!(!s.satisfies(&Version("junk".into()), &Constraint("^1.2".into())));
}

#[test]
fn actual_upgrade_cases() {
    assert!(is_actual_upgrade("1.0.0", "1.0.219"));
    assert!(!is_actual_upgrade("1.36", "1.36.0"));
    assert!(is_actual_upgrade("^0.4.13", "0.4.15"));
    assert!(!is_actual_upgrade("^0.4.13", "0.4.13"));
    // Not SemVer: only a different text counts as an upgrade.
    assert!(is_actual_upgrade("abc", "abd"));
    assert!(!is_actual_upgrade("abc", "abc"));
}

#[test]
fn declared_version_keeps_prerelease_and_rejects_junk() {
    let v = declared_version("=1.2.3-beta.1").unwrap();
    assert_eq!(v.to_text(), "1.2.3-beta.1");
    assert_eq!(declared_version("not a version"), None);
}
