use ud::index::{availability_from_entries, http_error_message, index_lines, index_status, IndexStatus};
use ud::manifest::read_manifest;
use ud::model::{Availability, Constraint, Coordinate, Dependency, Report, Verdict, Version};
use ud::pipeline::{any_outdated, exit_code, first_detected, plan_updates, should_update, verdict_for, write_updates};
use ud::resolve::SemverScheme;

/// The availability a sparse-index body lists, parsed line by line.
fn listed(body: &str) -> Availability {
    let mut entries = Vec::new();
    for line in index_lines(body) {
        let v: serde_json::Value = serde_json::from_str(&line).unwrap();
        entries.push((v["vers"].as_str().unwrap().to_string(), v["yanked"].as_bool().unwrap()));
    }
    availability_from_entries(entries)
}

/// What the source answers for a coordinate, given the status and body the
/// index would send.
fn fetched(name: &str, status: u16, reason: &str, body: &str) -> Result<Availability, String> {
    match index_status(status) {
        IndexStatus::NotFound => Ok(Availability { versions: vec![] }),
        IndexStatus::Failed => Err(http_error_message(&format!("{status} {reason}"), name)),
        IndexStatus::Listed => Ok(listed(body)),
    }
}

fn run(manifest: &str, index: &[(&str, u16, &str, &str)]) -> Report {
    let deps = read_manifest(manifest).unwrap();
    let mut report = Report::new();
    for dep in deps {
        let (_, status, reason, body) = index.iter().find(|(n, ..)| *n == dep.coordinate.0).unwrap();
        let verdict = verdict_for(&dep, fetched(&dep.coordinate.0, *status, reason, body), &SemverScheme, false);
        report.push(dep, verdict);
    }
    report
}

fn verdict_of<'a>(report: &'a Report, name: &str) -> &'a Verdict {
    &report.verdicts.iter().find(|(d, _)| d.coordinate.0 == name).unwrap().1
}

#[test]
fn test_mocked_source() {
    let body = r#"{"name":"test-dep","vers":"1.0.0","deps":[],"cksum":"123","features":{},"yanked":false}
{"name":"test-dep","vers":"1.1.0","deps":[],"cksum":"456","features":{},"yanked":false}
{"name":"test-dep","vers":"1.2.0-alpha.1","deps":[],"cksum":"789","features":{},"yanked":false}
{"name":"test-dep","vers":"1.1.5","deps":[],"cksum":"aaa","features":{},"yanked":true}
"#;
    let availability = fetched("test-dep", 200, "OK", body).unwrap();

    assert_eq!(availability.versions.len(), 4);

    let v_1_0_0 = &availability.versions[0];
    assert_eq!(v_1_0_0.version.0, "1.0.0");
    assert!(!v_1_0_0.yanked);
    assert!(!v_1_0_0.prerelease);

    let v_1_1_0 = &availability.versions[1];
    assert_eq!(v_1_1_0.version.0, "1.1.0");
    assert!(!v_1_1_0.yanked);
    assert!(!v_1_1_0.prerelease);

    let v_1_2_0 = &availability.versions[2];
    assert_eq!(v_1_2_0.version.0, "1.2.0-alpha.1");
    assert!(!v_1_2_0.yanked);
    assert!(v_1_2_0.prerelease);

    let v_1_1_5 = &availability.versions[3];
    assert_eq!(v_1_1_5.version.0, "1.1.5");
    assert!(v_1_1_5.yanked);
    assert!(!v_1_1_5.prerelease);
}

#[test]
fn test_pipeline_offline_mocked() {
    let manifest = r#"
[dependencies]
test-dep = "1.0.0"
breaking-dep = "0.4.0"
current-dep = "2.0.0"
yanked-dep = "1.0.0"
"#;
    let index = [
        ("test-dep", 200, "OK", "{\"name\":\"test-dep\",\"vers\":\"1.0.0\",\"deps\":[],\"cksum\":\"1\",\"features\":{},\"yanked\":false}\n{\"name\":\"test-dep\",\"vers\":\"1.1.0\",\"deps\":[],\"cksum\":\"2\",\"features\":{},\"yanked\":false}\n"),
        ("breaking-dep", 200, "OK", "{\"name\":\"breaking-dep\",\"vers\":\"0.4.0\",\"deps\":[],\"cksum\":\"3\",\"features\":{},\"yanked\":false}\n{\"name\":\"breaking-dep\",\"vers\":\"0.5.0\",\"deps\":[],\"cksum\":\"4\",\"features\":{},\"yanked\":false}\n"),
        ("current-dep", 200, "OK", "{\"name\":\"current-dep\",\"vers\":\"2.0.0\",\"deps\":[],\"cksum\":\"5\",\"features\":{},\"yanked\":false}\n"),
        ("yanked-dep", 200, "OK", "{\"name\":\"yanked-dep\",\"vers\":\"1.0.0\",\"deps\":[],\"cksum\":\"6\",\"features\":{},\"yanked\":true}\n"),
    ];
    let report = run(manifest, &index);
    assert_eq!(report.verdicts.len(), 4);
    assert_eq!(
        *verdict_of(&report, "test-dep"),
        Verdict::Outdated {
            compatible: Some(Version("1.1.0".to_string())),
            latest: Version("1.1.0".to_string()),
            latest_pre: None,
        }
    );
    assert_eq!(
        *verdict_of(&report, "breaking-dep"),
        Verdict::Outdated {
            compatible: Some(Version("0.4.0".to_string())),
            latest: Version("0.5.0".to_string()),
            latest_pre: None,
        }
    );
    assert_eq!(
        *verdict_of(&report, "current-dep"),
        Verdict::Current { latest: Version("2.0.0".to_string()), latest_pre: None }
    );
    assert_eq!(
        *verdict_of(&report, "yanked-dep"),
        Verdict::Unsatisfiable { constraint: Constraint("1.0.0".to_string()) }
    );
}

#[test]
fn test_pipeline_offline_breadth() {
    let manifest = r#"
[workspace.dependencies]
ws-dep = "1.0.0"

[target.'cfg(target_os = "linux")'.dependencies]
linux-dep = "0.1.0"

[dependencies]
err-dep = "1.0.0"
missing-dep = "2.0.0"
"#;
    let index = [
        ("ws-dep", 200, "OK", "{\"name\":\"ws-dep\",\"vers\":\"1.0.0\",\"yanked\":false}\n{\"name\":\"ws-dep\",\"vers\":\"1.2.0\",\"yanked\":false}\n"),
        ("linux-dep", 200, "OK", "{\"name\":\"linux-dep\",\"vers\":\"0.1.0\",\"yanked\":false}\n{\"name\":\"linux-dep\",\"vers\":\"0.1.5\",\"yanked\":false}\n"),
        ("err-dep", 500, "Internal Server Error", ""),
        ("missing-dep", 404, "Not Found", ""),
    ];
    let report = run(manifest, &index);
    assert_eq!(report.verdicts.len(), 4);
    assert_eq!(
        *verdict_of(&report, "ws-dep"),
        Verdict::Outdated {
            compatible: Some(Version("1.2.0".to_string())),
            latest: Version("1.2.0".to_string()),
            latest_pre: None,
        }
    );
    assert_eq!(
        *verdict_of(&report, "linux-dep"),
        Verdict::Outdated {
            compatible: Some(Version("0.1.5".to_string())),
            latest: Version("0.1.5".to_string()),
            latest_pre: None,
        }
    );
    match verdict_of(&report, "err-dep") {
        Verdict::Errored(msg) => assert!(msg.contains("HTTP error 500")),
        other => panic!("Expected Errored verdict, got {:?}", other),
    }
    assert_eq!(
        *verdict_of(&report, "missing-dep"),
        Verdict::Unsatisfiable { constraint: Constraint("2.0.0".to_string()) }
    );
}

fn dep(name: &str, constraint: &str) -> Dependency {
    Dependency {
        coordinate: Coordinate(name.into()),
        constraint: Constraint(constraint.into()),
        span: None,
        source_hint: None,
        section: None,
    }
}

fn sample_report() -> Report {
    let mut report = Report::new();
    report.push(
        dep("serde", "1.0.0"),
        Verdict::Outdated { compatible: Some(Version("1.0.219".into())), latest: Version("1.0.219".into()), latest_pre: None },
    );
    report.push(dep("tokio", "1.36.0"), Verdict::Current { latest: Version("1.36.0".into()), latest_pre: None });
    report.push(
        dep("tower", "^0.4.13"),
        Verdict::Outdated { compatible: Some(Version("0.4.15".into())), latest: Version("0.5.2".into()), latest_pre: None },
    );
    report.push(
        dep("pinned", "=2.0.0"),
        Verdict::Outdated { compatible: None, latest: Version("3.0.0".into()), latest_pre: None },
    );
    report.push(
        dep("partial", "1.36"),
        Verdict::Outdated { compatible: Some(Version("1.36.0".into())), latest: Version("1.45.0".into()), latest_pre: None },
    );
    report
}

#[test]
fn check_mode_plans_no_edit() {
    let report = sample_report();
    assert!(plan_updates(&report, false, false, false).is_empty());
    assert!(plan_updates(&report, false, false, true).is_empty());
    // `tree` never writes, even with --update.
    assert!(plan_updates(&report, true, true, true).is_empty());
    assert!(!should_update(true, true));
    assert!(should_update(true, false));
}

#[test]
fn update_applies_compatible_bumps() {
    let report = sample_report();
    let edits = plan_updates(&report, true, false, false);
    let got: Vec<(usize, &str)> = edits.iter().map(|(i, v)| (*i, v.0.as_str())).collect();
    // `partial` stays: 1.36.0 is what `1.36` already declares.
    assert_eq!(got, vec![(0, "1.0.219"), (2, "0.4.15")]);
}

#[test]
fn update_with_breaking_applies_latest() {
    let report = sample_report();
    let edits = plan_updates(&report, true, false, true);
    let got: Vec<(usize, &str)> = edits.iter().map(|(i, v)| (*i, v.0.as_str())).collect();
    assert_eq!(got, vec![(0, "1.0.219"), (2, "0.5.2"), (3, "3.0.0"), (4, "1.45.0")]);
}

#[test]
fn exit_codes() {
    assert_eq!(exit_code(true, false, true), 2);
    assert_eq!(exit_code(false, false, true), 1);
    assert_eq!(exit_code(false, false, false), 0);
    assert_eq!(exit_code(false, true, true), 0);
    assert!(any_outdated(&sample_report()));
    let mut current = Report::new();
    current.push(dep("tokio", "1.36.0"), Verdict::Current { latest: Version("1.36.0".into()), latest_pre: None });
    assert!(!any_outdated(&current));
}

#[test]
fn first_matching_ecosystem_wins() {
    assert_eq!(first_detected(&vec![false, true, true]), Some(1));
    assert_eq!(first_detected(&vec![false, false]), None);
    assert_eq!(first_detected(&vec![]), None);
}

#[test]
fn failed_fetch_marks_only_its_dependency() {
    let d = dep("x", "1.0.0");
    assert_eq!(
        verdict_for(&d, Err("HTTP error 503 for x".into()), &SemverScheme, false),
        Verdict::Errored("HTTP error 503 for x".into())
    );
}

#[test]
fn update_run_writes_the_planned_edits() {
    let content = "[dependencies]\nserde = \"1.0.0\" # json\ntokio = \"1.36.0\"\ntower = \"^0.4.13\"\npinned = \"=2.0.0\"\npartial = \"1.36\"\n";
    let report = sample_report();
    // Check mode and `tree` leave the text as it is.
    assert_eq!(write_updates(content, &report, false, false, false).unwrap(), content);
    assert_eq!(write_updates(content, &report, true, true, true).unwrap(), content);
    assert_eq!(
        write_updates(content, &report, true, false, false).unwrap(),
        "[dependencies]\nserde = \"1.0.219\" # json\ntokio = \"1.36.0\"\ntower = \"0.4.15\"\npinned = \"=2.0.0\"\npartial = \"1.36\"\n"
    );
    assert_eq!(
        write_updates(content, &report, true, false, true).unwrap(),
        "[dependencies]\nserde = \"1.0.219\" # json\ntokio = \"1.36.0\"\ntower = \"0.5.2\"\npinned = \"3.0.0\"\npartial = \"1.45.0\"\n"
    );
    assert!(write_updates("[dependencies\n", &report, true, false, false).unwrap_err().starts_with("Failed to parse Cargo.toml: "));
}
