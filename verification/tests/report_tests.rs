use ud::model::{Constraint, Coordinate, Dependency, Report, Verdict, Version};
use ud::report::{format_old_constraint, HumanReporter};

const BB: &str = "\x1b[90m";
const FG_END: &str = "\x1b[39m";

fn dep(name: &str, constraint: &str) -> Dependency {
    Dependency {
        coordinate: Coordinate(name.into()),
        constraint: Constraint(constraint.into()),
        span: None,
        source_hint: None,
        section: Some("dependencies".into()),
    }
}

#[test]
fn old_constraint_highlights_the_changed_tail() {
    assert_eq!(
        format_old_constraint("^0.4.13", "0.4.15"),
        format!("{BB}^{FG_END}{BB}0.4.1{FG_END}\x1b[33m3{FG_END}")
    );
    // No digit at all: the whole constraint is the version part.
    assert_eq!(
        format_old_constraint("abc", "abd"),
        format!("{BB}{FG_END}{BB}ab{FG_END}\x1b[33mc{FG_END}")
    );
}

#[test]
fn old_constraint_without_color_is_the_constraint() {
    let text = format_old_constraint(">=1.2, <2", "1.9.0");
    let stripped = text
        .replace(BB, "")
        .replace(FG_END, "")
        .replace("\x1b[33m", "");
    assert_eq!(stripped, ">=1.2, <2");
}

#[test]
fn render_check_mode_lists_only_what_needs_attention() {
    let mut report = Report::new();
    report.push(dep("tokio", "1.36.0"), Verdict::Current { latest: Version("1.36.0".into()), latest_pre: None });
    report.push(
        dep("serde", "1.0.0"),
        Verdict::Outdated {
            compatible: Some(Version("1.0.219".into())),
            latest: Version("1.0.219".into()),
            latest_pre: None,
        },
    );
    report.push(dep("gone", "2.0.0"), Verdict::Unsatisfiable { constraint: Constraint("2.0.0".into()) });
    report.push(dep("bad", "1.0.0"), Verdict::Errored("HTTP error 500".into()));
    report.push(dep("old", "1.0.0"), Verdict::Yanked);
    let out = HumanReporter::render(&report, false, false);
    let expected = format!(
        "  serde {BB}{FG_END}{BB}1.0.{FG_END}\x1b[33m0{FG_END} {BB}→{FG_END} \x1b[32m1.0.219{FG_END}\n\
         \x20 gone {BB}2.0.0{FG_END} \x1b[31m✗ no versions found{FG_END}\n\
         \x20 bad \x1b[31m✗ error:{FG_END} HTTP error 500\n\
         \x20 old \x1b[1m\x1b[31m! yanked{FG_END}\x1b[0m\n"
    );
    assert_eq!(out, expected);
}

#[test]
fn render_tree_mode_lists_current_dependencies() {
    let mut report = Report::new();
    report.push(
        dep("tokio", "1.36.0"),
        Verdict::Current { latest: Version("1.36.0".into()), latest_pre: Some(Version("1.37.0-rc.1".into())) },
    );
    let out = HumanReporter::render(&report, true, false);
    assert_eq!(
        out,
        format!("  tokio {BB}1.36.0{FG_END}\x1b[3m\x1b[2m\x1b[35m (1.37.0-rc.1){FG_END}\x1b[0m\x1b[0m\n")
    );
    assert_eq!(HumanReporter::render(&report, false, false), "");
}

#[test]
fn render_update_mode_marks_updates_and_hints() {
    let mut report = Report::new();
    report.push(
        dep("tower", "^0.4.13"),
        Verdict::Outdated {
            compatible: Some(Version("0.4.15".into())),
            latest: Version("0.5.2".into()),
            latest_pre: Some(Version("0.6.0-alpha.1".into())),
        },
    );
    report.push(
        dep("only-breaking", "=1.0.0"),
        Verdict::Outdated { compatible: None, latest: Version("2.0.0-beta.1".into()), latest_pre: None },
    );
    let out = HumanReporter::render(&report, false, true);
    let expected = format!(
        "  tower {BB}^{FG_END}{BB}0.4.1{FG_END}\x1b[33m3{FG_END} {BB}→{FG_END} \x1b[32m0.4.15{FG_END}\
         \x1b[3m\x1b[2m{BB} (latest: 0.5.2){FG_END}\x1b[0m\x1b[0m\
         \x1b[3m\x1b[2m\x1b[35m (pre: 0.6.0-alpha.1){FG_END}\x1b[0m\x1b[0m\n\
         \x20   \x1b[3m\x1b[32mUpdated!{FG_END}\x1b[0m\n\
         \x20 only-breaking {BB}={FG_END}{BB}{FG_END}\x1b[33m1.0.0{FG_END} {BB}→{FG_END} \x1b[35m2.0.0-beta.1{FG_END}\
         \x1b[3m\x1b[2m\x1b[33m (breaking: 2.0.0-beta.1){FG_END}\x1b[0m\x1b[0m\n\
         \x20   \x1b[3m\x1b[32mUpdated!{FG_END}\x1b[0m\n"
    );
    assert_eq!(out, expected);
}
