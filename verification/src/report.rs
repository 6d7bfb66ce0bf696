//! Rendering a report for people: one line per dependency, colored.

use vstd::prelude::*;
use crate::model::{Dependency, Report, Verdict, Version};
use crate::paint::{
    bold, bold_spec, bright_black, bright_black_spec, dimmed, dimmed_spec, green, green_spec,
    italic, italic_spec, magenta, magenta_spec, red, red_spec, yellow, yellow_spec,
};
use crate::text::{chars_of, extend_chars, extend_str, string_of, sub_chars};
use crate::versioning::{is_prerelease, is_prerelease_spec};

verus! {

/// Whether `c` is an ASCII digit.
pub open spec fn is_digit(c: char) -> bool {
    '0' <= c && c <= '9'
}

/// Whether `i` is the position of the first ASCII digit of `s`.
pub open spec fn is_first_digit(s: Seq<char>, i: int) -> bool {
    0 <= i < s.len() && is_digit(s[i]) && forall|j: int| 0 <= j < i ==> !is_digit(#[trigger] s[j])
}

/// Where the version part of a constraint starts: at its first ASCII digit,
/// or at 0 where it has none.
pub open spec fn version_start(s: Seq<char>) -> int {
    if exists|i: int| is_first_digit(s, i) {
        choose|i: int| is_first_digit(s, i)
    } else {
        0
    }
}

/// How many leading characters `a` and `b` share.
pub open spec fn common_prefix_len(a: Seq<char>, b: Seq<char>) -> nat
    decreases a.len(),
{
    if a.len() == 0 || b.len() == 0 || a[0] != b[0] {
        0
    } else {
        1 + common_prefix_len(a.drop_first(), b.drop_first())
    }
}

/// The operator symbols before the version, in bright black.
pub open spec fn old_prefix(constraint: Seq<char>) -> Seq<char> {
    constraint.take(version_start(constraint))
}

/// The part of the old version that the target keeps.
pub open spec fn old_same(constraint: Seq<char>, target: Seq<char>) -> Seq<char> {
    let v = constraint.skip(version_start(constraint));
    v.take(common_prefix_len(v, target) as int)
}

/// The part of the old version that the target changes.
pub open spec fn old_diff(constraint: Seq<char>, target: Seq<char>) -> Seq<char> {
    let v = constraint.skip(version_start(constraint));
    v.skip(common_prefix_len(v, target) as int)
}

/// The old constraint with what the update changes highlighted: operators and
/// the unchanged leading part in bright black, the rest in yellow.
pub open spec fn old_constraint_text(constraint: Seq<char>, target: Seq<char>) -> Seq<char> {
    bright_black_spec(old_prefix(constraint)) + bright_black_spec(old_same(constraint, target))
        + yellow_spec(old_diff(constraint, target))
}

/// A few characters painted with one of the colors.
fn paint_chars(cs: &Vec<char>, color: u8) -> (r: Vec<char>)
    requires
        color < 5,
    ensures
        color == 0 ==> r@ == bright_black_spec(cs@),
        color == 1 ==> r@ == yellow_spec(cs@),
        color == 2 ==> r@ == green_spec(cs@),
        color == 3 ==> r@ == magenta_spec(cs@),
        color == 4 ==> r@ == red_spec(cs@),
{
    let s = string_of(cs);
    let painted = if color == 0 {
        bright_black(s.as_str())
    } else if color == 1 {
        yellow(s.as_str())
    } else if color == 2 {
        green(s.as_str())
    } else if color == 3 {
        magenta(s.as_str())
    } else {
        red(s.as_str())
    };
    chars_of(painted.as_str())
}

/// `cs` dimmed and in italics, as the hints after a line are written.
fn faint_chars(cs: &Vec<char>) -> (r: Vec<char>)
    ensures
        r@ == italic_spec(dimmed_spec(cs@)),
{
    let s = string_of(cs);
    let d = dimmed(s.as_str());
    let i = italic(d.as_str());
    chars_of(i.as_str())
}

/// Highlights, in a constraint being replaced by `target`, the part that
/// changes.
pub fn format_old_constraint(constraint: &str, target: &str) -> (r: String)
    ensures
        r@ == old_constraint_text(constraint@, target@),
{
    let cs = chars_of(constraint);
    let ts = chars_of(target);
    let n = cs.len();
    let mut start: usize = 0;
    let mut found = false;
    while start < n && !found
        invariant
            n == cs.len(),
            start <= n,
            found ==> is_first_digit(cs@, start as int),
            !found ==> forall|j: int| 0 <= j < start ==> !is_digit(#[trigger] cs@[j]),
        decreases n - start + (if found { 0int } else { 1int }),
    {
        if '0' <= cs[start] && cs[start] <= '9' {
            found = true;
        } else {
            start = start + 1;
        }
    }
    if !found {
        start = 0;
        assert(!exists|i: int| is_first_digit(cs@, i));
    } else {
        assert forall|i: int| is_first_digit(cs@, i) implies i == start by {
            if i < start {
                assert(!is_digit(cs@[i]));
            } else if i > start {
                assert(!is_digit(cs@[start as int]));
            }
        }
    }
    assert(start as int == version_start(constraint@));
    let version = sub_chars(&cs, start, n);
    assert(version@ == constraint@.skip(start as int));
    let mut k: usize = 0;
    let m = if version.len() < ts.len() { version.len() } else { ts.len() };
    assert(version@.skip(0) == version@);
    assert(ts@.skip(0) == ts@);
    while k < m && version[k] == ts[k]
        invariant
            m <= version.len(),
            m <= ts.len(),
            k <= m,
            common_prefix_len(version@, ts@) == k + common_prefix_len(version@.skip(k as int), ts@.skip(k as int)),
        decreases m - k,
    {
        assert(version@.skip(k as int).drop_first() == version@.skip(k + 1));
        assert(ts@.skip(k as int).drop_first() == ts@.skip(k + 1));
        k = k + 1;
    }
    assert(common_prefix_len(version@.skip(k as int), ts@.skip(k as int)) == 0) by {
        if k < m {
            assert(version@.skip(k as int)[0] == version@[k as int]);
            assert(ts@.skip(k as int)[0] == ts@[k as int]);
        }
    }
    let prefix = sub_chars(&cs, 0, start);
    let same = sub_chars(&version, 0, k);
    let diff = sub_chars(&version, k, version.len());
    assert(prefix@ == old_prefix(constraint@));
    assert(same@ == old_same(constraint@, target@));
    assert(diff@ == old_diff(constraint@, target@));
    let mut out = paint_chars(&prefix, 0);
    let same_painted = paint_chars(&same, 0);
    extend_chars(&mut out, &same_painted);
    let diff_painted = paint_chars(&diff, 1);
    extend_chars(&mut out, &diff_painted);
    string_of(&out)
}

/// Removing the highlight gives back the constraint: its three parts, in
/// order, are the whole constraint.
pub proof fn law_old_constraint_parts(constraint: Seq<char>, target: Seq<char>)
    ensures
        old_prefix(constraint) + old_same(constraint, target) + old_diff(constraint, target) == constraint,
{
    let start = version_start(constraint);
    if exists|i: int| is_first_digit(constraint, i) {
        let i = choose|i: int| is_first_digit(constraint, i);
        assert(0 <= start < constraint.len());
    }
    let v = constraint.skip(start);
    lemma_common_prefix_len_bound(v, target);
    let k = common_prefix_len(v, target) as int;
    assert(v.take(k) + v.skip(k) == v);
    assert(constraint.take(start) + v == constraint);
}

/// The common prefix is no longer than either text.
pub proof fn lemma_common_prefix_len_bound(a: Seq<char>, b: Seq<char>)
    ensures
        common_prefix_len(a, b) <= a.len(),
        common_prefix_len(a, b) <= b.len(),
    decreases a.len(),
{
    if a.len() > 0 && b.len() > 0 && a[0] == b[0] {
        lemma_common_prefix_len_bound(a.drop_first(), b.drop_first());
    }
}

} // verus!

verus! {

/// Renders reports for people.
pub struct HumanReporter;

/// The text of an optional pre-release hint, ` (pre)` dimmed in magenta
/// italics with the given opening, or nothing.
pub open spec fn pre_hint(opening: Seq<char>, latest_pre: Option<Version>) -> Seq<char> {
    match latest_pre {
        Some(p) => italic_spec(dimmed_spec(magenta_spec(opening + p.0@ + ")"@))),
        None => Seq::<char>::empty(),
    }
}

/// The hint after an outdated line: the breaking latest version where it
/// differs from the compatible one, or a warning that only a breaking
/// version exists.
pub open spec fn breaking_hint(compatible: Option<Version>, latest: Version) -> Seq<char> {
    match compatible {
        Some(c) => if c.0@ != latest.0@ {
            italic_spec(dimmed_spec(bright_black_spec(" (latest: "@ + latest.0@ + ")"@)))
        } else {
            Seq::<char>::empty()
        },
        None => italic_spec(dimmed_spec(yellow_spec(" (breaking: "@ + latest.0@ + ")"@))),
    }
}

/// The version an outdated dependency moves to: the compatible one where it
/// exists, else the latest.
pub open spec fn effective_target(compatible: Option<Version>, latest: Version) -> Seq<char> {
    match compatible {
        Some(c) => c.0@,
        None => latest.0@,
    }
}

/// The target version, magenta where it is a pre-release, else green.
pub open spec fn target_text(t: Seq<char>) -> Seq<char> {
    if is_prerelease_spec(t) { magenta_spec(t) } else { green_spec(t) }
}

/// The lines rendered for one dependency.
pub open spec fn line_text(dep: Dependency, verdict: Verdict, is_tree: bool, should_update: bool) -> Seq<char> {
    let name = dep.coordinate.0@;
    match verdict {
        Verdict::Current { latest, latest_pre } => if is_tree {
            "  "@ + name + " "@ + bright_black_spec(latest.0@) + pre_hint(" ("@, latest_pre) + "\n"@
        } else {
            Seq::<char>::empty()
        },
        Verdict::Outdated { compatible, latest, latest_pre } => {
            let target = effective_target(compatible, latest);
            "  "@ + name + " "@ + old_constraint_text(dep.constraint.0@, target) + " "@
                + bright_black_spec("→"@) + " "@ + target_text(target)
                + breaking_hint(compatible, latest) + pre_hint(" (pre: "@, latest_pre) + "\n"@
                + if should_update {
                    "    "@ + italic_spec(green_spec("Updated!"@)) + "\n"@
                } else {
                    Seq::<char>::empty()
                }
        },
        Verdict::Yanked => "  "@ + name + " "@ + bold_spec(red_spec("! yanked"@)) + "\n"@,
        Verdict::Unsatisfiable { constraint } =>
            "  "@ + name + " "@ + bright_black_spec(constraint.0@) + " "@ + red_spec("✗ no versions found"@) + "\n"@,
        Verdict::Errored(e) => "  "@ + name + " "@ + red_spec("✗ error:"@) + " "@ + e@ + "\n"@,
    }
}

/// The text of a whole report: the lines of each dependency, in order.
pub open spec fn report_text(verdicts: Seq<(Dependency, Verdict)>, is_tree: bool, should_update: bool) -> Seq<char>
    decreases verdicts.len(),
{
    if verdicts.len() == 0 {
        Seq::<char>::empty()
    } else {
        report_text(verdicts.drop_last(), is_tree, should_update)
            + line_text(verdicts.last().0, verdicts.last().1, is_tree, should_update)
    }
}

/// The pre-release hint for a line.
fn pre_hint_chars(opening: &str, latest_pre: &Option<Version>) -> (r: Vec<char>)
    ensures
        r@ == pre_hint(opening@, *latest_pre),
{
    match latest_pre {
        Some(p) => {
            let mut inner = chars_of(opening);
            extend_str(&mut inner, p.0.as_str());
            extend_str(&mut inner, ")");
            let m = paint_chars(&inner, 3);
            faint_chars(&m)
        },
        None => Vec::new(),
    }
}

/// The breaking hint for an outdated line.
fn breaking_hint_chars(compatible: &Option<Version>, latest: &Version) -> (r: Vec<char>)
    ensures
        r@ == breaking_hint(*compatible, *latest),
{
    match compatible {
        Some(c) => {
            if c.0 == latest.0 {
                Vec::new()
            } else {
                let mut inner = chars_of(" (latest: ");
                extend_str(&mut inner, latest.0.as_str());
                extend_str(&mut inner, ")");
                let b = paint_chars(&inner, 0);
                faint_chars(&b)
            }
        },
        None => {
            let mut inner = chars_of(" (breaking: ");
            extend_str(&mut inner, latest.0.as_str());
            extend_str(&mut inner, ")");
            let y = paint_chars(&inner, 1);
            faint_chars(&y)
        },
    }
}

/// The lines for one dependency.
pub fn render_line(dep: &Dependency, verdict: &Verdict, is_tree: bool, should_update: bool) -> (r: Vec<char>)
    ensures
        r@ == line_text(*dep, *verdict, is_tree, should_update),
{
    let name = dep.coordinate.0.as_str();
    match verdict {
        Verdict::Current { latest, latest_pre } => {
            if is_tree {
                let mut out = chars_of("  ");
                extend_str(&mut out, name);
                extend_str(&mut out, " ");
                let v = chars_of(latest.0.as_str());
                let v = paint_chars(&v, 0);
                extend_chars(&mut out, &v);
                let hint = pre_hint_chars(" (", latest_pre);
                extend_chars(&mut out, &hint);
                extend_str(&mut out, "\n");
                out
            } else {
                Vec::new()
            }
        },
        Verdict::Outdated { compatible, latest, latest_pre } => {
            let target = match compatible {
                Some(c) => c,
                None => latest,
            };
            let mut out = chars_of("  ");
            extend_str(&mut out, name);
            extend_str(&mut out, " ");
            let old = format_old_constraint(dep.constraint.0.as_str(), target.0.as_str());
            extend_str(&mut out, old.as_str());
            extend_str(&mut out, " ");
            let arrow = chars_of("→");
            let arrow = paint_chars(&arrow, 0);
            extend_chars(&mut out, &arrow);
            extend_str(&mut out, " ");
            let t = chars_of(target.0.as_str());
            let t = if is_prerelease(target.0.as_str()) { paint_chars(&t, 3) } else { paint_chars(&t, 2) };
            extend_chars(&mut out, &t);
            let breaking = breaking_hint_chars(compatible, latest);
            extend_chars(&mut out, &breaking);
            let hint = pre_hint_chars(" (pre: ", latest_pre);
            extend_chars(&mut out, &hint);
            extend_str(&mut out, "\n");
            if should_update {
                extend_str(&mut out, "    ");
                let g = green("Updated!");
                let u = italic(g.as_str());
                extend_str(&mut out, u.as_str());
                extend_str(&mut out, "\n");
            }
            out
        },
        Verdict::Yanked => {
            let mut out = chars_of("  ");
            extend_str(&mut out, name);
            extend_str(&mut out, " ");
            let red_text = red("! yanked");
            let b = bold(red_text.as_str());
            extend_str(&mut out, b.as_str());
            extend_str(&mut out, "\n");
            out
        },
        Verdict::Unsatisfiable { constraint } => {
            let mut out = chars_of("  ");
            extend_str(&mut out, name);
            extend_str(&mut out, " ");
            let c = bright_black(constraint.0.as_str());
            extend_str(&mut out, c.as_str());
            extend_str(&mut out, " ");
            let msg = red("✗ no versions found");
            extend_str(&mut out, msg.as_str());
            extend_str(&mut out, "\n");
            out
        },
        Verdict::Errored(e) => {
            let mut out = chars_of("  ");
            extend_str(&mut out, name);
            extend_str(&mut out, " ");
            let msg = red("✗ error:");
            extend_str(&mut out, msg.as_str());
            extend_str(&mut out, " ");
            extend_str(&mut out, e.as_str());
            extend_str(&mut out, "\n");
            out
        },
    }
}

impl HumanReporter {
    /// Renders every verdict of the report, in order. In tree mode current
    /// dependencies are listed too; in update mode outdated ones are marked
    /// as updated.
    pub fn render(report: &Report, is_tree: bool, should_update: bool) -> (r: String)
        ensures
            r@ == report_text(report.verdicts@, is_tree, should_update),
    {
        let mut buf: Vec<char> = Vec::new();
        let n = report.verdicts.len();
        for i in 0..n
            invariant
                n == report.verdicts.len(),
                buf@ == report_text(report.verdicts@.take(i as int), is_tree, should_update),
        {
            let (dep, verdict) = &report.verdicts[i];
            let line = render_line(dep, verdict, is_tree, should_update);
            extend_chars(&mut buf, &line);
            assert(report.verdicts@.take(i + 1).drop_last() == report.verdicts@.take(i as int));
        }
        assert(report.verdicts@.take(n as int) == report.verdicts@);
        string_of(&buf)
    }
}

} // verus!
