//! The decisions of a run: which ecosystem reads a manifest, what a failed
//! fetch becomes, which edits an update applies, and how the run exits.

use vstd::prelude::*;
use crate::contract::Scheme;
use crate::model::{Availability, Dependency, Report, Verdict, Version};
use crate::resolve::{actual_upgrade_spec, is_actual_upgrade, resolve, resolved};
use crate::laws::law_planned_edits_are_upgrades;
use crate::manifest::{batch_written, pairs_view, write_batch};
use crate::text::owned;

verus! {

/// The first ecosystem that claimed the manifest; the first match wins.
pub fn first_detected(detected: &Vec<bool>) -> (r: Option<usize>)
    ensures
        r is None <==> forall|i: int| 0 <= i < detected@.len() ==> !#[trigger] detected@[i],
        r matches Some(i) ==> i < detected@.len() && detected@[i as int]
            && forall|j: int| 0 <= j < i ==> !#[trigger] detected@[j],
{
    let n = detected.len();
    for i in 0..n
        invariant
            n == detected.len(),
            forall|j: int| 0 <= j < i ==> !#[trigger] detected@[j],
    {
        if detected[i] {
            return Some(i);
        }
    }
    None
}

/// The verdict on one dependency once its source answered: resolved where it
/// listed versions, `Errored` with the source's message where it failed. One
/// bad fetch only marks its own dependency.
pub fn verdict_for<S: Scheme + ?Sized>(
    dependency: &Dependency,
    fetched: Result<Availability, String>,
    scheme: &S,
    include_prerelease: bool,
) -> (r: Verdict)
    ensures
        match fetched {
            Ok(a) => resolved(r, *dependency, a.versions@, scheme, include_prerelease),
            Err(e) => r == Verdict::Errored(e),
        },
{
    match fetched {
        Ok(a) => resolve(dependency, &a, scheme, include_prerelease),
        Err(e) => Verdict::Errored(e),
    }
}

/// Whether a run writes the manifest: only in update mode, never for `tree`.
pub open spec fn updates_spec(update: bool, is_tree: bool) -> bool {
    update && !is_tree
}

/// Whether a run writes the manifest.
pub fn should_update(update: bool, is_tree: bool) -> (r: bool)
    ensures
        r == updates_spec(update, is_tree),
{
    update && !is_tree
}

/// The version an update moves an outdated dependency to: the latest where
/// breaking bumps are allowed, else the compatible one, if any.
pub open spec fn update_target(verdict: Verdict, allow_breaking: bool) -> Option<Version> {
    match verdict {
        Verdict::Outdated { compatible, latest, .. } => if allow_breaking { Some(latest) } else { compatible },
        _ => None,
    }
}

/// The edits an update applies, in report order: for each outdated
/// dependency whose target is an actual upgrade over its constraint, its
/// position in the report and the target.
pub open spec fn planned_edits(verdicts: Seq<(Dependency, Verdict)>, allow_breaking: bool) -> Seq<(int, Version)>
    decreases verdicts.len(),
{
    if verdicts.len() == 0 {
        Seq::<(int, Version)>::empty()
    } else {
        let rest = planned_edits(verdicts.drop_last(), allow_breaking);
        let (dep, verdict) = verdicts.last();
        match update_target(verdict, allow_breaking) {
            Some(t) => if actual_upgrade_spec(dep.constraint.0@, t.0@) {
                rest.push((verdicts.len() - 1, t))
            } else {
                rest
            },
            None => rest,
        }
    }
}

/// The edits a run applies to the manifest: none unless it updates; else
/// the planned ones.
pub fn plan_updates(report: &Report, update: bool, is_tree: bool, allow_breaking: bool) -> (r: Vec<(usize, Version)>)
    ensures
        !updates_spec(update, is_tree) ==> r@.len() == 0,
        updates_spec(update, is_tree) ==> r@.len() == planned_edits(report.verdicts@, allow_breaking).len()
            && forall|k: int| 0 <= k < r@.len() ==> {
                &&& (#[trigger] r@[k]).0 as int == planned_edits(report.verdicts@, allow_breaking)[k].0
                &&& r@[k].1 == planned_edits(report.verdicts@, allow_breaking)[k].1
            },
{
    let mut edits: Vec<(usize, Version)> = Vec::new();
    if !(update && !is_tree) {
        return edits;
    }
    let n = report.verdicts.len();
    for i in 0..n
        invariant
            n == report.verdicts.len(),
            edits@.len() == planned_edits(report.verdicts@.take(i as int), allow_breaking).len(),
            forall|k: int| 0 <= k < edits@.len() ==> {
                &&& (#[trigger] edits@[k]).0 as int == planned_edits(report.verdicts@.take(i as int), allow_breaking)[k].0
                &&& edits@[k].1 == planned_edits(report.verdicts@.take(i as int), allow_breaking)[k].1
            },
    {
        let (dep, verdict) = &report.verdicts[i];
        assert(report.verdicts@.take(i + 1).drop_last() == report.verdicts@.take(i as int));
        assert(report.verdicts@.take(i + 1).last() == report.verdicts@[i as int]);
        match verdict {
            Verdict::Outdated { compatible, latest, .. } => {
                let target = if allow_breaking {
                    Some(latest.copy())
                } else {
                    match compatible {
                        Some(c) => Some(c.copy()),
                        None => None,
                    }
                };
                match target {
                    Some(t) => {
                        if is_actual_upgrade(dep.constraint.0.as_str(), t.0.as_str()) {
                            edits.push((i, t));
                        }
                    },
                    None => {},
                }
            },
            _ => {},
        }
    }
    assert(report.verdicts@.take(n as int) == report.verdicts@);
    edits
}

/// The edits a run applies: the planned ones where it updates, none
/// otherwise.
pub open spec fn run_edits(verdicts: Seq<(Dependency, Verdict)>, update: bool, is_tree: bool, allow_breaking: bool) -> Seq<(int, Version)> {
    if updates_spec(update, is_tree) { planned_edits(verdicts, allow_breaking) } else { Seq::<(int, Version)>::empty() }
}

/// The dependency and version pairs a list of planned edits writes: each
/// edit's dependency in the report, with its target version.
pub open spec fn update_pairs(verdicts: Seq<(Dependency, Verdict)>, planned: Seq<(int, Version)>) -> Seq<(Dependency, Version)> {
    planned.map_values(|e: (int, Version)| (verdicts[e.0].0, e.1))
}

/// The manifest text a run leaves behind, given the text it read and the
/// report on it: the text itself where the run plans no edit (check mode,
/// `tree`, or nothing to update); else every planned edit written in one
/// batch, or the parse failure where the text is not TOML.
pub fn write_updates(content: &str, report: &Report, update: bool, is_tree: bool, allow_breaking: bool) -> (r: Result<String, String>)
    ensures
        run_edits(report.verdicts@, update, is_tree, allow_breaking).len() == 0 ==> (r matches Ok(s) && s@ == content@),
        run_edits(report.verdicts@, update, is_tree, allow_breaking).len() > 0
            ==> batch_written(content@, update_pairs(report.verdicts@, run_edits(report.verdicts@, update, is_tree, allow_breaking)), r),
{
    let planned = plan_updates(report, update, is_tree, allow_breaking);
    let ghost vs = report.verdicts@;
    let ghost pe = run_edits(vs, update, is_tree, allow_breaking);
    if planned.len() == 0 {
        return Ok(owned(content));
    }
    let mut batch: Vec<(&Dependency, &Version)> = Vec::new();
    let n = planned.len();
    assert(pe.take(0) == Seq::<(int, Version)>::empty());
    for k in 0..n
        invariant
            n == planned.len(),
            vs == report.verdicts@,
            updates_spec(update, is_tree),
            pe == planned_edits(vs, allow_breaking),
            n == pe.len(),
            forall|q: int| 0 <= q < n ==> (#[trigger] planned@[q]).0 as int == pe[q].0 && planned@[q].1 == pe[q].1,
            pairs_view(batch@) == update_pairs(vs, pe.take(k as int)),
    {
        proof {
            law_planned_edits_are_upgrades(vs, allow_breaking, k as int);
        }
        let i = planned[k].0;
        let ghost before = batch@;
        batch.push((&report.verdicts[i].0, &planned[k].1));
        assert(pe.take(k + 1) == pe.take(k as int).push(pe[k as int]));
        assert(pairs_view(batch@) == pairs_view(before).push((vs[i as int].0, pe[k as int].1)));
        assert(update_pairs(vs, pe.take(k + 1)) == update_pairs(vs, pe.take(k as int)).push((vs[pe[k as int].0].0, pe[k as int].1)));
    }
    assert(pe.take(n as int) == pe);
    write_batch(content, batch.as_slice())
}

/// Whether any dependency of the report is outdated.
pub fn any_outdated(report: &Report) -> (r: bool)
    ensures
        r == exists|i: int| 0 <= i < report.verdicts@.len() && (#[trigger] report.verdicts@[i]).1 is Outdated,
{
    let n = report.verdicts.len();
    for i in 0..n
        invariant
            n == report.verdicts.len(),
            forall|k: int| 0 <= k < i ==> !((#[trigger] report.verdicts@[k]).1 is Outdated),
    {
        match &report.verdicts[i].1 {
            Verdict::Outdated { .. } => {
                return true;
            },
            _ => {},
        }
    }
    false
}

/// The exit code of a run: 2 for a hard error; otherwise 1 where a check
/// found outdated dependencies; 0 where all are current or were updated.
pub open spec fn exit_code_spec(hard_error: bool, updated: bool, has_outdated: bool) -> i32 {
    if hard_error { 2 } else if !updated && has_outdated { 1 } else { 0 }
}

/// The exit code of a run.
pub fn exit_code(hard_error: bool, updated: bool, has_outdated: bool) -> (r: i32)
    ensures
        r == exit_code_spec(hard_error, updated, has_outdated),
{
    if hard_error {
        2
    } else if !updated && has_outdated {
        1
    } else {
        0
    }
}

} // verus!
