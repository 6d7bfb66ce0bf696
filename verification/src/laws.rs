//! What holds of the library as a whole: of every verdict, every update
//! plan, every edit and every rendered report.

use vstd::prelude::*;
use crate::candidates::{is_last_highest, lemma_ranks_antisymmetric, ranks_no_higher};
use crate::contract::Scheme;
use crate::index::{index_lines_spec, index_path_spec, kept_lines, split_lines};
use crate::manifest::{
    apply_edits, constraint_of, dependency_edits, edit_path, edited_node, edited_text, find_node, is_table_like,
    opt_string_view, NodeKind, edits_at_values, reads_back, same_but_spans, toml_parse,
    lemma_dependency_edits_sbs, lemma_dependency_edits_apply, lemma_find_node_sbs, lemma_find_node_apply,
    lemma_find_node_at, lemma_edited_text_at, lemma_edited_text_some, target_tables, targets_tables,
    children, edit_tables, entry_deps, manifest_deps,
    one_target_deps, table_deps, table_edits, target_deps, targets_deps, DependencyView, NodeView, target_label,
};
use crate::model::{Dependency, Verdict, Version, VersionMetadata};
use crate::pipeline::{exit_code_spec, planned_edits, update_target};
use crate::report::line_text;
use crate::resolve::{
    any_flag, candidate_flags, compatible_flags, declared_text, highest_text, is_candidate,
    prerelease_flags, prerelease_above, resolved, version_texts,
};
use crate::resolve::{actual_upgrade_spec, declared_from, declared_spec};
use crate::versioning::{is_prerelease_spec, semver_order, semver_order_strict, semver_parse, semver_req_parse, ReqOp};

verus! {

/// The latest version of a `Current` or `Outdated` verdict.
pub open spec fn latest_of(r: Verdict) -> Seq<char> {
    match r {
        Verdict::Current { latest, .. } => latest.0@,
        Verdict::Outdated { latest, .. } => latest.0@,
        _ => Seq::<char>::empty(),
    }
}

/// The pre-release hint of a `Current` or `Outdated` verdict.
pub open spec fn prerelease_of(r: Verdict) -> Option<Seq<char>> {
    match r {
        Verdict::Current { latest_pre: Some(p), .. } => Some(p.0@),
        Verdict::Outdated { latest_pre: Some(p), .. } => Some(p.0@),
        _ => None,
    }
}

/// The flagged position whose text `highest_text` names.
proof fn lemma_highest_position(vs: Seq<VersionMetadata>, flags: Seq<bool>, t: Seq<char>) -> (j: int)
    requires
        highest_text(vs, flags) == Some(t),
    ensures
        is_last_highest(version_texts(vs), flags, j),
        0 <= j < vs.len(),
        vs[j].version.0@ == t,
{
    let j = choose|j: int| is_last_highest(version_texts(vs), flags, j);
    assert(version_texts(vs)[j] == vs[j].version.0@);
    j
}

/// Resolving a dependency never answers `Yanked` or `Errored`; it answers
/// `Unsatisfiable` exactly when no listed version is a candidate (none, or
/// all yanked, or only pre-releases while they are excluded), and then
/// repeats the dependency's constraint.
pub proof fn law_resolve_unsatisfiable_iff_no_candidate<S: Scheme>(
    r: Verdict,
    dep: Dependency,
    vs: Seq<VersionMetadata>,
    scheme: &S,
    include_prerelease: bool,
)
    requires
        resolved(r, dep, vs, scheme, include_prerelease),
    ensures
        !(r is Yanked),
        !(r is Errored),
        (r is Unsatisfiable) <==> !any_flag(candidate_flags(vs, include_prerelease)),
        r matches Verdict::Unsatisfiable { constraint } ==> constraint == dep.constraint,
{
}

/// The latest version is a listed version that is not yanked, and not a
/// pre-release unless pre-releases are included, and no candidate ranks
/// above it.
pub proof fn law_latest_is_highest_candidate<S: Scheme>(
    r: Verdict,
    dep: Dependency,
    vs: Seq<VersionMetadata>,
    scheme: &S,
    include_prerelease: bool,
)
    requires
        resolved(r, dep, vs, scheme, include_prerelease),
        r is Current || r is Outdated,
    ensures
        exists|j: int| {
            &&& 0 <= j < vs.len()
            &&& vs[j].version.0@ == latest_of(r)
            &&& !vs[j].yanked
            &&& (include_prerelease || !vs[j].prerelease)
        },
        forall|i: int| 0 <= i < vs.len() && is_candidate(vs[i], include_prerelease)
            ==> ranks_no_higher(#[trigger] vs[i].version.0@, latest_of(r)),
{
    let flags = candidate_flags(vs, include_prerelease);
    let j = lemma_highest_position(vs, flags, latest_of(r));
    assert(flags[j] == is_candidate(vs[j], include_prerelease));
    assert forall|i: int| 0 <= i < vs.len() && is_candidate(vs[i], include_prerelease)
        implies ranks_no_higher(#[trigger] vs[i].version.0@, latest_of(r)) by {
        assert(flags[i]);
        assert(version_texts(vs)[i] == vs[i].version.0@);
    }
}

/// A compatible version, where there is one, is a listed candidate that
/// satisfies the constraint and ranks no higher than the latest.
pub proof fn law_compatible_satisfies_constraint<S: Scheme>(
    r: Verdict,
    dep: Dependency,
    vs: Seq<VersionMetadata>,
    scheme: &S,
    include_prerelease: bool,
)
    requires
        resolved(r, dep, vs, scheme, include_prerelease),
        r matches Verdict::Outdated { compatible: Some(_), .. },
    ensures
        r matches Verdict::Outdated { compatible: Some(c), latest, .. } && {
            &&& exists|j: int| {
                &&& 0 <= j < vs.len()
                &&& vs[j].version.0@ == c.0@
                &&& is_candidate(vs[j], include_prerelease)
            }
            &&& scheme.satisfies_spec(c.0@, dep.constraint.0@)
            &&& ranks_no_higher(c.0@, latest.0@)
        },
{
    if let Verdict::Outdated { compatible: Some(c), latest, .. } = r {
        let cflags = compatible_flags(vs, include_prerelease, scheme, dep.constraint.0@);
        let j = lemma_highest_position(vs, cflags, c.0@);
        assert(cflags[j]);
        let flags = candidate_flags(vs, include_prerelease);
        let k = lemma_highest_position(vs, flags, latest.0@);
        assert(flags[j]);
        assert(version_texts(vs)[j] == vs[j].version.0@);
    }
}

/// A pre-release hint, where there is one, names a listed pre-release that
/// is not yanked and that semver orders after the latest version.
pub proof fn law_prerelease_hint_is_newer<S: Scheme>(
    r: Verdict,
    dep: Dependency,
    vs: Seq<VersionMetadata>,
    scheme: &S,
    include_prerelease: bool,
    p: Seq<char>,
)
    requires
        resolved(r, dep, vs, scheme, include_prerelease),
        prerelease_of(r) == Some(p),
    ensures
        exists|j: int| {
            &&& 0 <= j < vs.len()
            &&& vs[j].version.0@ == p
            &&& !vs[j].yanked
            &&& vs[j].prerelease
        },
        semver_parse(p) is Some,
        semver_parse(latest_of(r)) is Some,
        semver_order(p, latest_of(r)) > 0,
{
    let flags = prerelease_flags(vs);
    let j = lemma_highest_position(vs, flags, p);
    assert(flags[j]);
}

/// A dependency is outdated exactly when the scheme finds its latest version
/// newer than the version its constraint declares.
pub proof fn law_outdated_iff_newer<S: Scheme>(
    r: Verdict,
    dep: Dependency,
    vs: Seq<VersionMetadata>,
    scheme: &S,
    include_prerelease: bool,
)
    requires
        resolved(r, dep, vs, scheme, include_prerelease),
        r is Current || r is Outdated,
    ensures
        (r is Outdated) <==> scheme.newer_spec(declared_text(dep.constraint.0@), latest_of(r)),
{
}

/// Every edit an update plans is for an outdated dependency; its version is
/// the latest where breaking bumps are allowed and the compatible one
/// otherwise; and it moves the dependency forward.
pub proof fn law_planned_edits_are_upgrades(verdicts: Seq<(Dependency, Verdict)>, allow_breaking: bool, k: int)
    requires
        0 <= k < planned_edits(verdicts, allow_breaking).len(),
    ensures
        ({
            let e = planned_edits(verdicts, allow_breaking)[k];
            &&& 0 <= e.0 < verdicts.len()
            &&& verdicts[e.0].1 is Outdated
            &&& update_target(verdicts[e.0].1, allow_breaking) == Some(e.1)
            &&& actual_upgrade_spec(verdicts[e.0].0.constraint.0@, e.1.0@)
        }),
    decreases verdicts.len(),
{
    let rest = planned_edits(verdicts.drop_last(), allow_breaking);
    if k < rest.len() {
        law_planned_edits_are_upgrades(verdicts.drop_last(), allow_breaking, k);
        let e = rest[k];
        assert(verdicts.drop_last()[e.0] == verdicts[e.0]);
    }
}

/// Every dependency read from a list of entries carries its section label
/// and no source hint.
proof fn lemma_entry_deps_labelled(nodes: Seq<NodeView>, entries: Seq<NodeView>, label: Seq<char>)
    ensures
        forall|i: int| 0 <= i < entry_deps(nodes, entries, label).len()
            ==> #[trigger] entry_deps(nodes, entries, label)[i].3 == Some(label)
                && entry_deps(nodes, entries, label)[i].4 is None,
    decreases entries.len(),
{
    if entries.len() > 0 {
        lemma_entry_deps_labelled(nodes, entries.drop_last(), label);
    }
}

/// Whether every dependency of a list carries a section label and no source
/// hint.
pub open spec fn all_labelled(ds: Seq<DependencyView>) -> bool {
    forall|i: int| 0 <= i < ds.len() ==> (#[trigger] ds[i]).3 is Some && ds[i].4 is None
}

proof fn lemma_table_deps_labelled(nodes: Seq<NodeView>, path: Seq<Seq<char>>, label: Seq<char>)
    ensures
        all_labelled(table_deps(nodes, path, label)),
{
    lemma_entry_deps_labelled(nodes, children(nodes, path), label);
}

proof fn lemma_concat_labelled(a: Seq<DependencyView>, b: Seq<DependencyView>)
    requires
        all_labelled(a),
        all_labelled(b),
    ensures
        all_labelled(a + b),
{
    assert forall|i: int| 0 <= i < (a + b).len() implies (#[trigger] (a + b)[i]).3 is Some && (a + b)[i].4 is None by {
        if i < a.len() {
            assert((a + b)[i] == a[i]);
        } else {
            assert((a + b)[i] == b[i - a.len()]);
        }
    }
}

proof fn lemma_targets_deps_labelled(nodes: Seq<NodeView>, ts: Seq<NodeView>)
    ensures
        all_labelled(targets_deps(nodes, ts)),
    decreases ts.len(),
{
    if ts.len() > 0 {
        lemma_targets_deps_labelled(nodes, ts.drop_last());
        let t = ts.last();
        lemma_table_deps_labelled(nodes, t.0.push("dependencies"@), crate::manifest::target_label(t.0.last(), "dependencies"@));
        lemma_table_deps_labelled(nodes, t.0.push("dev-dependencies"@), crate::manifest::target_label(t.0.last(), "dev-dependencies"@));
        lemma_table_deps_labelled(nodes, t.0.push("build-dependencies"@), crate::manifest::target_label(t.0.last(), "build-dependencies"@));
        let a = table_deps(nodes, t.0.push("dependencies"@), crate::manifest::target_label(t.0.last(), "dependencies"@));
        let b = table_deps(nodes, t.0.push("dev-dependencies"@), crate::manifest::target_label(t.0.last(), "dev-dependencies"@));
        let c = table_deps(nodes, t.0.push("build-dependencies"@), crate::manifest::target_label(t.0.last(), "build-dependencies"@));
        lemma_concat_labelled(a, b);
        lemma_concat_labelled(a + b, c);
        lemma_concat_labelled(targets_deps(nodes, ts.drop_last()), one_target_deps(nodes, t));
    }
}

/// Every dependency read from a manifest records the section that declared
/// it, so that a later write can target that section; none has a source
/// hint.
pub proof fn law_read_dependencies_are_labelled(nodes: Seq<NodeView>)
    ensures
        all_labelled(manifest_deps(nodes)),
{
    lemma_table_deps_labelled(nodes, seq!["dependencies"@], "dependencies"@);
    lemma_table_deps_labelled(nodes, seq!["dev-dependencies"@], "dev-dependencies"@);
    lemma_table_deps_labelled(nodes, seq!["build-dependencies"@], "build-dependencies"@);
    lemma_table_deps_labelled(nodes, seq!["workspace"@, "dependencies"@], "workspace.dependencies"@);
    lemma_targets_deps_labelled(nodes, children(nodes, seq!["target"@]));
    let a = table_deps(nodes, seq!["dependencies"@], "dependencies"@);
    let b = table_deps(nodes, seq!["dev-dependencies"@], "dev-dependencies"@);
    let c = table_deps(nodes, seq!["build-dependencies"@], "build-dependencies"@);
    let d = table_deps(nodes, seq!["workspace"@, "dependencies"@], "workspace.dependencies"@);
    lemma_concat_labelled(a, b);
    lemma_concat_labelled(a + b, c);
    lemma_concat_labelled(a + b + c, d);
    lemma_concat_labelled(a + b + c + d, target_deps(nodes));
}

/// Whether an edit path addresses the entry `coord` of the table `table`,
/// or that entry's `version` key.
pub open spec fn addresses(p: Seq<Seq<char>>, table: Seq<Seq<char>>, coord: Seq<char>) -> bool {
    p == table.push(coord) || p == table.push(coord).push("version"@)
}

/// Every edit that sets a dependency's version writes that version, at the
/// dependency's own entry (or its `version` key) in one of the tables its
/// section selects; nothing else in the document is addressed.
pub proof fn law_edits_address_the_dependency(
    nodes: Seq<NodeView>,
    tables: Seq<Seq<Seq<char>>>,
    coord: Seq<char>,
    version: Seq<char>,
    k: int,
)
    requires
        0 <= k < table_edits(nodes, tables, coord, version).len(),
    ensures
        table_edits(nodes, tables, coord, version)[k].1 == version,
        exists|t: int| 0 <= t < tables.len()
            && addresses(table_edits(nodes, tables, coord, version)[k].0, #[trigger] tables[t], coord),
    decreases tables.len(),
{
    let rest = table_edits(nodes, tables.drop_last(), coord, version);
    if k < rest.len() {
        law_edits_address_the_dependency(nodes, tables.drop_last(), coord, version, k);
        let t = choose|t: int| 0 <= t < tables.drop_last().len()
            && addresses(rest[k].0, #[trigger] tables.drop_last()[t], coord);
        assert(tables.drop_last()[t] == tables[t]);
    } else {
        assert(addresses(table_edits(nodes, tables, coord, version)[k].0, tables[tables.len() - 1], coord));
    }
}

/// A dependency read from a root section (`dependencies`,
/// `dev-dependencies`, `build-dependencies`) or from
/// `workspace.dependencies` is written only there: the same name in another
/// section is left alone.
pub proof fn law_section_targeted_writes(nodes: Seq<NodeView>, section: Seq<char>)
    requires
        section == "dependencies"@ || section == "dev-dependencies"@ || section == "build-dependencies"@,
    ensures
        edit_tables(nodes, Some(section)) == seq![seq![section]],
        edit_tables(nodes, Some("workspace.dependencies"@)) == seq![seq!["workspace"@, "dependencies"@]],
{
    reveal_strlit("workspace.dependencies");
    reveal_strlit("dependencies");
    reveal_strlit("dev-dependencies");
    reveal_strlit("build-dependencies");
    assert("workspace.dependencies"@.len() == 22);
    assert("dependencies"@.len() == 12);
    assert("dev-dependencies"@.len() == 16);
    assert("build-dependencies"@.len() == 18);
}

/// A current dependency shows only in tree mode; every other verdict always
/// shows.
pub proof fn law_current_shows_only_in_tree(dep: Dependency, v: Verdict, is_tree: bool, should_update: bool)
    ensures
        v is Current ==> (line_text(dep, v, is_tree, should_update).len() == 0 <==> !is_tree),
        !(v is Current) ==> line_text(dep, v, is_tree, should_update).len() > 0,
{
}

/// No entry of an index body is empty.
pub proof fn law_index_lines_not_empty(body: Seq<char>)
    ensures
        forall|i: int| 0 <= i < index_lines_spec(body).len() ==> #[trigger] index_lines_spec(body)[i].len() > 0,
{
    lemma_kept_not_empty(split_lines(body));
}

proof fn lemma_kept_not_empty(pieces: Seq<Seq<char>>)
    ensures
        forall|i: int| 0 <= i < kept_lines(pieces).len() ==> #[trigger] kept_lines(pieces)[i].len() > 0,
    decreases pieces.len(),
{
    if pieces.len() > 0 {
        lemma_kept_not_empty(pieces.drop_last());
        let rest = kept_lines(pieces.drop_last());
        assert forall|i: int| 0 <= i < kept_lines(pieces).len() implies #[trigger] kept_lines(pieces)[i].len() > 0 by {
            if i < rest.len() {
                assert(kept_lines(pieces)[i] == rest[i]);
            }
        }
    }
}

/// A crate's index path ends with its lowercase name.
pub proof fn law_index_path_ends_with_name(lower: Seq<char>)
    requires
        lower.len() > 0,
    ensures
        index_path_spec(lower).len() >= lower.len(),
        index_path_spec(lower).skip(index_path_spec(lower).len() - lower.len()) == lower,
{
    let p = index_path_spec(lower);
    assert(p.skip(p.len() - lower.len()) == lower);
}

} // verus!

verus! {

/// With pre-releases included, no pre-release hint is ever given: every
/// pre-release is then a candidate, so none orders after the latest.
pub proof fn law_no_prerelease_hint_when_included<S: Scheme>(
    r: Verdict,
    dep: Dependency,
    vs: Seq<VersionMetadata>,
    scheme: &S,
)
    requires
        resolved(r, dep, vs, scheme, true),
    ensures
        prerelease_of(r) is None,
{
    if let Some(p) = prerelease_of(r) {
        let pflags = prerelease_flags(vs);
        let j = lemma_highest_position(vs, pflags, p);
        assert(pflags[j]);
        let cflags = candidate_flags(vs, true);
        let k = lemma_highest_position(vs, cflags, latest_of(r));
        assert(cflags[j]);
        assert(version_texts(vs)[j] == vs[j].version.0@);
        assert(ranks_no_higher(p, latest_of(r)));
    }
}

} // verus!

verus! {

/// Writing a dependency whose section selects one table sets what its entry
/// there declares to the new version: where the entry declared a
/// constraint (a string, or a table with a string `version`), the items as
/// the write leaves them declare the new version for it.
pub proof fn law_written_dependency_reads_new_version(
    nodes: Seq<NodeView>,
    dep: Dependency,
    version: Version,
    table: Seq<Seq<char>>,
)
    requires
        edit_tables(nodes, opt_string_view(dep.section)) == seq![table],
        find_node(nodes, table) matches Some(t) && is_table_like(t.1),
        find_node(nodes, table.push(dep.coordinate.0@)) matches Some(e) && constraint_of(nodes, e) is Some,
    ensures
        find_node(apply_edits(nodes, dependency_edits(nodes, dep, version)), table.push(dep.coordinate.0@)) matches Some(e2)
            && constraint_of(apply_edits(nodes, dependency_edits(nodes, dep, version)), e2) == Some(version.0@),
{
    let c = dep.coordinate.0@;
    let v = version.0@;
    let tables = seq![table];
    let e = find_node(nodes, table.push(c))->Some_0;
    let vp = table.push(c).push("version"@);
    let p = edit_path(nodes, table, c)->Some_0;
    lemma_find_node_at(nodes, table.push(c));
    assert(e.0 == table.push(c));
    assert(tables.drop_last() == Seq::<Seq<Seq<char>>>::empty());
    assert(tables.last() == table);
    assert(edit_path(nodes, table, c) is Some);
    let es = dependency_edits(nodes, dep, version);
    let none = Seq::<(Seq<Seq<char>>, Seq<char>)>::empty();
    assert(table_edits(nodes, tables.drop_last(), c, v) == none);
    assert(es == none.push((p, v)));
    assert(es.drop_last() == none);
    assert(es.last() == (p, v));
    assert(edited_text(none, table.push(c)) is None);
    let an = apply_edits(nodes, es);
    lemma_find_node_apply(nodes, es, table.push(c));
    lemma_find_node_apply(nodes, es, vp);
    if e.1 == NodeKind::Str {
        assert(p == table.push(c));
        assert(edited_text(es, table.push(c)) == Some(v));
        assert(edited_node(es, e) == (e.0, NodeKind::Str, v, e.3));
    } else {
        assert(p == vp);
        assert(table.push(c).len() != vp.len());
        assert(edited_text(es, table.push(c)) is None);
        assert(edited_text(es, vp) == Some(v));
        assert(e.0 == table.push(c));
        assert(e.0.push("version"@) == vp);
        lemma_find_node_at(nodes, vp);
        let vn = find_node(nodes, vp)->Some_0;
        assert(vn.0 == vp);
        assert(edited_node(es, vn) == (vp, NodeKind::Str, v, vn.3));
        assert(edited_node(es, e) == e);
        assert(find_node(an, vp) == Some(edited_node(es, vn)));
        assert(constraint_of(an, e) == Some(v));
    }
}

} // verus!

verus! {

/// Writing the same version of the same dependency a second time changes no
/// item: where the first write set plain values, the second plans the same
/// edits on the text the first wrote, and what it writes parses into the
/// items that text held (but for where they sit).
pub proof fn law_second_write_keeps_items(
    content: Seq<char>,
    written: Seq<char>,
    written2: Seq<char>,
    nodes: Seq<NodeView>,
    nodes2: Seq<NodeView>,
    dep: Dependency,
    version: Version,
)
    requires
        toml_parse(content) == Ok::<Seq<NodeView>, Seq<char>>(nodes),
        toml_parse(written) == Ok::<Seq<NodeView>, Seq<char>>(nodes2),
        edits_at_values(nodes, dependency_edits(nodes, dep, version)),
        reads_back(content, dependency_edits(nodes, dep, version), written),
        reads_back(written, dependency_edits(nodes2, dep, version), written2),
    ensures
        dependency_edits(nodes2, dep, version) == dependency_edits(nodes, dep, version),
        toml_parse(written2) matches Ok(nodes3) && same_but_spans(nodes3, nodes2),
{
    let es = dependency_edits(nodes, dep, version);
    let an = apply_edits(nodes, es);
    assert(same_but_spans(nodes2, an));
    lemma_dependency_edits_sbs(nodes2, an, dep, version);
    lemma_dependency_edits_apply(nodes, es, dep, version);
    assert forall|k: int| 0 <= k < es.len() implies (#[trigger] find_node(nodes2, es[k].0) matches Some(n)
        && (n.1 == NodeKind::Str || n.1 == NodeKind::OtherValue)) by {
        let p = es[k].0;
        lemma_find_node_sbs(nodes2, an, p);
        lemma_find_node_apply(nodes, es, p);
        lemma_find_node_at(nodes, p);
        lemma_edited_text_at(es, k);
        assert(find_node(nodes, p) is Some);
    }
    let an2 = apply_edits(nodes2, es);
    assert(same_but_spans(an2, nodes2)) by {
        assert forall|i: int| 0 <= i < an2.len() implies (#[trigger] an2[i]).0 == nodes2[i].0
            && an2[i].1 == nodes2[i].1 && an2[i].2 == nodes2[i].2 by {
            assert(an2[i] == edited_node(es, nodes2[i]));
            assert(an[i] == edited_node(es, nodes[i]));
            assert(nodes2[i].0 == an[i].0);
        }
    }
    match toml_parse(written2) {
        Ok(nodes3) => {
            assert(same_but_spans(nodes3, an2));
            assert forall|i: int| 0 <= i < nodes3.len() implies (#[trigger] nodes3[i]).0 == nodes2[i].0
                && nodes3[i].1 == nodes2[i].1 && nodes3[i].2 == nodes2[i].2 by {
                assert(nodes3[i].0 == an2[i].0);
                assert(an2[i].0 == nodes2[i].0);
            }
        },
        Err(_) => {},
    }
}

} // verus!

verus! {

/// Whether each list of versions holds every entry of the other, as any
/// reordering of a list does.
pub open spec fn same_entries(a: Seq<VersionMetadata>, b: Seq<VersionMetadata>) -> bool {
    &&& forall|i: int| #![trigger a[i]] 0 <= i < a.len() ==> exists|j: int| 0 <= j < b.len() && b[j] == a[i]
    &&& forall|j: int| #![trigger b[j]] 0 <= j < b.len() ==> exists|i: int| 0 <= i < a.len() && a[i] == b[j]
}

/// Whether flags over two lists agree wherever the lists hold the same entry.
pub open spec fn flags_agree(a: Seq<VersionMetadata>, fa: Seq<bool>, b: Seq<VersionMetadata>, fb: Seq<bool>) -> bool {
    &&& fa.len() == a.len()
    &&& fb.len() == b.len()
    &&& forall|i: int, j: int| #![trigger a[i], b[j]] 0 <= i < a.len() && 0 <= j < b.len() && a[i] == b[j] ==> fa[i] == fb[j]
}

/// The compatible version of an `Outdated` verdict.
pub open spec fn compatible_of(r: Verdict) -> Option<Seq<char>> {
    match r {
        Verdict::Outdated { compatible: Some(c), .. } => Some(c.0@),
        _ => None,
    }
}

/// Lists with the same entries flag some entry alike.
proof fn lemma_any_flag_same(a: Seq<VersionMetadata>, fa: Seq<bool>, b: Seq<VersionMetadata>, fb: Seq<bool>)
    requires
        same_entries(a, b),
        flags_agree(a, fa, b, fb),
    ensures
        any_flag(fa) <==> any_flag(fb),
{
    if any_flag(fa) {
        let i = choose|i: int| 0 <= i < fa.len() && fa[i];
        assert(a[i] == a[i]);
        let j = choose|j: int| 0 <= j < b.len() && b[j] == a[i];
        assert(fb[j]);
    }
    if any_flag(fb) {
        let j = choose|j: int| 0 <= j < fb.len() && fb[j];
        assert(b[j] == b[j]);
        let i = choose|i: int| 0 <= i < a.len() && a[i] == b[j];
        assert(fa[i]);
    }
}

/// Lists with the same entries have the same highest flagged text, where
/// semver ranks no two different texts equal.
proof fn lemma_highest_same(
    a: Seq<VersionMetadata>,
    fa: Seq<bool>,
    b: Seq<VersionMetadata>,
    fb: Seq<bool>,
    ta: Seq<char>,
    tb: Seq<char>,
)
    requires
        semver_order_strict(),
        same_entries(a, b),
        flags_agree(a, fa, b, fb),
        highest_text(a, fa) == Some(ta),
        highest_text(b, fb) == Some(tb),
    ensures
        ta == tb,
{
    let ja = lemma_highest_position(a, fa, ta);
    let jb = lemma_highest_position(b, fb, tb);
    assert(a[ja] == a[ja]);
    let k = choose|k: int| 0 <= k < b.len() && b[k] == a[ja];
    assert(fb[k]);
    assert(version_texts(b)[k] == ta);
    assert(ranks_no_higher(version_texts(b)[k], version_texts(b)[jb]));
    assert(b[jb] == b[jb]);
    let m = choose|m: int| 0 <= m < a.len() && a[m] == b[jb];
    assert(fa[m]);
    assert(version_texts(a)[m] == tb);
    assert(ranks_no_higher(version_texts(a)[m], version_texts(a)[ja]));
    lemma_ranks_antisymmetric(ta, tb);
}

/// Flags computed entry by entry agree on lists wherever they hold the same
/// entry.
proof fn lemma_flags_agree<S: Scheme>(
    vs1: Seq<VersionMetadata>,
    vs2: Seq<VersionMetadata>,
    include_prerelease: bool,
    scheme: &S,
    c: Seq<char>,
)
    ensures
        flags_agree(vs1, candidate_flags(vs1, include_prerelease), vs2, candidate_flags(vs2, include_prerelease)),
        flags_agree(vs1, compatible_flags(vs1, include_prerelease, scheme, c), vs2, compatible_flags(vs2, include_prerelease, scheme, c)),
        flags_agree(vs1, prerelease_flags(vs1), vs2, prerelease_flags(vs2)),
{
}

/// Whether a pre-release newer than `latest` is listed does not depend on
/// the order of the list.
proof fn lemma_prerelease_above_same(vs1: Seq<VersionMetadata>, vs2: Seq<VersionMetadata>, l: Seq<char>)
    requires
        same_entries(vs1, vs2),
    ensures
        prerelease_above(vs1, l) == prerelease_above(vs2, l),
{
    let p1 = prerelease_flags(vs1);
    let p2 = prerelease_flags(vs2);
    if prerelease_above(vs1, l) {
        let i = choose|i: int| 0 <= i < vs1.len() && #[trigger] p1[i] && semver_order(vs1[i].version.0@, l) > 0;
        assert(vs1[i] == vs1[i]);
        let j = choose|j: int| 0 <= j < vs2.len() && vs2[j] == vs1[i];
        assert(p2[j]);
    }
    if prerelease_above(vs2, l) {
        let j = choose|j: int| 0 <= j < vs2.len() && #[trigger] p2[j] && semver_order(vs2[j].version.0@, l) > 0;
        assert(vs2[j] == vs2[j]);
        let i = choose|i: int| 0 <= i < vs1.len() && vs1[i] == vs2[j];
        assert(p1[i]);
    }
}

/// The verdict does not depend on the order in which the versions are
/// listed: two lists with the same entries, one a reordering of the other,
/// get the same verdict, where semver ranks no two different texts equal.
#[verifier::rlimit(40)]
pub proof fn law_resolve_ignores_order<S: Scheme>(
    dep: Dependency,
    vs1: Seq<VersionMetadata>,
    vs2: Seq<VersionMetadata>,
    scheme: &S,
    include_prerelease: bool,
    r1: Verdict,
    r2: Verdict,
)
    requires
        semver_order_strict(),
        same_entries(vs1, vs2),
        resolved(r1, dep, vs1, scheme, include_prerelease),
        resolved(r2, dep, vs2, scheme, include_prerelease),
    ensures
        r1 is Unsatisfiable <==> r2 is Unsatisfiable,
        r1 is Unsatisfiable ==> r1 == r2,
        r1 is Current <==> r2 is Current,
        r1 is Outdated <==> r2 is Outdated,
        latest_of(r1) == latest_of(r2),
        compatible_of(r1) == compatible_of(r2),
        prerelease_of(r1) == prerelease_of(r2),
{
    let c = dep.constraint.0@;
    let c1 = candidate_flags(vs1, include_prerelease);
    let c2 = candidate_flags(vs2, include_prerelease);
    let k1 = compatible_flags(vs1, include_prerelease, scheme, c);
    let k2 = compatible_flags(vs2, include_prerelease, scheme, c);
    let p1 = prerelease_flags(vs1);
    let p2 = prerelease_flags(vs2);
    lemma_flags_agree(vs1, vs2, include_prerelease, scheme, c);
    lemma_any_flag_same(vs1, c1, vs2, c2);
    lemma_any_flag_same(vs1, k1, vs2, k2);
    if !(r1 is Unsatisfiable) && !(r2 is Unsatisfiable) {
        let l1 = latest_of(r1);
        let l2 = latest_of(r2);
        lemma_highest_same(vs1, c1, vs2, c2, l1, l2);
        lemma_prerelease_above_same(vs1, vs2, l1);
        match (r1, r2) {
            (Verdict::Outdated { compatible: Some(x1), .. }, Verdict::Outdated { compatible: Some(x2), .. }) => {
                lemma_highest_same(vs1, k1, vs2, k2, x1.0@, x2.0@);
            },
            _ => {},
        }
        if prerelease_of(r1) is Some && prerelease_of(r2) is Some {
            let q1 = highest_text(vs1, p1)->Some_0;
            let q2 = highest_text(vs2, p2)->Some_0;
            lemma_highest_same(vs1, p1, vs2, p2, q1, q2);
        }
    }
}

} // verus!

verus! {

/// An entry of a list that declares a constraint is read from it.
proof fn lemma_entry_read(nodes: Seq<NodeView>, entries: Seq<NodeView>, label: Seq<char>, e: NodeView, c: Seq<char>)
    requires
        entries.contains(e),
        constraint_of(nodes, e) == Some(c),
    ensures
        entry_deps(nodes, entries, label).contains((e.0.last(), c, e.3, Some(label), None::<Seq<char>>)),
    decreases entries.len(),
{
    let d = (e.0.last(), c, e.3, Some(label), None::<Seq<char>>);
    let i = choose|i: int| 0 <= i < entries.len() && entries[i] == e;
    let rest = entry_deps(nodes, entries.drop_last(), label);
    if i == entries.len() - 1 {
        assert(entries.last() == e);
        assert(entry_deps(nodes, entries, label) == rest.push(d));
        assert(rest.push(d)[rest.len() as int] == d);
    } else {
        assert(entries.drop_last()[i] == e);
        lemma_entry_read(nodes, entries.drop_last(), label, e, c);
        let k = choose|k: int| 0 <= k < rest.len() && rest[k] == d;
        match constraint_of(nodes, entries.last()) {
            Some(c2) => {
                let x = (entries.last().0.last(), c2, entries.last().3, Some(label), None::<Seq<char>>);
                assert(rest.push(x)[k] == d);
            },
            None => {},
        }
    }
}

/// Dependencies read earlier or later in a concatenation are read.
proof fn lemma_contains_concat(a: Seq<DependencyView>, b: Seq<DependencyView>, d: DependencyView)
    ensures
        a.contains(d) ==> (a + b).contains(d),
        b.contains(d) ==> (a + b).contains(d),
{
    if a.contains(d) {
        let i = choose|i: int| 0 <= i < a.len() && a[i] == d;
        assert((a + b)[i] == d);
    }
    if b.contains(d) {
        let i = choose|i: int| 0 <= i < b.len() && b[i] == d;
        assert((a + b)[a.len() + i] == d);
    }
}

/// Every target of a list has its tables read.
proof fn lemma_target_read(nodes: Seq<NodeView>, ts: Seq<NodeView>, t: NodeView, d: DependencyView)
    requires
        ts.contains(t),
        one_target_deps(nodes, t).contains(d),
    ensures
        targets_deps(nodes, ts).contains(d),
    decreases ts.len(),
{
    let i = choose|i: int| 0 <= i < ts.len() && ts[i] == t;
    if i == ts.len() - 1 {
        assert(ts.last() == t);
        lemma_contains_concat(targets_deps(nodes, ts.drop_last()), one_target_deps(nodes, t), d);
    } else {
        assert(ts.drop_last()[i] == t);
        lemma_target_read(nodes, ts.drop_last(), t, d);
        lemma_contains_concat(targets_deps(nodes, ts.drop_last()), one_target_deps(nodes, ts.last()), d);
    }
}

/// Every table of every target is read: for each target under `[target]`
/// and each of its `dependencies`, `dev-dependencies` and
/// `build-dependencies` tables, every entry that declares a constraint (a
/// string, or a table with a string `version`) is among the dependencies
/// the manifest declares, with that constraint, where it sits, and the label
/// `target.{target}.{kind}`.
pub proof fn law_every_target_table_is_read(
    nodes: Seq<NodeView>,
    t: NodeView,
    kind: Seq<char>,
    e: NodeView,
    c: Seq<char>,
)
    requires
        find_node(nodes, seq!["target"@]) matches Some(tn) && is_table_like(tn.1),
        children(nodes, seq!["target"@]).contains(t),
        kind == "dependencies"@ || kind == "dev-dependencies"@ || kind == "build-dependencies"@,
        find_node(nodes, t.0.push(kind)) matches Some(tab) && is_table_like(tab.1),
        children(nodes, t.0.push(kind)).contains(e),
        constraint_of(nodes, e) == Some(c),
    ensures
        manifest_deps(nodes).contains(
            (e.0.last(), c, e.3, Some("target."@ + t.0.last() + "."@ + kind), None::<Seq<char>>),
        ),
{
    let label = "target."@ + t.0.last() + "."@ + kind;
    let d = (e.0.last(), c, e.3, Some(label), None::<Seq<char>>);
    lemma_entry_read(nodes, children(nodes, t.0.push(kind)), label, e, c);
    assert(table_deps(nodes, t.0.push(kind), label).contains(d));
    let a = table_deps(nodes, t.0.push("dependencies"@), target_label(t.0.last(), "dependencies"@));
    let b = table_deps(nodes, t.0.push("dev-dependencies"@), target_label(t.0.last(), "dev-dependencies"@));
    let x = table_deps(nodes, t.0.push("build-dependencies"@), target_label(t.0.last(), "build-dependencies"@));
    lemma_contains_concat(a, b, d);
    lemma_contains_concat(a + b, x, d);
    assert(one_target_deps(nodes, t) == a + b + x);
    assert(one_target_deps(nodes, t).contains(d));
    lemma_target_read(nodes, children(nodes, seq!["target"@]), t, d);
    assert(target_deps(nodes).contains(d));
    let r = table_deps(nodes, seq!["dependencies"@], "dependencies"@)
        + table_deps(nodes, seq!["dev-dependencies"@], "dev-dependencies"@)
        + table_deps(nodes, seq!["build-dependencies"@], "build-dependencies"@)
        + table_deps(nodes, seq!["workspace"@, "dependencies"@], "workspace.dependencies"@);
    lemma_contains_concat(r, target_deps(nodes), d);
}

} // verus!

verus! {

/// Every table of every target is among the target tables.
proof fn lemma_target_table_listed(ts: Seq<NodeView>, t: NodeView, kind: Seq<char>)
    requires
        ts.contains(t),
        kind == "dependencies"@ || kind == "dev-dependencies"@ || kind == "build-dependencies"@,
    ensures
        targets_tables(ts).contains(t.0.push(kind)),
    decreases ts.len(),
{
    let i = choose|i: int| 0 <= i < ts.len() && ts[i] == t;
    let rest = targets_tables(ts.drop_last());
    let three = seq![ts.last().0.push("dependencies"@), ts.last().0.push("dev-dependencies"@), ts.last().0.push("build-dependencies"@)];
    assert(targets_tables(ts) == rest + three);
    if i == ts.len() - 1 {
        assert(ts.last() == t);
        if kind == "dependencies"@ {
            assert((rest + three)[rest.len() as int] == t.0.push(kind));
        } else if kind == "dev-dependencies"@ {
            assert((rest + three)[rest.len() as int + 1] == t.0.push(kind));
        } else {
            assert((rest + three)[rest.len() as int + 2] == t.0.push(kind));
        }
    } else {
        assert(ts.drop_last()[i] == t);
        lemma_target_table_listed(ts.drop_last(), t, kind);
        let k = choose|k: int| 0 <= k < rest.len() && rest[k] == t.0.push(kind);
        assert((rest + three)[k] == t.0.push(kind));
    }
}

/// A listed table where the entry has an edit path plans that edit.
proof fn lemma_table_edit_planned(nodes: Seq<NodeView>, tables: Seq<Seq<Seq<char>>>, table: Seq<Seq<char>>, c: Seq<char>, v: Seq<char>, p: Seq<Seq<char>>)
    requires
        tables.contains(table),
        edit_path(nodes, table, c) == Some(p),
    ensures
        exists|k: int| 0 <= k < table_edits(nodes, tables, c, v).len() && (#[trigger] table_edits(nodes, tables, c, v)[k]).0 == p,
    decreases tables.len(),
{
    let i = choose|i: int| 0 <= i < tables.len() && tables[i] == table;
    let rest = table_edits(nodes, tables.drop_last(), c, v);
    if i == tables.len() - 1 {
        assert(tables.last() == table);
        assert(table_edits(nodes, tables, c, v) == rest.push((p, v)));
        assert(rest.push((p, v))[rest.len() as int].0 == p);
        assert(table_edits(nodes, tables, c, v)[rest.len() as int].0 == p);
    } else {
        assert(tables.drop_last()[i] == table);
        lemma_table_edit_planned(nodes, tables.drop_last(), table, c, v, p);
        let k = choose|k: int| 0 <= k < rest.len() && (#[trigger] rest[k]).0 == p;
        match edit_path(nodes, tables.last(), c) {
            Some(q) => { assert(rest.push((q, v))[k] == rest[k]); },
            None => {},
        }
        assert(table_edits(nodes, tables, c, v)[k].0 == p);
    }
}

/// Writing a dependency read from a target section (or from an unknown
/// section) sets its version in the tables of every target, not only some:
/// for each target under `[target]` and each of its dependency tables where
/// the entry named like the dependency declares a constraint, the items as
/// the write leaves them declare the new version for that entry.
pub proof fn law_target_writes_reach_every_target(
    nodes: Seq<NodeView>,
    dep: Dependency,
    version: Version,
    t: NodeView,
    kind: Seq<char>,
)
    requires
        opt_string_view(dep.section) != Some("dependencies"@),
        opt_string_view(dep.section) != Some("dev-dependencies"@),
        opt_string_view(dep.section) != Some("build-dependencies"@),
        opt_string_view(dep.section) != Some("workspace.dependencies"@),
        find_node(nodes, seq!["target"@]) matches Some(tn) && is_table_like(tn.1),
        children(nodes, seq!["target"@]).contains(t),
        kind == "dependencies"@ || kind == "dev-dependencies"@ || kind == "build-dependencies"@,
        find_node(nodes, t.0.push(kind)) matches Some(tab) && is_table_like(tab.1),
        find_node(nodes, t.0.push(kind).push(dep.coordinate.0@)) matches Some(e) && constraint_of(nodes, e) is Some,
    ensures
        find_node(apply_edits(nodes, dependency_edits(nodes, dep, version)), t.0.push(kind).push(dep.coordinate.0@)) matches Some(e2)
            && constraint_of(apply_edits(nodes, dependency_edits(nodes, dep, version)), e2) == Some(version.0@),
{
    let c = dep.coordinate.0@;
    let v = version.0@;
    let table = t.0.push(kind);
    let es = dependency_edits(nodes, dep, version);
    let tables = edit_tables(nodes, opt_string_view(dep.section));
    lemma_target_table_listed(children(nodes, seq!["target"@]), t, kind);
    assert(target_tables(nodes).contains(table));
    assert(tables.contains(table)) by {
        match opt_string_view(dep.section) {
            None => {
                let k = choose|k: int| 0 <= k < target_tables(nodes).len() && target_tables(nodes)[k] == table;
                let fixed = seq![
                    seq!["dependencies"@],
                    seq!["dev-dependencies"@],
                    seq!["build-dependencies"@],
                    seq!["workspace"@, "dependencies"@],
                ];
                assert(tables == fixed + target_tables(nodes));
                assert((fixed + target_tables(nodes))[4 + k] == table);
            },
            Some(s) => {
                assert(tables == target_tables(nodes));
            },
        }
    }
    let e = find_node(nodes, table.push(c))->Some_0;
    lemma_find_node_at(nodes, table.push(c));
    let vp = table.push(c).push("version"@);
    assert(edit_path(nodes, table, c) is Some);
    let p = edit_path(nodes, table, c)->Some_0;
    lemma_table_edit_planned(nodes, tables, table, c, v, p);
    let k = choose|k: int| 0 <= k < es.len() && (#[trigger] es[k]).0 == p;
    lemma_edited_text_at(es, k);
    // Every edit of the dependency writes the new version.
    assert forall|q: Seq<Seq<char>>| #[trigger] edited_text(es, q) is Some implies edited_text(es, q) == Some(v) by {
        lemma_edited_text_some(es, q);
        let w = edited_text(es, q)->Some_0;
        let j = choose|j: int| 0 <= j < es.len() && (#[trigger] es[j]) == (q, w);
        law_edits_address_the_dependency(nodes, tables, c, v, j);
    }
    let an = apply_edits(nodes, es);
    lemma_find_node_apply(nodes, es, table.push(c));
    lemma_find_node_apply(nodes, es, vp);
    lemma_find_node_at(nodes, vp);
    if edited_text(es, e.0) is Some {
        assert(edited_node(es, e) == (e.0, NodeKind::Str, v, e.3));
    } else {
        assert(e.1 != NodeKind::Str);
        assert(p == vp);
        assert(edited_text(es, vp) == Some(v));
        assert(edited_node(es, e) == e);
        assert(e.0.push("version"@) == vp);
        let vn = find_node(nodes, vp)->Some_0;
        assert(edited_node(es, vn) == (vp, NodeKind::Str, v, vn.3));
        assert(constraint_of(an, e) == Some(v));
    }
}

} // verus!

verus! {

/// Comparators after a run of upper bounds declare what their first lower
/// bound declares.
proof fn lemma_declared_after_upper_bounds(cs: Seq<(ReqOp, u64, Option<u64>, Option<u64>, Seq<char>)>, i: int)
    requires
        0 <= i <= cs.len(),
        forall|j: int| 0 <= j < i ==> (#[trigger] cs[j]).0 == ReqOp::Less || cs[j].0 == ReqOp::LessEq,
    ensures
        declared_from(cs) == declared_from(cs.skip(i)),
    decreases i,
{
    if i > 0 {
        assert forall|j: int| 0 <= j < i - 1 implies (#[trigger] cs.drop_first()[j]).0 == ReqOp::Less
            || cs.drop_first()[j].0 == ReqOp::LessEq by {
            assert(cs.drop_first()[j] == cs[j + 1]);
        }
        lemma_declared_after_upper_bounds(cs.drop_first(), i - 1);
        assert(cs.drop_first().skip(i - 1) == cs.skip(i));
        assert(cs[0].0 == ReqOp::Less || cs[0].0 == ReqOp::LessEq);
    } else {
        assert(cs.skip(0) == cs);
    }
}

/// The version a constraint declares is read off its first comparator that
/// is not an upper bound (`<` or `<=`), whatever its operator (`~`, `^`,
/// `=`, `>`, `>=`, `*`): that comparator's major, its minor or 0, its patch
/// or 0 and its pre-release part, with no build metadata.
pub proof fn law_declared_version_is_first_lower_bound(
    constraint: Seq<char>,
    cs: Seq<(ReqOp, u64, Option<u64>, Option<u64>, Seq<char>)>,
    i: int,
)
    requires
        semver_req_parse(constraint) == Some(cs),
        0 <= i < cs.len(),
        cs[i].0 != ReqOp::Less,
        cs[i].0 != ReqOp::LessEq,
        forall|j: int| 0 <= j < i ==> (#[trigger] cs[j]).0 == ReqOp::Less || cs[j].0 == ReqOp::LessEq,
    ensures
        declared_spec(constraint) == Some((
            cs[i].1,
            match cs[i].2 { Some(m) => m, None => 0u64 },
            match cs[i].3 { Some(p) => p, None => 0u64 },
            cs[i].4,
            Seq::<char>::empty(),
        )),
{
    lemma_declared_after_upper_bounds(cs, i);
    assert(cs.skip(i)[0] == cs[i]);
}

/// A constraint made of upper bounds only (`<`, `<=`) declares `0.0.0`.
pub proof fn law_declared_version_without_lower_bound(
    constraint: Seq<char>,
    cs: Seq<(ReqOp, u64, Option<u64>, Option<u64>, Seq<char>)>,
)
    requires
        semver_req_parse(constraint) == Some(cs),
        forall|j: int| 0 <= j < cs.len() ==> (#[trigger] cs[j]).0 == ReqOp::Less || cs[j].0 == ReqOp::LessEq,
    ensures
        declared_spec(constraint) == Some((0u64, 0u64, 0u64, Seq::<char>::empty(), Seq::<char>::empty())),
{
    lemma_declared_after_upper_bounds(cs, cs.len() as int);
    assert(cs.skip(cs.len() as int).len() == 0);
}

} // verus!

verus! {

/// A version is flagged as a pre-release exactly when semver reads a
/// non-empty pre-release part in its text: build metadata alone
/// (`0.11.0+wasi-snapshot-preview1`) makes no pre-release, and a text semver
/// does not parse is no pre-release.
pub proof fn law_prerelease_flag_reads_the_pre_part(text: Seq<char>)
    ensures
        semver_parse(text) is None ==> !is_prerelease_spec(text),
        semver_parse(text) matches Some(v) ==> (is_prerelease_spec(text) <==> v.3.len() > 0),
{
}

/// Every hard error exits with 2, whatever else holds; without one, a run
/// exits with 1 exactly when it found an outdated dependency and did not
/// update, and with 0 otherwise.
pub proof fn law_exit_codes(hard_error: bool, updated: bool, has_outdated: bool)
    ensures
        hard_error ==> exit_code_spec(hard_error, updated, has_outdated) == 2,
        !hard_error ==> (exit_code_spec(hard_error, updated, has_outdated) == 1 <==> (!updated && has_outdated)),
        !hard_error ==> (exit_code_spec(hard_error, updated, has_outdated) == 0 <==> !(!updated && has_outdated)),
{
}

} // verus!
