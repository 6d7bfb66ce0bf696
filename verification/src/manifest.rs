//! Cargo manifests: which dependencies they declare, and the lossless edits
//! that set a dependency's version. `toml_edit` parses and prints the
//! document; the choice of sections, entries and edits is this module's.

use vstd::prelude::*;
use crate::model::{Constraint, Coordinate, Dependency, Span, Version};
use crate::text::{chars_of, extend_str, owned, string_of, texts_equal};
use toml_edit::DocumentMut as TomlDocument;
use toml_edit::ImDocument as TomlSource;
use std::collections::VecDeque;

verus! {

#[verifier::external_type_specification]
#[verifier::external_body]
pub struct ExTomlDocument(TomlDocument);

#[verifier::external_type_specification]
#[verifier::external_body]
#[verifier::reject_recursive_types(S)]
pub struct ExTomlSource<S>(TomlSource<S>);

/// What kind of TOML item a node is.
#[derive(Debug, Clone, Copy, PartialEq, Eq, Structural)]
pub enum NodeKind {
    /// A standard table (`[section]` or the document root).
    Table,
    /// An inline table (`{ ... }`).
    InlineTable,
    /// A string value.
    Str,
    /// Any other value: a number, a boolean, a date, an array.
    OtherValue,
    /// An array of tables.
    Other,
}

/// One item of a parsed document: its key path from the root, what
/// `toml_edit` says of it (a standard table, an inline table, a value), its
/// text where it is a string, and where it sits in the source, if known.
#[derive(Debug, Clone)]
pub struct TomlNode {
    pub path: Vec<String>,
    pub table: bool,
    pub inline_table: bool,
    pub value: bool,
    pub text: Option<String>,
    pub span: Option<Span>,
}

/// The kind of an item from what `toml_edit` says of it.
pub open spec fn kind_of(table: bool, inline_table: bool, value: bool, is_str: bool) -> NodeKind {
    if table {
        NodeKind::Table
    } else if inline_table {
        NodeKind::InlineTable
    } else if is_str {
        NodeKind::Str
    } else if value {
        NodeKind::OtherValue
    } else {
        NodeKind::Other
    }
}

/// The views of a list of strings.
pub open spec fn strings_view(ss: Seq<String>) -> Seq<Seq<char>> {
    ss.map_values(|s: String| s@)
}

impl View for TomlNode {
    type V = (Seq<Seq<char>>, NodeKind, Seq<char>, Option<Span>);

    open spec fn view(&self) -> (Seq<Seq<char>>, NodeKind, Seq<char>, Option<Span>) {
        (
            strings_view(self.path@),
            kind_of(self.table, self.inline_table, self.value, self.text is Some),
            match self.text { Some(t) => t@, None => Seq::<char>::empty() },
            self.span,
        )
    }
}

impl TomlNode {
    /// The kind of this item.
    pub fn kind(&self) -> (r: NodeKind)
        ensures
            r == self@.1,
    {
        if self.table {
            NodeKind::Table
        } else if self.inline_table {
            NodeKind::InlineTable
        } else if self.text.is_some() {
            NodeKind::Str
        } else if self.value {
            NodeKind::OtherValue
        } else {
            NodeKind::Other
        }
    }

    /// The text of this item where it is a string.
    pub fn string_text(&self) -> (r: String)
        ensures
            r@ == self@.2,
    {
        match &self.text {
            Some(t) => t.clone(),
            None => String::new(),
        }
    }
}

/// The views of a list of nodes.
pub open spec fn nodes_view(ns: Seq<TomlNode>) -> Seq<(Seq<Seq<char>>, NodeKind, Seq<char>, Option<Span>)> {
    ns.map_values(|n: TomlNode| n@)
}

/// What `toml_edit::ImDocument::parse` gives for a text: every item, tables
/// before their entries and each table's entries in the order
/// `TableLike::iter` walks them, each with the byte span `Item::span`
/// reports; or the text of the parse error.
pub uninterp spec fn toml_parse(content: Seq<char>) -> Result<Seq<(Seq<Seq<char>>, NodeKind, Seq<char>, Option<Span>)>, Seq<char>>;

/// The text `DocumentMut`'s `Display` writes for a manifest, the manifest
/// taken by its view: the text it was parsed from and the edits
/// `Manifest::set_version` made since, in order.
pub uninterp spec fn toml_display(manifest: (Seq<char>, Seq<(Seq<Seq<char>>, Seq<char>)>)) -> Seq<char>;

/// The text the last edit at key path `path` writes there; `None` where no
/// edit is at `path`.
pub open spec fn edited_text(edits: Seq<(Seq<Seq<char>>, Seq<char>)>, path: Seq<Seq<char>>) -> Option<Seq<char>>
    decreases edits.len(),
{
    if edits.len() == 0 {
        None
    } else if edits.last().0 == path {
        Some(edits.last().1)
    } else {
        edited_text(edits.drop_last(), path)
    }
}

/// Whether every edit is at a key path where the items hold a plain value:
/// a string, a number, a boolean, a date or an array.
pub open spec fn edits_at_values(nodes: Seq<NodeView>, edits: Seq<(Seq<Seq<char>>, Seq<char>)>) -> bool {
    forall|k: int| 0 <= k < edits.len() ==> (#[trigger] find_node(nodes, edits[k].0) matches Some(n)
        && (n.1 == NodeKind::Str || n.1 == NodeKind::OtherValue))
}

/// A node as an edit leaves it: a string with the edited text at an edited
/// key path, the node itself elsewhere.
pub open spec fn edited_node(edits: Seq<(Seq<Seq<char>>, Seq<char>)>, n: NodeView) -> NodeView {
    match edited_text(edits, n.0) {
        Some(t) => (n.0, NodeKind::Str, t, n.3),
        None => n,
    }
}

/// The nodes of a document as the edits leave them.
pub open spec fn apply_edits(nodes: Seq<NodeView>, edits: Seq<(Seq<Seq<char>>, Seq<char>)>) -> Seq<NodeView> {
    nodes.map_values(|n: NodeView| edited_node(edits, n))
}

/// Whether two lists of nodes agree in everything but where their items sit.
pub open spec fn same_but_spans(a: Seq<NodeView>, b: Seq<NodeView>) -> bool {
    &&& a.len() == b.len()
    &&& forall|i: int| 0 <= i < a.len() ==> (#[trigger] a[i]).0 == b[i].0 && a[i].1 == b[i].1 && a[i].2 == b[i].2
}

/// Whether `written`, the text of the document parsed from `content` after
/// `edits`, parses again into the items of `content` as the edits leave
/// them, where every edit set a plain value.
pub open spec fn reads_back(content: Seq<char>, edits: Seq<(Seq<Seq<char>>, Seq<char>)>, written: Seq<char>) -> bool {
    match toml_parse(content) {
        Ok(ns) => edits_at_values(ns, edits) ==> match toml_parse(written) {
            Ok(ns2) => same_but_spans(ns2, apply_edits(ns, edits)),
            Err(_) => false,
        },
        Err(_) => true,
    }
}

/// A parsed manifest and the edits applied to it so far.
pub struct Manifest {
    text: String,
    source: TomlSource<String>,
    doc: TomlDocument,
    edits: Ghost<Seq<(Seq<Seq<char>>, Seq<char>)>>,
}

impl View for Manifest {
    type V = (Seq<char>, Seq<(Seq<Seq<char>>, Seq<char>)>);

    closed spec fn view(&self) -> (Seq<char>, Seq<(Seq<Seq<char>>, Seq<char>)>) {
        (self.text@, self.edits@)
    }
}

impl Manifest {
    /// Parses `content` as a TOML document with `toml_edit::ImDocument::parse`,
    /// keeping the parsed document (which knows where each item sits) and an
    /// editable copy of it (`ImDocument::into_mut`); on failure, the text of
    /// the parse error.
    #[verifier::external_body]
    pub(crate) fn parse(content: &str) -> (r: Result<Manifest, String>)
        ensures
            match r {
                Ok(m) => m@ == (content@, Seq::<(Seq<Seq<char>>, Seq<char>)>::empty()) && toml_parse(content@) is Ok,
                Err(e) => toml_parse(content@) == Err::<Seq<(Seq<Seq<char>>, NodeKind, Seq<char>, Option<Span>)>, Seq<char>>(e@),
            },
    {
        let source = TomlSource::parse(content.to_string()).map_err(|e| e.to_string())?;
        let doc = source.clone().into_mut();
        Ok(Manifest { text: content.to_string(), source, doc, edits: Ghost(Seq::empty()) })
    }

    /// The items of the parsed document: the root first, then each
    /// table-like item's entries, in `TableLike::iter` order, after it.
    #[verifier::external_body]
    pub(crate) fn items(&self) -> (r: Vec<TomlNode>)
        ensures
            nodes_view(r@) == toml_parse(self@.0)->Ok_0,
    {
        let mut nodes = Vec::new();
        let mut queue = VecDeque::from([(Vec::new(), self.source.as_item())]);
        while let Some((path, item)) = queue.pop_front() {
            for (k, v) in item.as_table_like().map_or(vec![], |t| t.iter().collect()) {
                queue.push_back(([path.clone(), vec![k.to_string()]].concat(), v));
            }
            nodes.push(TomlNode { path, table: item.is_table(), inline_table: item.is_inline_table(),
                value: item.is_value(), text: item.as_str().map(String::from),
                span: item.span().map(|s| Span { start: s.start, end: s.end }) });
        }
        nodes
    }

    /// Sets the value at the key path `path` of the editable document to the
    /// string `version`: a value keeps the whitespace and comments around it;
    /// an item that is not a value is replaced by one. A path that leads
    /// nowhere changes nothing. The edit is recorded; `render` prints its
    /// effect. The root itself is never replaced: `path` is not empty.
    #[verifier::external_body]
    pub(crate) fn set_version(&mut self, path: &Vec<String>, version: &str)
        requires
            path@.len() > 0,
        ensures
            final(self)@ == (old(self)@.0, old(self)@.1.push((strings_view(path@), version@))),
    {
        let mut item = self.doc.as_item_mut();
        for k in path.iter() {
            match item.as_table_like_mut().and_then(|t| t.get_mut(k)) {
                Some(next) => item = next,
                None => return,
            }
        }
        match item.as_value_mut() {
            Some(v) => { let decor = v.decor().clone(); *v = toml_edit::Value::from(version); *v.decor_mut() = decor; }
            None => *item = toml_edit::value(version),
        }
    }

    /// The editable document's text (`DocumentMut`'s `Display`). `toml_edit`
    /// keeps comments, spaces and the order of items, and writes each value
    /// so that parsing gives it back; so where every edit set a plain value,
    /// the text parses again into the same items, in the same order and of
    /// the same kinds, each edited item now the string last written there
    /// and every other item holding what it held. Where the items sit is not
    /// stated, nor that the text equals the one parsed: `Display` ends every
    /// line with a single newline, including the last, and writes no
    /// byte-order mark.
    #[verifier::external_body]
    pub(crate) fn render(&self) -> (r: String)
        ensures
            r@ == toml_display(self@),
            reads_back(self@.0, self@.1, r@),
    {
        self.doc.to_string()
    }
}

} // verus!

verus! {

/// The view of a node: key path, kind, string text, span.
pub type NodeView = (Seq<Seq<char>>, NodeKind, Seq<char>, Option<Span>);

/// The view of a dependency: coordinate, constraint, span, section and
/// source hint.
pub type DependencyView = (Seq<char>, Seq<char>, Option<Span>, Option<Seq<char>>, Option<Seq<char>>);

/// The view of an optional string.
pub open spec fn opt_string_view(o: Option<String>) -> Option<Seq<char>> {
    match o {
        Some(s) => Some(s@),
        None => None,
    }
}

/// The view of a dependency.
pub open spec fn dependency_view(d: Dependency) -> DependencyView {
    (d.coordinate.0@, d.constraint.0@, d.span, opt_string_view(d.section), opt_string_view(d.source_hint))
}

/// The views of a list of dependencies.
pub open spec fn dependencies_view(ds: Seq<Dependency>) -> Seq<DependencyView> {
    ds.map_values(|d: Dependency| dependency_view(d))
}

/// Whether items of this kind hold entries: tables and inline tables.
pub open spec fn is_table_like(k: NodeKind) -> bool {
    k == NodeKind::Table || k == NodeKind::InlineTable
}

/// The first node at the key path `path`.
pub open spec fn find_node(nodes: Seq<NodeView>, path: Seq<Seq<char>>) -> Option<NodeView>
    decreases nodes.len(),
{
    if nodes.len() == 0 {
        None
    } else if nodes[0].0 == path {
        Some(nodes[0])
    } else {
        find_node(nodes.drop_first(), path)
    }
}

/// Whether the node `n` is an entry directly under the key path `path`.
pub open spec fn is_child(path: Seq<Seq<char>>, n: NodeView) -> bool {
    n.0.len() == path.len() + 1 && n.0.take(path.len() as int) == path
}

/// The entries directly under the key path `path`, in order.
pub open spec fn children(nodes: Seq<NodeView>, path: Seq<Seq<char>>) -> Seq<NodeView>
    decreases nodes.len(),
{
    if nodes.len() == 0 {
        Seq::<NodeView>::empty()
    } else {
        let rest = children(nodes.drop_last(), path);
        if is_child(path, nodes.last()) { rest.push(nodes.last()) } else { rest }
    }
}

/// The constraint an entry of a dependency table declares: the string
/// itself, or the `version` string of a table; `None` for anything else
/// (such as a path or git dependency without a version).
pub open spec fn constraint_of(nodes: Seq<NodeView>, e: NodeView) -> Option<Seq<char>> {
    if e.1 == NodeKind::Str {
        Some(e.2)
    } else if is_table_like(e.1) {
        match find_node(nodes, e.0.push("version"@)) {
            Some(v) => if v.1 == NodeKind::Str { Some(v.2) } else { None },
            None => None,
        }
    } else {
        None
    }
}

/// The dependencies that a list of table entries declare, in order.
pub open spec fn entry_deps(nodes: Seq<NodeView>, entries: Seq<NodeView>, label: Seq<char>) -> Seq<DependencyView>
    decreases entries.len(),
{
    if entries.len() == 0 {
        Seq::<DependencyView>::empty()
    } else {
        let rest = entry_deps(nodes, entries.drop_last(), label);
        let e = entries.last();
        match constraint_of(nodes, e) {
            Some(c) => rest.push((e.0.last(), c, e.3, Some(label), None)),
            None => rest,
        }
    }
}

/// The dependencies that the table at `path` declares, labelled with the
/// section `label`; none where there is no table there.
pub open spec fn table_deps(nodes: Seq<NodeView>, path: Seq<Seq<char>>, label: Seq<char>) -> Seq<DependencyView> {
    match find_node(nodes, path) {
        Some(t) => if is_table_like(t.1) { entry_deps(nodes, children(nodes, path), label) } else { Seq::empty() },
        None => Seq::<DependencyView>::empty(),
    }
}

/// The section label of a target-specific table: `target.{name}.{kind}`.
pub open spec fn target_label(name: Seq<char>, kind: Seq<char>) -> Seq<char> {
    "target."@ + name + "."@ + kind
}

/// The dependencies one target declares, in its three kinds of table.
pub open spec fn one_target_deps(nodes: Seq<NodeView>, t: NodeView) -> Seq<DependencyView> {
    table_deps(nodes, t.0.push("dependencies"@), target_label(t.0.last(), "dependencies"@))
        + table_deps(nodes, t.0.push("dev-dependencies"@), target_label(t.0.last(), "dev-dependencies"@))
        + table_deps(nodes, t.0.push("build-dependencies"@), target_label(t.0.last(), "build-dependencies"@))
}

/// The dependencies a list of targets declare, in order.
pub open spec fn targets_deps(nodes: Seq<NodeView>, ts: Seq<NodeView>) -> Seq<DependencyView>
    decreases ts.len(),
{
    if ts.len() == 0 {
        Seq::<DependencyView>::empty()
    } else {
        targets_deps(nodes, ts.drop_last()) + one_target_deps(nodes, ts.last())
    }
}

/// The dependencies declared under `[target]`.
pub open spec fn target_deps(nodes: Seq<NodeView>) -> Seq<DependencyView> {
    match find_node(nodes, seq!["target"@]) {
        Some(t) => if is_table_like(t.1) { targets_deps(nodes, children(nodes, seq!["target"@])) } else { Seq::empty() },
        None => Seq::<DependencyView>::empty(),
    }
}

/// Every dependency a manifest declares, in the order they are read: the
/// `dependencies`, `dev-dependencies` and `build-dependencies` tables, then
/// `workspace.dependencies`, then each target's tables.
pub open spec fn manifest_deps(nodes: Seq<NodeView>) -> Seq<DependencyView> {
    table_deps(nodes, seq!["dependencies"@], "dependencies"@)
        + table_deps(nodes, seq!["dev-dependencies"@], "dev-dependencies"@)
        + table_deps(nodes, seq!["build-dependencies"@], "build-dependencies"@)
        + table_deps(nodes, seq!["workspace"@, "dependencies"@], "workspace.dependencies"@)
        + target_deps(nodes)
}

/// Whether two key paths are equal.
pub fn paths_equal(a: &Vec<String>, b: &Vec<String>) -> (r: bool)
    ensures
        r == (strings_view(a@) == strings_view(b@)),
{
    if a.len() != b.len() {
        assert(strings_view(a@).len() != strings_view(b@).len());
        return false;
    }
    let n = a.len();
    for i in 0..n
        invariant
            n == a.len(),
            n == b.len(),
            forall|k: int| 0 <= k < i ==> a@[k]@ == b@[k]@,
    {
        if !(a[i] == b[i]) {
            assert(strings_view(a@)[i as int] != strings_view(b@)[i as int]);
            return false;
        }
    }
    assert(strings_view(a@) == strings_view(b@));
    true
}

/// Whether the key path `node` lies directly under `path`.
pub fn is_child_path(path: &Vec<String>, node: &Vec<String>) -> (r: bool)
    ensures
        r == (strings_view(node@).len() == strings_view(path@).len() + 1
            && strings_view(node@).take(strings_view(path@).len() as int) == strings_view(path@)),
{
    if node.len() == 0 || node.len() - 1 != path.len() {
        return false;
    }
    let n = path.len();
    for i in 0..n
        invariant
            n == path.len(),
            node.len() == n + 1,
            forall|k: int| 0 <= k < i ==> node@[k]@ == path@[k]@,
    {
        if !(node[i] == path[i]) {
            assert(strings_view(node@).take(n as int)[i as int] != strings_view(path@)[i as int]);
            return false;
        }
    }
    assert(strings_view(node@).take(n as int) == strings_view(path@));
    true
}

/// The position of the first node at the key path `path`.
pub fn find_node_index(nodes: &Vec<TomlNode>, path: &Vec<String>) -> (r: Option<usize>)
    ensures
        match r {
            Some(i) => i < nodes@.len() && find_node(nodes_view(nodes@), strings_view(path@)) == Some(nodes_view(nodes@)[i as int]),
            None => find_node(nodes_view(nodes@), strings_view(path@)) is None,
        },
{
    let ghost ns = nodes_view(nodes@);
    let ghost p = strings_view(path@);
    let n = nodes.len();
    assert(ns.skip(0) == ns);
    for i in 0..n
        invariant
            n == nodes.len(),
            ns == nodes_view(nodes@),
            p == strings_view(path@),
            find_node(ns, p) == find_node(ns.skip(i as int), p),
    {
        assert(ns.skip(i as int)[0] == ns[i as int]);
        if paths_equal(&nodes[i].path, path) {
            return Some(i);
        }
        assert(ns.skip(i as int).drop_first() == ns.skip(i + 1));
    }
    None
}

/// A key path with one more key.
pub fn extend_path(path: &Vec<String>, key: &str) -> (r: Vec<String>)
    ensures
        strings_view(r@) == strings_view(path@).push(key@),
{
    let mut r = path.clone();
    r.push(owned(key));
    assert(strings_view(r@) == strings_view(path@).push(key@));
    r
}

/// The constraint an entry declares, if any.
pub fn entry_constraint(nodes: &Vec<TomlNode>, e: &TomlNode) -> (r: Option<String>)
    ensures
        opt_string_view(r) == constraint_of(nodes_view(nodes@), e@),
{
    match e.kind() {
        NodeKind::Str => Some(e.string_text()),
        NodeKind::Table | NodeKind::InlineTable => {
            let vpath = extend_path(&e.path, "version");
            match find_node_index(nodes, &vpath) {
                Some(i) => {
                    if nodes[i].kind() == NodeKind::Str {
                        Some(nodes[i].string_text())
                    } else {
                        None
                    }
                },
                None => None,
            }
        },
        _ => None,
    }
}

/// Appends the dependencies the table at `path` declares, labelled `label`.
pub fn read_table(nodes: &Vec<TomlNode>, path: &Vec<String>, label: &str, out: &mut Vec<Dependency>)
    ensures
        dependencies_view(final(out)@) == dependencies_view(old(out)@)
            + table_deps(nodes_view(nodes@), strings_view(path@), label@),
{
    let ghost ns = nodes_view(nodes@);
    let ghost p = strings_view(path@);
    match find_node_index(nodes, path) {
        Some(t) => {
            if !(nodes[t].kind() == NodeKind::Table || nodes[t].kind() == NodeKind::InlineTable) {
                assert(dependencies_view(out@) == dependencies_view(old(out)@) + Seq::<DependencyView>::empty());
                return;
            }
        },
        None => {
            assert(dependencies_view(out@) == dependencies_view(old(out)@) + Seq::<DependencyView>::empty());
            return;
        },
    }
    let n = nodes.len();
    assert(ns.take(0) == Seq::<NodeView>::empty());
    for i in 0..n
        invariant
            n == nodes.len(),
            ns == nodes_view(nodes@),
            p == strings_view(path@),
            dependencies_view(out@) == dependencies_view(old(out)@) + entry_deps(ns, children(ns.take(i as int), p), label@),
    {
        let e = &nodes[i];
        assert(ns.take(i + 1).drop_last() == ns.take(i as int));
        assert(ns.take(i + 1).last() == e@);
        if is_child_path(path, &e.path) {
            let ghost kids = children(ns.take(i as int), p);
            assert(children(ns.take(i + 1), p) == kids.push(e@));
            assert(kids.push(e@).drop_last() == kids);
            match entry_constraint(nodes, e) {
                Some(c) => {
                    let name = e.path[e.path.len() - 1].clone();
                    assert(e@.0.last() == name@);
                    let d = Dependency {
                        coordinate: Coordinate(name),
                        constraint: Constraint(c),
                        span: e.span,
                        source_hint: None,
                        section: Some(owned(label)),
                    };
                    let ghost before = out@;
                    out.push(d);
                    assert(dependencies_view(out@) == dependencies_view(before).push(dependency_view(d)));
                },
                None => {},
            }
        }
    }
    assert(ns.take(n as int) == ns);
}

} // verus!

verus! {

/// The section label of a target-specific table.
fn target_label_string(name: &String, kind: &str) -> (r: String)
    ensures
        r@ == target_label(name@, kind@),
{
    let mut cs = chars_of("target.");
    extend_str(&mut cs, name.as_str());
    extend_str(&mut cs, ".");
    extend_str(&mut cs, kind);
    string_of(&cs)
}

/// A key path of one key.
fn single_path(key: &str) -> (r: Vec<String>)
    ensures
        strings_view(r@) == seq![key@],
{
    let r = vec![owned(key)];
    assert(strings_view(r@) == seq![key@]);
    r
}

/// Appends the dependencies the targets under `[target]` declare.
fn read_targets(nodes: &Vec<TomlNode>, out: &mut Vec<Dependency>)
    ensures
        dependencies_view(final(out)@) == dependencies_view(old(out)@) + target_deps(nodes_view(nodes@)),
{
    let ghost ns = nodes_view(nodes@);
    let tp = single_path("target");
    let ghost p = strings_view(tp@);
    match find_node_index(nodes, &tp) {
        Some(t) => {
            if !(nodes[t].kind() == NodeKind::Table || nodes[t].kind() == NodeKind::InlineTable) {
                assert(dependencies_view(out@) == dependencies_view(old(out)@) + Seq::<DependencyView>::empty());
                return;
            }
        },
        None => {
            assert(dependencies_view(out@) == dependencies_view(old(out)@) + Seq::<DependencyView>::empty());
            return;
        },
    }
    let n = nodes.len();
    assert(ns.take(0) == Seq::<NodeView>::empty());
    for i in 0..n
        invariant
            n == nodes.len(),
            ns == nodes_view(nodes@),
            p == strings_view(tp@),
            p == seq!["target"@],
            dependencies_view(out@) == dependencies_view(old(out)@) + targets_deps(ns, children(ns.take(i as int), p)),
    {
        let e = &nodes[i];
        assert(ns.take(i + 1).drop_last() == ns.take(i as int));
        assert(ns.take(i + 1).last() == e@);
        if is_child_path(&tp, &e.path) {
            let ghost kids = children(ns.take(i as int), p);
            assert(children(ns.take(i + 1), p) == kids.push(e@));
            assert(kids.push(e@).drop_last() == kids);
            let name = &e.path[e.path.len() - 1];
            assert(e@.0.last() == name@);
            let ghost before = dependencies_view(out@);
            let deps_path = extend_path(&e.path, "dependencies");
            let label = target_label_string(name, "dependencies");
            read_table(nodes, &deps_path, label.as_str(), out);
            let dev_path = extend_path(&e.path, "dev-dependencies");
            let label = target_label_string(name, "dev-dependencies");
            read_table(nodes, &dev_path, label.as_str(), out);
            let build_path = extend_path(&e.path, "build-dependencies");
            let label = target_label_string(name, "build-dependencies");
            read_table(nodes, &build_path, label.as_str(), out);
            assert(dependencies_view(out@) == before + one_target_deps(ns, e@));
        }
    }
    assert(ns.take(n as int) == ns);
}

/// Every dependency the parsed items of a manifest declare.
pub fn read_nodes(nodes: &Vec<TomlNode>) -> (r: Vec<Dependency>)
    ensures
        dependencies_view(r@) == manifest_deps(nodes_view(nodes@)),
{
    let mut out: Vec<Dependency> = Vec::new();
    assert(dependencies_view(out@) == Seq::<DependencyView>::empty());
    read_table(nodes, &single_path("dependencies"), "dependencies", &mut out);
    read_table(nodes, &single_path("dev-dependencies"), "dev-dependencies", &mut out);
    read_table(nodes, &single_path("build-dependencies"), "build-dependencies", &mut out);
    let mut ws = single_path("workspace");
    ws = extend_path(&ws, "dependencies");
    assert(strings_view(ws@) == seq!["workspace"@, "dependencies"@]);
    read_table(nodes, &ws, "workspace.dependencies", &mut out);
    read_targets(nodes, &mut out);
    out
}

/// The message for a manifest that does not parse.
pub open spec fn parse_failure(e: Seq<char>) -> Seq<char> {
    "Failed to parse Cargo.toml: "@ + e
}

/// The message for a manifest that does not parse.
fn parse_failure_message(e: &String) -> (r: String)
    ensures
        r@ == parse_failure(e@),
{
    let mut cs = chars_of("Failed to parse Cargo.toml: ");
    extend_str(&mut cs, e.as_str());
    string_of(&cs)
}

/// The dependencies a Cargo manifest declares, each with its section; an
/// error where the text is not TOML.
pub fn read_manifest(content: &str) -> (r: Result<Vec<Dependency>, String>)
    ensures
        match toml_parse(content@) {
            Ok(ns) => r matches Ok(ds) && dependencies_view(ds@) == manifest_deps(ns),
            Err(e) => r matches Err(m) && m@ == parse_failure(e),
        },
{
    match Manifest::parse(content) {
        Ok(m) => {
            let nodes = m.items();
            Ok(read_nodes(&nodes))
        },
        Err(e) => Err(parse_failure_message(&e)),
    }
}

} // verus!

verus! {

/// The key path an edit of `coord`'s version in the table at `table` writes
/// to, as the version sits: the entry itself where it is a plain value, its
/// `version` key where it is a table that has one; `None` otherwise.
pub open spec fn edit_path(nodes: Seq<NodeView>, table: Seq<Seq<char>>, coord: Seq<char>) -> Option<Seq<Seq<char>>> {
    match find_node(nodes, table) {
        Some(t) => if !is_table_like(t.1) {
            None
        } else {
            match find_node(nodes, table.push(coord)) {
                Some(item) => if is_table_like(item.1) {
                    if find_node(nodes, table.push(coord).push("version"@)) is Some {
                        Some(table.push(coord).push("version"@))
                    } else {
                        None
                    }
                } else if item.1 == NodeKind::Str || item.1 == NodeKind::OtherValue {
                    Some(table.push(coord))
                } else {
                    None
                },
                None => None,
            }
        },
        None => None,
    }
}

/// The dependency tables of a list of targets, three per target.
pub open spec fn targets_tables(ts: Seq<NodeView>) -> Seq<Seq<Seq<char>>>
    decreases ts.len(),
{
    if ts.len() == 0 {
        Seq::<Seq<Seq<char>>>::empty()
    } else {
        let t = ts.last().0;
        targets_tables(ts.drop_last())
            + seq![t.push("dependencies"@), t.push("dev-dependencies"@), t.push("build-dependencies"@)]
    }
}

/// The dependency tables of every target under `[target]`.
pub open spec fn target_tables(nodes: Seq<NodeView>) -> Seq<Seq<Seq<char>>> {
    match find_node(nodes, seq!["target"@]) {
        Some(t) => if is_table_like(t.1) { targets_tables(children(nodes, seq!["target"@])) } else { Seq::empty() },
        None => Seq::<Seq<Seq<char>>>::empty(),
    }
}

/// The tables an edit of a dependency from section `section` looks in: that
/// very table for the root sections and `workspace.dependencies`; every
/// target's tables for a target section; all of them where the section is
/// not known.
pub open spec fn edit_tables(nodes: Seq<NodeView>, section: Option<Seq<char>>) -> Seq<Seq<Seq<char>>> {
    match section {
        None => seq![
            seq!["dependencies"@],
            seq!["dev-dependencies"@],
            seq!["build-dependencies"@],
            seq!["workspace"@, "dependencies"@],
        ] + target_tables(nodes),
        Some(s) => if s == "dependencies"@ || s == "dev-dependencies"@ || s == "build-dependencies"@ {
            seq![seq![s]]
        } else if s == "workspace.dependencies"@ {
            seq![seq!["workspace"@, "dependencies"@]]
        } else {
            target_tables(nodes)
        },
    }
}

/// The edits that set `coord` to `version` in the given tables, in order.
pub open spec fn table_edits(
    nodes: Seq<NodeView>,
    tables: Seq<Seq<Seq<char>>>,
    coord: Seq<char>,
    version: Seq<char>,
) -> Seq<(Seq<Seq<char>>, Seq<char>)>
    decreases tables.len(),
{
    if tables.len() == 0 {
        Seq::<(Seq<Seq<char>>, Seq<char>)>::empty()
    } else {
        let rest = table_edits(nodes, tables.drop_last(), coord, version);
        match edit_path(nodes, tables.last(), coord) {
            Some(p) => rest.push((p, version)),
            None => rest,
        }
    }
}

/// The edits that set one dependency to a version.
pub open spec fn dependency_edits(nodes: Seq<NodeView>, dep: Dependency, version: Version) -> Seq<(Seq<Seq<char>>, Seq<char>)> {
    table_edits(nodes, edit_tables(nodes, opt_string_view(dep.section)), dep.coordinate.0@, version.0@)
}

/// The dependency and version pairs of a batch.
pub open spec fn pairs_view(edits: Seq<(&Dependency, &Version)>) -> Seq<(Dependency, Version)> {
    edits.map_values(|e: (&Dependency, &Version)| (*e.0, *e.1))
}

/// What writing the batch `pairs` over `content` answers: the text of the
/// document with the batch's edits, which reads back as the items the edits
/// leave where every edit set a plain value; the parse failure where
/// `content` is not TOML.
pub open spec fn batch_written(content: Seq<char>, pairs: Seq<(Dependency, Version)>, r: Result<String, String>) -> bool {
    match toml_parse(content) {
        Ok(ns) => r matches Ok(s) && s@ == toml_display((content, batch_edits(ns, pairs)))
            && reads_back(content, batch_edits(ns, pairs), s@)
            && deps_read_back(content, batch_edits(ns, pairs), s@),
        Err(e) => r matches Err(m) && m@ == parse_failure(e),
    }
}

/// The edits of a batch, dependency by dependency.
pub open spec fn batch_edits(nodes: Seq<NodeView>, edits: Seq<(Dependency, Version)>) -> Seq<(Seq<Seq<char>>, Seq<char>)>
    decreases edits.len(),
{
    if edits.len() == 0 {
        Seq::<(Seq<Seq<char>>, Seq<char>)>::empty()
    } else {
        batch_edits(nodes, edits.drop_last()) + dependency_edits(nodes, edits.last().0, edits.last().1)
    }
}

/// The views of a list of key paths.
pub open spec fn paths_view(ps: Seq<Vec<String>>) -> Seq<Seq<Seq<char>>> {
    ps.map_values(|p: Vec<String>| strings_view(p@))
}

/// The key path of an edit of `coord`'s version in the table at `table`.
pub fn edit_path_of(nodes: &Vec<TomlNode>, table: &Vec<String>, coord: &str) -> (r: Option<Vec<String>>)
    ensures
        match r {
            Some(p) => edit_path(nodes_view(nodes@), strings_view(table@), coord@) == Some(strings_view(p@)),
            None => edit_path(nodes_view(nodes@), strings_view(table@), coord@) is None,
        },
{
    match find_node_index(nodes, table) {
        Some(t) => {
            if !(nodes[t].kind() == NodeKind::Table || nodes[t].kind() == NodeKind::InlineTable) {
                return None;
            }
        },
        None => {
            return None;
        },
    }
    let item_path = extend_path(table, coord);
    match find_node_index(nodes, &item_path) {
        Some(i) => {
            let kind = nodes[i].kind();
            if kind == NodeKind::Table || kind == NodeKind::InlineTable {
                let version_path = extend_path(&item_path, "version");
                match find_node_index(nodes, &version_path) {
                    Some(_) => Some(version_path),
                    None => None,
                }
            } else if kind == NodeKind::Str || kind == NodeKind::OtherValue {
                Some(item_path)
            } else {
                None
            }
        },
        None => None,
    }
}

/// The dependency tables of every target.
fn target_table_paths(nodes: &Vec<TomlNode>) -> (r: Vec<Vec<String>>)
    ensures
        paths_view(r@) == target_tables(nodes_view(nodes@)),
{
    let ghost ns = nodes_view(nodes@);
    let tp = single_path("target");
    let ghost p = strings_view(tp@);
    let mut out: Vec<Vec<String>> = Vec::new();
    match find_node_index(nodes, &tp) {
        Some(t) => {
            if !(nodes[t].kind() == NodeKind::Table || nodes[t].kind() == NodeKind::InlineTable) {
                return out;
            }
        },
        None => {
            return out;
        },
    }
    let n = nodes.len();
    assert(ns.take(0) == Seq::<NodeView>::empty());
    for i in 0..n
        invariant
            n == nodes.len(),
            ns == nodes_view(nodes@),
            p == strings_view(tp@),
            p == seq!["target"@],
            paths_view(out@) == targets_tables(children(ns.take(i as int), p)),
    {
        let e = &nodes[i];
        assert(ns.take(i + 1).drop_last() == ns.take(i as int));
        assert(ns.take(i + 1).last() == e@);
        if is_child_path(&tp, &e.path) {
            let ghost kids = children(ns.take(i as int), p);
            assert(children(ns.take(i + 1), p) == kids.push(e@));
            assert(kids.push(e@).drop_last() == kids);
            let ghost before = out@;
            out.push(extend_path(&e.path, "dependencies"));
            out.push(extend_path(&e.path, "dev-dependencies"));
            out.push(extend_path(&e.path, "build-dependencies"));
            assert(paths_view(out@) == paths_view(before) + seq![
                e@.0.push("dependencies"@), e@.0.push("dev-dependencies"@), e@.0.push("build-dependencies"@)]);
        }
    }
    assert(ns.take(n as int) == ns);
    out
}

/// The tables an edit of a dependency from `section` looks in.
pub fn edit_table_paths(nodes: &Vec<TomlNode>, section: &Option<String>) -> (r: Vec<Vec<String>>)
    ensures
        paths_view(r@) == edit_tables(nodes_view(nodes@), opt_string_view(*section)),
{
    let mut ws = single_path("workspace");
    ws = extend_path(&ws, "dependencies");
    assert(strings_view(ws@) == seq!["workspace"@, "dependencies"@]);
    match section {
        None => {
            let mut out = vec![single_path("dependencies"), single_path("dev-dependencies"), single_path("build-dependencies"), ws];
            let ghost fixed = paths_view(out@);
            assert(fixed == seq![
                seq!["dependencies"@],
                seq!["dev-dependencies"@],
                seq!["build-dependencies"@],
                seq!["workspace"@, "dependencies"@],
            ]);
            let targets = target_table_paths(nodes);
            let mut targets = targets;
            out.append(&mut targets);
            assert(paths_view(out@) == fixed + target_tables(nodes_view(nodes@)));
            out
        },
        Some(s) => {
            let s = s.as_str();
            if texts_equal(s, "dependencies") || texts_equal(s, "dev-dependencies")
                || texts_equal(s, "build-dependencies") {
                let out = vec![single_path(s)];
                assert(paths_view(out@) == seq![seq![s@]]);
                out
            } else if texts_equal(s, "workspace.dependencies") {
                let out = vec![ws];
                assert(paths_view(out@) == seq![seq!["workspace"@, "dependencies"@]]);
                out
            } else {
                target_table_paths(nodes)
            }
        },
    }
}

/// Appends the edits that set one dependency to a version.
fn plan_dependency(nodes: &Vec<TomlNode>, dep: &Dependency, version: &Version, out: &mut Vec<(Vec<String>, String)>)
    ensures
        edits_view(final(out)@) == edits_view(old(out)@) + dependency_edits(nodes_view(nodes@), *dep, *version),
{
    let tables = edit_table_paths(nodes, &dep.section);
    let ghost ts = paths_view(tables@);
    let n = tables.len();
    assert(ts.take(0) == Seq::<Seq<Seq<char>>>::empty());
    for i in 0..n
        invariant
            n == tables.len(),
            ts == paths_view(tables@),
            ts == edit_tables(nodes_view(nodes@), opt_string_view(dep.section)),
            edits_view(out@) == edits_view(old(out)@)
                + table_edits(nodes_view(nodes@), ts.take(i as int), dep.coordinate.0@, version.0@),
    {
        assert(ts.take(i + 1).drop_last() == ts.take(i as int));
        assert(ts.take(i + 1).last() == strings_view(tables@[i as int]@));
        match edit_path_of(nodes, &tables[i], dep.coordinate.0.as_str()) {
            Some(p) => {
                let ghost before = out@;
                let v = version.0.clone();
                out.push((p, v));
                assert(edits_view(out@) == edits_view(before).push((strings_view(p@), version.0@)));
            },
            None => {},
        }
    }
    assert(ts.take(n as int) == ts);
}

/// The views of planned edits.
pub open spec fn edits_view(es: Seq<(Vec<String>, String)>) -> Seq<(Seq<Seq<char>>, Seq<char>)> {
    es.map_values(|e: (Vec<String>, String)| (strings_view(e.0@), e.1@))
}

} // verus!

verus! {

/// Every edit a list of tables plans is at a key path of at least one key.
proof fn lemma_table_edits_paths(nodes: Seq<NodeView>, tables: Seq<Seq<Seq<char>>>, coord: Seq<char>, version: Seq<char>)
    ensures
        forall|k: int| 0 <= k < table_edits(nodes, tables, coord, version).len()
            ==> (#[trigger] table_edits(nodes, tables, coord, version)[k]).0.len() > 0,
    decreases tables.len(),
{
    if tables.len() > 0 {
        lemma_table_edits_paths(nodes, tables.drop_last(), coord, version);
        let rest = table_edits(nodes, tables.drop_last(), coord, version);
        match edit_path(nodes, tables.last(), coord) {
            Some(p) => {
                assert(p.len() > 0);
                assert forall|k: int| 0 <= k < rest.push((p, version)).len()
                    implies (#[trigger] rest.push((p, version))[k]).0.len() > 0 by {
                    if k < rest.len() {
                        assert(rest.push((p, version))[k] == rest[k]);
                    }
                }
            },
            None => {},
        }
    }
}

/// Every edit a batch plans is at a key path of at least one key.
proof fn lemma_batch_edits_paths(nodes: Seq<NodeView>, edits: Seq<(Dependency, Version)>)
    ensures
        forall|k: int| 0 <= k < batch_edits(nodes, edits).len() ==> (#[trigger] batch_edits(nodes, edits)[k]).0.len() > 0,
    decreases edits.len(),
{
    if edits.len() > 0 {
        lemma_batch_edits_paths(nodes, edits.drop_last());
        let d = edits.last().0;
        lemma_table_edits_paths(nodes, edit_tables(nodes, opt_string_view(d.section)), d.coordinate.0@, edits.last().1.0@);
        let a = batch_edits(nodes, edits.drop_last());
        let b = dependency_edits(nodes, d, edits.last().1);
        assert forall|k: int| 0 <= k < (a + b).len() implies (#[trigger] (a + b)[k]).0.len() > 0 by {
            if k >= a.len() {
                assert((a + b)[k] == b[k - a.len()]);
            }
        }
    }
}

/// Sets each dependency of the batch to its version in one pass over one
/// document: each is looked up in the section it was read from (in every
/// section where that is unknown) and its version is replaced where it sits,
/// keeping comments and formatting. Where every replaced version was a plain
/// value, the text written parses again into the same items, each edited one
/// holding its new version and every other one what it held. An error where
/// the text is not TOML.
pub fn write_batch(content: &str, edits: &[(&Dependency, &Version)]) -> (r: Result<String, String>)
    ensures
        batch_written(content@, pairs_view(edits@), r),
{
    let mut m = match Manifest::parse(content) {
        Ok(m) => m,
        Err(e) => {
            return Err(parse_failure_message(&e));
        },
    };
    let mut planned: Vec<(Vec<String>, String)> = Vec::new();
    let nodes = m.items();
    let ghost ns = nodes_view(nodes@);
    let n = edits.len();
    let ghost pv = pairs_view(edits@);
    assert(pv.take(0) == Seq::<(Dependency, Version)>::empty());
    for i in 0..n
        invariant
            n == edits@.len(),
            toml_parse(content@) == Ok::<_, Seq<char>>(ns),
            ns == nodes_view(nodes@),
            m@ == (content@, Seq::<(Seq<Seq<char>>, Seq<char>)>::empty()),
            pv == pairs_view(edits@),
            edits_view(planned@) == batch_edits(ns, pv.take(i as int)),
    {
        assert(pv.take(i + 1).drop_last() == pv.take(i as int));
        assert(pv.take(i + 1).last() == (*edits@[i as int].0, *edits@[i as int].1));
        let (dep, version) = edits[i];
        plan_dependency(&nodes, dep, version, &mut planned);
    }
    assert(pv.take(n as int) == pv);
    let ghost all = edits_view(planned@);
    proof {
        lemma_batch_edits_paths(ns, pairs_view(edits@));
    }
    let k = planned.len();
    assert(all.take(0) == Seq::<(Seq<Seq<char>>, Seq<char>)>::empty());
    for j in 0..k
        invariant
            k == planned.len(),
            all == edits_view(planned@),
            all == batch_edits(ns, pairs_view(edits@)),
            forall|q: int| 0 <= q < all.len() ==> (#[trigger] all[q]).0.len() > 0,
            m@ == (content@, all.take(j as int)),
    {
        let (path, version) = &planned[j];
        assert(all[j as int].0 == strings_view(path@));
        assert(all[j as int].0.len() > 0);
        m.set_version(path, version.as_str());
        assert(all.take(j + 1) == all.take(j as int).push(all[j as int]));
    }
    assert(all.take(k as int) == all);
    let written = m.render();
    proof {
        lemma_deps_read_back(content@, all, written@);
    }
    Ok(written)
}

/// Sets one dependency to `new_version`: `write_batch` of that one edit.
pub fn write(content: &str, dependency: &Dependency, new_version: &Version) -> (r: Result<String, String>)
    ensures
        match toml_parse(content@) {
            Ok(ns) => r matches Ok(s) && s@ == toml_display((content@, dependency_edits(ns, *dependency, *new_version)))
                && reads_back(content@, dependency_edits(ns, *dependency, *new_version), s@)
                && deps_read_back(content@, dependency_edits(ns, *dependency, *new_version), s@),
            Err(e) => r matches Err(m) && m@ == parse_failure(e),
        },
{
    let batch = [(dependency, new_version)];
    let r = write_batch(content, &batch);
    proof {
        let b = pairs_view(batch@);
        assert(b.len() == 1);
        assert(b.drop_last() == Seq::<(Dependency, Version)>::empty());
        assert(b.last() == (*dependency, *new_version));
        assert forall|ns: Seq<NodeView>| batch_edits(ns, b) == dependency_edits(ns, *dependency, *new_version) by {
            let x = dependency_edits(ns, *dependency, *new_version);
            assert(batch_edits(ns, b.drop_last()) == Seq::<(Seq<Seq<char>>, Seq<char>)>::empty());
            assert(Seq::<(Seq<Seq<char>>, Seq<char>)>::empty() + x == x);
        }
    }
    r
}

} // verus!

verus! {

/// Whether two lists of dependencies agree in everything but where they sit.
pub open spec fn deps_but_spans(a: Seq<DependencyView>, b: Seq<DependencyView>) -> bool {
    &&& a.len() == b.len()
    &&& forall|i: int| 0 <= i < a.len() ==> (#[trigger] a[i]).0 == b[i].0 && a[i].1 == b[i].1
        && a[i].3 == b[i].3 && a[i].4 == b[i].4
}

/// Whether `written` reads as the dependencies of `content` read from its
/// items as `edits` leave them, but for where they sit, where every edit set
/// a plain value.
pub open spec fn deps_read_back(content: Seq<char>, edits: Seq<(Seq<Seq<char>>, Seq<char>)>, written: Seq<char>) -> bool {
    match toml_parse(content) {
        Ok(ns) => edits_at_values(ns, edits) ==> match toml_parse(written) {
            Ok(ns2) => deps_but_spans(manifest_deps(ns2), manifest_deps(apply_edits(ns, edits))),
            Err(_) => false,
        },
        Err(_) => true,
    }
}

/// Agreement but for spans survives dropping the first or last node.
proof fn lemma_sbs_shrink(a: Seq<NodeView>, b: Seq<NodeView>)
    requires
        same_but_spans(a, b),
        a.len() > 0,
    ensures
        same_but_spans(a.drop_first(), b.drop_first()),
        same_but_spans(a.drop_last(), b.drop_last()),
{
    assert forall|i: int| 0 <= i < a.drop_first().len() implies (#[trigger] a.drop_first()[i]).0 == b.drop_first()[i].0
        && a.drop_first()[i].1 == b.drop_first()[i].1 && a.drop_first()[i].2 == b.drop_first()[i].2 by {
        assert(a.drop_first()[i] == a[i + 1]);
        assert(b.drop_first()[i] == b[i + 1]);
    }
    assert forall|i: int| 0 <= i < a.drop_last().len() implies (#[trigger] a.drop_last()[i]).0 == b.drop_last()[i].0
        && a.drop_last()[i].1 == b.drop_last()[i].1 && a.drop_last()[i].2 == b.drop_last()[i].2 by {
        assert(a.drop_last()[i] == a[i]);
        assert(b.drop_last()[i] == b[i]);
    }
}

/// Nodes that agree but for spans are found alike.
pub proof fn lemma_find_node_sbs(a: Seq<NodeView>, b: Seq<NodeView>, p: Seq<Seq<char>>)
    requires
        same_but_spans(a, b),
    ensures
        find_node(a, p) is None <==> find_node(b, p) is None,
        find_node(a, p) matches Some(x) ==> (find_node(b, p) matches Some(y) && x.0 == y.0 && x.1 == y.1 && x.2 == y.2),
    decreases a.len(),
{
    if a.len() > 0 {
        assert(a[0].0 == b[0].0);
        lemma_sbs_shrink(a, b);
        lemma_find_node_sbs(a.drop_first(), b.drop_first(), p);
    }
}

/// Nodes that agree but for spans have children that agree but for spans.
pub proof fn lemma_children_sbs(a: Seq<NodeView>, b: Seq<NodeView>, p: Seq<Seq<char>>)
    requires
        same_but_spans(a, b),
    ensures
        same_but_spans(children(a, p), children(b, p)),
    decreases a.len(),
{
    if a.len() > 0 {
        lemma_sbs_shrink(a, b);
        lemma_children_sbs(a.drop_last(), b.drop_last(), p);
        let ra = children(a.drop_last(), p);
        let rb = children(b.drop_last(), p);
        assert(a.last() == a[a.len() - 1]);
        assert(b.last() == b[b.len() - 1]);
        if is_child(p, a.last()) {
            assert(is_child(p, b.last()));
            assert forall|i: int| 0 <= i < ra.push(a.last()).len() implies (#[trigger] ra.push(a.last())[i]).0 == rb.push(b.last())[i].0
                && ra.push(a.last())[i].1 == rb.push(b.last())[i].1 && ra.push(a.last())[i].2 == rb.push(b.last())[i].2 by {
                if i < ra.len() {
                    assert(ra.push(a.last())[i] == ra[i]);
                    assert(rb.push(b.last())[i] == rb[i]);
                }
            }
        } else {
            assert(!is_child(p, b.last()));
        }
    }
}

/// Agreement but for spans survives concatenation.
proof fn lemma_deps_concat(a1: Seq<DependencyView>, b1: Seq<DependencyView>, a2: Seq<DependencyView>, b2: Seq<DependencyView>)
    requires
        deps_but_spans(a1, b1),
        deps_but_spans(a2, b2),
    ensures
        deps_but_spans(a1 + a2, b1 + b2),
{
    assert forall|i: int| 0 <= i < (a1 + a2).len() implies (#[trigger] (a1 + a2)[i]).0 == (b1 + b2)[i].0
        && (a1 + a2)[i].1 == (b1 + b2)[i].1 && (a1 + a2)[i].3 == (b1 + b2)[i].3 && (a1 + a2)[i].4 == (b1 + b2)[i].4 by {
        if i < a1.len() {
            assert((a1 + a2)[i] == a1[i]);
            assert((b1 + b2)[i] == b1[i]);
        } else {
            assert((a1 + a2)[i] == a2[i - a1.len()]);
            assert((b1 + b2)[i] == b2[i - a1.len()]);
        }
    }
}

/// The dependencies entries declare depend on nothing but their spans'
/// places.
proof fn lemma_entry_deps_sbs(a: Seq<NodeView>, b: Seq<NodeView>, ea: Seq<NodeView>, eb: Seq<NodeView>, label: Seq<char>)
    requires
        same_but_spans(a, b),
        same_but_spans(ea, eb),
    ensures
        deps_but_spans(entry_deps(a, ea, label), entry_deps(b, eb, label)),
    decreases ea.len(),
{
    if ea.len() > 0 {
        lemma_sbs_shrink(ea, eb);
        lemma_entry_deps_sbs(a, b, ea.drop_last(), eb.drop_last(), label);
        let e = ea.last();
        let f = eb.last();
        assert(e == ea[ea.len() - 1]);
        assert(f == eb[eb.len() - 1]);
        lemma_find_node_sbs(a, b, e.0.push("version"@));
        assert(constraint_of(a, e) == constraint_of(b, f));
        let ra = entry_deps(a, ea.drop_last(), label);
        let rb = entry_deps(b, eb.drop_last(), label);
        match constraint_of(a, e) {
            Some(c) => {
                assert forall|i: int| 0 <= i < ra.push((e.0.last(), c, e.3, Some(label), None)).len() implies
                    (#[trigger] ra.push((e.0.last(), c, e.3, Some(label), None))[i]).0 == rb.push((f.0.last(), c, f.3, Some(label), None))[i].0
                    && ra.push((e.0.last(), c, e.3, Some(label), None))[i].1 == rb.push((f.0.last(), c, f.3, Some(label), None))[i].1
                    && ra.push((e.0.last(), c, e.3, Some(label), None))[i].3 == rb.push((f.0.last(), c, f.3, Some(label), None))[i].3
                    && ra.push((e.0.last(), c, e.3, Some(label), None))[i].4 == rb.push((f.0.last(), c, f.3, Some(label), None))[i].4 by {
                    if i < ra.len() {
                        assert(ra.push((e.0.last(), c, e.3, Some(label), None))[i] == ra[i]);
                        assert(rb.push((f.0.last(), c, f.3, Some(label), None))[i] == rb[i]);
                    }
                }
            },
            None => {},
        }
    }
}

/// A table declares alike in nodes that agree but for spans.
proof fn lemma_table_deps_sbs(a: Seq<NodeView>, b: Seq<NodeView>, p: Seq<Seq<char>>, label: Seq<char>)
    requires
        same_but_spans(a, b),
    ensures
        deps_but_spans(table_deps(a, p, label), table_deps(b, p, label)),
{
    lemma_find_node_sbs(a, b, p);
    lemma_children_sbs(a, b, p);
    lemma_entry_deps_sbs(a, b, children(a, p), children(b, p), label);
}

/// Targets declare alike in nodes that agree but for spans.
proof fn lemma_targets_deps_sbs(a: Seq<NodeView>, b: Seq<NodeView>, ta: Seq<NodeView>, tb: Seq<NodeView>)
    requires
        same_but_spans(a, b),
        same_but_spans(ta, tb),
    ensures
        deps_but_spans(targets_deps(a, ta), targets_deps(b, tb)),
    decreases ta.len(),
{
    if ta.len() > 0 {
        lemma_sbs_shrink(ta, tb);
        lemma_targets_deps_sbs(a, b, ta.drop_last(), tb.drop_last());
        let t = ta.last();
        assert(t == ta[ta.len() - 1]);
        assert(tb.last() == tb[tb.len() - 1]);
        let k1 = "dependencies"@;
        let k2 = "dev-dependencies"@;
        let k3 = "build-dependencies"@;
        lemma_table_deps_sbs(a, b, t.0.push(k1), target_label(t.0.last(), k1));
        lemma_table_deps_sbs(a, b, t.0.push(k2), target_label(t.0.last(), k2));
        lemma_table_deps_sbs(a, b, t.0.push(k3), target_label(t.0.last(), k3));
        lemma_deps_concat(
            table_deps(a, t.0.push(k1), target_label(t.0.last(), k1)),
            table_deps(b, t.0.push(k1), target_label(t.0.last(), k1)),
            table_deps(a, t.0.push(k2), target_label(t.0.last(), k2)),
            table_deps(b, t.0.push(k2), target_label(t.0.last(), k2)),
        );
        lemma_deps_concat(
            table_deps(a, t.0.push(k1), target_label(t.0.last(), k1)) + table_deps(a, t.0.push(k2), target_label(t.0.last(), k2)),
            table_deps(b, t.0.push(k1), target_label(t.0.last(), k1)) + table_deps(b, t.0.push(k2), target_label(t.0.last(), k2)),
            table_deps(a, t.0.push(k3), target_label(t.0.last(), k3)),
            table_deps(b, t.0.push(k3), target_label(t.0.last(), k3)),
        );
        lemma_deps_concat(
            targets_deps(a, ta.drop_last()), targets_deps(b, tb.drop_last()),
            one_target_deps(a, t), one_target_deps(b, tb.last()),
        );
    }
}

/// A manifest's items that agree but for spans declare the same
/// dependencies, but for where they sit.
pub proof fn lemma_manifest_deps_sbs(a: Seq<NodeView>, b: Seq<NodeView>)
    requires
        same_but_spans(a, b),
    ensures
        deps_but_spans(manifest_deps(a), manifest_deps(b)),
{
    let d = "dependencies"@;
    let dd = "dev-dependencies"@;
    let bd = "build-dependencies"@;
    let w = seq!["workspace"@, "dependencies"@];
    let wl = "workspace.dependencies"@;
    lemma_table_deps_sbs(a, b, seq![d], d);
    lemma_table_deps_sbs(a, b, seq![dd], dd);
    lemma_table_deps_sbs(a, b, seq![bd], bd);
    lemma_table_deps_sbs(a, b, w, wl);
    lemma_find_node_sbs(a, b, seq!["target"@]);
    lemma_children_sbs(a, b, seq!["target"@]);
    lemma_targets_deps_sbs(a, b, children(a, seq!["target"@]), children(b, seq!["target"@]));
    lemma_deps_concat(table_deps(a, seq![d], d), table_deps(b, seq![d], d), table_deps(a, seq![dd], dd), table_deps(b, seq![dd], dd));
    lemma_deps_concat(
        table_deps(a, seq![d], d) + table_deps(a, seq![dd], dd), table_deps(b, seq![d], d) + table_deps(b, seq![dd], dd),
        table_deps(a, seq![bd], bd), table_deps(b, seq![bd], bd));
    lemma_deps_concat(
        table_deps(a, seq![d], d) + table_deps(a, seq![dd], dd) + table_deps(a, seq![bd], bd),
        table_deps(b, seq![d], d) + table_deps(b, seq![dd], dd) + table_deps(b, seq![bd], bd),
        table_deps(a, w, wl), table_deps(b, w, wl));
    lemma_deps_concat(
        table_deps(a, seq![d], d) + table_deps(a, seq![dd], dd) + table_deps(a, seq![bd], bd) + table_deps(a, w, wl),
        table_deps(b, seq![d], d) + table_deps(b, seq![dd], dd) + table_deps(b, seq![bd], bd) + table_deps(b, w, wl),
        target_deps(a), target_deps(b));
}

/// A written text that reads back item by item reads back dependency by
/// dependency.
pub proof fn lemma_deps_read_back(content: Seq<char>, edits: Seq<(Seq<Seq<char>>, Seq<char>)>, written: Seq<char>)
    requires
        reads_back(content, edits, written),
    ensures
        deps_read_back(content, edits, written),
{
    match toml_parse(content) {
        Ok(ns) => {
            if edits_at_values(ns, edits) {
                match toml_parse(written) {
                    Ok(ns2) => lemma_manifest_deps_sbs(ns2, apply_edits(ns, edits)),
                    Err(_) => {},
                }
            }
        },
        Err(_) => {},
    }
}

} // verus!

verus! {

/// Whether two lists of nodes have the same key paths, in order.
pub open spec fn same_paths(a: Seq<NodeView>, b: Seq<NodeView>) -> bool {
    &&& a.len() == b.len()
    &&& forall|i: int| 0 <= i < a.len() ==> (#[trigger] a[i]).0 == b[i].0
}

/// Whether a node is of a kind that an edit treats as a plain value.
pub open spec fn is_plain(k: NodeKind) -> bool {
    k == NodeKind::Str || k == NodeKind::OtherValue
}

/// Target tables depend on the targets' key paths alone.
proof fn lemma_targets_tables_paths(a: Seq<NodeView>, b: Seq<NodeView>)
    requires
        same_paths(a, b),
    ensures
        targets_tables(a) == targets_tables(b),
    decreases a.len(),
{
    if a.len() > 0 {
        assert(same_paths(a.drop_last(), b.drop_last())) by {
            assert forall|i: int| 0 <= i < a.drop_last().len() implies (#[trigger] a.drop_last()[i]).0 == b.drop_last()[i].0 by {
                assert(a.drop_last()[i] == a[i]);
                assert(b.drop_last()[i] == b[i]);
            }
        }
        lemma_targets_tables_paths(a.drop_last(), b.drop_last());
        assert(a.last() == a[a.len() - 1]);
        assert(b.last() == b[b.len() - 1]);
    }
}

/// What an edit plans depends on nothing but the items' key paths and kinds.
pub proof fn lemma_dependency_edits_sbs(a: Seq<NodeView>, b: Seq<NodeView>, dep: Dependency, version: Version)
    requires
        same_but_spans(a, b),
    ensures
        dependency_edits(a, dep, version) == dependency_edits(b, dep, version),
{
    let c = dep.coordinate.0@;
    lemma_find_node_sbs(a, b, seq!["target"@]);
    lemma_children_sbs(a, b, seq!["target"@]);
    let ka = children(a, seq!["target"@]);
    let kb = children(b, seq!["target"@]);
    assert(same_paths(ka, kb)) by {
        assert forall|i: int| 0 <= i < ka.len() implies (#[trigger] ka[i]).0 == kb[i].0 by {}
    }
    lemma_targets_tables_paths(ka, kb);
    let ts = edit_tables(a, opt_string_view(dep.section));
    assert(ts == edit_tables(b, opt_string_view(dep.section)));
    lemma_table_edits_sbs(a, b, ts, c, version.0@);
}

/// What a list of tables plans depends on nothing but the items' key paths
/// and kinds.
proof fn lemma_table_edits_sbs(a: Seq<NodeView>, b: Seq<NodeView>, ts: Seq<Seq<Seq<char>>>, c: Seq<char>, v: Seq<char>)
    requires
        same_but_spans(a, b),
    ensures
        table_edits(a, ts, c, v) == table_edits(b, ts, c, v),
    decreases ts.len(),
{
    if ts.len() > 0 {
        lemma_table_edits_sbs(a, b, ts.drop_last(), c, v);
        let t = ts.last();
        lemma_find_node_sbs(a, b, t);
        lemma_find_node_sbs(a, b, t.push(c));
        lemma_find_node_sbs(a, b, t.push(c).push("version"@));
        assert(edit_path(a, t, c) == edit_path(b, t, c));
    }
}

/// A node found at a key path is at that path.
pub proof fn lemma_find_node_at(nodes: Seq<NodeView>, p: Seq<Seq<char>>)
    ensures
        find_node(nodes, p) matches Some(n) ==> n.0 == p,
    decreases nodes.len(),
{
    if nodes.len() > 0 {
        lemma_find_node_at(nodes.drop_first(), p);
    }
}

/// The items as edits leave them are found as the items were, edited.
pub proof fn lemma_find_node_apply(nodes: Seq<NodeView>, edits: Seq<(Seq<Seq<char>>, Seq<char>)>, p: Seq<Seq<char>>)
    ensures
        find_node(apply_edits(nodes, edits), p) == match find_node(nodes, p) {
            Some(n) => Some(edited_node(edits, n)),
            None => None,
        },
    decreases nodes.len(),
{
    if nodes.len() > 0 {
        assert(apply_edits(nodes, edits).drop_first() == apply_edits(nodes.drop_first(), edits));
        assert(apply_edits(nodes, edits)[0] == edited_node(edits, nodes[0]));
        lemma_find_node_apply(nodes.drop_first(), edits, p);
    }
}

/// An edited key path is the path of some edit.
pub proof fn lemma_edited_text_some(edits: Seq<(Seq<Seq<char>>, Seq<char>)>, p: Seq<Seq<char>>)
    ensures
        edited_text(edits, p) is Some ==> exists|k: int| 0 <= k < edits.len() && (#[trigger] edits[k]).0 == p,
        edited_text(edits, p) matches Some(t) ==> exists|k: int| 0 <= k < edits.len() && (#[trigger] edits[k]) == (p, t),
    decreases edits.len(),
{
    if edits.len() > 0 {
        lemma_edited_text_some(edits.drop_last(), p);
        if edits.last().0 != p {
            if edited_text(edits, p) is Some {
                let k = choose|k: int| 0 <= k < edits.drop_last().len() && (#[trigger] edits.drop_last()[k]).0 == p;
                assert(edits[k] == edits.drop_last()[k]);
                let t = edited_text(edits, p)->Some_0;
                let k2 = choose|k: int| 0 <= k < edits.drop_last().len() && (#[trigger] edits.drop_last()[k]) == (p, t);
                assert(edits[k2] == edits.drop_last()[k2]);
            }
        } else {
            assert(edits[edits.len() - 1] == edits.last());
        }
    }
}

/// Where every edit sets a plain value, a node found in the items as the
/// edits leave them is of a plain kind exactly where it was before, and of
/// a table-like kind exactly where it was before.
proof fn lemma_found_kind_kept(nodes: Seq<NodeView>, edits: Seq<(Seq<Seq<char>>, Seq<char>)>, p: Seq<Seq<char>>)
    requires
        edits_at_values(nodes, edits),
    ensures
        find_node(apply_edits(nodes, edits), p) is Some <==> find_node(nodes, p) is Some,
        find_node(nodes, p) matches Some(n) ==> (find_node(apply_edits(nodes, edits), p) matches Some(m)
            && is_plain(m.1) == is_plain(n.1) && is_table_like(m.1) == is_table_like(n.1)),
{
    lemma_find_node_apply(nodes, edits, p);
    lemma_find_node_at(nodes, p);
    match find_node(nodes, p) {
        Some(n) => {
            lemma_edited_text_some(edits, n.0);
            if edited_text(edits, n.0) is Some {
                let k = choose|k: int| 0 <= k < edits.len() && (#[trigger] edits[k]).0 == n.0;
                assert(find_node(nodes, edits[k].0) matches Some(m) && is_plain(m.1));
            }
        },
        None => {},
    }
}

/// The children of the items as edits leave them are the children, edited.
proof fn lemma_children_apply(nodes: Seq<NodeView>, edits: Seq<(Seq<Seq<char>>, Seq<char>)>, p: Seq<Seq<char>>)
    ensures
        same_paths(children(apply_edits(nodes, edits), p), children(nodes, p)),
    decreases nodes.len(),
{
    if nodes.len() > 0 {
        let an = apply_edits(nodes, edits);
        assert(an.drop_last() == apply_edits(nodes.drop_last(), edits));
        assert(an.last() == edited_node(edits, nodes.last()));
        lemma_children_apply(nodes.drop_last(), edits, p);
        let ra = children(an.drop_last(), p);
        let rb = children(nodes.drop_last(), p);
        if is_child(p, nodes.last()) {
            assert forall|i: int| 0 <= i < ra.push(an.last()).len() implies (#[trigger] ra.push(an.last())[i]).0 == rb.push(nodes.last())[i].0 by {
                if i < ra.len() {
                    assert(ra.push(an.last())[i] == ra[i]);
                    assert(rb.push(nodes.last())[i] == rb[i]);
                }
            }
        }
    }
}

/// Where every edit sets a plain value, an edit plans the same in the items
/// as the edits leave them.
pub proof fn lemma_dependency_edits_apply(nodes: Seq<NodeView>, edits: Seq<(Seq<Seq<char>>, Seq<char>)>, dep: Dependency, version: Version)
    requires
        edits_at_values(nodes, edits),
    ensures
        dependency_edits(apply_edits(nodes, edits), dep, version) == dependency_edits(nodes, dep, version),
{
    let an = apply_edits(nodes, edits);
    lemma_found_kind_kept(nodes, edits, seq!["target"@]);
    lemma_children_apply(nodes, edits, seq!["target"@]);
    lemma_targets_tables_paths(children(an, seq!["target"@]), children(nodes, seq!["target"@]));
    let ts = edit_tables(nodes, opt_string_view(dep.section));
    assert(ts == edit_tables(an, opt_string_view(dep.section)));
    lemma_table_edits_apply(nodes, edits, ts, dep.coordinate.0@, version.0@);
}

/// Where every edit sets a plain value, a list of tables plans the same in
/// the items as the edits leave them.
proof fn lemma_table_edits_apply(nodes: Seq<NodeView>, edits: Seq<(Seq<Seq<char>>, Seq<char>)>, ts: Seq<Seq<Seq<char>>>, c: Seq<char>, v: Seq<char>)
    requires
        edits_at_values(nodes, edits),
    ensures
        table_edits(apply_edits(nodes, edits), ts, c, v) == table_edits(nodes, ts, c, v),
    decreases ts.len(),
{
    if ts.len() > 0 {
        lemma_table_edits_apply(nodes, edits, ts.drop_last(), c, v);
        let t = ts.last();
        lemma_found_kind_kept(nodes, edits, t);
        lemma_found_kind_kept(nodes, edits, t.push(c));
        lemma_found_kind_kept(nodes, edits, t.push(c).push("version"@));
        assert(edit_path(apply_edits(nodes, edits), t, c) == edit_path(nodes, t, c));
    }
}

} // verus!

verus! {

/// A key path some edit is at is edited.
pub proof fn lemma_edited_text_at(edits: Seq<(Seq<Seq<char>>, Seq<char>)>, k: int)
    requires
        0 <= k < edits.len(),
    ensures
        edited_text(edits, edits[k].0) is Some,
    decreases edits.len(),
{
    if edits.last().0 != edits[k].0 {
        assert(k < edits.len() - 1);
        assert(edits.drop_last()[k] == edits[k]);
        lemma_edited_text_at(edits.drop_last(), k);
    }
}

} // verus!
