//! A bounded `Package.swift` **manifest reader**, not a Swift Package Manager.
//!
//! SwiftPM manifests are executable Swift; this reader never runs one.
//! [`parse_manifest`] pattern-matches the manifest's syntax tree for the one
//! shape every manifest shares: a top-level `let package = Package(name: …,
//! targets: […])` literal. It reads the name and the `.executableTarget` /
//! `.target` / … entries (with `path:`, `sources:`, `exclude:` and
//! `dependencies:`), and tolerates and ignores every construct it does not
//! model (`platforms:`, `products:`, package `dependencies:`, …).
//!
//! [`load_program`] then turns a manifest (or, lacking one, a flat directory)
//! into the ordered [`SourceFile`] list for one target, and
//! [`load_test_program`] does the same for test targets and their local
//! dependencies.
use vstd::prelude::*;
use crate::syntax::{Analysis, Diagnostic, Node, NodeKind, NodeView, decl_name_in, kind_debug, opt_view};
use crate::decode::strings_view;
use crate::text::{str_same, chars_of, push_char};
use vstd::set_lib::{set_int_range, lemma_int_range, lemma_len_subset};

verus! {

// ------------------------------------------------------------------ model

/// The kind of a target entry recognized in a `targets:` array.
#[derive(Debug, Clone, PartialEq, Eq)]
pub enum TargetKind {
    /// `.executableTarget(...)`: produces a `main.swift`-rooted program.
    Executable,
    /// `.target(...)`: a library target; not directly runnable.
    Library,
    /// A recognized but unsupported target constructor (`.testTarget`,
    /// `.binaryTarget`, `.systemLibrary`, `.plugin`), kept by its call name.
    Other(String),
}

/// The plain value of a [`TargetKind`].
pub enum TargetKindView {
    Executable,
    Library,
    Other(Seq<char>),
}

impl View for TargetKind {
    type V = TargetKindView;

    open spec fn view(&self) -> TargetKindView {
        match self {
            TargetKind::Executable => TargetKindView::Executable,
            TargetKind::Library => TargetKindView::Library,
            TargetKind::Other(c) => TargetKindView::Other(c@),
        }
    }
}

/// One target entry read from a manifest's `targets:` array.
#[derive(Debug, Clone, PartialEq, Eq)]
pub struct PackageTarget {
    pub name: String,
    /// Explicit `path:` argument, if written. `None` means the SwiftPM
    /// convention default (`Sources/<name>/`, or `Tests/<name>/` for a test
    /// target).
    pub path: Option<String>,
    pub kind: TargetKind,
    /// Explicit `sources:` file list, if written: each entry a path relative
    /// to the target's directory. When present this is the exact source set.
    pub sources: Vec<String>,
    /// Explicit `exclude:` path list: each entry a literal path (file or
    /// directory) relative to the target's directory, skipped during the
    /// directory scan. Ignored when `sources:` is present.
    pub exclude: Vec<String>,
    /// Names of other targets this target depends on, from a literal
    /// `dependencies:` array of string literals or `.target(name:)` entries;
    /// other entries are dropped.
    pub dependencies: Vec<String>,
}

/// The plain values of a [`PackageTarget`].
pub struct TargetView {
    pub name: Seq<char>,
    pub path: Option<Seq<char>>,
    pub kind: TargetKindView,
    pub sources: Seq<Seq<char>>,
    pub exclude: Seq<Seq<char>>,
    pub dependencies: Seq<Seq<char>>,
}

impl View for PackageTarget {
    type V = TargetView;

    open spec fn view(&self) -> TargetView {
        TargetView {
            name: self.name@,
            path: opt_view(self.path),
            kind: self.kind@,
            sources: strings_view(self.sources@),
            exclude: strings_view(self.exclude@),
            dependencies: strings_view(self.dependencies@),
        }
    }
}

/// The subset of a `Package.swift` manifest this reader extracts: the
/// package name and its target list, in source order.
#[derive(Debug, Clone, PartialEq, Eq)]
pub struct PackageManifest {
    pub name: String,
    pub targets: Vec<PackageTarget>,
}

/// The plain values of a [`PackageManifest`].
pub struct ManifestView {
    pub name: Seq<char>,
    pub targets: Seq<TargetView>,
}

/// The views of a list of targets.
pub open spec fn targets_view(ts: Seq<PackageTarget>) -> Seq<TargetView> {
    ts.map_values(|t: PackageTarget| t@)
}

impl View for PackageManifest {
    type V = ManifestView;

    open spec fn view(&self) -> ManifestView {
        ManifestView { name: self.name@, targets: targets_view(self.targets@) }
    }
}

/// Why [`parse_manifest`] could not extract a [`PackageManifest`].
#[derive(Debug, Clone, PartialEq, Eq)]
pub enum ManifestError {
    /// `source` does not parse as Swift at all.
    SyntaxError(String),
    /// No top-level `let package = Package(…)` literal call was found.
    NotAManifest,
    /// The `Package(…)` call has no literal `name:` argument.
    MissingName,
    /// A `targets:` array element could not be modeled at all; the text says
    /// why.
    MalformedTarget(String),
}

/// The plain value of a [`ManifestError`].
pub enum ManifestErrorView {
    SyntaxError(Seq<char>),
    NotAManifest,
    MissingName,
    MalformedTarget(Seq<char>),
}

impl View for ManifestError {
    type V = ManifestErrorView;

    open spec fn view(&self) -> ManifestErrorView {
        match self {
            ManifestError::SyntaxError(m) => ManifestErrorView::SyntaxError(m@),
            ManifestError::NotAManifest => ManifestErrorView::NotAManifest,
            ManifestError::MissingName => ManifestErrorView::MissingName,
            ManifestError::MalformedTarget(m) => ManifestErrorView::MalformedTarget(m@),
        }
    }
}

/// The text a [`ManifestError`] reads as.
pub open spec fn manifest_error_text(e: ManifestErrorView) -> Seq<char> {
    match e {
        ManifestErrorView::SyntaxError(m) => "Package.swift: "@ + m,
        ManifestErrorView::NotAManifest => "Package.swift: no `let package = Package(name:targets:)` literal found (dynamically-constructed manifests are not supported: tswift reads the manifest's syntax, it does not execute it)"@,
        ManifestErrorView::MissingName => "Package.swift: `Package(...)` is missing a literal `name:` argument"@,
        ManifestErrorView::MalformedTarget(r) => "Package.swift: `targets:` entry "@ + r,
    }
}

impl ManifestError {
    /// The human-readable text of this error.
    pub fn message(&self) -> (r: String)
        ensures
            r@ == manifest_error_text(self@),
    {
        match self {
            ManifestError::SyntaxError(m) => {
                let mut s = String::from_str("Package.swift: ");
                s.append(m.as_str());
                s
            },
            ManifestError::NotAManifest => String::from_str(
                "Package.swift: no `let package = Package(name:targets:)` literal found (dynamically-constructed manifests are not supported: tswift reads the manifest's syntax, it does not execute it)",
            ),
            ManifestError::MissingName => String::from_str(
                "Package.swift: `Package(...)` is missing a literal `name:` argument",
            ),
            ManifestError::MalformedTarget(r) => {
                let mut s = String::from_str("Package.swift: `targets:` entry ");
                s.append(r.as_str());
                s
            },
        }
    }
}

// ---------------------------------------------------------- string values

/// The value an escape sequence `\c` stands for.
pub open spec fn escaped(c: char) -> char {
    if c == 'n' {
        '\n'
    } else if c == 't' {
        '\t'
    } else if c == 'r' {
        '\r'
    } else {
        c
    }
}

/// The text of a string literal's body with its escapes resolved. A lone
/// trailing `\` is dropped.
pub open spec fn unescape(b: Seq<char>) -> Seq<char>
    decreases b.len(),
{
    if b.len() == 0 {
        b
    } else if b[0] != '\\' {
        seq![b[0]] + unescape(b.drop_first())
    } else if b.len() == 1 {
        Seq::empty()
    } else {
        seq![escaped(b[1])] + unescape(b.subrange(2, b.len() as int))
    }
}

/// The value of node `id` when it is a plain string literal: its text with
/// the surrounding quotes removed and escapes resolved.
pub open spec fn literal_value(nodes: Seq<NodeView>, id: int) -> Option<Seq<char>> {
    let n = nodes[id];
    if n.kind != NodeKind::StringLiteral {
        None
    } else {
        match n.text {
            Some(raw) => if raw.len() >= 2 && raw[0] == '"' && raw.last() == '"' {
                Some(unescape(raw.subrange(1, raw.len() - 1)))
            } else {
                None
            },
            None => None,
        }
    }
}

/// The values of `kids` when every one is a plain string literal.
pub open spec fn literal_list(nodes: Seq<NodeView>, kids: Seq<usize>) -> Option<Seq<Seq<char>>>
    decreases kids.len(),
{
    if kids.len() == 0 {
        Some(Seq::empty())
    } else {
        match literal_value(nodes, kids[0] as int) {
            None => None,
            Some(v) => match literal_list(nodes, kids.drop_first()) {
                None => None,
                Some(vs) => Some(seq![v] + vs),
            },
        }
    }
}

/// `done` followed by the values of `rest`, if there are any.
pub open spec fn prefix_some(done: Seq<Seq<char>>, rest: Option<Seq<Seq<char>>>) -> Option<Seq<Seq<char>>> {
    match rest {
        Some(vs) => Some(done + vs),
        None => None,
    }
}

/// The values of an array literal of plain string literals.
pub open spec fn array_strings(nodes: Seq<NodeView>, id: int) -> Option<Seq<Seq<char>>> {
    if nodes[id].kind != NodeKind::ArrayLiteral {
        None
    } else {
        literal_list(nodes, nodes[id].children)
    }
}

/// The first of `args` whose argument label is `label`.
pub open spec fn first_labeled(nodes: Seq<NodeView>, args: Seq<usize>, label: Seq<char>) -> Option<usize>
    decreases args.len(),
{
    if args.len() == 0 {
        None
    } else if nodes[args[0] as int].arg_label == Some(label) {
        Some(args[0])
    } else {
        first_labeled(nodes, args.drop_first(), label)
    }
}

/// The text of the callee (first child) of call node `c`.
pub open spec fn callee_text(nodes: Seq<NodeView>, c: int) -> Option<Seq<char>> {
    if nodes[c].children.len() > 0 {
        nodes[nodes[c].children[0] as int].text
    } else {
        None
    }
}

/// The local target a `dependencies:` element names: a string literal, or a
/// `.target(name: "…")` call.
pub open spec fn dep_name(nodes: Seq<NodeView>, e: int) -> Option<Seq<char>> {
    let n = nodes[e];
    if n.kind == NodeKind::StringLiteral {
        literal_value(nodes, e)
    } else if n.kind == NodeKind::CallExpr && n.children.len() > 0 && nodes[n.children[0] as int].kind
        == NodeKind::MemberExpr && nodes[n.children[0] as int].text == Some("target"@) {
        match first_labeled(nodes, n.children.drop_first(), "name"@) {
            Some(a) => literal_value(nodes, a as int),
            None => None,
        }
    } else {
        None
    }
}

/// The local target names among `kids`, in order.
pub open spec fn dep_names(nodes: Seq<NodeView>, kids: Seq<usize>) -> Seq<Seq<char>>
    decreases kids.len(),
{
    if kids.len() == 0 {
        Seq::empty()
    } else {
        match dep_name(nodes, kids.last() as int) {
            Some(v) => dep_names(nodes, kids.drop_last()).push(v),
            None => dep_names(nodes, kids.drop_last()),
        }
    }
}

/// The local target names of a `dependencies:` value (none unless it is an
/// array literal).
pub open spec fn dependency_names(nodes: Seq<NodeView>, id: int) -> Seq<Seq<char>> {
    if nodes[id].kind != NodeKind::ArrayLiteral {
        Seq::empty()
    } else {
        dep_names(nodes, nodes[id].children)
    }
}

// ------------------------------------------------------------ exec reads

/// The unescaped value of a plain (non-interpolated) string literal node.
fn string_literal_value(node: &Node) -> (r: Option<String>)
    requires
        node.wf(),
    ensures
        opt_view(r) == literal_value(node.tree(), node.id() as int),
{
    if node.kind() != NodeKind::StringLiteral {
        return None;
    }
    let raw = match node.text() {
        Some(t) => t,
        None => {
            return None;
        },
    };
    let cs = chars_of(raw.as_str());
    let n = cs.len();
    if n < 2 || cs[0] != '"' || cs[n - 1] != '"' {
        return None;
    }
    let ghost body = cs@.subrange(1, n - 1);
    let mut out = String::new();
    let mut k: usize = 1;
    while k < n - 1
        invariant
            n == cs@.len(),
            n >= 2,
            1 <= k <= n - 1,
            body == cs@.subrange(1, n - 1),
            out@ + unescape(cs@.subrange(k as int, n - 1)) == unescape(body),
        decreases n - k,
    {
        let ghost rest = cs@.subrange(k as int, n - 1);
        let ghost before = out@;
        let c = cs[k];
        if c != '\\' {
            push_char(&mut out, c);
            assert(rest.drop_first() =~= cs@.subrange(k + 1, n - 1));
            assert(unescape(rest) == seq![c] + unescape(rest.drop_first()));
            assert(out@ + unescape(cs@.subrange(k + 1, n - 1)) =~= before + unescape(rest));
            k += 1;
        } else if k + 1 >= n - 1 {
            assert(rest.len() == 1);
            assert(unescape(rest) == Seq::<char>::empty());
            assert(unescape(cs@.subrange(n - 1, n - 1)) == Seq::<char>::empty()) by {
                assert(cs@.subrange(n - 1, n - 1).len() == 0);
            }
            assert(out@ + unescape(cs@.subrange(n - 1, n - 1)) =~= before + unescape(rest));
            k = n - 1;
        } else {
            let e = cs[k + 1];
            let v = if e == 'n' {
                '\n'
            } else if e == 't' {
                '\t'
            } else if e == 'r' {
                '\r'
            } else {
                e
            };
            push_char(&mut out, v);
            assert(rest.subrange(2, rest.len() as int) =~= cs@.subrange(k + 2, n - 1));
            assert(unescape(rest) == seq![escaped(rest[1])] + unescape(rest.subrange(2, rest.len() as int)));
            assert(out@ + unescape(cs@.subrange(k + 2, n - 1)) =~= before + unescape(rest));
            k += 2;
        }
    }
    assert(out@ + unescape(cs@.subrange(k as int, n - 1)) == unescape(body));
    assert(cs@.subrange(k as int, n - 1).len() == 0);
    assert(out@ + Seq::<char>::empty() =~= out@);
    assert(cs@ == raw@);
    Some(out)
}

/// The plain values of an optional list of strings.
pub open spec fn opt_strings(r: Option<Vec<String>>) -> Option<Seq<Seq<char>>> {
    match r {
        Some(v) => Some(strings_view(v@)),
        None => None,
    }
}

/// The unescaped values of a literal `ArrayLiteral` of `StringLiteral`
/// elements; `None` if `value` is not an array literal or holds any element
/// that is not a plain string literal.
fn string_array_value(value: &Node) -> (r: Option<Vec<String>>)
    requires
        value.wf(),
    ensures
        opt_strings(r) == array_strings(value.tree(), value.id() as int),
{
    if value.kind() != NodeKind::ArrayLiteral {
        return None;
    }
    let kids = value.child_vec();
    let ghost ch = value.data().children;
    let ghost nodes = value.tree();
    let mut out: Vec<String> = Vec::new();
    let mut k: usize = 0;
    assert(ch.skip(0) =~= ch);
    assert(prefix_some(Seq::empty(), literal_list(nodes, ch)) == literal_list(nodes, ch)) by {
        match literal_list(nodes, ch) {
            Some(vs) => {
                assert(Seq::<Seq<char>>::empty() + vs =~= vs);
            },
            None => {},
        }
    }
    while k < kids.len()
        invariant
            kids@.len() == ch.len(),
            k <= kids@.len(),
            nodes == value.tree(),
            ch == value.data().children,
            forall|i: int|
                0 <= i < kids@.len() ==> #[trigger] kids@[i].wf() && kids@[i].id() == ch[i]
                    && kids@[i].tree() == nodes,
            literal_list(nodes, ch) == prefix_some(strings_view(out@), literal_list(nodes, ch.skip(k as int))),
        decreases kids@.len() - k,
    {
        assert(kids@[k as int].wf());
        assert(ch.skip(k as int)[0] == ch[k as int]);
        assert(ch.skip(k as int).drop_first() =~= ch.skip(k as int + 1));
        let lv = string_literal_value(&kids[k]);
        assert(literal_list(nodes, ch.skip(k as int)) == match literal_value(nodes, ch[k as int] as int) {
            None => None,
            Some(v) => match literal_list(nodes, ch.skip(k as int + 1)) {
                None => None,
                Some(vs) => Some(seq![v] + vs),
            },
        });
        match lv {
            Some(v) => {
                let ghost before = strings_view(out@);
                out.push(v);
                assert(strings_view(out@) =~= before.push(v@));
                proof {
                    match literal_list(nodes, ch.skip(k as int + 1)) {
                        Some(vs) => {
                            assert(before + (seq![v@] + vs) =~= strings_view(out@) + vs);
                        },
                        None => {},
                    }
                }
            },
            None => {
                return None;
            },
        }
        k += 1;
    }
    assert(ch.skip(k as int).len() == 0);
    assert(strings_view(out@) + Seq::<Seq<char>>::empty() =~= strings_view(out@));
    Some(out)
}

/// The first of the nodes in `args` whose argument label is `label`.
#[verifier::loop_isolation(false)]
fn find_labeled<'a>(args: &Vec<Node<'a>>, from: usize, label: &str, Ghost(nodes): Ghost<Seq<NodeView>>, Ghost(ids): Ghost<Seq<usize>>) -> (r: Option<Node<'a>>)
    requires
        from <= args@.len(),
        ids.len() == args@.len(),
        forall|i: int|
            0 <= i < args@.len() ==> #[trigger] args@[i].wf() && args@[i].id() == ids[i]
                && args@[i].tree() == nodes,
    ensures
        crate::syntax::opt_id(r) == first_labeled(nodes, ids.skip(from as int), label@),
        crate::syntax::opt_node_in(r, nodes),
{
    let mut k = from;
    while k < args.len()
        invariant
            from <= k <= args@.len(),
            first_labeled(nodes, ids.skip(k as int), label@) == first_labeled(nodes, ids.skip(from as int), label@),
        decreases args@.len() - k,
    {
        assert(args@[k as int].wf());
        assert(ids.skip(k as int)[0] == ids[k as int]);
        assert(ids.skip(k as int).drop_first() =~= ids.skip(k as int + 1));
        let l = args[k].arg_label();
        match &l {
            Some(t) => {
                if str_same(t.as_str(), label) {
                    return Some(args[k]);
                }
            },
            None => {},
        }
        k += 1;
    }
    assert(ids.skip(k as int).len() == 0);
    None
}

/// The local target one `dependencies:` element names.
fn dependency_name(elt: &Node) -> (r: Option<String>)
    requires
        elt.wf(),
    ensures
        opt_view(r) == dep_name(elt.tree(), elt.id() as int),
{
    let k = elt.kind();
    if k == NodeKind::StringLiteral {
        return string_literal_value(elt);
    }
    if k != NodeKind::CallExpr {
        return None;
    }
    let kids = elt.child_vec();
    if kids.len() == 0 {
        return None;
    }
    assert(kids@[0].wf());
    let callee = kids[0];
    if callee.kind() != NodeKind::MemberExpr {
        return None;
    }
    let is_target = match callee.text() {
        Some(t) => str_same(t.as_str(), "target"),
        None => false,
    };
    if !is_target {
        return None;
    }
    let ghost ch = elt.data().children;
    assert(ch.skip(1) =~= ch.drop_first());
    match find_labeled(&kids, 1, "name", Ghost(elt.tree()), Ghost(ch)) {
        Some(a) => string_literal_value(&a),
        None => None,
    }
}

/// Extract target-local dependency names from a `dependencies:` array:
/// string literals and `.target(name: "…")` entries; anything else
/// (`.product(name:package:)`, a variable, an interpolation) names a target
/// this reader cannot resolve locally and is dropped.
fn dependency_names_value(value: &Node) -> (r: Vec<String>)
    requires
        value.wf(),
    ensures
        strings_view(r@) == dependency_names(value.tree(), value.id() as int),
{
    let mut out: Vec<String> = Vec::new();
    if value.kind() != NodeKind::ArrayLiteral {
        assert(strings_view(out@) =~= Seq::<Seq<char>>::empty());
        return out;
    }
    let kids = value.child_vec();
    let ghost ch = value.data().children;
    let ghost nodes = value.tree();
    let mut k: usize = 0;
    assert(strings_view(out@) =~= dep_names(nodes, ch.take(0)));
    while k < kids.len()
        invariant
            kids@.len() == ch.len(),
            k <= kids@.len(),
            nodes == value.tree(),
            ch == value.data().children,
            forall|i: int|
                0 <= i < kids@.len() ==> #[trigger] kids@[i].wf() && kids@[i].id() == ch[i]
                    && kids@[i].tree() == nodes,
            strings_view(out@) == dep_names(nodes, ch.take(k as int)),
        decreases kids@.len() - k,
    {
        assert(kids@[k as int].wf());
        assert(ch.take(k as int + 1).drop_last() =~= ch.take(k as int));
        assert(ch.take(k as int + 1).last() == ch[k as int]);
        match dependency_name(&kids[k]) {
            Some(v) => {
                let ghost before = strings_view(out@);
                out.push(v);
                assert(strings_view(out@) =~= before.push(v@));
            },
            None => {},
        }
        k += 1;
    }
    assert(ch.take(kids@.len() as int) =~= ch);
    out
}

// -------------------------------------------------------- target entries

/// The arguments of a target constructor read so far.
pub struct EntryArgs {
    pub name: Option<Seq<char>>,
    pub path: Option<Seq<char>>,
    pub sources: Seq<Seq<char>>,
    pub exclude: Seq<Seq<char>>,
    pub deps: Seq<Seq<char>>,
}

/// No argument read yet.
pub open spec fn no_entry_args() -> EntryArgs {
    EntryArgs {
        name: None,
        path: None,
        sources: Seq::empty(),
        exclude: Seq::empty(),
        deps: Seq::empty(),
    }
}

/// The reason given when the `label:` argument of `.ctor` is not a literal
/// array of strings.
pub open spec fn not_string_array(ctor: Seq<char>, label: Seq<char>) -> Seq<char> {
    "`."@ + ctor + "`'s `"@ + label + ":` is not a literal array of strings"@
}

/// Read the arguments `args` of a `.ctor(...)` target entry into `st`, in
/// order (a later `name:` or `path:` overrides an earlier one); the first
/// `sources:`/`exclude:` that is not a literal array of strings fails.
pub open spec fn entry_args(nodes: Seq<NodeView>, args: Seq<usize>, ctor: Seq<char>, st: EntryArgs) -> Result<
    EntryArgs,
    Seq<char>,
>
    decreases args.len(),
{
    if args.len() == 0 {
        Ok(st)
    } else {
        let a = args[0] as int;
        let label = nodes[a].arg_label;
        let next: Result<EntryArgs, Seq<char>> = if label == Some("name"@) {
            Ok(EntryArgs { name: literal_value(nodes, a), ..st })
        } else if label == Some("path"@) {
            Ok(EntryArgs { path: literal_value(nodes, a), ..st })
        } else if label == Some("sources"@) {
            match array_strings(nodes, a) {
                Some(v) => Ok(EntryArgs { sources: v, ..st }),
                None => Err(not_string_array(ctor, "sources"@)),
            }
        } else if label == Some("exclude"@) {
            match array_strings(nodes, a) {
                Some(v) => Ok(EntryArgs { exclude: v, ..st }),
                None => Err(not_string_array(ctor, "exclude"@)),
            }
        } else if label == Some("dependencies"@) {
            Ok(EntryArgs { deps: dependency_names(nodes, a), ..st })
        } else {
            Ok(st)
        };
        match next {
            Err(e) => Err(e),
            Ok(st2) => entry_args(nodes, args.drop_first(), ctor, st2),
        }
    }
}

/// The target kind a constructor name stands for, if it is one this reader
/// recognizes.
pub open spec fn ctor_kind(ctor: Seq<char>) -> Option<TargetKindView> {
    if ctor == "executableTarget"@ {
        Some(TargetKindView::Executable)
    } else if ctor == "target"@ {
        Some(TargetKindView::Library)
    } else if ctor == "testTarget"@ || ctor == "binaryTarget"@ || ctor == "systemLibrary"@ || ctor
        == "plugin"@ {
        Some(TargetKindView::Other(ctor))
    } else {
        None
    }
}

/// The target a `targets:` element describes, or why it cannot be read:
/// it must be a `.ctor(...)` call of a recognized constructor with a
/// literal `name:` argument.
pub open spec fn target_entry(nodes: Seq<NodeView>, e: int) -> Result<TargetView, Seq<char>> {
    let n = nodes[e];
    if n.kind != NodeKind::CallExpr {
        Err("is not a `.xTarget(...)` call (found `"@ + kind_debug(n.kind) + "`)"@)
    } else if n.children.len() == 0 {
        Err("is a call with no callee"@)
    } else if nodes[n.children[0] as int].kind != NodeKind::MemberExpr {
        Err("is a call whose target constructor is not a `.member` form"@)
    } else {
        match nodes[n.children[0] as int].text {
            None => Err("has an unreadable target constructor name"@),
            Some(ctor) => match ctor_kind(ctor) {
                None => Err("uses an unrecognized constructor `."@ + ctor + "`"@),
                Some(kind) => match entry_args(nodes, n.children.drop_first(), ctor, no_entry_args()) {
                    Err(r) => Err(r),
                    Ok(st) => match st.name {
                        None => Err("`."@ + ctor + "` is missing a literal `name:` argument"@),
                        Some(name) => Ok(
                            TargetView {
                                name,
                                path: st.path,
                                kind,
                                sources: st.sources,
                                exclude: st.exclude,
                                dependencies: st.deps,
                            },
                        ),
                    },
                },
            },
        }
    }
}

/// The targets the elements `kids` describe, or the first reason one cannot
/// be read.
pub open spec fn entries(nodes: Seq<NodeView>, kids: Seq<usize>) -> Result<Seq<TargetView>, Seq<char>>
    decreases kids.len(),
{
    if kids.len() == 0 {
        Ok(Seq::empty())
    } else {
        match target_entry(nodes, kids[0] as int) {
            Err(r) => Err(r),
            Ok(t) => match entries(nodes, kids.drop_first()) {
                Err(r) => Err(r),
                Ok(ts) => Ok(seq![t] + ts),
            },
        }
    }
}

/// The targets of a `targets:` value, which must be an array literal.
pub open spec fn targets_of(nodes: Seq<NodeView>, id: int) -> Result<Seq<TargetView>, Seq<char>> {
    if nodes[id].kind != NodeKind::ArrayLiteral {
        Err("is not a literal array (found `"@ + kind_debug(nodes[id].kind) + "`)"@)
    } else {
        entries(nodes, nodes[id].children)
    }
}

/// `done` followed by the targets of `rest`, if it succeeded.
pub open spec fn prefix_ok(done: Seq<TargetView>, rest: Result<Seq<TargetView>, Seq<char>>) -> Result<
    Seq<TargetView>,
    Seq<char>,
> {
    match rest {
        Ok(ts) => Ok(done + ts),
        Err(r) => Err(r),
    }
}

/// The plain values of the argument state of [`parse_target_entry`].
pub open spec fn args_view(
    name: Option<String>,
    path: Option<String>,
    sources: Seq<String>,
    exclude: Seq<String>,
    deps: Seq<String>,
) -> EntryArgs {
    EntryArgs {
        name: opt_view(name),
        path: opt_view(path),
        sources: strings_view(sources),
        exclude: strings_view(exclude),
        deps: strings_view(deps),
    }
}

/// The text of `not_string_array(ctor, label)`.
fn not_string_array_text(ctor: &str, label: &str) -> (r: String)
    ensures
        r@ == not_string_array(ctor@, label@),
{
    let mut s = String::from_str("`.");
    s.append(ctor);
    s.append("`'s `");
    s.append(label);
    s.append(":` is not a literal array of strings");
    s
}

/// Read one `targets:` element into a [`PackageTarget`].
#[verifier::spinoff_prover]
fn parse_target_entry(elt: &Node) -> (r: Result<PackageTarget, ManifestError>)
    requires
        elt.wf(),
    ensures
        match r {
            Ok(t) => target_entry(elt.tree(), elt.id() as int) == Ok::<TargetView, Seq<char>>(t@),
            Err(e) => exists|m: Seq<char>|
                target_entry(elt.tree(), elt.id() as int) == Err::<TargetView, Seq<char>>(m) && e@
                    == ManifestErrorView::MalformedTarget(m),
        },
{
    let k = elt.kind();
    if k != NodeKind::CallExpr {
        let mut m = String::from_str("is not a `.xTarget(...)` call (found `");
        let d = k.debug_name();
        m.append(d.as_str());
        m.append("`)");
        return Err(ManifestError::MalformedTarget(m));
    }
    let kids = elt.child_vec();
    assert(forall|i: int|
        0 <= i < kids@.len() ==> #[trigger] kids@[i].wf() && kids@[i].id() == elt.data().children[i] && kids@[i].tree() == elt.tree());
    if kids.len() == 0 {
        return Err(ManifestError::MalformedTarget(String::from_str("is a call with no callee")));
    }
    assert(kids@[0].wf());
    let callee = kids[0];
    if callee.kind() != NodeKind::MemberExpr {
        return Err(ManifestError::MalformedTarget(String::from_str("is a call whose target constructor is not a `.member` form")));
    }
    let ctor = match callee.text() {
        Some(t) => t,
        None => {
            return Err(ManifestError::MalformedTarget(String::from_str("has an unreadable target constructor name")));
        },
    };
    let c = ctor.as_str();
    let kind = if str_same(c, "executableTarget") {
        TargetKind::Executable
    } else if str_same(c, "target") {
        TargetKind::Library
    } else if str_same(c, "testTarget") || str_same(c, "binaryTarget") || str_same(c, "systemLibrary")
        || str_same(c, "plugin") {
        TargetKind::Other(ctor.clone())
    } else {
        let mut m = String::from_str("uses an unrecognized constructor `.");
        m.append(c);
        m.append("`");
        return Err(ManifestError::MalformedTarget(m));
    };
    let ghost nodes = elt.tree();
    let ghost ch = elt.data().children;
    let ghost args = ch.drop_first();
    let mut name: Option<String> = None;
    let mut path: Option<String> = None;
    let mut sources: Vec<String> = Vec::new();
    let mut exclude: Vec<String> = Vec::new();
    let mut deps: Vec<String> = Vec::new();
    let mut j: usize = 1;
    assert(args.skip(0) =~= args);
    assert(args_view(name, path, sources@, exclude@, deps@) == no_entry_args()) by {
        assert(strings_view(sources@) =~= Seq::<Seq<char>>::empty());
        assert(strings_view(exclude@) =~= Seq::<Seq<char>>::empty());
        assert(strings_view(deps@) =~= Seq::<Seq<char>>::empty());
    }
    while j < kids.len()
        invariant
            kids@.len() == ch.len(),
            1 <= j <= kids@.len(),
            nodes == elt.tree(),
            args == ch.drop_first(),
            ch.len() >= 1,
            ch == nodes[elt.id() as int].children,
            nodes[elt.id() as int].kind == NodeKind::CallExpr,
            nodes[ch[0] as int].kind == NodeKind::MemberExpr,
            nodes[ch[0] as int].text == Some(c@),
            ctor_kind(c@) is Some,
            forall|i: int|
                0 <= i < kids@.len() ==> #[trigger] kids@[i].wf() && kids@[i].id() == ch[i]
                    && kids@[i].tree() == nodes,
            entry_args(nodes, args, c@, no_entry_args()) == entry_args(
                nodes,
                args.skip(j - 1),
                c@,
                args_view(name, path, sources@, exclude@, deps@),
            ),
        decreases kids@.len() - j,
    {
        let arg = kids[j];
        proof {
            assert(kids@[j as int].wf());
            assert(args.skip(j - 1)[0] == ch[j as int]);
            assert(args.skip(j - 1).drop_first() =~= args.skip(j as int));
        }
        let label = arg.arg_label();
        let l = match &label {
            Some(t) => t.as_str(),
            None => "",
        };
        let labeled = label.is_some();
        if labeled && str_same(l, "name") {
            name = string_literal_value(&arg);
        } else if labeled && str_same(l, "path") {
            path = string_literal_value(&arg);
        } else if labeled && str_same(l, "sources") {
            match string_array_value(&arg) {
                Some(v) => {
                    sources = v;
                },
                None => {
                    let m = not_string_array_text(c, "sources");
                    proof {
                        assert(nodes[ch[j as int] as int].arg_label == Some("sources"@));
                        assert(entry_args(nodes, args.skip(j - 1), c@, args_view(name, path, sources@, exclude@, deps@))
                            == Err::<EntryArgs, Seq<char>>(not_string_array(c@, "sources"@)));
                        assert(target_entry(nodes, elt.id() as int) == Err::<TargetView, Seq<char>>(m@));
                    }
                    return Err(ManifestError::MalformedTarget(m));
                },
            }
        } else if labeled && str_same(l, "exclude") {
            match string_array_value(&arg) {
                Some(v) => {
                    exclude = v;
                },
                None => {
                    let m = not_string_array_text(c, "exclude");
                    proof {
                        assert(nodes[ch[j as int] as int].arg_label == Some("exclude"@));
                        assert(entry_args(nodes, args.skip(j - 1), c@, args_view(name, path, sources@, exclude@, deps@))
                            == Err::<EntryArgs, Seq<char>>(not_string_array(c@, "exclude"@)));
                        assert(target_entry(nodes, elt.id() as int) == Err::<TargetView, Seq<char>>(m@));
                    }
                    return Err(ManifestError::MalformedTarget(m));
                },
            }
        } else if labeled && str_same(l, "dependencies") {
            deps = dependency_names_value(&arg);
        }
        j += 1;
    }
    assert(args.skip(j - 1).len() == 0);
    let n = match name {
        Some(n) => n,
        None => {
            let mut m = String::from_str("`.");
            m.append(c);
            m.append("` is missing a literal `name:` argument");
            return Err(ManifestError::MalformedTarget(m));
        },
    };
    Ok(PackageTarget { name: n, path, kind, sources, exclude, dependencies: deps })
}

/// Extract the targets of a `targets:` value: a literal array of target
/// constructor calls. Any element this reader cannot read is a hard error,
/// never silently dropped, since a partial list could select the wrong
/// executable target.
fn parse_targets(value: &Node) -> (r: Result<Vec<PackageTarget>, ManifestError>)
    requires
        value.wf(),
    ensures
        match r {
            Ok(ts) => targets_of(value.tree(), value.id() as int) == Ok::<Seq<TargetView>, Seq<char>>(targets_view(ts@)),
            Err(e) => exists|m: Seq<char>|
                targets_of(value.tree(), value.id() as int) == Err::<Seq<TargetView>, Seq<char>>(m) && e@
                    == ManifestErrorView::MalformedTarget(m),
        },
{
    let k = value.kind();
    if k != NodeKind::ArrayLiteral {
        let mut m = String::from_str("is not a literal array (found `");
        let d = k.debug_name();
        m.append(d.as_str());
        m.append("`)");
        return Err(ManifestError::MalformedTarget(m));
    }
    let kids = value.child_vec();
    let ghost ch = value.data().children;
    let ghost nodes = value.tree();
    let mut out: Vec<PackageTarget> = Vec::new();
    let mut j: usize = 0;
    assert(ch.skip(0) =~= ch);
    assert(prefix_ok(Seq::empty(), entries(nodes, ch)) == entries(nodes, ch)) by {
        match entries(nodes, ch) {
            Ok(ts) => {
                assert(Seq::<TargetView>::empty() + ts =~= ts);
            },
            Err(_) => {},
        }
    }
    while j < kids.len()
        invariant
            kids@.len() == ch.len(),
            j <= kids@.len(),
            nodes == value.tree(),
            ch == value.data().children,
            nodes[value.id() as int].kind == NodeKind::ArrayLiteral,
            forall|i: int|
                0 <= i < kids@.len() ==> #[trigger] kids@[i].wf() && kids@[i].id() == ch[i]
                    && kids@[i].tree() == nodes,
            entries(nodes, ch) == prefix_ok(targets_view(out@), entries(nodes, ch.skip(j as int))),
        decreases kids@.len() - j,
    {
        assert(kids@[j as int].wf());
        assert(ch.skip(j as int)[0] == ch[j as int]);
        assert(ch.skip(j as int).drop_first() =~= ch.skip(j as int + 1));
        let entry = parse_target_entry(&kids[j]);
        match entry {
            Ok(t) => {
                let ghost before = targets_view(out@);
                out.push(t);
                assert(targets_view(out@) =~= before.push(t@));
                proof {
                    match entries(nodes, ch.skip(j as int + 1)) {
                        Ok(ts) => {
                            assert(before + (seq![t@] + ts) =~= targets_view(out@) + ts);
                        },
                        Err(_) => {},
                    }
                }
            },
            Err(e) => {
                return Err(e);
            },
        }
        j += 1;
    }
    assert(ch.skip(j as int).len() == 0);
    assert(targets_view(out@) + Seq::<TargetView>::empty() =~= targets_view(out@));
    Ok(out)
}

// ------------------------------------------------------------ the manifest

/// Whether node `d` is a top-level `let package` / `var package` binding.
pub open spec fn is_package_decl(nodes: Seq<NodeView>, d: int) -> bool {
    &&& (nodes[d].kind == NodeKind::LetDecl || nodes[d].kind == NodeKind::VarDecl)
    &&& decl_name_in(nodes, nodes[d].children, nodes[d].text) == Some("package"@)
}

/// The first of `kids` that is a call whose callee reads `Package`.
pub open spec fn package_call_in(nodes: Seq<NodeView>, kids: Seq<usize>) -> Option<usize>
    decreases kids.len(),
{
    if kids.len() == 0 {
        None
    } else if nodes[kids[0] as int].kind == NodeKind::CallExpr && callee_text(nodes, kids[0] as int)
        == Some("Package"@) {
        Some(kids[0])
    } else {
        package_call_in(nodes, kids.drop_first())
    }
}

/// The initializer call of the first `package` binding among `kids` that
/// has one.
pub open spec fn find_package(nodes: Seq<NodeView>, kids: Seq<usize>) -> Option<usize>
    decreases kids.len(),
{
    if kids.len() == 0 {
        None
    } else if is_package_decl(nodes, kids[0] as int) && package_call_in(
        nodes,
        nodes[kids[0] as int].children,
    ) is Some {
        package_call_in(nodes, nodes[kids[0] as int].children)
    } else {
        find_package(nodes, kids.drop_first())
    }
}

/// The arguments of a call: its children after the callee.
pub open spec fn call_args(kids: Seq<usize>) -> Seq<usize> {
    if kids.len() == 0 {
        kids
    } else {
        kids.drop_first()
    }
}

/// The `Package(...)` arguments read so far: the name, and the targets.
pub struct PackageArgs {
    pub name: Option<Seq<char>>,
    pub targets: Seq<TargetView>,
}

/// Read the arguments `args` of the `Package(...)` call, in order: `name:`
/// and `targets:` are read (a later one overriding), everything else is
/// ignored; the first `targets:` that cannot be read fails.
pub open spec fn package_args(nodes: Seq<NodeView>, args: Seq<usize>, st: PackageArgs) -> Result<
    PackageArgs,
    Seq<char>,
>
    decreases args.len(),
{
    if args.len() == 0 {
        Ok(st)
    } else {
        let a = args[0] as int;
        let label = nodes[a].arg_label;
        if label == Some("name"@) {
            package_args(nodes, args.drop_first(), PackageArgs { name: literal_value(nodes, a), ..st })
        } else if label == Some("targets"@) {
            match targets_of(nodes, a) {
                Err(r) => Err(r),
                Ok(ts) => package_args(nodes, args.drop_first(), PackageArgs { targets: ts, ..st }),
            }
        } else {
            package_args(nodes, args.drop_first(), st)
        }
    }
}

/// The manifest an analysis of `Package.swift` describes: the first error
/// diagnostic fails it; then the `let package = Package(...)` call must exist
/// and carry a literal `name:`.
pub open spec fn manifest_of(nodes: Seq<NodeView>, root: int, diags: Seq<Diagnostic>) -> Result<
    ManifestView,
    ManifestErrorView,
> {
    if diags.len() > 0 {
        Err(ManifestErrorView::SyntaxError(diags[0].message@))
    } else {
        match find_package(nodes, nodes[root].children) {
            None => Err(ManifestErrorView::NotAManifest),
            Some(call) => match package_args(
                nodes,
                call_args(nodes[call as int].children),
                PackageArgs { name: None, targets: Seq::empty() },
            ) {
                Err(r) => Err(ManifestErrorView::MalformedTarget(r)),
                Ok(st) => match st.name {
                    None => Err(ManifestErrorView::MissingName),
                    Some(name) => Ok(ManifestView { name, targets: st.targets }),
                },
            },
        }
    }
}

/// The first child of `decl` that is a call whose callee reads `Package`.
fn package_call_of<'a>(decl: &Node<'a>) -> (r: Option<Node<'a>>)
    requires
        decl.wf(),
    ensures
        crate::syntax::opt_id(r) == package_call_in(decl.tree(), decl.data().children),
        crate::syntax::opt_node_in(r, decl.tree()),
{
    let kids = decl.child_vec();
    let ghost ch = decl.data().children;
    let ghost nodes = decl.tree();
    let mut j: usize = 0;
    assert(ch.skip(0) =~= ch);
    while j < kids.len()
        invariant
            kids@.len() == ch.len(),
            j <= kids@.len(),
            nodes == decl.tree(),
            ch == decl.data().children,
            forall|i: int|
                0 <= i < kids@.len() ==> #[trigger] kids@[i].wf() && kids@[i].id() == ch[i]
                    && kids@[i].tree() == nodes,
            package_call_in(nodes, ch.skip(j as int)) == package_call_in(nodes, ch),
        decreases kids@.len() - j,
    {
        let c = kids[j];
        assert(kids@[j as int].wf());
        assert(ch.skip(j as int)[0] == ch[j as int]);
        assert(ch.skip(j as int).drop_first() =~= ch.skip(j as int + 1));
        if c.kind() == NodeKind::CallExpr {
            let callee_is_package = match c.first_child() {
                Some(callee) => match callee.text() {
                    Some(t) => str_same(t.as_str(), "Package"),
                    None => false,
                },
                None => false,
            };
            if callee_is_package {
                return Some(c);
            }
        }
        j += 1;
    }
    assert(ch.skip(j as int).len() == 0);
    None
}

/// Find the top-level `let package = Package(…)` (or `var package = …`)
/// binding's initializer call.
fn find_package_call<'a>(root: &Node<'a>) -> (r: Option<Node<'a>>)
    requires
        root.wf(),
    ensures
        crate::syntax::opt_id(r) == find_package(root.tree(), root.data().children),
        crate::syntax::opt_node_in(r, root.tree()),
{
    let kids = root.child_vec();
    let ghost ch = root.data().children;
    let ghost nodes = root.tree();
    let mut j: usize = 0;
    assert(ch.skip(0) =~= ch);
    while j < kids.len()
        invariant
            kids@.len() == ch.len(),
            j <= kids@.len(),
            nodes == root.tree(),
            ch == root.data().children,
            forall|i: int|
                0 <= i < kids@.len() ==> #[trigger] kids@[i].wf() && kids@[i].id() == ch[i]
                    && kids@[i].tree() == nodes,
            find_package(nodes, ch.skip(j as int)) == find_package(nodes, ch),
        decreases kids@.len() - j,
    {
        let d = kids[j];
        assert(kids@[j as int].wf());
        assert(ch.skip(j as int)[0] == ch[j as int]);
        assert(ch.skip(j as int).drop_first() =~= ch.skip(j as int + 1));
        let k = d.kind();
        if k == NodeKind::LetDecl || k == NodeKind::VarDecl {
            let named = match d.decl_name() {
                Some(n) => str_same(n.as_str(), "package"),
                None => false,
            };
            if named {
                match package_call_of(&d) {
                    Some(call) => {
                        return Some(call);
                    },
                    None => {},
                }
            }
        }
        j += 1;
    }
    assert(ch.skip(j as int).len() == 0);
    None
}

/// Read the manifest an analysis of a `Package.swift` source describes,
/// by pattern-matching its syntax tree.
#[verifier::loop_isolation(false)]
pub fn manifest_from_analysis(analysis: &Analysis) -> (r: Result<PackageManifest, ManifestError>)
    requires
        analysis.wf(),
    ensures
        match r {
            Ok(m) => manifest_of(analysis.tree(), analysis.root_id() as int, analysis.diagnostics_view())
                == Ok::<ManifestView, ManifestErrorView>(m@),
            Err(e) => manifest_of(analysis.tree(), analysis.root_id() as int, analysis.diagnostics_view())
                == Err::<ManifestView, ManifestErrorView>(e@),
        },
{
    let diags = analysis.diagnostics();
    if diags.len() > 0 {
        let d = &diags[0];
        return Err(ManifestError::SyntaxError(d.message.clone()));
    }
    let root = analysis.root();
    let call = match find_package_call(&root) {
        Some(c) => c,
        None => {
            return Err(ManifestError::NotAManifest);
        },
    };
    let kids = call.child_vec();
    let ghost nodes = analysis.tree();
    let ghost ch = call.data().children;
    let ghost args = call_args(ch);
    let ghost init = PackageArgs { name: None, targets: Seq::empty() };
    let mut name: Option<String> = None;
    let mut targets: Vec<PackageTarget> = Vec::new();
    let mut j: usize = 1;
    assert(args.skip(0) =~= args);
    assert(targets_view(targets@) =~= Seq::<TargetView>::empty());
    assert(manifest_of(nodes, analysis.root_id() as int, analysis.diagnostics_view()) == match package_args(nodes, args, init) {
        Err(r) => Err(ManifestErrorView::MalformedTarget(r)),
        Ok(st) => match st.name {
            None => Err(ManifestErrorView::MissingName),
            Some(name) => Ok(ManifestView { name, targets: st.targets }),
        },
    });
    while j < kids.len()
        invariant
            kids@.len() == ch.len(),
            1 <= j,
            j <= kids@.len() || kids@.len() == 0,
            j - 1 <= args.len(),
            args == call_args(ch),
            nodes == analysis.tree(),
            nodes == call.tree(),
            ch == call.data().children,
            package_args(nodes, args, init) == package_args(
                nodes,
                args.skip(j - 1),
                PackageArgs { name: opt_view(name), targets: targets_view(targets@) },
            ),
        decreases kids@.len() - j,
    {
        let arg = kids[j];
        proof {
            assert(kids@[j as int].wf());
            assert(args.skip(j - 1)[0] == ch[j as int]);
            assert(args.skip(j - 1).drop_first() =~= args.skip(j as int));
        }
        let label = arg.arg_label();
        let l = match &label {
            Some(t) => t.as_str(),
            None => "",
        };
        let labeled = label.is_some();
        if labeled && str_same(l, "name") {
            name = string_literal_value(&arg);
        } else if labeled && str_same(l, "targets") {
            match parse_targets(&arg) {
                Ok(ts) => {
                    targets = ts;
                },
                Err(e) => {
                    proof {
                        let m = choose|m: Seq<char>|
                            targets_of(nodes, ch[j as int] as int) == Err::<Seq<TargetView>, Seq<char>>(m)
                                && e@ == ManifestErrorView::MalformedTarget(m);
                        assert(package_args(nodes, args, init) == Err::<PackageArgs, Seq<char>>(m));
                    }
                    return Err(e);
                },
            }
        }
        j += 1;
    }
    proof {
        assert(args.skip(j - 1).len() == 0);
    }
    match name {
        Some(n) => Ok(PackageManifest { name: n, targets }),
        None => Err(ManifestError::MissingName),
    }
}

/// The program a manifest reading `mr` selects from the files `fs`: the
/// target's files, or the manifest's error.
pub open spec fn manifest_load(fs: Seq<(Seq<char>, Seq<char>)>, mr: Result<ManifestView, ManifestErrorView>, target: Option<Seq<char>>) -> Result<Seq<(Seq<char>, Seq<char>)>, ProjectErrorView> {
    match mr {
        Ok(m) => manifest_program(fs, m, target),
        Err(e) => Err(ProjectErrorView::Manifest(e)),
    }
}

/// The plain values of a manifest reading's outcome.
pub open spec fn manifest_result(r: Result<PackageManifest, ManifestError>) -> Result<ManifestView, ManifestErrorView> {
    match r {
        Ok(m) => Ok(m@),
        Err(e) => Err(e@),
    }
}

/// What reading the manifest that `a` (an analysis of the manifest's text)
/// describes gives: the manifest, or why there is none.
pub open spec fn manifest_in(a: Analysis) -> Result<ManifestView, ManifestErrorView> {
    manifest_of(a.tree(), a.root_id() as int, a.diagnostics_view())
}

/// Whether the manifest text `source` holds no statement: free of NUL
/// characters, and nothing but `;` once lexed.
pub open spec fn blank_manifest(source: Seq<char>) -> bool {
    &&& !source.contains('\0')
    &&& crate::lex_spec::lexable(source)
    &&& crate::lex_spec::spec_tokenize(source) matches Ok(ts) && crate::parser::blank_program(ts)
}

/// No `package` binding stands among statements that are all expression
/// statements.
proof fn lemma_no_package_among_exprs(nodes: Seq<NodeView>, kids: Seq<usize>)
    requires
        forall|i: int| 0 <= i < kids.len() ==> nodes[#[trigger] kids[i] as int].kind == NodeKind::ExprStmt,
    ensures
        find_package(nodes, kids) is None,
    decreases kids.len(),
{
    if kids.len() > 0 {
        let rest = kids.drop_first();
        assert forall|i: int| 0 <= i < rest.len() implies nodes[#[trigger] rest[i] as int].kind
            == NodeKind::ExprStmt by {
            assert(rest[i] == kids[i + 1]);
        }
        assert(nodes[kids[0] as int].kind == NodeKind::ExprStmt);
        lemma_no_package_among_exprs(nodes, rest);
    }
}

/// Parse a `Package.swift` manifest **source** into its [`PackageManifest`]
/// shape, by pattern-matching its syntax tree. Never executes the manifest.
pub fn parse_manifest(source: &str) -> (r: Result<PackageManifest, ManifestError>)
    ensures
        source@.contains('\0') ==> (r matches Err(e) && e@ == ManifestErrorView::SyntaxError(
            "source contained an interior NUL byte"@,
        )),
        !source@.contains('\0') && crate::lex_spec::lexable(source@) ==> (
        crate::lex_spec::spec_tokenize(source@) matches Err(le) ==> (r matches Err(e) && e@
            == ManifestErrorView::SyntaxError(le.message))),
        !source@.contains('\0') && crate::lex_spec::lexable(source@) ==> (
        crate::lex_spec::spec_tokenize(source@) matches Ok(ts) ==> (crate::parser::blank_program(ts) ==> (
        r matches Err(e) && e@ == ManifestErrorView::NotAManifest))),
        !source@.contains('\0') && crate::lex_spec::lexable(source@) ==> (
        crate::lex_spec::spec_tokenize(source@) matches Ok(ts) ==> (crate::parser::atom_program_from(ts, 0)
            ==> r is Err)),
        !source@.contains('\0') && crate::lex_spec::lexable(source@) ==> (
        crate::lex_spec::spec_tokenize(source@) matches Ok(ts) ==> (crate::parser::lexed_call_program(ts)
            ==> r is Err)),
        !source@.contains('\0') ==> exists|a: Analysis|
            crate::syntax::analysis_of(a, source@) && #[trigger] manifest_in(a) == manifest_result(r),
{
    proof {
        reveal_strlit("Package.swift");
    }
    match Analysis::analyze(source, "Package.swift") {
        Err(e) => Err(ManifestError::SyntaxError(e.message())),
        Ok(a) => {
            proof {
                let t = a.tree();
                let root = a.root_id() as int;
                if crate::lex_spec::lexable(source@) {
                    if let Ok(ts) = crate::lex_spec::spec_tokenize(source@) {
                        if crate::parser::blank_program(ts) {
                            assert(t[root].children.len() == 0);
                            assert(find_package(t, t[root].children) is None);
                        }
                        if crate::parser::atom_program_from(ts, 0) {
                            lemma_no_package_among_exprs(t, t[root].children);
                        }
                        if crate::parser::lexed_call_program(ts) {
                            let c = 1 + crate::parser::lexed_atom_call_at(
                                ts,
                                crate::parser::view_after_semicolons(ts, 0),
                            ).unwrap().0.len() as int;
                            assert(t[root].children == seq![(c + 1) as usize]);
                            assert(t[(c + 1) as usize as int].kind == NodeKind::ExprStmt);
                            lemma_no_package_among_exprs(t, t[root].children);
                        }
                    }
                }
            }
            let r = manifest_from_analysis(&a);
            assert(manifest_in(a) == manifest_result(r));
            r
        },
    }
}

/// The index of the first target named `name`.
pub open spec fn target_index(ts: Seq<TargetView>, name: Seq<char>) -> Option<int>
    decreases ts.len(),
{
    if ts.len() == 0 {
        None
    } else if ts[0].name == name {
        Some(0)
    } else {
        match target_index(ts.drop_first(), name) {
            Some(i) => Some(i + 1),
            None => None,
        }
    }
}

/// The index of the first executable target.
pub open spec fn first_executable_index(ts: Seq<TargetView>) -> Option<int>
    decreases ts.len(),
{
    if ts.len() == 0 {
        None
    } else if ts[0].kind is Executable {
        Some(0)
    } else {
        match first_executable_index(ts.drop_first()) {
            Some(i) => Some(i + 1),
            None => None,
        }
    }
}

/// A found index is in range.
proof fn lemma_target_index_in_range(ts: Seq<TargetView>, name: Seq<char>)
    ensures
        target_index(ts, name) matches Some(i) ==> 0 <= i < ts.len() && ts[i].name == name,
    decreases ts.len(),
{
    if ts.len() > 0 {
        lemma_target_index_in_range(ts.drop_first(), name);
    }
}

impl PackageManifest {
    /// The target named `name`, if the manifest declares one (the first, if
    /// several share it).
    pub fn target(&self, name: &str) -> (r: Option<&PackageTarget>)
        ensures
            match target_index(self@.targets, name@) {
                Some(i) => r matches Some(t) && t@ == self@.targets[i],
                None => r is None,
            },
    {
        let ghost ts = self@.targets;
        let mut k: usize = 0;
        assert(ts.skip(0) =~= ts);
        while k < self.targets.len()
            invariant
                ts == targets_view(self.targets@),
                k <= self.targets@.len(),
                target_index(ts, name@) == match target_index(ts.skip(k as int), name@) {
                    Some(i) => Some(i + k),
                    None => None,
                },
            decreases self.targets@.len() - k,
        {
            assert(ts.skip(k as int)[0] == self.targets@[k as int]@);
            assert(ts.skip(k as int).drop_first() =~= ts.skip(k as int + 1));
            if str_same(self.targets[k].name.as_str(), name) {
                return Some(&self.targets[k]);
            }
            k += 1;
        }
        assert(ts.skip(k as int).len() == 0);
        None
    }

    /// The first `.executableTarget` in source order, if any.
    pub fn first_executable(&self) -> (r: Option<&PackageTarget>)
        ensures
            match first_executable_index(self@.targets) {
                Some(i) => r matches Some(t) && t@ == self@.targets[i],
                None => r is None,
            },
    {
        let ghost ts = self@.targets;
        let mut k: usize = 0;
        assert(ts.skip(0) =~= ts);
        while k < self.targets.len()
            invariant
                ts == targets_view(self.targets@),
                k <= self.targets@.len(),
                first_executable_index(ts) == match first_executable_index(ts.skip(k as int)) {
                    Some(i) => Some(i + k),
                    None => None,
                },
            decreases self.targets@.len() - k,
        {
            assert(ts.skip(k as int)[0] == self.targets@[k as int]@);
            assert(ts.skip(k as int).drop_first() =~= ts.skip(k as int + 1));
            let is_exe = match self.targets[k].kind {
                TargetKind::Executable => true,
                _ => false,
            };
            if is_exe {
                return Some(&self.targets[k]);
            }
            k += 1;
        }
        assert(ts.skip(k as int).len() == 0);
        None
    }
}

// ---------------------------------------------------------------- files

/// One source file of a project: its path relative to the project root, and
/// its text.
#[derive(Debug, Clone, PartialEq, Eq)]
pub struct SourceFile {
    pub path: String,
    pub source: String,
}

impl View for SourceFile {
    type V = (Seq<char>, Seq<char>);

    open spec fn view(&self) -> (Seq<char>, Seq<char>) {
        (self.path@, self.source@)
    }
}

impl SourceFile {
    /// A file at `path` holding `source`.
    pub fn new(path: &str, source: &str) -> (r: SourceFile)
        ensures
            r@ == (path@, source@),
    {
        SourceFile { path: String::from_str(path), source: String::from_str(source) }
    }

    /// A copy of this file.
    pub fn copy(&self) -> (r: SourceFile)
        ensures
            r@ == self@,
    {
        SourceFile { path: self.path.clone(), source: self.source.clone() }
    }
}

/// The plain values of a list of files.
pub open spec fn files_view(fs: Seq<SourceFile>) -> Seq<(Seq<char>, Seq<char>)> {
    fs.map_values(|f: SourceFile| f@)
}

/// Whether `s` ends with `suffix`.
pub open spec fn has_suffix(s: Seq<char>, suffix: Seq<char>) -> bool {
    s.len() >= suffix.len() && s.skip(s.len() - suffix.len()) == suffix
}

/// Whether `s` starts with `prefix`.
pub open spec fn has_prefix(s: Seq<char>, prefix: Seq<char>) -> bool {
    s.len() >= prefix.len() && s.take(prefix.len() as int) == prefix
}

/// `a` sorts at or before `b`: lexicographic order of their scalars (the
/// order of their UTF-8 bytes).
pub open spec fn path_le(a: Seq<char>, b: Seq<char>) -> bool
    decreases a.len(),
{
    if a.len() == 0 {
        true
    } else if b.len() == 0 {
        false
    } else if a[0] != b[0] {
        (a[0] as u32) < (b[0] as u32)
    } else {
        path_le(a.drop_first(), b.drop_first())
    }
}

/// `s` with `x` inserted after its last element whose path sorts at or
/// before `x`'s (so `x` goes after every equal path: the sort is stable).
pub open spec fn insert_by_path(s: Seq<(Seq<char>, Seq<char>)>, x: (Seq<char>, Seq<char>)) -> Seq<(Seq<char>, Seq<char>)>
    decreases s.len(),
{
    if s.len() == 0 {
        seq![x]
    } else if path_le(s.last().0, x.0) {
        s.push(x)
    } else {
        insert_by_path(s.drop_last(), x).push(s.last())
    }
}

/// `s` stably sorted by path.
pub open spec fn sort_by_path(s: Seq<(Seq<char>, Seq<char>)>) -> Seq<(Seq<char>, Seq<char>)>
    decreases s.len(),
{
    if s.len() == 0 {
        s
    } else {
        insert_by_path(sort_by_path(s.drop_last()), s.last())
    }
}

/// `s` with each run of consecutive equal paths reduced to its first file.
pub open spec fn dedup_by_path(s: Seq<(Seq<char>, Seq<char>)>) -> Seq<(Seq<char>, Seq<char>)>
    decreases s.len(),
{
    if s.len() == 0 {
        s
    } else {
        let d = dedup_by_path(s.drop_last());
        if d.len() > 0 && d.last().0 == s.last().0 {
            d
        } else {
            d.push(s.last())
        }
    }
}

/// The `.swift` files of `fs`, in order.
pub open spec fn swift_files(fs: Seq<(Seq<char>, Seq<char>)>) -> Seq<(Seq<char>, Seq<char>)>
    decreases fs.len(),
{
    if fs.len() == 0 {
        fs
    } else if has_suffix(fs.last().0, ".swift"@) {
        swift_files(fs.drop_last()).push(fs.last())
    } else {
        swift_files(fs.drop_last())
    }
}

/// The index of the first file of `fs` at `path`.
pub open spec fn file_index(fs: Seq<(Seq<char>, Seq<char>)>, path: Seq<char>) -> Option<int>
    decreases fs.len(),
{
    if fs.len() == 0 {
        None
    } else if fs[0].0 == path {
        Some(0)
    } else {
        match file_index(fs.drop_first(), path) {
            Some(i) => Some(i + 1),
            None => None,
        }
    }
}

/// Whether `s` ends with `suffix`.
fn ends_with(s: &str, suffix: &str) -> (r: bool)
    ensures
        r == has_suffix(s@, suffix@),
{
    let v = chars_of(s);
    let n = suffix.unicode_len();
    if v.len() < n {
        return false;
    }
    let r = crate::text::chars_match(&v, v.len() - n, v.len(), suffix);
    assert(v@.subrange(v@.len() - n, v@.len() as int) =~= v@.skip(v@.len() - n));
    r
}

/// Whether `s` starts with `prefix`.
fn starts_with(s: &str, prefix: &str) -> (r: bool)
    ensures
        r == has_prefix(s@, prefix@),
{
    let v = chars_of(s);
    let n = prefix.unicode_len();
    if v.len() < n {
        return false;
    }
    let r = crate::text::chars_match(&v, 0, n, prefix);
    assert(v@.subrange(0, n as int) =~= v@.take(n as int));
    r
}

/// Whether `a` sorts at or before `b`.
fn path_at_or_before(a: &str, b: &str) -> (r: bool)
    ensures
        r == path_le(a@, b@),
{
    let va = chars_of(a);
    let vb = chars_of(b);
    let mut k: usize = 0;
    assert(va@.skip(0) =~= va@);
    assert(vb@.skip(0) =~= vb@);
    while k < va.len() && k < vb.len() && va[k] == vb[k]
        invariant
            va@ == a@,
            vb@ == b@,
            k <= va@.len(),
            k <= vb@.len(),
            path_le(va@, vb@) == path_le(va@.skip(k as int), vb@.skip(k as int)),
        decreases va@.len() - k,
    {
        assert(va@.skip(k as int).drop_first() =~= va@.skip(k as int + 1));
        assert(vb@.skip(k as int).drop_first() =~= vb@.skip(k as int + 1));
        k += 1;
    }
    if k == va.len() {
        true
    } else if k == vb.len() {
        false
    } else {
        (va[k] as u32) < (vb[k] as u32)
    }
}

/// Inserting at the position the backward scan finds is `insert_by_path`.
proof fn lemma_insert_at(s: Seq<(Seq<char>, Seq<char>)>, x: (Seq<char>, Seq<char>), j: int)
    requires
        0 <= j <= s.len(),
        j == 0 || path_le(s[j - 1].0, x.0),
        forall|k: int| j <= k < s.len() ==> !path_le(#[trigger] s[k].0, x.0),
    ensures
        insert_by_path(s, x) == s.take(j) + seq![x] + s.skip(j),
    decreases s.len(),
{
    if s.len() == 0 {
        assert(s.take(j) + seq![x] + s.skip(j) =~= seq![x]);
    } else if j == s.len() {
        assert(s.take(j) + seq![x] + s.skip(j) =~= s.push(x));
    } else {
        let t = s.drop_last();
        assert forall|k: int| j <= k < t.len() implies !path_le(#[trigger] t[k].0, x.0) by {
            assert(t[k] == s[k]);
        }
        if j > 0 {
            assert(t[j - 1] == s[j - 1]);
        }
        lemma_insert_at(t, x, j);
        assert(s.last() == s[s.len() - 1]);
        assert((t.take(j) + seq![x] + t.skip(j)).push(s.last()) =~= s.take(j) + seq![x] + s.skip(j));
    }
}

/// `v` stably sorted by path.
fn sort_files(v: &Vec<SourceFile>) -> (r: Vec<SourceFile>)
    ensures
        files_view(r@) == sort_by_path(files_view(v@)),
{
    let mut out: Vec<SourceFile> = Vec::new();
    let mut i: usize = 0;
    assert(files_view(v@.take(0)) =~= Seq::<(Seq<char>, Seq<char>)>::empty());
    while i < v.len()
        invariant
            i <= v@.len(),
            files_view(out@) == sort_by_path(files_view(v@.take(i as int))),
        decreases v@.len() - i,
    {
        let x = v[i].copy();
        let mut j = out.len();
        while j > 0 && !path_at_or_before(out[j - 1].path.as_str(), x.path.as_str())
            invariant
                j <= out@.len(),
                forall|k: int| j <= k < out@.len() ==> !path_le(#[trigger] files_view(out@)[k].0, x@.0),
            decreases j,
        {
            j -= 1;
        }
        proof {
            if j > 0 {
                assert(files_view(out@)[j - 1].0 == out@[j - 1].path@);
            }
            lemma_insert_at(files_view(out@), x@, j as int);
            assert(files_view(v@.take(i as int + 1)).drop_last() =~= files_view(v@.take(i as int)));
            assert(files_view(v@.take(i as int + 1)).last() == x@);
        }
        let ghost before = files_view(out@);
        out.insert(j, x);
        assert(files_view(out@) =~= before.take(j as int) + seq![x@] + before.skip(j as int));
        i += 1;
    }
    assert(v@.take(v@.len() as int) =~= v@);
    out
}

/// `v` with each run of consecutive equal paths reduced to its first file.
fn dedup_files(v: Vec<SourceFile>) -> (r: Vec<SourceFile>)
    ensures
        files_view(r@) == dedup_by_path(files_view(v@)),
{
    let mut out: Vec<SourceFile> = Vec::new();
    let mut i: usize = 0;
    assert(files_view(v@.take(0)) =~= Seq::<(Seq<char>, Seq<char>)>::empty());
    while i < v.len()
        invariant
            i <= v@.len(),
            files_view(out@) == dedup_by_path(files_view(v@.take(i as int))),
        decreases v@.len() - i,
    {
        proof {
            assert(files_view(v@.take(i as int + 1)).drop_last() =~= files_view(v@.take(i as int)));
            assert(files_view(v@.take(i as int + 1)).last() == v@[i as int]@);
        }
        let dup = out.len() > 0 && str_same(out[out.len() - 1].path.as_str(), v[i].path.as_str());
        if !dup {
            let ghost before = files_view(out@);
            out.push(v[i].copy());
            assert(files_view(out@) =~= before.push(v@[i as int]@));
        }
        i += 1;
    }
    assert(v@.take(v@.len() as int) =~= v@);
    out
}

/// The `.swift` files of `files`, in order.
fn swift_file_copies(files: &[SourceFile]) -> (r: Vec<SourceFile>)
    ensures
        files_view(r@) == swift_files(files_view(files@)),
{
    let mut out: Vec<SourceFile> = Vec::new();
    let mut i: usize = 0;
    assert(files_view(files@.take(0)) =~= Seq::<(Seq<char>, Seq<char>)>::empty());
    while i < files.len()
        invariant
            i <= files@.len(),
            files_view(out@) == swift_files(files_view(files@.take(i as int))),
        decreases files@.len() - i,
    {
        proof {
            assert(files_view(files@.take(i as int + 1)).drop_last() =~= files_view(files@.take(i as int)));
            assert(files_view(files@.take(i as int + 1)).last() == files@[i as int]@);
        }
        if ends_with(files[i].path.as_str(), ".swift") {
            let ghost before = files_view(out@);
            out.push(files[i].copy());
            assert(files_view(out@) =~= before.push(files@[i as int]@));
        }
        i += 1;
    }
    assert(files@.take(files@.len() as int) =~= files@);
    out
}

/// The first file of `files` at `path`.
fn find_file<'f>(files: &'f [SourceFile], path: &str) -> (r: Option<&'f SourceFile>)
    ensures
        match file_index(files_view(files@), path@) {
            Some(i) => r matches Some(f) && f@ == files_view(files@)[i],
            None => r is None,
        },
{
    let ghost fs = files_view(files@);
    let mut k: usize = 0;
    assert(fs.skip(0) =~= fs);
    while k < files.len()
        invariant
            fs == files_view(files@),
            k <= files@.len(),
            file_index(fs, path@) == match file_index(fs.skip(k as int), path@) {
                Some(i) => Some(i + k),
                None => None,
            },
        decreases files@.len() - k,
    {
        assert(fs.skip(k as int)[0] == files@[k as int]@);
        assert(fs.skip(k as int).drop_first() =~= fs.skip(k as int + 1));
        if str_same(files[k].path.as_str(), path) {
            return Some(&files[k]);
        }
        k += 1;
    }
    assert(fs.skip(k as int).len() == 0);
    None
}

// ------------------------------------------------------------- programs

/// Why [`load_program`] could not derive a program's [`SourceFile`] list.
#[derive(Debug, Clone, PartialEq, Eq)]
pub enum ProjectError {
    /// The manifest itself failed to parse (see [`ManifestError`]).
    Manifest(ManifestError),
    /// No target was requested and the manifest declares no
    /// `.executableTarget`.
    NoExecutableTarget,
    /// The requested target name is not declared by the manifest.
    TargetNotFound(String),
    /// The requested target exists but is not a runnable kind.
    UnsupportedTargetKind { name: String, ctor: String },
    /// The target's source directory contributed no `.swift` files.
    NoSourceFiles { target: String, dir: String },
    /// The target's explicit `sources:` list names a path that does not
    /// exist among the project's files.
    MissingSourceFile { target: String, path: String },
    /// Flat-directory fallback (no `Package.swift`) found no `.swift` files.
    NoSwiftFiles,
}

/// The plain value of a [`ProjectError`].
pub enum ProjectErrorView {
    Manifest(ManifestErrorView),
    NoExecutableTarget,
    TargetNotFound(Seq<char>),
    UnsupportedTargetKind { name: Seq<char>, ctor: Seq<char> },
    NoSourceFiles { target: Seq<char>, dir: Seq<char> },
    MissingSourceFile { target: Seq<char>, path: Seq<char> },
    NoSwiftFiles,
}

impl View for ProjectError {
    type V = ProjectErrorView;

    open spec fn view(&self) -> ProjectErrorView {
        match self {
            ProjectError::Manifest(e) => ProjectErrorView::Manifest(e@),
            ProjectError::NoExecutableTarget => ProjectErrorView::NoExecutableTarget,
            ProjectError::TargetNotFound(n) => ProjectErrorView::TargetNotFound(n@),
            ProjectError::UnsupportedTargetKind { name, ctor } => ProjectErrorView::UnsupportedTargetKind {
                name: name@,
                ctor: ctor@,
            },
            ProjectError::NoSourceFiles { target, dir } => ProjectErrorView::NoSourceFiles {
                target: target@,
                dir: dir@,
            },
            ProjectError::MissingSourceFile { target, path } => ProjectErrorView::MissingSourceFile {
                target: target@,
                path: path@,
            },
            ProjectError::NoSwiftFiles => ProjectErrorView::NoSwiftFiles,
        }
    }
}

/// The text a [`ProjectError`] reads as.
pub open spec fn project_error_text(e: ProjectErrorView) -> Seq<char> {
    match e {
        ProjectErrorView::Manifest(m) => manifest_error_text(m),
        ProjectErrorView::NoExecutableTarget => "Package.swift declares no `.executableTarget`; pass an explicit target name"@,
        ProjectErrorView::TargetNotFound(n) => "Package.swift declares no target named `"@ + n + "`"@,
        ProjectErrorView::UnsupportedTargetKind { name, ctor } => "target `"@ + name + "` is a `."@ + ctor
            + "`, which tswift cannot run"@,
        ProjectErrorView::NoSourceFiles { target, dir } => "target `"@ + target + "`'s source directory `"@ + dir
            + "` contains no `.swift` files"@,
        ProjectErrorView::MissingSourceFile { target, path } => "target `"@ + target + "`'s `sources:` names `"@
            + path + "`, which does not exist"@,
        ProjectErrorView::NoSwiftFiles => "no `.swift` files found"@,
    }
}

impl ProjectError {
    /// The human-readable text of this error.
    pub fn message(&self) -> (r: String)
        ensures
            r@ == project_error_text(self@),
    {
        match self {
            ProjectError::Manifest(e) => e.message(),
            ProjectError::NoExecutableTarget => String::from_str(
                "Package.swift declares no `.executableTarget`; pass an explicit target name",
            ),
            ProjectError::TargetNotFound(n) => {
                let mut s = String::from_str("Package.swift declares no target named `");
                s.append(n.as_str());
                s.append("`");
                s
            },
            ProjectError::UnsupportedTargetKind { name, ctor } => {
                let mut s = String::from_str("target `");
                s.append(name.as_str());
                s.append("` is a `.");
                s.append(ctor.as_str());
                s.append("`, which tswift cannot run");
                s
            },
            ProjectError::NoSourceFiles { target, dir } => {
                let mut s = String::from_str("target `");
                s.append(target.as_str());
                s.append("`'s source directory `");
                s.append(dir.as_str());
                s.append("` contains no `.swift` files");
                s
            },
            ProjectError::MissingSourceFile { target, path } => {
                let mut s = String::from_str("target `");
                s.append(target.as_str());
                s.append("`'s `sources:` names `");
                s.append(path.as_str());
                s.append("`, which does not exist");
                s
            },
            ProjectError::NoSwiftFiles => String::from_str("no `.swift` files found"),
        }
    }
}

/// `s` without its trailing `/`s.
pub open spec fn trim_end_slashes(s: Seq<char>) -> Seq<char>
    decreases s.len(),
{
    if s.len() > 0 && s.last() == '/' {
        trim_end_slashes(s.drop_last())
    } else {
        s
    }
}

/// `s` without its leading `/`s.
pub open spec fn trim_start_slashes(s: Seq<char>) -> Seq<char>
    decreases s.len(),
{
    if s.len() > 0 && s[0] == '/' {
        trim_start_slashes(s.drop_first())
    } else {
        s
    }
}

/// The SwiftPM convention root of a target kind: `Tests` for a test target,
/// `Sources` otherwise.
pub open spec fn convention_root(kind: TargetKindView) -> Seq<char> {
    if kind == TargetKindView::Other("testTarget"@) {
        "Tests"@
    } else {
        "Sources"@
    }
}

/// A target's directory: its `path:`, else `<root>/<name>`.
pub open spec fn target_dir(t: TargetView) -> Seq<char> {
    match t.path {
        Some(p) => p,
        None => convention_root(t.kind) + "/"@ + t.name,
    }
}

/// The prefix every file under a target's directory starts with.
pub open spec fn dir_prefix(t: TargetView) -> Seq<char> {
    trim_end_slashes(target_dir(t)) + "/"@
}

/// Whether `path` (under `prefix`) matches an `exclude:` entry: an entry
/// (slashes trimmed) matches that file exactly, or every file under that
/// directory (a `/`-bounded prefix match).
pub open spec fn excluded(path: Seq<char>, prefix: Seq<char>, exclude: Seq<Seq<char>>) -> bool {
    let rel = if has_prefix(path, prefix) {
        path.skip(prefix.len() as int)
    } else {
        path
    };
    exists|i: int|
        0 <= i < exclude.len() && {
            let e = trim_end_slashes(trim_start_slashes(#[trigger] exclude[i]));
            rel == e || has_prefix(rel, e + "/"@)
        }
}

/// The `.swift` files of `fs` under `prefix` that no `exclude:` entry
/// matches, in order.
pub open spec fn scanned_files(fs: Seq<(Seq<char>, Seq<char>)>, prefix: Seq<char>, exclude: Seq<Seq<char>>) -> Seq<
    (Seq<char>, Seq<char>),
>
    decreases fs.len(),
{
    if fs.len() == 0 {
        fs
    } else {
        let f = fs.last();
        if has_prefix(f.0, prefix) && has_suffix(f.0, ".swift"@) && !excluded(f.0, prefix, exclude) {
            scanned_files(fs.drop_last(), prefix, exclude).push(f)
        } else {
            scanned_files(fs.drop_last(), prefix, exclude)
        }
    }
}

/// The files an explicit `sources:` list names (each relative to `prefix`),
/// in list order, or the first one missing from `fs`.
pub open spec fn listed_files(
    fs: Seq<(Seq<char>, Seq<char>)>,
    prefix: Seq<char>,
    target: Seq<char>,
    sources: Seq<Seq<char>>,
) -> Result<Seq<(Seq<char>, Seq<char>)>, ProjectErrorView>
    decreases sources.len(),
{
    if sources.len() == 0 {
        Ok(Seq::empty())
    } else {
        let full = prefix + trim_start_slashes(sources[0]);
        match file_index(fs, full) {
            None => Err(ProjectErrorView::MissingSourceFile { target, path: full }),
            Some(i) => match listed_files(fs, prefix, target, sources.drop_first()) {
                Err(e) => Err(e),
                Ok(rest) => Ok(seq![fs[i]] + rest),
            },
        }
    }
}

/// A target's own source files, unsorted: its `sources:` list if it has
/// one, else every `.swift` file under its directory minus `exclude:`. No
/// file at all is an error.
pub open spec fn target_files(fs: Seq<(Seq<char>, Seq<char>)>, t: TargetView) -> Result<
    Seq<(Seq<char>, Seq<char>)>,
    ProjectErrorView,
> {
    let prefix = dir_prefix(t);
    let found = if t.sources.len() > 0 {
        listed_files(fs, prefix, t.name, t.sources)
    } else {
        Ok(scanned_files(fs, prefix, t.exclude))
    };
    match found {
        Err(e) => Err(e),
        Ok(v) => if v.len() == 0 {
            Err(ProjectErrorView::NoSourceFiles { target: t.name, dir: target_dir(t) })
        } else {
            Ok(v)
        },
    }
}

/// `s` without its trailing `/`s.
fn trim_end_slashes_text(s: &str) -> (r: String)
    ensures
        r@ == trim_end_slashes(s@),
{
    let v = chars_of(s);
    let mut e = v.len();
    assert(v@.take(e as int) =~= v@);
    while e > 0 && v[e - 1] == '/'
        invariant
            e <= v@.len(),
            v@ == s@,
            trim_end_slashes(s@) == trim_end_slashes(v@.take(e as int)),
        decreases e,
    {
        assert(v@.take(e as int).drop_last() =~= v@.take(e - 1));
        e -= 1;
    }
    let r = crate::text::string_from_chars(&v, 0, e);
    assert(v@.subrange(0, e as int) =~= v@.take(e as int));
    r
}

/// `s` without its leading `/`s.
fn trim_start_slashes_text(s: &str) -> (r: String)
    ensures
        r@ == trim_start_slashes(s@),
{
    let v = chars_of(s);
    let mut b: usize = 0;
    assert(v@.skip(0) =~= v@);
    while b < v.len() && v[b] == '/'
        invariant
            b <= v@.len(),
            v@ == s@,
            trim_start_slashes(s@) == trim_start_slashes(v@.skip(b as int)),
        decreases v@.len() - b,
    {
        assert(v@.skip(b as int).drop_first() =~= v@.skip(b as int + 1));
        b += 1;
    }
    let r = crate::text::string_from_chars(&v, b, v.len());
    assert(v@.subrange(b as int, v@.len() as int) =~= v@.skip(b as int));
    r
}

/// Whether `path` (a file path already known to start with `prefix`, the
/// target directory) matches an `exclude:` entry: exactly, or as a file
/// under an excluded directory. No glob support.
fn is_excluded(path: &str, prefix: &str, exclude: &Vec<String>) -> (r: bool)
    ensures
        r == excluded(path@, prefix@, strings_view(exclude@)),
{
    let rel = if starts_with(path, prefix) {
        let v = chars_of(path);
        let n = prefix.unicode_len();
        let t = crate::text::string_from_chars(&v, n, v.len());
        assert(v@.subrange(n as int, v@.len() as int) =~= path@.skip(prefix@.len() as int));
        t
    } else {
        String::from_str(path)
    };
    let ghost ex = strings_view(exclude@);
    let mut k: usize = 0;
    while k < exclude.len()
        invariant
            k <= exclude@.len(),
            ex == strings_view(exclude@),
            rel@ == (if has_prefix(path@, prefix@) {
                path@.skip(prefix@.len() as int)
            } else {
                path@
            }),
            forall|i: int|
                0 <= i < k ==> !({
                    let e = trim_end_slashes(trim_start_slashes(#[trigger] ex[i]));
                    rel@ == e || has_prefix(rel@, e + "/"@)
                }),
        decreases exclude@.len() - k,
    {
        let front = trim_start_slashes_text(exclude[k].as_str());
        let e = trim_end_slashes_text(front.as_str());
        let mut dir = e.clone();
        dir.append("/");
        assert(ex[k as int] == exclude@[k as int]@);
        if str_same(rel.as_str(), e.as_str()) || starts_with(rel.as_str(), dir.as_str()) {
            return true;
        }
        k += 1;
    }
    false
}

/// The ordered (unsorted) `.swift` files that make up `target`'s own source
/// set: `sources:`-listed files if given, else every `.swift` file under
/// its directory (`path:`, or the `Sources/<name>/` / `Tests/<name>/`
/// convention), minus `exclude:`.
fn target_source_files(files: &[SourceFile], target: &PackageTarget) -> (r: Result<Vec<SourceFile>, ProjectError>)
    ensures
        match r {
            Ok(v) => target_files(files_view(files@), target@) == Ok::<Seq<(Seq<char>, Seq<char>)>, ProjectErrorView>(files_view(v@)),
            Err(e) => target_files(files_view(files@), target@) == Err::<Seq<(Seq<char>, Seq<char>)>, ProjectErrorView>(e@),
        },
{
    let is_test = match &target.kind {
        TargetKind::Other(c) => str_same(c.as_str(), "testTarget"),
        _ => false,
    };
    proof {
        reveal_strlit("testTarget");
        if !is_test {
            assert(target@.kind != TargetKindView::Other("testTarget"@));
        }
    }
    let dir = match &target.path {
        Some(p) => p.clone(),
        None => {
            let mut d = if is_test {
                String::from_str("Tests")
            } else {
                String::from_str("Sources")
            };
            d.append("/");
            d.append(target.name.as_str());
            d
        },
    };
    assert(dir@ == target_dir(target@));
    let mut prefix = trim_end_slashes_text(dir.as_str());
    prefix.append("/");
    let ghost fs = files_view(files@);
    let mut out: Vec<SourceFile> = Vec::new();
    if target.sources.len() > 0 {
        let ghost srcs = strings_view(target.sources@);
        let mut k: usize = 0;
        assert(srcs.skip(0) =~= srcs);
        assert(files_view(out@) =~= Seq::<(Seq<char>, Seq<char>)>::empty());
        while k < target.sources.len()
            invariant
                k <= target.sources@.len(),
                srcs == strings_view(target.sources@),
                fs == files_view(files@),
                prefix@ == dir_prefix(target@),
                listed_files(fs, prefix@, target@.name, srcs) == match listed_files(fs, prefix@, target@.name, srcs.skip(k as int)) {
                    Err(e) => Err(e),
                    Ok(rest) => Ok(files_view(out@) + rest),
                },
            decreases target.sources@.len() - k,
        {
            assert(srcs.skip(k as int)[0] == target.sources@[k as int]@);
            assert(srcs.skip(k as int).drop_first() =~= srcs.skip(k as int + 1));
            let rel = trim_start_slashes_text(target.sources[k].as_str());
            let mut full = prefix.clone();
            full.append(rel.as_str());
            match find_file(files, full.as_str()) {
                Some(f) => {
                    let ghost before = files_view(out@);
                    out.push(f.copy());
                    assert(files_view(out@) =~= before.push(f@));
                    proof {
                        match listed_files(fs, prefix@, target@.name, srcs.skip(k as int + 1)) {
                            Ok(rest) => {
                                assert(before + (seq![f@] + rest) =~= files_view(out@) + rest);
                            },
                            Err(_) => {},
                        }
                    }
                },
                None => {
                    return Err(ProjectError::MissingSourceFile { target: target.name.clone(), path: full });
                },
            }
            k += 1;
        }
        assert(srcs.skip(k as int).len() == 0);
        assert(files_view(out@) + Seq::<(Seq<char>, Seq<char>)>::empty() =~= files_view(out@));
    } else {
        let mut i: usize = 0;
        assert(files_view(files@.take(0)) =~= Seq::<(Seq<char>, Seq<char>)>::empty());
        while i < files.len()
            invariant
                i <= files@.len(),
                fs == files_view(files@),
                prefix@ == dir_prefix(target@),
                files_view(out@) == scanned_files(files_view(files@.take(i as int)), prefix@, strings_view(target.exclude@)),
            decreases files@.len() - i,
        {
            proof {
                assert(files_view(files@.take(i as int + 1)).drop_last() =~= files_view(files@.take(i as int)));
                assert(files_view(files@.take(i as int + 1)).last() == files@[i as int]@);
            }
            let p = files[i].path.as_str();
            if starts_with(p, prefix.as_str()) && ends_with(p, ".swift") && !is_excluded(p, prefix.as_str(), &target.exclude) {
                let ghost before = files_view(out@);
                out.push(files[i].copy());
                assert(files_view(out@) =~= before.push(files@[i as int]@));
            }
            i += 1;
        }
        assert(files@.take(files@.len() as int) =~= files@);
    }
    if out.len() == 0 {
        return Err(ProjectError::NoSourceFiles { target: target.name.clone(), dir });
    }
    Ok(out)
}

/// The plain value of an optional name.
pub open spec fn opt_str(o: Option<&str>) -> Option<Seq<char>> {
    match o {
        Some(s) => Some(s@),
        None => None,
    }
}

/// The plain value of a program result.
pub open spec fn program_view(r: Result<Vec<SourceFile>, ProjectError>) -> Result<Seq<(Seq<char>, Seq<char>)>, ProjectErrorView> {
    match r {
        Ok(v) => Ok(files_view(v@)),
        Err(e) => Err(e@),
    }
}

/// The index of the target a request selects: the named one, else the
/// first executable target.
pub open spec fn chosen_target(m: ManifestView, target: Option<Seq<char>>) -> Result<int, ProjectErrorView> {
    match target {
        Some(n) => match target_index(m.targets, n) {
            Some(i) => Ok(i),
            None => Err(ProjectErrorView::TargetNotFound(n)),
        },
        None => match first_executable_index(m.targets) {
            Some(i) => Ok(i),
            None => Err(ProjectErrorView::NoExecutableTarget),
        },
    }
}

/// The program for one runnable target of manifest `m`: the selected
/// target must not be an `Other` kind; its source files, sorted by path.
pub open spec fn manifest_program(fs: Seq<(Seq<char>, Seq<char>)>, m: ManifestView, target: Option<Seq<char>>) -> Result<
    Seq<(Seq<char>, Seq<char>)>,
    ProjectErrorView,
> {
    match chosen_target(m, target) {
        Err(e) => Err(e),
        Ok(i) => match m.targets[i].kind {
            TargetKindView::Other(c) => Err(ProjectErrorView::UnsupportedTargetKind { name: m.targets[i].name, ctor: c }),
            _ => match target_files(fs, m.targets[i]) {
                Err(e) => Err(e),
                Ok(v) => Ok(sort_by_path(v)),
            },
        },
    }
}

/// Flat-directory mode: every `.swift` file, sorted by path.
pub open spec fn flat_program(fs: Seq<(Seq<char>, Seq<char>)>) -> Result<Seq<(Seq<char>, Seq<char>)>, ProjectErrorView> {
    let v = swift_files(fs);
    if v.len() == 0 {
        Err(ProjectErrorView::NoSwiftFiles)
    } else {
        Ok(sort_by_path(v))
    }
}

/// A found executable index is in range.
proof fn lemma_first_executable_in_range(ts: Seq<TargetView>)
    ensures
        first_executable_index(ts) matches Some(i) ==> 0 <= i < ts.len() && ts[i].kind is Executable,
    decreases ts.len(),
{
    if ts.len() > 0 {
        lemma_first_executable_in_range(ts.drop_first());
    }
}

/// The program input for one runnable target of `manifest`: the target
/// `target` names, or (when `None`) the first `.executableTarget`; its
/// source files sorted by path.
pub fn program_for_manifest(files: &[SourceFile], manifest: &PackageManifest, target: Option<&str>) -> (r: Result<Vec<SourceFile>, ProjectError>)
    ensures
        program_view(r) == manifest_program(files_view(files@), manifest@, opt_str(target)),
{
    proof {
        lemma_first_executable_in_range(manifest@.targets);
        match target {
            Some(n) => lemma_target_index_in_range(manifest@.targets, n@),
            None => {},
        }
    }
    let chosen = match target {
        Some(name) => match manifest.target(name) {
            Some(t) => t,
            None => {
                return Err(ProjectError::TargetNotFound(String::from_str(name)));
            },
        },
        None => match manifest.first_executable() {
            Some(t) => t,
            None => {
                return Err(ProjectError::NoExecutableTarget);
            },
        },
    };
    match &chosen.kind {
        TargetKind::Other(c) => {
            return Err(ProjectError::UnsupportedTargetKind { name: chosen.name.clone(), ctor: c.clone() });
        },
        _ => {},
    }
    let own = target_source_files(files, chosen)?;
    Ok(sort_files(&own))
}

/// Derive the ordered [`SourceFile`] program input for one executable
/// target out of a project's full file listing (every file under the
/// project root, paths relative to it).
///
/// With a root `Package.swift`, the manifest drives target selection (see
/// [`program_for_manifest`]). Without one, this is flat-directory mode:
/// every `.swift` file, sorted by path.
pub fn load_program(files: &[SourceFile], target: Option<&str>) -> (r: Result<Vec<SourceFile>, ProjectError>)
    ensures
        file_index(files_view(files@), "Package.swift"@) is None ==> program_view(r) == flat_program(files_view(files@)),
        file_index(files_view(files@), "Package.swift"@) matches Some(i) ==> {
            &&& !files_view(files@)[i].1.contains('\0') ==> exists|a: Analysis|
                crate::syntax::analysis_of(a, files_view(files@)[i].1) && program_view(r) == #[trigger] manifest_load(
                    files_view(files@),
                    manifest_in(a),
                    opt_str(target),
                )
            &&& files_view(files@)[i].1.contains('\0') ==> (r matches Err(e) && e@ == ProjectErrorView::Manifest(
                ManifestErrorView::SyntaxError("source contained an interior NUL byte"@),
            ))
            &&& blank_manifest(files_view(files@)[i].1) ==> (r matches Err(e) && e@ == ProjectErrorView::Manifest(
                ManifestErrorView::NotAManifest,
            ))
        },
{
    match find_file(files, "Package.swift") {
        Some(manifest_file) => {
            let parsed = parse_manifest(manifest_file.source.as_str());
            let ghost pr = manifest_result(parsed);
            let r = match parsed {
                Err(e) => Err(ProjectError::Manifest(e)),
                Ok(m) => program_for_manifest(files, &m, target),
            };
            proof {
                let fs = files_view(files@);
                let src = manifest_file@.1;
                if !src.contains('\0') {
                    let a = choose|a: Analysis| crate::syntax::analysis_of(a, src) && #[trigger] manifest_in(a) == pr;
                    assert(program_view(r) == manifest_load(fs, manifest_in(a), opt_str(target)));
                }
            }
            r
        },
        None => {
            let out = swift_file_copies(files);
            if out.len() == 0 {
                return Err(ProjectError::NoSwiftFiles);
            }
            Ok(sort_files(&out))
        },
    }
}

// --------------------------------------------------- local dependencies

/// A dependency name `d` of the closure is accounted for: it is the root's
/// own name, or it names no target, or its target is in `deps`.
pub open spec fn covered(ts: Seq<TargetView>, root: int, deps: Seq<usize>, d: Seq<char>) -> bool {
    d == ts[root].name || (target_index(ts, d) matches Some(i) ==> deps.contains(i as usize))
}

/// `deps[k]` is the target some dependency name resolves to, where the name
/// is one of the root's dependencies or of an earlier element's.
pub open spec fn justified(ts: Seq<TargetView>, root: int, deps: Seq<usize>, k: int) -> bool {
    exists|d: Seq<char>|
        #[trigger] target_index(ts, d) == Some(deps[k] as int) && (ts[root].dependencies.contains(d)
            || exists|j: int| 0 <= j < k && ts[deps[j] as int].dependencies.contains(d))
}

/// `deps` is the transitive local dependency set of target `root`, each
/// target once, in discovery order: every element is justified by the root
/// or an earlier element, none is (by name) the root, and every dependency
/// of the root and of each element is covered.
pub open spec fn dep_closure(ts: Seq<TargetView>, root: int, deps: Seq<usize>) -> bool {
    &&& deps.no_duplicates()
    &&& forall|k: int|
        0 <= k < deps.len() ==> (#[trigger] deps[k] as int) < ts.len() && ts[deps[k] as int].name != ts[root].name
    &&& forall|k: int| 0 <= k < deps.len() ==> #[trigger] justified(ts, root, deps, k)
    &&& forall|d: Seq<char>| #[trigger] ts[root].dependencies.contains(d) ==> covered(ts, root, deps, d)
    &&& forall|k: int, d: Seq<char>|
        0 <= k < deps.len() && #[trigger] ts[deps[k] as int].dependencies.contains(d) ==> covered(ts, root, deps, d)
}

/// Distinct indices below `t` that leave out `i` number fewer than `t`.
proof fn lemma_room_for_one_more(s: Seq<usize>, t: int, i: usize)
    requires
        s.no_duplicates(),
        forall|k: int| 0 <= k < s.len() ==> (#[trigger] s[k] as int) < t,
        (i as int) < t,
        !s.contains(i),
    ensures
        s.len() < t,
{
    let m = s.map_values(|x: usize| x as int);
    assert(m.no_duplicates()) by {
        assert forall|a: int, b: int| 0 <= a < m.len() && 0 <= b < m.len() && a != b implies m[a] != m[b] by {
            assert(s[a] != s[b]);
        }
    }
    m.unique_seq_to_set();
    lemma_int_range(0, t);
    let u = set_int_range(0, t).remove(i as int);
    assert(m.to_set().subset_of(u)) by {
        assert forall|x: int| m.to_set().contains(x) implies u.contains(x) by {
            assert(m.contains(x));
            let k = choose|k: int| 0 <= k < m.len() && m[k] == x;
            assert(s[k] as int == x);
            if x == i as int {
                assert(s.contains(i));
            }
        }
    }
    lemma_len_subset(m.to_set(), u);
}

/// Whether `v` holds `s`.
fn holds_str(v: &Vec<String>, s: &str) -> (r: bool)
    ensures
        r == strings_view(v@).contains(s@),
{
    let mut k: usize = 0;
    while k < v.len()
        invariant
            k <= v@.len(),
            forall|j: int| 0 <= j < k ==> strings_view(v@)[j] != s@,
        decreases v@.len() - k,
    {
        if str_same(v[k].as_str(), s) {
            assert(strings_view(v@)[k as int] == s@);
            return true;
        }
        k += 1;
    }
    false
}

/// The index of the first target named `name`.
fn target_position(ts: &Vec<PackageTarget>, name: &str) -> (r: Option<usize>)
    ensures
        match r {
            Some(i) => target_index(targets_view(ts@), name@) == Some(i as int),
            None => target_index(targets_view(ts@), name@) is None,
        },
{
    let ghost tv = targets_view(ts@);
    let mut k: usize = 0;
    assert(tv.skip(0) =~= tv);
    while k < ts.len()
        invariant
            tv == targets_view(ts@),
            k <= ts@.len(),
            target_index(tv, name@) == match target_index(tv.skip(k as int), name@) {
                Some(i) => Some(i + k),
                None => None,
            },
        decreases ts@.len() - k,
    {
        assert(tv.skip(k as int)[0] == ts@[k as int]@);
        assert(tv.skip(k as int).drop_first() =~= tv.skip(k as int + 1));
        if str_same(ts[k].name.as_str(), name) {
            return Some(k);
        }
        k += 1;
    }
    assert(tv.skip(k as int).len() == 0);
    None
}

/// Every target `root` transitively depends on (breadth-first over
/// `dependencies:`, `root` itself excluded), as indices in discovery order.
/// A name with no matching target is skipped; each target is reached at
/// most once, so a dependency cycle still terminates.
#[verifier::rlimit(50)]
fn transitive_dependencies(manifest: &PackageManifest, root: usize) -> (r: Vec<usize>)
    requires
        root < manifest.targets@.len(),
    ensures
        dep_closure(manifest@.targets, root as int, r@),
{
    let ghost ts = manifest@.targets;
    let ghost rd = ts[root as int].dependencies;
    let ghost t = ts.len() as int;
    let n_targets = manifest.targets.len();
    let root_t = &manifest.targets[root];
    let mut visited: Vec<String> = Vec::new();
    visited.push(root_t.name.clone());
    let mut queue: Vec<String> = Vec::new();
    let mut q0: usize = 0;
    while q0 < root_t.dependencies.len()
        invariant
            q0 <= root_t.dependencies@.len(),
            strings_view(queue@) == strings_view(root_t.dependencies@).take(q0 as int),
        decreases root_t.dependencies@.len() - q0,
    {
        let ghost before = strings_view(queue@);
        let x = root_t.dependencies[q0].clone();
        queue.push(x);
        assert(strings_view(queue@) =~= before.push(x@));
        assert(strings_view(root_t.dependencies@).take(q0 + 1) =~= strings_view(root_t.dependencies@).take(
            q0 as int,
        ).push(root_t.dependencies@[q0 as int]@));
        q0 += 1;
    }
    assert(strings_view(root_t.dependencies@).take(q0 as int) =~= rd);
    let mut out: Vec<usize> = Vec::new();
    let mut head: usize = 0;
    assert(strings_view(visited@) =~= seq![ts[root as int].name]);
    while head < queue.len()
        invariant
            ts == manifest@.targets,
            t == ts.len(),
            root < ts.len(),
            rd == ts[root as int].dependencies,
            strings_view(visited@).len() >= 1,
            strings_view(visited@)[0] == ts[root as int].name,
            head <= queue@.len(),
            forall|p: int| 0 <= p < head ==> strings_view(visited@).contains(#[trigger] strings_view(queue@)[p]),
            forall|k: int|
                1 <= k < strings_view(visited@).len() ==> (target_index(ts, #[trigger] strings_view(visited@)[k]) matches Some(i)
                    ==> out@.contains(i as usize)),
            forall|d: Seq<char>| rd.contains(d) ==> #[trigger] strings_view(queue@).contains(d),
            forall|k: int, d: Seq<char>|
                0 <= k < out@.len() && #[trigger] ts[out@[k] as int].dependencies.contains(d) ==> strings_view(queue@).contains(d),
            forall|p: int|
                0 <= p < queue@.len() ==> rd.contains(#[trigger] strings_view(queue@)[p]) || exists|j: int|
                    0 <= j < out@.len() && ts[out@[j] as int].dependencies.contains(strings_view(queue@)[p]),
            out@.no_duplicates(),
            forall|k: int|
                0 <= k < out@.len() ==> (#[trigger] out@[k] as int) < t && ts[out@[k] as int].name != ts[root as int].name
                    && strings_view(visited@).contains(ts[out@[k] as int].name),
            forall|k: int| 0 <= k < out@.len() ==> #[trigger] justified(ts, root as int, out@, k),
        decreases t - out@.len(), queue@.len() - head,
    {
        let name = queue[head].clone();
        let ghost qv = strings_view(queue@);
        let ghost vv = strings_view(visited@);
        assert(name@ == qv[head as int]);
        if holds_str(&visited, name.as_str()) {
            head += 1;
        } else {
            visited.push(name.clone());
            let ghost vv2 = strings_view(visited@);
            assert(vv2 =~= vv.push(name@));
            assert(vv2.contains(name@)) by {
                assert(vv2[vv.len() as int] == name@);
            }
            assert forall|p: int| 0 <= p < head + 1 implies vv2.contains(#[trigger] qv[p]) by {
                if p < head {
                    assert(vv.contains(qv[p]));
                    let w = choose|w: int| 0 <= w < vv.len() && vv[w] == qv[p];
                    assert(vv2[w] == qv[p]);
                }
            }
            match target_position(&manifest.targets, name.as_str()) {
                Some(i) => {
                    proof {
                        lemma_target_index_in_range(ts, name@);
                        assert(ts[i as int].name == name@);
                        if out@.contains(i) {
                            let k = choose|k: int| 0 <= k < out@.len() && out@[k] == i;
                            assert(vv.contains(ts[out@[k] as int].name));
                        }
                        lemma_room_for_one_more(out@, t, i);
                        assert(rd.contains(qv[head as int]) || exists|j: int|
                            0 <= j < out@.len() && ts[out@[j] as int].dependencies.contains(qv[head as int]));
                    }
                    let ghost old_out = out@;
                    out.push(i);
                    assert(out@ == old_out.push(i));
                    assert(out@.no_duplicates()) by {
                        assert forall|a: int, b: int| 0 <= a < out@.len() && 0 <= b < out@.len() && a != b implies out@[a] != out@[b] by {
                            if a < old_out.len() && b < old_out.len() {
                                assert(old_out[a] != old_out[b]);
                            } else if a < old_out.len() {
                                assert(old_out.contains(old_out[a]));
                            } else {
                                assert(old_out.contains(old_out[b]));
                            }
                        }
                    }
                    assert forall|k: int| 0 <= k < out@.len() implies #[trigger] justified(ts, root as int, out@, k) by {
                        if k < old_out.len() {
                            assert(justified(ts, root as int, old_out, k));
                            let d = choose|d: Seq<char>|
                                #[trigger] target_index(ts, d) == Some(old_out[k] as int) && (rd.contains(d)
                                    || exists|j: int| 0 <= j < k && ts[old_out[j] as int].dependencies.contains(d));
                            assert(target_index(ts, d) == Some(out@[k] as int));
                            if !rd.contains(d) {
                                let j = choose|j: int| 0 <= j < k && ts[old_out[j] as int].dependencies.contains(d);
                                assert(out@[j] == old_out[j]);
                            }
                        } else {
                            assert(target_index(ts, name@) == Some(out@[k] as int));
                            if !rd.contains(name@) {
                                let j = choose|j: int| 0 <= j < old_out.len() && ts[old_out[j] as int].dependencies.contains(qv[head as int]);
                                assert(out@[j] == old_out[j]);
                            }
                        }
                    }
                    let deps = &manifest.targets[i].dependencies;
                    assert(strings_view(deps@) == ts[i as int].dependencies);
                    let mut q: usize = 0;
                    while q < deps.len()
                        invariant
                            q <= deps@.len(),
                            qv.len() <= queue@.len(),
                            strings_view(queue@) == qv + strings_view(deps@).take(q as int),
                        decreases deps@.len() - q,
                    {
                        let ghost before = strings_view(queue@);
                        let x = deps[q].clone();
                        queue.push(x);
                        assert(strings_view(queue@) =~= before.push(x@));
                        assert(strings_view(deps@).take(q + 1) =~= strings_view(deps@).take(q as int).push(
                            deps@[q as int]@,
                        ));
                        assert(strings_view(queue@) =~= qv + strings_view(deps@).take(q + 1));
                        q += 1;
                    }
                    let ghost qv2 = strings_view(queue@);
                    assert(strings_view(deps@).take(q as int) =~= strings_view(deps@));
                    assert(qv2 == qv + ts[i as int].dependencies);
                    assert forall|x: int| 0 <= x < qv.len() implies qv2[x] == qv[x] by {}
                    assert forall|d: Seq<char>| qv.contains(d) implies qv2.contains(d) by {
                        let w = choose|w: int| 0 <= w < qv.len() && qv[w] == d;
                        assert(qv2[w] == d);
                    }
                    assert forall|d: Seq<char>| ts[i as int].dependencies.contains(d) implies qv2.contains(d) by {
                        let w = choose|w: int| 0 <= w < ts[i as int].dependencies.len() && ts[i as int].dependencies[w] == d;
                        assert(qv2[qv.len() + w] == d);
                    }
                    assert forall|p: int| 0 <= p < qv2.len() implies rd.contains(#[trigger] qv2[p]) || exists|j: int|
                        0 <= j < out@.len() && ts[out@[j] as int].dependencies.contains(qv2[p]) by {
                        if p < qv.len() {
                            assert(qv2[p] == qv[p]);
                            if !rd.contains(qv[p]) {
                                let j = choose|j: int| 0 <= j < old_out.len() && ts[old_out[j] as int].dependencies.contains(qv[p]);
                                assert(out@[j] == old_out[j]);
                            }
                        } else {
                            let w = p - qv.len();
                            assert(qv2[p] == ts[i as int].dependencies[w]);
                            assert(ts[out@[old_out.len() as int] as int].dependencies.contains(qv2[p]));
                        }
                    }
                    assert forall|k: int, d: Seq<char>|
                        0 <= k < out@.len() && #[trigger] ts[out@[k] as int].dependencies.contains(d) implies qv2.contains(d) by {
                        if k < old_out.len() {
                            assert(out@[k] == old_out[k]);
                            assert(qv.contains(d));
                        }
                    }
                    assert forall|k: int|
                        1 <= k < vv2.len() implies (target_index(ts, #[trigger] vv2[k]) matches Some(x) ==> out@.contains(x as usize)) by {
                        if k < vv.len() {
                            assert(vv2[k] == vv[k]);
                            match target_index(ts, vv[k]) {
                                Some(x) => {
                                    assert(old_out.contains(x as usize));
                                    let w = choose|w: int| 0 <= w < old_out.len() && old_out[w] == x as usize;
                                    assert(out@[w] == x as usize);
                                },
                                None => {},
                            }
                        } else {
                            assert(vv2[k] == name@);
                            assert(out@[old_out.len() as int] == i);
                        }
                    }
                    assert forall|k: int|
                        0 <= k < out@.len() implies (#[trigger] out@[k] as int) < t && ts[out@[k] as int].name != ts[root as int].name
                            && vv2.contains(ts[out@[k] as int].name) by {
                        if k < old_out.len() {
                            assert(out@[k] == old_out[k]);
                            let w = choose|w: int| 0 <= w < vv.len() && vv[w] == ts[old_out[k] as int].name;
                            assert(vv2[w] == vv[w]);
                        } else {
                            if name@ == ts[root as int].name {
                                assert(vv[0] == name@);
                            }
                        }
                    }
                },
                None => {
                    assert forall|k: int|
                        1 <= k < vv2.len() implies (target_index(ts, #[trigger] vv2[k]) matches Some(x) ==> out@.contains(x as usize)) by {
                        if k < vv.len() {
                            assert(vv2[k] == vv[k]);
                        }
                    }
                    assert forall|k: int|
                        0 <= k < out@.len() implies (#[trigger] out@[k] as int) < t && ts[out@[k] as int].name != ts[root as int].name
                            && vv2.contains(ts[out@[k] as int].name) by {
                        let w = choose|w: int| 0 <= w < vv.len() && vv[w] == ts[out@[k] as int].name;
                        assert(vv2[w] == vv[w]);
                    }
                },
            }
            head += 1;
        }
    }
    proof {
        let qv = strings_view(queue@);
        let vv = strings_view(visited@);
        assert forall|d: Seq<char>| qv.contains(d) implies covered(ts, root as int, out@, d) by {
            let p = choose|p: int| 0 <= p < qv.len() && qv[p] == d;
            assert(vv.contains(qv[p]));
            let w = choose|w: int| 0 <= w < vv.len() && vv[w] == d;
            if w > 0 {
                assert(target_index(ts, vv[w]) matches Some(x) ==> out@.contains(x as usize));
            }
        }
        assert forall|d: Seq<char>| #[trigger] rd.contains(d) implies covered(ts, root as int, out@, d) by {
            assert(qv.contains(d));
        }
        assert forall|k: int, d: Seq<char>|
            0 <= k < out@.len() && #[trigger] ts[out@[k] as int].dependencies.contains(d) implies covered(
            ts,
            root as int,
            out@,
            d,
        ) by {
            assert(qv.contains(d));
        }
    }
    out
}

// ---------------------------------------------------------- test programs

/// One test target's program input: its own sources plus every local
/// dependency target's sources, as one compilation unit, de-duplicated by
/// path and sorted.
#[derive(Debug, Clone)]
pub struct TestProgram {
    /// The `.testTarget`'s name.
    pub target: String,
    pub files: Vec<SourceFile>,
}

/// Whether a target kind is `.testTarget`.
pub open spec fn is_test_kind(k: TargetKindView) -> bool {
    k == TargetKindView::Other("testTarget"@)
}

/// The constructor name of a target kind.
pub open spec fn ctor_of(k: TargetKindView) -> Seq<char> {
    match k {
        TargetKindView::Executable => "executableTarget"@,
        TargetKindView::Library => "target"@,
        TargetKindView::Other(c) => c,
    }
}

/// The indices of the test targets among `ts`, in order.
pub open spec fn test_indices(ts: Seq<TargetView>) -> Seq<int>
    decreases ts.len(),
{
    if ts.len() == 0 {
        Seq::empty()
    } else if is_test_kind(ts.last().kind) {
        test_indices(ts.drop_last()).push(ts.len() - 1)
    } else {
        test_indices(ts.drop_last())
    }
}

/// The test targets a request selects: exactly the named one, which must be
/// a test target; else every test target, of which there must be one.
pub open spec fn chosen_tests(m: ManifestView, target: Option<Seq<char>>) -> Result<Seq<int>, ProjectErrorView> {
    match target {
        Some(n) => match target_index(m.targets, n) {
            None => Err(ProjectErrorView::TargetNotFound(n)),
            Some(i) => if is_test_kind(m.targets[i].kind) {
                Ok(seq![i])
            } else {
                Err(ProjectErrorView::UnsupportedTargetKind { name: m.targets[i].name, ctor: ctor_of(m.targets[i].kind) })
            },
        },
        None => if test_indices(m.targets).len() == 0 {
            Err(ProjectErrorView::NoExecutableTarget)
        } else {
            Ok(test_indices(m.targets))
        },
    }
}

/// The source files of the targets `deps`, concatenated in order, or the
/// first error.
pub open spec fn deps_files(fs: Seq<(Seq<char>, Seq<char>)>, ts: Seq<TargetView>, deps: Seq<usize>) -> Result<
    Seq<(Seq<char>, Seq<char>)>,
    ProjectErrorView,
>
    decreases deps.len(),
{
    if deps.len() == 0 {
        Ok(Seq::empty())
    } else {
        match target_files(fs, ts[deps[0] as int]) {
            Err(e) => Err(e),
            Ok(v) => match deps_files(fs, ts, deps.drop_first()) {
                Err(e) => Err(e),
                Ok(w) => Ok(v + w),
            },
        }
    }
}

/// The unit of test target `i` with dependency list `deps`: its own files,
/// then its dependencies' files, sorted by path and de-duplicated.
pub open spec fn test_unit(fs: Seq<(Seq<char>, Seq<char>)>, ts: Seq<TargetView>, i: int, deps: Seq<usize>) -> Result<
    Seq<(Seq<char>, Seq<char>)>,
    ProjectErrorView,
> {
    match target_files(fs, ts[i]) {
        Err(e) => Err(e),
        Ok(own) => match deps_files(fs, ts, deps) {
            Err(e) => Err(e),
            Ok(more) => Ok(dedup_by_path(sort_by_path(own + more))),
        },
    }
}

/// Test target `i`'s unit, over its transitive dependencies, is `u`.
pub open spec fn unit_is(fs: Seq<(Seq<char>, Seq<char>)>, ts: Seq<TargetView>, i: int, u: Result<Seq<(Seq<char>, Seq<char>)>, ProjectErrorView>) -> bool {
    exists|deps: Seq<usize>| dep_closure(ts, i, deps) && #[trigger] test_unit(fs, ts, i, deps) == u
}

/// The test indices are in range and name test targets.
proof fn lemma_test_indices(ts: Seq<TargetView>)
    ensures
        forall|k: int|
            0 <= k < test_indices(ts).len() ==> 0 <= #[trigger] test_indices(ts)[k] < ts.len()
                && is_test_kind(ts[test_indices(ts)[k]].kind),
    decreases ts.len(),
{
    if ts.len() > 0 {
        lemma_test_indices(ts.drop_last());
        let t = ts.drop_last();
        assert forall|k: int|
            0 <= k < test_indices(ts).len() implies 0 <= #[trigger] test_indices(ts)[k] < ts.len()
                && is_test_kind(ts[test_indices(ts)[k]].kind) by {
            if k < test_indices(t).len() {
                assert(test_indices(ts)[k] == test_indices(t)[k]);
                assert(t[test_indices(t)[k]] == ts[test_indices(t)[k]]);
            }
        }
    }
}

/// Whether a target kind is `.testTarget`.
fn kind_is_test(k: &TargetKind) -> (r: bool)
    ensures
        r == is_test_kind(k@),
{
    proof {
        reveal_strlit("testTarget");
    }
    match k {
        TargetKind::Other(c) => str_same(c.as_str(), "testTarget"),
        _ => false,
    }
}

/// The selected test targets' indices.
fn choose_tests(manifest: &PackageManifest, target: Option<&str>) -> (r: Result<Vec<usize>, ProjectError>)
    ensures
        match r {
            Ok(v) => chosen_tests(manifest@, opt_str(target)) == Ok::<Seq<int>, ProjectErrorView>(v@.map_values(|x: usize| x as int)),
            Err(e) => chosen_tests(manifest@, opt_str(target)) == Err::<Seq<int>, ProjectErrorView>(e@),
        },
{
    let ghost ts = manifest@.targets;
    let n = manifest.targets.len();
    match target {
        Some(name) => {
            proof {
                lemma_target_index_in_range(ts, name@);
            }
            match target_position(&manifest.targets, name) {
                None => Err(ProjectError::TargetNotFound(String::from_str(name))),
                Some(i) => {
                    assert(ts[i as int] == manifest.targets@[i as int]@);
                    let t = &manifest.targets[i];
                    if kind_is_test(&t.kind) {
                        let v = vec![i];
                        assert(v@.map_values(|x: usize| x as int) =~= seq![i as int]);
                        Ok(v)
                    } else {
                        let ctor = match &t.kind {
                            TargetKind::Executable => String::from_str("executableTarget"),
                            TargetKind::Library => String::from_str("target"),
                            TargetKind::Other(c) => c.clone(),
                        };
                        Err(ProjectError::UnsupportedTargetKind { name: t.name.clone(), ctor })
                    }
                },
            }
        },
        None => {
            let mut v: Vec<usize> = Vec::new();
            let mut k: usize = 0;
            assert(ts.take(0) =~= Seq::<TargetView>::empty());
            assert(v@.map_values(|x: usize| x as int) =~= Seq::<int>::empty());
            while k < n
                invariant
                    n == manifest.targets@.len(),
                    ts == manifest@.targets,
                    k <= n,
                    v@.map_values(|x: usize| x as int) == test_indices(ts.take(k as int)),
                decreases n - k,
            {
                assert(ts.take(k as int + 1).drop_last() =~= ts.take(k as int));
                assert(ts.take(k as int + 1).last() == ts[k as int]);
                assert(ts[k as int] == manifest.targets@[k as int]@);
                if kind_is_test(&manifest.targets[k].kind) {
                    let ghost before = v@.map_values(|x: usize| x as int);
                    v.push(k);
                    assert(v@.map_values(|x: usize| x as int) =~= before.push(k as int));
                }
                k += 1;
            }
            assert(ts.take(n as int) =~= ts);
            if v.len() == 0 {
                return Err(ProjectError::NoExecutableTarget);
            }
            Ok(v)
        },
    }
}

/// Append copies of every file of `more` to `unit`.
fn extend_files(unit: &mut Vec<SourceFile>, more: &Vec<SourceFile>)
    ensures
        files_view(final(unit)@) == files_view(old(unit)@) + files_view(more@),
{
    let mut k: usize = 0;
    while k < more.len()
        invariant
            k <= more@.len(),
            files_view(unit@) == files_view(old(unit)@) + files_view(more@.take(k as int)),
        decreases more@.len() - k,
    {
        let ghost before = files_view(unit@);
        unit.push(more[k].copy());
        assert(files_view(unit@) =~= before.push(more@[k as int]@));
        assert(files_view(more@.take(k as int + 1)) =~= files_view(more@.take(k as int)).push(more@[k as int]@));
        k += 1;
    }
    assert(more@.take(more@.len() as int) =~= more@);
}

/// The unit of test target `i`: its own files plus its transitive local
/// dependencies' files, sorted by path and de-duplicated.
fn build_test_unit(files: &[SourceFile], manifest: &PackageManifest, i: usize) -> (r: Result<Vec<SourceFile>, ProjectError>)
    requires
        i < manifest.targets@.len(),
    ensures
        unit_is(files_view(files@), manifest@.targets, i as int, program_view(r)),
{
    let ghost fs = files_view(files@);
    let ghost ts = manifest@.targets;
    let deps = transitive_dependencies(manifest, i);
    assert(ts[i as int] == manifest.targets@[i as int]@);
    let mut unit = match target_source_files(files, &manifest.targets[i]) {
        Ok(v) => v,
        Err(e) => {
            assert(test_unit(fs, ts, i as int, deps@) == Err::<Seq<(Seq<char>, Seq<char>)>, ProjectErrorView>(e@));
            return Err(e);
        },
    };
    let ghost own = files_view(unit@);
    let mut k: usize = 0;
    assert(deps@.skip(0) =~= deps@);
    assert(own + Seq::<(Seq<char>, Seq<char>)>::empty() =~= own);
    while k < deps.len()
        invariant
            k <= deps@.len(),
            fs == files_view(files@),
            ts == manifest@.targets,
            dep_closure(ts, i as int, deps@),
            target_files(fs, ts[i as int]) == Ok::<Seq<(Seq<char>, Seq<char>)>, ProjectErrorView>(own),
            deps_files(fs, ts, deps@) == match deps_files(fs, ts, deps@.skip(k as int)) {
                Err(e) => Err(e),
                Ok(w) => Ok(files_view(unit@).skip(own.len() as int) + w),
            },
            files_view(unit@).take(own.len() as int) == own,
            own.len() <= files_view(unit@).len(),
        decreases deps@.len() - k,
    {
        let d = deps[k];
        assert((d as int) < ts.len());
        assert(deps@.skip(k as int)[0] == d);
        assert(deps@.skip(k as int).drop_first() =~= deps@.skip(k as int + 1));
        assert(ts[d as int] == manifest.targets@[d as int]@);
        let more = match target_source_files(files, &manifest.targets[d]) {
            Ok(v) => v,
            Err(e) => {
                assert(deps_files(fs, ts, deps@) == Err::<Seq<(Seq<char>, Seq<char>)>, ProjectErrorView>(e@));
                assert(test_unit(fs, ts, i as int, deps@) == Err::<Seq<(Seq<char>, Seq<char>)>, ProjectErrorView>(e@));
                return Err(e);
            },
        };
        let ghost before = files_view(unit@);
        extend_files(&mut unit, &more);
        proof {
            assert(files_view(unit@).take(own.len() as int) =~= own);
            assert(files_view(unit@).skip(own.len() as int) =~= before.skip(own.len() as int) + files_view(more@));
            match deps_files(fs, ts, deps@.skip(k as int + 1)) {
                Ok(w) => {
                    assert(before.skip(own.len() as int) + (files_view(more@) + w) =~= files_view(unit@).skip(own.len() as int) + w);
                },
                Err(_) => {},
            }
        }
        k += 1;
    }
    assert(deps@.skip(k as int).len() == 0);
    assert(files_view(unit@) =~= own + files_view(unit@).skip(own.len() as int));
    assert(files_view(unit@).skip(own.len() as int) + Seq::<(Seq<char>, Seq<char>)>::empty() =~= files_view(unit@).skip(own.len() as int));
    let sorted = sort_files(&unit);
    let out = dedup_files(sorted);
    assert(test_unit(fs, ts, i as int, deps@) == Ok::<Seq<(Seq<char>, Seq<char>)>, ProjectErrorView>(files_view(out@)));
    Ok(out)
}

/// The plain values of built test programs.
pub open spec fn programs_ok(fs: Seq<(Seq<char>, Seq<char>)>, ts: Seq<TargetView>, idx: Seq<int>, ps: Seq<TestProgram>) -> bool {
    &&& ps.len() == idx.len()
    &&& forall|k: int|
        0 <= k < ps.len() ==> #[trigger] ps[k].target@ == ts[idx[k]].name && unit_is(
            fs,
            ts,
            idx[k],
            Ok(files_view(ps[k].files@)),
        )
}

/// One [`TestProgram`] per selected `.testTarget` of `manifest` (see
/// [`load_test_program`]), or the first error met.
#[verifier::spinoff_prover]
pub fn test_programs_for_manifest(files: &[SourceFile], manifest: &PackageManifest, target: Option<&str>) -> (r: Result<Vec<TestProgram>, ProjectError>)
    ensures
        chosen_tests(manifest@, opt_str(target)) matches Err(e) ==> (r matches Err(x) && x@ == e),
        chosen_tests(manifest@, opt_str(target)) matches Ok(idx) ==> (r matches Ok(ps) ==> programs_ok(
            files_view(files@),
            manifest@.targets,
            idx,
            ps@,
        )),
        chosen_tests(manifest@, opt_str(target)) matches Ok(idx) ==> (r matches Err(x) ==> exists|k: int|
            0 <= k < idx.len() && #[trigger] unit_is(files_view(files@), manifest@.targets, idx[k], Err(x@))),
{
    let ghost fs = files_view(files@);
    let ghost ts = manifest@.targets;
    let chosen = choose_tests(manifest, target)?;
    let ghost idx = chosen@.map_values(|x: usize| x as int);
    proof {
        lemma_test_indices(ts);
        match opt_str(target) {
            Some(n) => lemma_target_index_in_range(ts, n),
            None => {},
        }
    }
    let mut out: Vec<TestProgram> = Vec::new();
    let mut k: usize = 0;
    while k < chosen.len()
        invariant
            k <= chosen@.len(),
            fs == files_view(files@),
            ts == manifest@.targets,
            idx == chosen@.map_values(|x: usize| x as int),
            chosen_tests(manifest@, opt_str(target)) == Ok::<Seq<int>, ProjectErrorView>(idx),
            forall|j: int| 0 <= j < idx.len() ==> 0 <= #[trigger] idx[j] < ts.len(),
            programs_ok(fs, ts, idx.take(k as int), out@),
        decreases chosen@.len() - k,
    {
        let i = chosen[k];
        assert(idx[k as int] == i as int);
        let unit = match build_test_unit(files, manifest, i) {
            Ok(u) => u,
            Err(e) => {
                assert(unit_is(fs, ts, idx[k as int], Err(e@)));
                assert(k < idx.len());
                assert(exists|kk: int| 0 <= kk < idx.len() && #[trigger] unit_is(files_view(files@), manifest@.targets, idx[kk], Err(e@)));
                assert(chosen_tests(manifest@, opt_str(target)) == Ok::<Seq<int>, ProjectErrorView>(idx));
                assert(chosen_tests(manifest@, opt_str(target))->Ok_0 == idx);
                assert(chosen_tests(manifest@, opt_str(target)) matches Ok(idx2) ==> exists|kk: int| 0 <= kk < idx2.len() && #[trigger] unit_is(files_view(files@), manifest@.targets, idx2[kk], Err(e@)));
                let r: Result<Vec<TestProgram>, ProjectError> = Err(e);
                assert(r matches Err(x) && x@ == e@);
                return r;
            },
        };
        let ghost uv = files_view(unit@);
        assert(unit_is(fs, ts, i as int, Ok(uv)));
        assert(ts[i as int] == manifest.targets@[i as int]@);
        let p = TestProgram { target: manifest.targets[i].name.clone(), files: unit };
        let ghost pv = p;
        let ghost before = out@;
        out.push(p);
        assert(out@.len() == before.len() + 1);
        assert(idx.take(k as int + 1).len() == k + 1);
        assert forall|j: int|
            0 <= j < out@.len() implies #[trigger] out@[j].target@ == ts[idx.take(k as int + 1)[j]].name && unit_is(
                fs,
                ts,
                idx.take(k as int + 1)[j],
                Ok(files_view(out@[j].files@)),
            ) by {
            if j < before.len() {
                assert(out@[j] == before[j]);
                assert(idx.take(k as int + 1)[j] == idx.take(k as int)[j]);
                assert(before[j].target@ == ts[idx.take(k as int)[j]].name);
            } else {
                assert(out@[j] == pv);
                assert(idx.take(k as int + 1)[j] == i as int);
                assert(files_view(pv.files@) == uv);
            }
        }
        k += 1;
    }
    assert(idx.take(k as int) =~= idx);
    Ok(out)
}

/// Derive one [`TestProgram`] per selected `.testTarget` out of a project's
/// full file listing (see [`load_program`] for the `files` shape).
///
/// * `target = Some(name)` selects exactly that target, which must be a
///   `.testTarget`, or [`ProjectError::UnsupportedTargetKind`].
/// * `target = None` selects every `.testTarget` the manifest declares, in
///   manifest order; declaring none is [`ProjectError::NoExecutableTarget`].
/// A project without a root `Package.swift` is [`ProjectError::NoSwiftFiles`].
pub fn load_test_program(files: &[SourceFile], target: Option<&str>) -> (r: Result<Vec<TestProgram>, ProjectError>)
    ensures
        file_index(files_view(files@), "Package.swift"@) is None ==> (r matches Err(e) && e@ == ProjectErrorView::NoSwiftFiles),
        file_index(files_view(files@), "Package.swift"@) matches Some(i) ==> (files_view(files@)[i].1.contains('\0') ==> (
        r matches Err(e) && e@ == ProjectErrorView::Manifest(
            ManifestErrorView::SyntaxError("source contained an interior NUL byte"@),
        ))),
        file_index(files_view(files@), "Package.swift"@) matches Some(i) ==> (blank_manifest(files_view(files@)[i].1)
            ==> (r matches Err(e) && e@ == ProjectErrorView::Manifest(ManifestErrorView::NotAManifest))),
        file_index(files_view(files@), "Package.swift"@) matches Some(i) ==> (!files_view(files@)[i].1.contains('\0')
            ==> exists|a: Analysis|
            crate::syntax::analysis_of(a, files_view(files@)[i].1) && test_load_fits(
                files_view(files@),
                #[trigger] manifest_in(a),
                opt_str(target),
                r,
            )),
{
    let manifest_file = match find_file(files, "Package.swift") {
        Some(f) => f,
        None => {
            return Err(ProjectError::NoSwiftFiles);
        },
    };
    let parsed = parse_manifest(manifest_file.source.as_str());
    let ghost pr = manifest_result(parsed);
    let ghost fs = files_view(files@);
    let ghost src = manifest_file@.1;
    let r = match parsed {
        Ok(manifest) => test_programs_for_manifest(files, &manifest, target),
        Err(e) => Err(ProjectError::Manifest(e)),
    };
    proof {
        if !src.contains('\0') {
            let a = choose|a: Analysis| crate::syntax::analysis_of(a, src) && #[trigger] manifest_in(a) == pr;
            assert(test_load_fits(fs, manifest_in(a), opt_str(target), r));
        }
    }
    r
}

/// Whether `r` is what loading the test targets of the manifest reading
/// `mr` over the files `fs` may give (see [`test_programs_for_manifest`]).
pub open spec fn test_load_fits(
    fs: Seq<(Seq<char>, Seq<char>)>,
    mr: Result<ManifestView, ManifestErrorView>,
    target: Option<Seq<char>>,
    r: Result<Vec<TestProgram>, ProjectError>,
) -> bool {
    match mr {
        Err(e) => r matches Err(x) && x@ == ProjectErrorView::Manifest(e),
        Ok(m) => {
            &&& chosen_tests(m, target) matches Err(e) ==> (r matches Err(x) && x@ == e)
            &&& chosen_tests(m, target) matches Ok(idx) ==> (r matches Ok(ps) ==> programs_ok(fs, m.targets, idx, ps@))
            &&& chosen_tests(m, target) matches Ok(idx) ==> (r matches Err(x) ==> exists|k: int|
                0 <= k < idx.len() && #[trigger] unit_is(fs, m.targets, idx[k], Err(x@)))
        },
    }
}

} // verus!
