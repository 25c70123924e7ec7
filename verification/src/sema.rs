//! Semantic checks over a parsed tree: the enum registry, the `switch`
//! exhaustiveness check that reads it, and the small operator and naming
//! helpers of the analysis passes.
//!
//! The exhaustiveness check is deliberately sound: it reports a switch only
//! when the subject enum is identified unambiguously from the case patterns,
//! no `default` clause or unguarded catch-all pattern is present, and some
//! case of that enum is left uncovered.
use vstd::prelude::*;
use crate::decode::strings_view;
use crate::resolve::{annotate_tree, annotated, checked, opt_annotation, parse_type_name, Type};
use crate::syntax::{first_child_of_kind, Analysis, Node, NodeKind, NodeView};
use crate::text::{decimal, push_decimal, str_same};

verus! {

/// One semantic diagnostic with its 1-based source location.
#[derive(Debug, Clone, PartialEq, Eq)]
pub struct Diagnostic {
    pub message: String,
    pub line: u32,
    pub col: u32,
}

/// The plain values of a [`Diagnostic`].
pub struct DiagnosticView {
    pub message: Seq<char>,
    pub line: u32,
    pub col: u32,
}

impl View for Diagnostic {
    type V = DiagnosticView;

    open spec fn view(&self) -> DiagnosticView {
        DiagnosticView { message: self.message@, line: self.line, col: self.col }
    }
}

/// The views of `v`.
pub open spec fn diagnostics_view(v: Seq<Diagnostic>) -> Seq<DiagnosticView> {
    v.map_values(|d: Diagnostic| d@)
}

/// The reserved prefix of synthesized result-builder bindings: `$` followed
/// by `build`. Distinct counters give distinct names; the lexer does accept
/// `$`-leading identifiers (`$0`), so a program could spell one of them.
pub const SYNTH_PREFIX: &'static str = "$build";

/// The `n`-th synthesized binding name: the reserved prefix followed by `n`
/// in decimal (`$build0`, `$build1`, ...).
pub fn fresh_name(n: usize) -> (r: String)
    ensures
        r@ == "$build"@ + decimal(n as nat),
{
    let mut s = String::from_str(SYNTH_PREFIX);
    push_decimal(&mut s, n as u64);
    s
}

/// Whether `op` is a comparison operator.
pub open spec fn comparison_op(op: Seq<char>) -> bool {
    op == "=="@ || op == "!="@ || op == "<"@ || op == ">"@ || op == "<="@ || op == ">="@ || op
        == "==="@ || op == "!=="@
}

/// Whether `op` is `==`, `!=`, `<`, `>`, `<=`, `>=`, `===` or `!==`.
pub fn is_comparison(op: &str) -> (r: bool)
    ensures
        r == comparison_op(op@),
{
    str_same(op, "==") || str_same(op, "!=") || str_same(op, "<") || str_same(op, ">") || str_same(
        op,
        "<=",
    ) || str_same(op, ">=") || str_same(op, "===") || str_same(op, "!==")
}

/// Whether `op` is `&&` or `||`.
pub fn is_logical(op: &str) -> (r: bool)
    ensures
        r == (op@ == "&&"@ || op@ == "||"@),
{
    str_same(op, "&&") || str_same(op, "||")
}

/// Whether `op` is a range operator, `..<` or `...`.
pub fn is_range(op: &str) -> (r: bool)
    ensures
        r == (op@ == "..<"@ || op@ == "..."@),
{
    str_same(op, "..<") || str_same(op, "...")
}

/// An enum's name and its case names, in declaration order.
pub struct EnumEntry {
    pub name: String,
    pub cases: Vec<String>,
}

/// The plain values of an enum registry: `(name, case names)` per enum.
pub open spec fn registry_view(v: Seq<EnumEntry>) -> Seq<(Seq<char>, Seq<Seq<char>>)> {
    v.map_values(|e: EnumEntry| (e.name@, strings_view(e.cases@)))
}

/// The index of the entry named `k` in `reg`, or -1 when there is none.
pub open spec fn find_enum(reg: Seq<(Seq<char>, Seq<Seq<char>>)>, k: Seq<char>) -> int
    decreases reg.len(),
{
    if reg.len() == 0 {
        -1
    } else if reg.last().0 == k {
        reg.len() - 1
    } else {
        find_enum(reg.drop_last(), k)
    }
}

/// `reg` with `k` bound to `cases`: an entry of that name is replaced in
/// place, a new name is appended.
pub open spec fn put_enum(reg: Seq<(Seq<char>, Seq<Seq<char>>)>, k: Seq<char>, cases: Seq<Seq<char>>) -> Seq<
    (Seq<char>, Seq<Seq<char>>),
> {
    let i = find_enum(reg, k);
    if i >= 0 {
        reg.update(i, (k, cases))
    } else {
        reg.push((k, cases))
    }
}

/// The case names declared among `kids` (children of `parent`): each
/// `EnumCaseDecl` with a name, descending into `Block` children only, so
/// that a nested type's cases are not taken for the enum's own.
pub open spec fn cases_in(nodes: Seq<NodeView>, kids: Seq<usize>, parent: int) -> Seq<Seq<char>>
    decreases parent, kids.len(),
{
    if kids.len() == 0 {
        Seq::empty()
    } else {
        let rest = cases_in(nodes, kids.drop_last(), parent);
        let c = kids.last() as int;
        if 0 <= c < parent {
            let n = nodes[c];
            if n.kind == NodeKind::EnumCaseDecl {
                match n.text {
                    Some(t) => rest.push(t),
                    None => rest,
                }
            } else if n.kind == NodeKind::Block {
                rest + cases_in(nodes, n.children, c)
            } else {
                rest
            }
        } else {
            rest
        }
    }
}

/// What a program declares, as the checks read it: each named enum with its
/// case names (a later enum of the same name replacing the earlier one in
/// place), and each named function with its declared return type (a later
/// declaration of the same name hiding the earlier one).
pub struct SymbolsView {
    pub enums: Seq<(Seq<char>, Seq<Seq<char>>)>,
    pub funcs: Seq<(Seq<char>, Type)>,
}

/// The return type a function declares: the modelled type of its first
/// `TypeRef` child, `Void` when it has none or names no modelled type.
pub open spec fn declared_return(nodes: Seq<NodeView>, kids: Seq<usize>) -> Type {
    match first_child_of_kind(nodes, kids, NodeKind::TypeRef) {
        Some(c) => match opt_annotation(nodes[c as int].text) {
            Some(t) => t,
            None => Type::Void,
        },
        None => Type::Void,
    }
}

/// `sv` after a walk over `kids` (children of `parent`) and everything below
/// them, in source order: a named `enum` with at least one case is put under
/// its name, and a named function recorded with its declared return type,
/// before the walk enters it.
pub open spec fn symbols_in(nodes: Seq<NodeView>, kids: Seq<usize>, parent: int, sv: SymbolsView) -> SymbolsView
    decreases parent, kids.len(),
{
    if kids.len() == 0 {
        sv
    } else {
        let before = symbols_in(nodes, kids.drop_last(), parent, sv);
        let c = kids.last() as int;
        if 0 <= c < parent {
            let n = nodes[c];
            let cases = cases_in(nodes, n.children, c);
            let sv1 = if n.kind == NodeKind::EnumDecl && n.text is Some && cases.len() > 0 {
                SymbolsView { enums: put_enum(before.enums, n.text->0, cases), ..before }
            } else if n.kind == NodeKind::FuncDecl && n.text is Some {
                SymbolsView { funcs: before.funcs.push((n.text->0, declared_return(nodes, n.children))), ..before }
            } else {
                before
            };
            symbols_in(nodes, n.children, c, sv1)
        } else {
            before
        }
    }
}

/// Bind `name` to `cases` in `reg` (see [`put_enum`]).
fn put_enum_entry(reg: &mut Vec<EnumEntry>, name: String, cases: Vec<String>)
    ensures
        registry_view(final(reg)@) == put_enum(registry_view(old(reg)@), name@, strings_view(cases@)),
{
    let ghost rv = registry_view(reg@);
    let mut k: usize = reg.len();
    assert(rv.take(k as int) =~= rv);
    while k > 0
        invariant
            k <= reg@.len(),
            reg@ == old(reg)@,
            rv == registry_view(reg@),
            find_enum(rv, name@) == find_enum(rv.take(k as int), name@),
        decreases k,
    {
        assert(rv.take(k as int).drop_last() =~= rv.take(k as int - 1));
        if str_same(reg[k - 1].name.as_str(), name.as_str()) {
            let ghost nv = name@;
            let ghost cv = strings_view(cases@);
            reg.set(k - 1, EnumEntry { name, cases });
            assert(registry_view(reg@) =~= put_enum(rv, nv, cv));
            return;
        }
        k -= 1;
    }
    assert(rv.take(0) =~= Seq::<(Seq<char>, Seq<Seq<char>>)>::empty());
    let ghost nv = name@;
    let ghost cv = strings_view(cases@);
    reg.push(EnumEntry { name, cases });
    assert(registry_view(reg@) =~= put_enum(rv, nv, cv));
}

/// Append the case names declared among `node`'s children (see [`cases_in`]).
fn collect_cases(node: &Node, out: &mut Vec<String>)
    requires
        node.wf(),
    ensures
        strings_view(final(out)@) == strings_view(old(out)@) + cases_in(node.tree(), node.data().children, node.id() as int),
    decreases node.id(),
{
    proof {
        node.lemma_children_below();
    }
    let kids = node.child_vec();
    let ghost ch = node.data().children;
    let ghost nodes = node.tree();
    let ghost me = node.id() as int;
    let ghost start = strings_view(out@);
    let mut j: usize = 0;
    assert(strings_view(out@) =~= start + cases_in(nodes, ch.take(0), me));
    while j < kids.len()
        invariant
            kids@.len() == ch.len(),
            j <= kids@.len(),
            ch == node.data().children,
            nodes == node.tree(),
            me == node.id() as int,
            forall|i: int| 0 <= i < ch.len() ==> (#[trigger] ch[i] as int) < me,
            forall|i: int|
                0 <= i < kids@.len() ==> #[trigger] kids@[i].wf() && kids@[i].id() == ch[i]
                    && kids@[i].tree() == nodes,
            strings_view(out@) == start + cases_in(nodes, ch.take(j as int), me),
        decreases kids@.len() - j,
    {
        let child = kids[j];
        assert(kids@[j as int].wf());
        assert(ch.take(j as int + 1).drop_last() =~= ch.take(j as int));
        assert(ch.take(j as int + 1).last() == ch[j as int]);
        assert((ch[j as int] as int) < me);
        let ghost before = strings_view(out@);
        let k = child.kind();
        if k == NodeKind::EnumCaseDecl {
            match child.text() {
                Some(t) => {
                    out.push(t);
                    assert(strings_view(out@) =~= before.push(nodes[ch[j as int] as int].text->0));
                },
                None => {},
            }
        } else if k == NodeKind::Block {
            collect_cases(&child, out);
        }
        j += 1;
        assert(strings_view(out@) =~= start + cases_in(nodes, ch.take(j as int), me));
    }
    assert(ch.take(kids@.len() as int) =~= ch);
}

/// The declared symbols of a program (see [`SymbolsView`]).
pub struct Symbols {
    pub enums: Vec<EnumEntry>,
    pub funcs: Vec<(String, Type)>,
}

impl View for Symbols {
    type V = SymbolsView;

    open spec fn view(&self) -> SymbolsView {
        SymbolsView { enums: registry_view(self.enums@), funcs: funcs_view(self.funcs@) }
    }
}

/// The plain values of a function table.
pub open spec fn funcs_view(v: Seq<(String, Type)>) -> Seq<(Seq<char>, Type)> {
    v.map_values(|e: (String, Type)| (e.0@, e.1))
}

impl<'a> Node<'a> {
    /// The return type this function declares (see [`declared_return`]).
    fn declared_return(&self) -> (r: Type)
        requires
            self.wf(),
        ensures
            r == declared_return(self.tree(), self.data().children),
    {
        match self.first_child_kind(NodeKind::TypeRef) {
            Some(c) => match c.text() {
                Some(t) => match parse_type_name(t.as_str()) {
                    Some(ty) => ty,
                    None => Type::Void,
                },
                None => Type::Void,
            },
            None => Type::Void,
        }
    }
}

impl Symbols {
    /// Every enum and function that `analysis` declares, collected in one
    /// walk of its tree (see [`symbols_in`]).
    pub fn collect(analysis: &Analysis) -> (r: Symbols)
        requires
            analysis.wf(),
        ensures
            r@ == crate::resolve::program_symbols(analysis.tree(), analysis.root_id() as int),
    {
        let mut syms = Symbols { enums: Vec::new(), funcs: Vec::new() };
        assert(syms@ =~= SymbolsView { enums: Seq::empty(), funcs: Seq::empty() }) by {
            assert(registry_view(syms.enums@) =~= Seq::<(Seq<char>, Seq<Seq<char>>)>::empty());
            assert(funcs_view(syms.funcs@) =~= Seq::<(Seq<char>, Type)>::empty());
        }
        let root = analysis.root();
        collect_symbols(&root, &mut syms);
        syms
    }
}

/// Record the enums and functions declared among `node`'s descendants in
/// `syms` (see [`symbols_in`]).
fn collect_symbols(node: &Node, syms: &mut Symbols)
    requires
        node.wf(),
    ensures
        final(syms)@ == symbols_in(node.tree(), node.data().children, node.id() as int, old(syms)@),
    decreases node.id(),
{
    proof {
        node.lemma_children_below();
    }
    let kids = node.child_vec();
    let ghost ch = node.data().children;
    let ghost nodes = node.tree();
    let ghost me = node.id() as int;
    let ghost start = syms@;
    let mut j: usize = 0;
    while j < kids.len()
        invariant
            kids@.len() == ch.len(),
            j <= kids@.len(),
            ch == node.data().children,
            nodes == node.tree(),
            me == node.id() as int,
            forall|i: int| 0 <= i < ch.len() ==> (#[trigger] ch[i] as int) < me,
            forall|i: int|
                0 <= i < kids@.len() ==> #[trigger] kids@[i].wf() && kids@[i].id() == ch[i]
                    && kids@[i].tree() == nodes,
            syms@ == symbols_in(nodes, ch.take(j as int), me, start),
        decreases kids@.len() - j,
    {
        let child = kids[j];
        assert(kids@[j as int].wf());
        assert(ch.take(j as int + 1).drop_last() =~= ch.take(j as int));
        assert(ch.take(j as int + 1).last() == ch[j as int]);
        assert((ch[j as int] as int) < me);
        let ghost before = syms@;
        let k = child.kind();
        if k == NodeKind::EnumDecl {
            match child.text() {
                Some(name) => {
                    let mut cases: Vec<String> = Vec::new();
                    collect_cases(&child, &mut cases);
                    assert(strings_view(cases@) =~= cases_in(nodes, nodes[ch[j as int] as int].children, ch[j as int] as int));
                    if cases.len() > 0 {
                        put_enum_entry(&mut syms.enums, name, cases);
                    }
                },
                None => {},
            }
        } else if k == NodeKind::FuncDecl {
            match child.text() {
                Some(name) => {
                    let ret = child.declared_return();
                    let ghost nv = name@;
                    syms.funcs.push((name, ret));
                    assert(funcs_view(syms.funcs@) =~= before.funcs.push((nv, ret)));
                },
                None => {},
            }
        }
        collect_symbols(&child, syms);
        j += 1;
    }
    assert(ch.take(kids@.len() as int) =~= ch);
}

/// Whether every pattern among `kids` (children of `parent`) matches any
/// value: a wildcard, a bound name, or a tuple of such patterns.
pub open spec fn irrefutable_all(nodes: Seq<NodeView>, kids: Seq<usize>, parent: int) -> bool
    decreases parent, kids.len(),
{
    if kids.len() == 0 {
        true
    } else {
        let c = kids.last() as int;
        irrefutable_all(nodes, kids.drop_last(), parent) && 0 <= c < parent && {
            let k = nodes[c].kind;
            k == NodeKind::PatternWildcard || k == NodeKind::PatternValueBinding || (k == NodeKind::PatternTuple
                && irrefutable_all(nodes, nodes[c].children, c))
        }
    }
}

/// What the clauses of a switch seen so far tell: the enum case names their
/// patterns mention, those matched for every payload by an unguarded
/// pattern, and whether an unguarded pattern matches everything.
pub struct ScanView {
    pub referenced: Seq<Seq<char>>,
    pub covered: Seq<Seq<char>>,
    pub catch_all: bool,
}

/// Whether some child among `kids` is a `where` guard.
pub open spec fn guarded(nodes: Seq<NodeView>, kids: Seq<usize>) -> bool {
    exists|i: int| 0 <= i < kids.len() && #[trigger] nodes[kids[i] as int].kind == NodeKind::WhereClause
}

/// `st` after the items `items` of one clause: an enum-case pattern adds its
/// name to the referenced names, and to the covered ones when the clause is
/// unguarded and the payload irrefutable; an unguarded wildcard or bound
/// name matches everything.
pub open spec fn scan_items(nodes: Seq<NodeView>, items: Seq<usize>, is_guarded: bool, st: ScanView) -> ScanView
    decreases items.len(),
{
    if items.len() == 0 {
        st
    } else {
        let s1 = scan_items(nodes, items.drop_last(), is_guarded, st);
        let c = items.last();
        let n = nodes[c as int];
        if n.kind == NodeKind::EnumCasePattern {
            match n.text {
                Some(name) => ScanView {
                    referenced: s1.referenced.push(name),
                    covered: if !is_guarded && irrefutable_all(nodes, n.children, c as int) {
                        s1.covered.push(name)
                    } else {
                        s1.covered
                    },
                    catch_all: s1.catch_all,
                },
                None => s1,
            }
        } else if (n.kind == NodeKind::PatternWildcard || n.kind == NodeKind::PatternValueBinding) && !is_guarded {
            ScanView { catch_all: true, ..s1 }
        } else {
            s1
        }
    }
}

/// The scan of the case clauses `clauses`, in order.
pub open spec fn scan_clauses(nodes: Seq<NodeView>, clauses: Seq<usize>) -> ScanView
    decreases clauses.len(),
{
    if clauses.len() == 0 {
        ScanView { referenced: Seq::empty(), covered: Seq::empty(), catch_all: false }
    } else {
        let st = scan_clauses(nodes, clauses.drop_last());
        let items = nodes[clauses.last() as int].children;
        scan_items(nodes, items, guarded(nodes, items), st)
    }
}

/// Whether one of `clauses` is a `default` clause.
pub open spec fn has_default(nodes: Seq<NodeView>, clauses: Seq<usize>) -> bool {
    exists|i: int| 0 <= i < clauses.len() && #[trigger] nodes[clauses[i] as int].text == Some("default"@)
}

/// Whether `cases` contains every name in `refs`.
pub open spec fn covers_all(cases: Seq<Seq<char>>, refs: Seq<Seq<char>>) -> bool {
    forall|i: int| 0 <= i < refs.len() ==> cases.contains(#[trigger] refs[i])
}

/// The indices of the entries of `reg` whose case lists hold every name in
/// `refs`, in order.
pub open spec fn fitting(reg: Seq<(Seq<char>, Seq<Seq<char>>)>, refs: Seq<Seq<char>>) -> Seq<int>
    decreases reg.len(),
{
    if reg.len() == 0 {
        Seq::empty()
    } else {
        let rest = fitting(reg.drop_last(), refs);
        if covers_all(reg.last().1, refs) {
            rest.push(reg.len() - 1)
        } else {
            rest
        }
    }
}

/// The names of `all` that are not in `covered`, in order.
pub open spec fn missing_cases(all: Seq<Seq<char>>, covered: Seq<Seq<char>>) -> Seq<Seq<char>>
    decreases all.len(),
{
    if all.len() == 0 {
        Seq::empty()
    } else {
        let rest = missing_cases(all.drop_last(), covered);
        if covered.contains(all.last()) {
            rest
        } else {
            rest.push(all.last())
        }
    }
}

/// The names as `'.name'`, separated by `, `.
pub open spec fn quoted_cases(names: Seq<Seq<char>>) -> Seq<char>
    decreases names.len(),
{
    if names.len() == 0 {
        Seq::empty()
    } else if names.len() == 1 {
        "'."@ + names[0] + "'"@
    } else {
        quoted_cases(names.drop_last()) + ", "@ + "'."@ + names.last() + "'"@
    }
}

/// The message of the exhaustiveness diagnostic.
pub open spec fn exhaustive_message(missing: Seq<Seq<char>>, enum_name: Seq<char>) -> Seq<char> {
    "switch must be exhaustive: add missing case(s) "@ + quoted_cases(missing) + " for enum '"@ + enum_name
        + "' or a 'default' clause"@
}

/// The diagnostic of the switch at `s`, if any: none when the switch has a
/// `default` clause or an unguarded catch-all pattern, when its patterns
/// name no enum case, when not exactly one enum of `reg` has every named
/// case, or when every case of that enum is covered; otherwise one
/// diagnostic at the switch that lists the uncovered cases.
pub open spec fn switch_diag(nodes: Seq<NodeView>, s: int, reg: Seq<(Seq<char>, Seq<Seq<char>>)>) -> Seq<DiagnosticView> {
    let n = nodes[s];
    let clauses = n.children.drop_first();
    let st = scan_clauses(nodes, clauses);
    if n.children.len() == 0 || has_default(nodes, clauses) || st.catch_all || st.referenced.len() == 0 {
        Seq::empty()
    } else {
        let fits = fitting(reg, st.referenced);
        if fits.len() != 1 {
            Seq::empty()
        } else {
            let e = reg[fits[0]];
            let miss = missing_cases(e.1, st.covered);
            if miss.len() == 0 {
                Seq::empty()
            } else {
                seq![DiagnosticView { message: exhaustive_message(miss, e.0), line: n.line, col: n.col }]
            }
        }
    }
}


/// The running state of a clause scan (see [`ScanView`]).
struct Scan {
    referenced: Vec<String>,
    covered: Vec<String>,
    catch_all: bool,
}

impl View for Scan {
    type V = ScanView;

    closed spec fn view(&self) -> ScanView {
        ScanView {
            referenced: strings_view(self.referenced@),
            covered: strings_view(self.covered@),
            catch_all: self.catch_all,
        }
    }
}

/// Whether `v` holds the text `s`.
fn contains_text(v: &Vec<String>, s: &str) -> (r: bool)
    ensures
        r == strings_view(v@).contains(s@),
{
    let ghost sv = strings_view(v@);
    let mut k: usize = 0;
    while k < v.len()
        invariant
            k <= v@.len(),
            sv == strings_view(v@),
            forall|i: int| 0 <= i < k ==> sv[i] != s@,
        decreases v@.len() - k,
    {
        if str_same(v[k].as_str(), s) {
            assert(sv[k as int] == s@);
            return true;
        }
        k += 1;
    }
    assert(!sv.contains(s@));
    false
}

impl<'a> Node<'a> {
    /// Whether every child pattern of this node matches any value (see
    /// [`irrefutable_all`]).
    fn payload_irrefutable(&self) -> (r: bool)
        requires
            self.wf(),
        ensures
            r == irrefutable_all(self.tree(), self.data().children, self.id() as int),
        decreases self.id(),
    {
        proof {
            self.lemma_children_below();
        }
        let kids = self.child_vec();
        let ghost ch = self.data().children;
        let ghost nodes = self.tree();
        let ghost me = self.id() as int;
        let mut j: usize = 0;
        while j < kids.len()
            invariant
                kids@.len() == ch.len(),
                j <= kids@.len(),
                ch == self.data().children,
                nodes == self.tree(),
                me == self.id() as int,
                forall|i: int| 0 <= i < ch.len() ==> (#[trigger] ch[i] as int) < me,
                forall|i: int|
                    0 <= i < kids@.len() ==> #[trigger] kids@[i].wf() && kids@[i].id() == ch[i]
                        && kids@[i].tree() == nodes,
                irrefutable_all(nodes, ch.take(j as int), me),
            decreases kids@.len() - j,
        {
            let child = kids[j];
            assert(kids@[j as int].wf());
            assert(ch.take(j as int + 1).drop_last() =~= ch.take(j as int));
            assert(ch.take(j as int + 1).last() == ch[j as int]);
            assert((ch[j as int] as int) < me);
            let k = child.kind();
            let ok = if k == NodeKind::PatternWildcard || k == NodeKind::PatternValueBinding {
                true
            } else if k == NodeKind::PatternTuple {
                child.payload_irrefutable()
            } else {
                false
            };
            if !ok {
                proof {
                    lemma_irrefutable_prefix(nodes, ch, me, j as int + 1);
                }
                return false;
            }
            j += 1;
        }
        assert(ch.take(kids@.len() as int) =~= ch);
        true
    }

    /// Whether some child of this node is a `where` guard.
    fn has_guard(&self) -> (r: bool)
        requires
            self.wf(),
        ensures
            r == guarded(self.tree(), self.data().children),
    {
        let kids = self.child_vec();
        let ghost ch = self.data().children;
        let ghost nodes = self.tree();
        let mut j: usize = 0;
        while j < kids.len()
            invariant
                kids@.len() == ch.len(),
                j <= kids@.len(),
                ch == self.data().children,
                nodes == self.tree(),
                forall|i: int|
                    0 <= i < kids@.len() ==> #[trigger] kids@[i].wf() && kids@[i].id() == ch[i]
                        && kids@[i].tree() == nodes,
                forall|i: int| 0 <= i < j ==> #[trigger] nodes[ch[i] as int].kind != NodeKind::WhereClause,
            decreases kids@.len() - j,
        {
            assert(kids@[j as int].wf());
            if kids[j].kind() == NodeKind::WhereClause {
                assert(nodes[ch[j as int] as int].kind == NodeKind::WhereClause);
                return true;
            }
            j += 1;
        }
        false
    }

    /// Add the items of this case clause to `st` (see [`scan_items`]).
    fn scan_clause(&self, st: &mut Scan)
        requires
            self.wf(),
        ensures
            final(st)@ == scan_items(self.tree(), self.data().children, guarded(self.tree(), self.data().children), old(st)@),
    {
        let g = self.has_guard();
        let kids = self.child_vec();
        let ghost ch = self.data().children;
        let ghost nodes = self.tree();
        let ghost start = st@;
        let mut j: usize = 0;
        while j < kids.len()
            invariant
                kids@.len() == ch.len(),
                j <= kids@.len(),
                ch == self.data().children,
                nodes == self.tree(),
                g == guarded(nodes, ch),
                forall|i: int|
                    0 <= i < kids@.len() ==> #[trigger] kids@[i].wf() && kids@[i].id() == ch[i]
                        && kids@[i].tree() == nodes,
                st@ == scan_items(nodes, ch.take(j as int), g, start),
            decreases kids@.len() - j,
        {
            let child = kids[j];
            assert(kids@[j as int].wf());
            assert(ch.take(j as int + 1).drop_last() =~= ch.take(j as int));
            assert(ch.take(j as int + 1).last() == ch[j as int]);
            let ghost before = st@;
            let k = child.kind();
            if k == NodeKind::EnumCasePattern {
                match child.text() {
                    Some(name) => {
                        let cover = !g && child.payload_irrefutable();
                        if cover {
                            st.covered.push(name.clone());
                        }
                        st.referenced.push(name);
                        assert(strings_view(st.referenced@) =~= before.referenced.push(name@));
                        if cover {
                            assert(strings_view(st.covered@) =~= before.covered.push(name@));
                        } else {
                            assert(strings_view(st.covered@) =~= before.covered);
                        }
                    },
                    None => {},
                }
            } else if (k == NodeKind::PatternWildcard || k == NodeKind::PatternValueBinding) && !g {
                st.catch_all = true;
            }
            j += 1;
        }
        assert(ch.take(kids@.len() as int) =~= ch);
    }
}

/// A false item in a prefix makes [`irrefutable_all`] false on every longer
/// prefix.
proof fn lemma_irrefutable_prefix(nodes: Seq<NodeView>, kids: Seq<usize>, parent: int, n: int)
    requires
        0 < n <= kids.len(),
        !irrefutable_all(nodes, kids.take(n), parent),
    ensures
        !irrefutable_all(nodes, kids, parent),
    decreases kids.len() - n,
{
    if n < kids.len() {
        assert(kids.take(n + 1).drop_last() =~= kids.take(n));
        lemma_irrefutable_prefix(nodes, kids, parent, n + 1);
    } else {
        assert(kids.take(n) =~= kids);
    }
}

/// Whether `cases` holds every name of `refs`.
fn covers(cases: &Vec<String>, refs: &Vec<String>) -> (r: bool)
    ensures
        r == covers_all(strings_view(cases@), strings_view(refs@)),
{
    let ghost rv = strings_view(refs@);
    let mut k: usize = 0;
    while k < refs.len()
        invariant
            k <= refs@.len(),
            rv == strings_view(refs@),
            forall|i: int| 0 <= i < k ==> strings_view(cases@).contains(#[trigger] rv[i]),
        decreases refs@.len() - k,
    {
        if !contains_text(cases, refs[k].as_str()) {
            assert(!strings_view(cases@).contains(rv[k as int]));
            return false;
        }
        k += 1;
    }
    true
}

/// The names of `all` not in `covered` (see [`missing_cases`]).
fn missing_of(all: &Vec<String>, covered: &Vec<String>) -> (r: Vec<String>)
    ensures
        strings_view(r@) == missing_cases(strings_view(all@), strings_view(covered@)),
{
    let ghost av = strings_view(all@);
    let ghost cv = strings_view(covered@);
    let mut out: Vec<String> = Vec::new();
    let mut k: usize = 0;
    assert(av.take(0) =~= Seq::<Seq<char>>::empty());
    while k < all.len()
        invariant
            k <= all@.len(),
            av == strings_view(all@),
            cv == strings_view(covered@),
            strings_view(out@) == missing_cases(av.take(k as int), cv),
        decreases all@.len() - k,
    {
        assert(av.take(k as int + 1).drop_last() =~= av.take(k as int));
        assert(av.take(k as int + 1).last() == all@[k as int]@);
        let ghost before = strings_view(out@);
        if !contains_text(covered, all[k].as_str()) {
            out.push(all[k].clone());
            assert(strings_view(out@) =~= before.push(all@[k as int]@));
        }
        k += 1;
    }
    assert(av.take(all@.len() as int) =~= av);
    out
}

/// The names as `'.name'`, separated by `, ` (see [`quoted_cases`]).
fn quote_cases(names: &Vec<String>) -> (r: String)
    ensures
        r@ == quoted_cases(strings_view(names@)),
{
    let ghost nv = strings_view(names@);
    let mut out = String::new();
    let mut k: usize = 0;
    assert(nv.take(0) =~= Seq::<Seq<char>>::empty());
    assert(out@ =~= quoted_cases(nv.take(0)));
    while k < names.len()
        invariant
            k <= names@.len(),
            nv == strings_view(names@),
            out@ == quoted_cases(nv.take(k as int)),
        decreases names@.len() - k,
    {
        assert(nv.take(k as int + 1).drop_last() =~= nv.take(k as int));
        assert(nv.take(k as int + 1).last() == names@[k as int]@);
        if k > 0 {
            out.append(", ");
        } else {
            assert(nv.take(1).len() == 1);
            assert(out@ =~= Seq::<char>::empty());
        }
        out.append("'.");
        out.append(names[k].as_str());
        out.append("'");
        k += 1;
        assert(out@ =~= quoted_cases(nv.take(k as int)));
    }
    assert(nv.take(names@.len() as int) =~= nv);
    out
}

/// The exhaustiveness message for `missing` cases of `enum_name`.
fn exhaustive_message_of(missing: &Vec<String>, enum_name: &str) -> (r: String)
    ensures
        r@ == exhaustive_message(strings_view(missing@), enum_name@),
{
    let mut m = String::from_str("switch must be exhaustive: add missing case(s) ");
    let list = quote_cases(missing);
    m.append(list.as_str());
    m.append(" for enum '");
    m.append(enum_name);
    m.append("' or a 'default' clause");
    m
}

/// The first index of the entries of `reg` that hold every name of `refs`,
/// and how many do.
fn fitting_entries(reg: &Vec<EnumEntry>, refs: &Vec<String>) -> (r: (usize, usize))
    ensures
        r.1 == fitting(registry_view(reg@), strings_view(refs@)).len(),
        r.1 > 0 ==> r.0 == fitting(registry_view(reg@), strings_view(refs@))[0],
        r.1 > 0 ==> r.0 < reg@.len(),
{
    let ghost rv = registry_view(reg@);
    let ghost fv = strings_view(refs@);
    let mut count: usize = 0;
    let mut first: usize = 0;
    let mut k: usize = 0;
    assert(rv.take(0) =~= Seq::<(Seq<char>, Seq<Seq<char>>)>::empty());
    while k < reg.len()
        invariant
            k <= reg@.len(),
            rv == registry_view(reg@),
            fv == strings_view(refs@),
            count == fitting(rv.take(k as int), fv).len(),
            count <= k,
            count > 0 ==> first == fitting(rv.take(k as int), fv)[0],
            count > 0 ==> first < k,
        decreases reg@.len() - k,
    {
        assert(rv.take(k as int + 1).drop_last() =~= rv.take(k as int));
        assert(rv.take(k as int + 1).last() == rv[k as int]);
        if covers(&reg[k].cases, refs) {
            if count == 0 {
                first = k;
            }
            count += 1;
        }
        k += 1;
    }
    assert(rv.take(reg@.len() as int) =~= rv);
    (first, count)
}

impl<'a> Node<'a> {
    /// The scan of this switch's clauses, and whether one is `default`.
    fn scan_switch(&self) -> (r: (Scan, bool))
        requires
            self.wf(),
            self.data().children.len() > 0,
        ensures
            r.0@ == scan_clauses(self.tree(), self.data().children.drop_first()),
            r.1 == has_default(self.tree(), self.data().children.drop_first()),
    {
        let kids = self.child_vec();
        let ghost ch = self.data().children;
        let ghost nodes = self.tree();
        let ghost clauses = ch.drop_first();
        let mut st = Scan { referenced: Vec::new(), covered: Vec::new(), catch_all: false };
        let mut has_def = false;
        let mut j: usize = 1;
        assert(clauses.take(0) =~= Seq::<usize>::empty());
        assert(st@ == scan_clauses(nodes, clauses.take(0))) by {
            assert(strings_view(st.referenced@) =~= Seq::<Seq<char>>::empty());
            assert(strings_view(st.covered@) =~= Seq::<Seq<char>>::empty());
        }
        while j < kids.len()
            invariant
                kids@.len() == ch.len(),
                1 <= j <= kids@.len(),
                ch == self.data().children,
                clauses == ch.drop_first(),
                nodes == self.tree(),
                forall|i: int|
                    0 <= i < kids@.len() ==> #[trigger] kids@[i].wf() && kids@[i].id() == ch[i]
                        && kids@[i].tree() == nodes,
                st@ == scan_clauses(nodes, clauses.take(j - 1)),
                has_def == has_default(nodes, clauses.take(j - 1)),
            decreases kids@.len() - j,
        {
            let c = kids[j];
            assert(kids@[j as int].wf());
            let ghost ci = j as int - 1;
            assert(clauses.take(ci + 1).drop_last() =~= clauses.take(ci));
            assert(clauses.take(ci + 1).last() == ch[j as int]);
            assert(clauses[ci] == ch[j as int]);
            let is_def = match c.text() {
                Some(t) => str_same(t.as_str(), "default"),
                None => false,
            };
            proof {
                let prev = clauses.take(ci);
                let next = clauses.take(ci + 1);
                if is_def {
                    assert(next[ci] == ch[j as int]);
                    assert(nodes[next[ci] as int].text == Some("default"@));
                }
                if has_def {
                    let w = choose|i: int| 0 <= i < prev.len() && #[trigger] nodes[prev[i] as int].text == Some("default"@);
                    assert(next[w] == prev[w]);
                }
                if !has_def && !is_def {
                    assert forall|i: int| 0 <= i < next.len() implies #[trigger] nodes[next[i] as int].text != Some("default"@) by {
                        if i < ci {
                            assert(next[i] == prev[i]);
                        }
                    }
                }
            }
            has_def = has_def || is_def;
            c.scan_clause(&mut st);
            j += 1;
        }
        assert(clauses.take(kids@.len() - 1) =~= clauses);
        (st, has_def)
    }

    /// Append the exhaustiveness diagnostic of this switch, if any (see
    /// [`switch_diag`]).
    pub(crate) fn check_switch(&self, reg: &Vec<EnumEntry>, out: &mut Vec<Diagnostic>)
        requires
            self.wf(),
        ensures
            diagnostics_view(final(out)@) == diagnostics_view(old(out)@) + switch_diag(self.tree(), self.id() as int, registry_view(reg@)),
    {
        let ghost nodes = self.tree();
        let ghost me = self.id() as int;
        let ghost before = diagnostics_view(out@);
        let ghost rv = registry_view(reg@);
        if self.child_vec().len() == 0 {
            assert(diagnostics_view(out@) =~= before + switch_diag(nodes, me, rv));
            return;
        }
        let (st, has_def) = self.scan_switch();
        if has_def || st.catch_all || st.referenced.len() == 0 {
            assert(diagnostics_view(out@) =~= before + switch_diag(nodes, me, rv));
            return;
        }
        let (first, count) = fitting_entries(reg, &st.referenced);
        if count != 1 {
            assert(diagnostics_view(out@) =~= before + switch_diag(nodes, me, rv));
            return;
        }
        let e = &reg[first];
        assert(rv[first as int] == (e.name@, strings_view(e.cases@)));
        let miss = missing_of(&e.cases, &st.covered);
        if miss.len() == 0 {
            assert(diagnostics_view(out@) =~= before + switch_diag(nodes, me, rv));
            return;
        }
        let message = exhaustive_message_of(&miss, e.name.as_str());
        out.push(Diagnostic { message, line: self.line(), col: self.col() });
        assert(diagnostics_view(out@) =~= before + switch_diag(nodes, me, rv));
    }

}

/// Run the analysis passes over `analysis`, in order: first the
/// result-builder body checks ([`crate::builder::check_builder_bodies`]),
/// then, over what the program declares, the annotate pass
/// ([`crate::resolve`]), which records the types it finds on the tree.
/// Returns the diagnostics of the passes, in pass order.
pub fn analyze(analysis: &mut Analysis) -> (r: Vec<Diagnostic>)
    requires
        old(analysis).wf(),
    ensures
        final(analysis).wf(),
        final(analysis).root_id() == old(analysis).root_id(),
        final(analysis).diagnostics_view() == old(analysis).diagnostics_view(),
        final(analysis).tree() == annotated(old(analysis).tree(), checked(old(analysis).tree(), old(analysis).root_id() as int).types),
        diagnostics_view(r@) == crate::builder::builder_pass_diags(old(analysis).tree(), old(analysis).root_id() as int)
            + checked(old(analysis).tree(), old(analysis).root_id() as int).diags,
{
    let mut diags = crate::builder::check_builder_bodies(analysis);
    let syms = Symbols::collect(analysis);
    let rest = annotate(analysis, &syms);
    let ghost first = diagnostics_view(diags@);
    let mut k: usize = 0;
    while k < rest.len()
        invariant
            k <= rest@.len(),
            diagnostics_view(diags@) == first + diagnostics_view(rest@.subrange(0, k as int)),
        decreases rest@.len() - k,
    {
        let ghost before = diags@;
        let d = Diagnostic { message: rest[k].message.clone(), line: rest[k].line, col: rest[k].col };
        diags.push(d);
        proof {
            assert(diagnostics_view(diags@) =~= diagnostics_view(before).push(rest@[k as int]@));
            assert(diagnostics_view(rest@.subrange(0, k as int + 1)) =~= diagnostics_view(
                rest@.subrange(0, k as int),
            ).push(rest@[k as int]@));
        }
        k += 1;
    }
    assert(rest@.subrange(0, rest@.len() as int) =~= rest@);
    diags
}

/// The annotate pass alone, over the declarations `syms`: record on the tree
/// the type inferred for each node (see [`crate::resolve::annotate`]) and
/// return the pass's diagnostics. The tree's shape is left as it was.
pub fn annotate(analysis: &mut Analysis, syms: &Symbols) -> (r: Vec<Diagnostic>)
    requires
        old(analysis).wf(),
    ensures
        final(analysis).wf(),
        final(analysis).root_id() == old(analysis).root_id(),
        final(analysis).diagnostics_view() == old(analysis).diagnostics_view(),
        final(analysis).tree() == annotated(
            old(analysis).tree(),
            crate::resolve::annotate(old(analysis).tree(), syms@, old(analysis).root_id() as int).types,
        ),
        diagnostics_view(r@) == crate::resolve::annotate(
            old(analysis).tree(),
            syms@,
            old(analysis).root_id() as int,
        ).diags,
{
    let (types, diags) = annotate_tree(analysis, syms);
    analysis.set_types(&types);
    diags
}

/// The exhaustiveness check is sound: a switch gets at most one diagnostic,
/// and gets one only when it has no `default` clause and no unguarded
/// catch-all pattern, its patterns name some enum case, exactly one enum of
/// `reg` declares every case they name, and some case of that enum is left
/// uncovered.
pub proof fn lemma_exhaustiveness_is_sound(nodes: Seq<NodeView>, s: int, reg: Seq<(Seq<char>, Seq<Seq<char>>)>)
    ensures
        switch_diag(nodes, s, reg).len() <= 1,
        switch_diag(nodes, s, reg).len() == 1 ==> {
            let clauses = nodes[s].children.drop_first();
            let st = scan_clauses(nodes, clauses);
            let fits = fitting(reg, st.referenced);
            &&& !has_default(nodes, clauses)
            &&& !st.catch_all
            &&& st.referenced.len() > 0
            &&& fits.len() == 1
            &&& missing_cases(reg[fits[0]].1, st.covered).len() > 0
        },
{
}

/// The diagnostic names exactly the uncovered cases: a name is missing just
/// when the enum declares it and no unguarded pattern covers it.
pub proof fn lemma_missing_cases_are_the_uncovered_ones(all: Seq<Seq<char>>, covered: Seq<Seq<char>>, c: Seq<char>)
    ensures
        missing_cases(all, covered).contains(c) <==> (all.contains(c) && !covered.contains(c)),
    decreases all.len(),
{
    if all.len() > 0 {
        lemma_missing_cases_are_the_uncovered_ones(all.drop_last(), covered, c);
        let rest = missing_cases(all.drop_last(), covered);
        if all.contains(c) && c != all.last() {
            let i = choose|i: int| 0 <= i < all.len() && all[i] == c;
            assert(all.drop_last()[i] == c);
        }
        if all.drop_last().contains(c) {
            let i = choose|i: int| 0 <= i < all.drop_last().len() && all.drop_last()[i] == c;
            assert(all[i] == c);
        }
        if !covered.contains(all.last()) {
            let m = rest.push(all.last());
            if rest.contains(c) {
                let i = choose|i: int| 0 <= i < rest.len() && rest[i] == c;
                assert(m[i] == c);
            }
            if m.contains(c) && c != all.last() {
                let i = choose|i: int| 0 <= i < m.len() && m[i] == c;
                assert(i < rest.len());
                assert(rest[i] == c);
            }
            assert(m[rest.len() as int] == all.last());
        }
        assert(all[all.len() - 1] == all.last());
    }
}

/// A switch with a `default` clause is never reported.
pub proof fn lemma_default_switch_is_exhaustive(nodes: Seq<NodeView>, s: int, reg: Seq<(Seq<char>, Seq<Seq<char>>)>)
    requires
        has_default(nodes, nodes[s].children.drop_first()),
    ensures
        switch_diag(nodes, s, reg).len() == 0,
{
}

/// A switch that covers every case of the one enum its patterns identify is
/// never reported.
pub proof fn lemma_covering_switch_is_exhaustive(nodes: Seq<NodeView>, s: int, reg: Seq<(Seq<char>, Seq<Seq<char>>)>)
    requires
        ({
            let st = scan_clauses(nodes, nodes[s].children.drop_first());
            let fits = fitting(reg, st.referenced);
            fits.len() == 1 ==> forall|i: int|
                0 <= i < reg[fits[0]].1.len() ==> st.covered.contains(#[trigger] reg[fits[0]].1[i])
        }),
    ensures
        switch_diag(nodes, s, reg).len() == 0,
{
    let st = scan_clauses(nodes, nodes[s].children.drop_first());
    let fits = fitting(reg, st.referenced);
    if fits.len() == 1 {
        let all = reg[fits[0]].1;
        let miss = missing_cases(all, st.covered);
        if miss.len() > 0 {
            let c = miss[0];
            assert(miss.contains(c));
            lemma_missing_cases_are_the_uncovered_ones(all, st.covered, c);
            let i = choose|i: int| 0 <= i < all.len() && all[i] == c;
            assert(st.covered.contains(all[i]));
        }
    }
}

/// Distinct digits have distinct characters.
proof fn lemma_digit_char_injective(a: nat, b: nat)
    requires
        a < 10,
        b < 10,
        crate::text::digit_char(a) == crate::text::digit_char(b),
    ensures
        a == b,
{
}

/// The decimal rendering of a number of two or more digits is longer than
/// one character.
proof fn lemma_decimal_len(n: nat)
    ensures
        decimal(n).len() >= 1,
        n >= 10 ==> decimal(n).len() >= 2,
    decreases n,
{
    if n >= 10 {
        lemma_decimal_len(n / 10);
    }
}

/// Distinct numbers have distinct decimal renderings.
pub proof fn lemma_decimal_injective(a: nat, b: nat)
    requires
        decimal(a) == decimal(b),
    ensures
        a == b,
    decreases a,
{
    lemma_decimal_len(a);
    lemma_decimal_len(b);
    if a < 10 && b < 10 {
        assert(decimal(a) == seq![crate::text::digit_char(a)]);
        assert(decimal(b) == seq![crate::text::digit_char(b)]);
        assert(decimal(a)[0] == decimal(b)[0]);
        assert(seq![crate::text::digit_char(a)][0] == crate::text::digit_char(a));
        assert(crate::text::digit_char(a) == crate::text::digit_char(b));
        lemma_digit_char_injective(a, b);
    } else if a >= 10 && b >= 10 {
        assert(decimal(a) == decimal(a / 10).push(crate::text::digit_char(a % 10)));
        assert(decimal(b) == decimal(b / 10).push(crate::text::digit_char(b % 10)));
        assert(decimal(a).last() == decimal(b).last());
        let da: nat = a % 10;
        let db: nat = b % 10;
        assert(decimal(a / 10).push(crate::text::digit_char(da)).last() == crate::text::digit_char(da));
        assert(decimal(b / 10).push(crate::text::digit_char(db)).last() == crate::text::digit_char(db));
        assert(crate::text::digit_char(da) == crate::text::digit_char(db));
        lemma_digit_char_injective(da, db);
        assert(decimal(a).drop_last() =~= decimal(a / 10));
        assert(decimal(b).drop_last() =~= decimal(b / 10));
        lemma_decimal_injective(a / 10, b / 10);
    }
}

/// Synthesized names never collide with each other: distinct indices give
/// distinct names.
pub proof fn lemma_fresh_names_distinct(m: nat, n: nat)
    requires
        m != n,
    ensures
        "$build"@ + decimal(m) != "$build"@ + decimal(n),
{
    if "$build"@ + decimal(m) == "$build"@ + decimal(n) {
        let p = "$build"@;
        assert(("$build"@ + decimal(m)).subrange(p.len() as int, ("$build"@ + decimal(m)).len() as int) =~= decimal(m));
        assert(("$build"@ + decimal(n)).subrange(p.len() as int, ("$build"@ + decimal(n)).len() as int) =~= decimal(n));
        lemma_decimal_injective(m, n);
    }
}

} // verus!
