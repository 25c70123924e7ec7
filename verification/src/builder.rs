//! Result-builder bodies: the checks that a `@resultBuilder` type's methods
//! put on the body of a function, computed property or subscript that names
//! the builder in an attribute. Each construct of the body that the builder
//! cannot fold is reported, in source order.
use vstd::prelude::*;
use crate::sema::{diagnostics_view, Diagnostic, DiagnosticView};
use crate::syntax::{kind_name, Analysis, Node, NodeKind, NodeView};
use crate::text::str_same;

verus! {

/// A builder type's methods: each one's name with its parameter count.
pub struct BuilderMethods {
    pub methods: Vec<(String, usize)>,
}

impl View for BuilderMethods {
    type V = Seq<(Seq<char>, nat)>;

    open spec fn view(&self) -> Seq<(Seq<char>, nat)> {
        self.methods@.map_values(|p: (String, usize)| (p.0@, p.1 as nat))
    }
}

/// Whether the builder declares a method called `name`.
pub open spec fn has_method(m: Seq<(Seq<char>, nat)>, name: Seq<char>) -> bool {
    exists|i: int| 0 <= i < m.len() && (#[trigger] m[i]).0 == name
}

/// Whether the builder declares a method called `name` with `n` parameters.
pub open spec fn has_arity(m: Seq<(Seq<char>, nat)>, name: Seq<char>, n: nat) -> bool {
    exists|i: int| 0 <= i < m.len() && #[trigger] m[i] == (name, n)
}

/// Whether the builder can fold a block: it declares `buildBlock`, or both
/// one- and two-parameter `buildPartialBlock` methods.
pub open spec fn has_fold(m: Seq<(Seq<char>, nat)>) -> bool {
    has_method(m, "buildBlock"@) || (has_arity(m, "buildPartialBlock"@, 1) && has_arity(
        m,
        "buildPartialBlock"@,
        2,
    ))
}

impl BuilderMethods {
    /// Whether a method called `name` is declared.
    pub fn has(&self, name: &str) -> (r: bool)
        ensures
            r == has_method(self@, name@),
    {
        let mut i: usize = 0;
        while i < self.methods.len()
            invariant
                i <= self.methods@.len(),
                forall|j: int| 0 <= j < i ==> self@[j].0 != name@,
            decreases self.methods@.len() - i,
        {
            if str_same(self.methods[i].0.as_str(), name) {
                assert(self@[i as int].0 == name@);
                return true;
            }
            i += 1;
        }
        false
    }

    /// Whether a method called `name` with `n` parameters is declared.
    pub fn has_arity(&self, name: &str, n: usize) -> (r: bool)
        ensures
            r == has_arity(self@, name@, n as nat),
    {
        let mut i: usize = 0;
        while i < self.methods.len()
            invariant
                i <= self.methods@.len(),
                forall|j: int| 0 <= j < i ==> self@[j] != (name@, n as nat),
            decreases self.methods@.len() - i,
        {
            if self.methods[i].1 == n && str_same(self.methods[i].0.as_str(), name) {
                assert(self@[i as int] == (name@, n as nat));
                return true;
            }
            i += 1;
        }
        false
    }

    /// Whether a block can be folded (see [`has_fold`]).
    pub fn has_fold(&self) -> (r: bool)
        ensures
            r == has_fold(self@),
    {
        self.has("buildBlock") || (self.has_arity("buildPartialBlock", 1) && self.has_arity("buildPartialBlock", 2))
    }
}

/// `kids` are the nodes `ids` of the tree `t`, each well formed.
pub open spec fn kids_of(kids: Seq<Node>, ids: Seq<usize>, t: Seq<NodeView>) -> bool {
    &&& kids.len() == ids.len()
    &&& forall|j: int| 0 <= j < kids.len() ==> (#[trigger] kids[j]).wf() && kids[j].id() == ids[j] && kids[j].tree() == t
}

/// The children of `node`, in order.
fn children_of<'a>(node: &Node<'a>) -> (r: Vec<Node<'a>>)
    requires
        node.wf(),
    ensures
        kids_of(r@, node.data().children, node.tree()),
{
    let r = node.child_vec();
    assert forall|j: int| 0 <= j < r@.len() implies (#[trigger] r@[j]).wf() && r@[j].id() == node.data().children[j]
        && r@[j].tree() == node.tree() by {
        assert(r@[j].wf());
    }
    r
}

/// A diagnostic with `message` at node `id`.
pub open spec fn builder_diag(t: Seq<NodeView>, id: int, message: Seq<char>) -> DiagnosticView {
    DiagnosticView { message, line: t[id].line, col: t[id].col }
}

/// Statements a builder body keeps as they are or folds as components.
pub open spec fn passthrough_kind(k: NodeKind) -> bool {
    ||| k == NodeKind::ExprStmt || k == NodeKind::ReturnStmt || k == NodeKind::GuardStmt
    ||| k == NodeKind::DeferStmt || k == NodeKind::LetDecl || k == NodeKind::VarDecl
    ||| k == NodeKind::FuncDecl || k == NodeKind::StructDecl || k == NodeKind::EnumDecl
    ||| k == NodeKind::ClassDecl || k == NodeKind::ActorDecl || k == NodeKind::ProtocolDecl
    ||| k == NodeKind::TypeAliasDecl
}

/// The position, from `k` on, of the first entry of `kids` that is a node of
/// kind `kind`.
pub open spec fn first_of_kind_at(t: Seq<NodeView>, kids: Seq<usize>, k: int, kind: NodeKind) -> Option<int>
    decreases kids.len() - k,
{
    if k < 0 || k >= kids.len() {
        None
    } else if t[kids[k] as int].kind == kind {
        Some(k)
    } else {
        first_of_kind_at(t, kids, k + 1, kind)
    }
}

/// Whether the `if` at `id` has an `else` arm: a child after its first block.
pub open spec fn if_has_else(t: Seq<NodeView>, id: int) -> bool {
    match first_of_kind_at(t, t[id].children, 0, NodeKind::Block) {
        Some(p) => p + 1 < t[id].children.len(),
        None => false,
    }
}

/// The diagnostics a builder body gives for the statement at `id`.
pub open spec fn builder_stmt_diags(t: Seq<NodeView>, id: int, m: Seq<(Seq<char>, nat)>) -> Seq<DiagnosticView>
    decreases id, 4int, 0int,
{
    if !(0 <= id < t.len()) {
        Seq::empty()
    } else {
        let k = t[id].kind;
        if passthrough_kind(k) {
            Seq::empty()
        } else if k == NodeKind::IfStmt {
            let has_else = if_has_else(t, id);
            (if has_else && !has_method(m, "buildEither"@) {
                seq![builder_diag(t, id, "'if'/'else' in a result-builder body requires the builder to declare 'buildEither(first:)' and 'buildEither(second:)'"@)]
            } else {
                Seq::empty()
            }) + (if !has_else && !has_method(m, "buildOptional"@) {
                seq![builder_diag(t, id, "'if' without 'else' in a result-builder body requires the builder to declare 'buildOptional'"@)]
            } else {
                Seq::empty()
            }) + if_parts_diags(t, t[id].children, id, m)
        } else if k == NodeKind::ForStmt {
            (if !has_method(m, "buildArray"@) {
                seq![builder_diag(t, id, "'for' in a result-builder body requires the builder to declare 'buildArray'"@)]
            } else {
                Seq::empty()
            }) + block_parts_diags(t, t[id].children, id, m)
        } else if k == NodeKind::SwitchStmt {
            (if !has_method(m, "buildEither"@) {
                seq![builder_diag(t, id, "'switch' in a result-builder body requires the builder to declare 'buildEither'"@)]
            } else {
                Seq::empty()
            }) + clause_parts_diags(t, t[id].children, id, m)
        } else if k == NodeKind::WhileStmt || k == NodeKind::RepeatStmt {
            seq![builder_diag(t, id, "'while'/'repeat' loops are not supported in a result-builder body"@)]
        } else {
            seq![builder_diag(t, id, "'"@ + kind_name(k) + "' is not supported in a result-builder body"@)]
        }
    }
}

/// The diagnostics of the parts of an `if` (below `bound`): each block's
/// body, and a nested `else if`.
pub open spec fn if_parts_diags(t: Seq<NodeView>, kids: Seq<usize>, bound: int, m: Seq<(Seq<char>, nat)>) -> Seq<DiagnosticView>
    decreases bound, 3int, kids.len(),
{
    if kids.len() == 0 {
        Seq::empty()
    } else {
        let c = kids.last() as int;
        if_parts_diags(t, kids.drop_last(), bound, m) + if 0 <= c < bound {
            if t[c].kind == NodeKind::Block {
                builder_body_diags(t, t[c].children, c, m)
            } else if t[c].kind == NodeKind::IfStmt {
                builder_stmt_diags(t, c, m)
            } else {
                Seq::empty()
            }
        } else {
            Seq::empty()
        }
    }
}

/// The diagnostics of the bodies of the blocks among `kids` (below `bound`).
pub open spec fn block_parts_diags(t: Seq<NodeView>, kids: Seq<usize>, bound: int, m: Seq<(Seq<char>, nat)>) -> Seq<DiagnosticView>
    decreases bound, 3int, kids.len(),
{
    if kids.len() == 0 {
        Seq::empty()
    } else {
        let c = kids.last() as int;
        block_parts_diags(t, kids.drop_last(), bound, m) + if 0 <= c < bound && t[c].kind == NodeKind::Block {
            builder_body_diags(t, t[c].children, c, m)
        } else {
            Seq::empty()
        }
    }
}

/// The diagnostics of the case clauses of a `switch` (below `bound`): the
/// bodies of each clause's blocks.
pub open spec fn clause_parts_diags(t: Seq<NodeView>, kids: Seq<usize>, bound: int, m: Seq<(Seq<char>, nat)>) -> Seq<DiagnosticView>
    decreases bound, 3int, kids.len(),
{
    if kids.len() == 0 {
        Seq::empty()
    } else {
        let c = kids.last() as int;
        clause_parts_diags(t, kids.drop_last(), bound, m) + if 0 <= c < bound && t[c].kind == NodeKind::CaseClause {
            block_parts_diags(t, t[c].children, c, m)
        } else {
            Seq::empty()
        }
    }
}

/// The diagnostic for an explicit `return` among other statements of a body.
pub open spec fn return_mix_diag(t: Seq<NodeView>, stmts: Seq<usize>) -> Seq<DiagnosticView> {
    match first_of_kind_at(t, stmts, 0, NodeKind::ReturnStmt) {
        Some(p) => if stmts.len() > 1 {
            seq![builder_diag(t, stmts[p] as int, "cannot use an explicit 'return' statement mixed with other components in a result-builder body"@)]
        } else {
            Seq::empty()
        },
        None => Seq::empty(),
    }
}

/// The diagnostics of each statement of `stmts` (below `bound`), in order.
pub open spec fn stmt_list_diags(t: Seq<NodeView>, stmts: Seq<usize>, bound: int, m: Seq<(Seq<char>, nat)>) -> Seq<DiagnosticView>
    decreases bound, 1int, stmts.len(),
{
    if stmts.len() == 0 {
        Seq::empty()
    } else {
        let s = stmts.last() as int;
        stmt_list_diags(t, stmts.drop_last(), bound, m) + if 0 <= s < bound {
            builder_stmt_diags(t, s, m)
        } else {
            Seq::empty()
        }
    }
}

/// The diagnostics a builder body of statements `stmts` (the children of
/// the block `bound`) gives: a mixed-in `return`, then each statement's.
pub open spec fn builder_body_diags(t: Seq<NodeView>, stmts: Seq<usize>, bound: int, m: Seq<(Seq<char>, nat)>) -> Seq<DiagnosticView>
    decreases bound, 2int, 0int,
{
    return_mix_diag(t, stmts) + stmt_list_diags(t, stmts, bound, m)
}

/// Appending one diagnostic appends its view.
proof fn lemma_push_view(v: Seq<Diagnostic>, d: Diagnostic)
    ensures
        diagnostics_view(v.push(d)) == diagnostics_view(v).push(d@),
{
    assert(diagnostics_view(v.push(d)) =~= diagnostics_view(v).push(d@));
}

/// A diagnostic with `message` at `node`.
fn diag_at(node: &Node, message: String) -> (d: Diagnostic)
    requires
        node.wf(),
    ensures
        d@ == builder_diag(node.tree(), node.id() as int, message@),
{
    Diagnostic { message, line: node.line(), col: node.col() }
}

/// Push the diagnostic `message` at `node`.
fn report(diags: &mut Vec<Diagnostic>, node: &Node, message: String)
    requires
        node.wf(),
    ensures
        diagnostics_view(final(diags)@) == diagnostics_view(old(diags)@).push(
            builder_diag(node.tree(), node.id() as int, message@),
        ),
{
    let d = diag_at(node, message);
    proof {
        lemma_push_view(diags@, d);
    }
    diags.push(d);
}

/// Whether statements of kind `k` pass through a builder body unchecked.
fn is_passthrough(k: NodeKind) -> (r: bool)
    ensures
        r == passthrough_kind(k),
{
    match k {
        NodeKind::ExprStmt | NodeKind::ReturnStmt | NodeKind::GuardStmt | NodeKind::DeferStmt
        | NodeKind::LetDecl | NodeKind::VarDecl | NodeKind::FuncDecl | NodeKind::StructDecl
        | NodeKind::EnumDecl | NodeKind::ClassDecl | NodeKind::ActorDecl | NodeKind::ProtocolDecl
        | NodeKind::TypeAliasDecl => true,
        _ => false,
    }
}

/// The position of the first of `kids` of kind `kind`.
fn first_of_kind(kids: &Vec<Node>, kind: NodeKind, Ghost(t): Ghost<Seq<NodeView>>, Ghost(ids): Ghost<Seq<usize>>) -> (r: Option<usize>)
    requires
        kids_of(kids@, ids, t),
    ensures
        match r {
            Some(p) => first_of_kind_at(t, ids, 0, kind) == Some(p as int) && p < kids@.len()
                && kids@[p as int].wf() && kids@[p as int].id() == ids[p as int] && kids@[p as int].tree() == t,
            None => first_of_kind_at(t, ids, 0, kind) is None,
        },
{
    let mut i: usize = 0;
    while i < kids.len()
        invariant
            kids_of(kids@, ids, t),
            i <= kids@.len(),
            first_of_kind_at(t, ids, 0, kind) == first_of_kind_at(t, ids, i as int, kind),
        decreases kids@.len() - i,
    {
        assert(kids@[i as int].wf() && kids@[i as int].id() == ids[i as int] && kids@[i as int].tree() == t);
        if kids[i].kind() == kind {
            return Some(i);
        }
        i += 1;
    }
    None
}

/// Check one statement of a builder body, and the blocks nested in it,
/// against the builder's methods `methods`; report each construct the
/// builder cannot fold.
#[verifier::spinoff_prover]
pub fn validate_builder_stmt(stmt: &Node, methods: &BuilderMethods, diags: &mut Vec<Diagnostic>)
    requires
        stmt.wf(),
    ensures
        diagnostics_view(final(diags)@) == diagnostics_view(old(diags)@) + builder_stmt_diags(
            stmt.tree(),
            stmt.id() as int,
            methods@,
        ),
    decreases stmt.id(), 1int,
{
    let ghost t = stmt.tree();
    let ghost id = stmt.id() as int;
    let ghost m = methods@;
    let ghost start = diagnostics_view(diags@);
    proof {
        stmt.lemma_in_tree();
        stmt.lemma_children_below();
    }
    let k = stmt.kind();
    if is_passthrough(k) {
        assert(diagnostics_view(diags@) =~= start + builder_stmt_diags(t, id, m));
        return;
    }
    let kids = children_of(&stmt);
    let ghost ids = stmt.data().children;
    if k == NodeKind::IfStmt {
        let has_else = match first_of_kind(&kids, NodeKind::Block, Ghost(t), Ghost(ids)) {
            Some(p) => kids.len() - p > 1,
            None => false,
        };
        assert(has_else == if_has_else(t, id));
        if has_else && !methods.has("buildEither") {
            report(diags, stmt, String::from_str("'if'/'else' in a result-builder body requires the builder to declare 'buildEither(first:)' and 'buildEither(second:)'"));
        }
        if !has_else && !methods.has("buildOptional") {
            report(diags, stmt, String::from_str("'if' without 'else' in a result-builder body requires the builder to declare 'buildOptional'"));
        }
        let ghost mid = diagnostics_view(diags@);
        let mut i: usize = 0;
        while i < kids.len()
            invariant
                stmt.wf(),
                t == stmt.tree(),
                id == stmt.id() as int,
                m == methods@,
                kids_of(kids@, ids, t),
                forall|j: int| 0 <= j < ids.len() ==> (#[trigger] ids[j] as int) < id,
                i <= kids@.len(),
                diagnostics_view(diags@) == mid + if_parts_diags(t, ids.subrange(0, i as int), id, m),
            decreases kids@.len() - i,
        {
            let c = &kids[i];
            assert(kids@[i as int].wf() && kids@[i as int].id() == ids[i as int] && kids@[i as int].tree() == t);
            assert((ids[i as int] as int) < id);
            let ck = c.kind();
            assert(ids.subrange(0, i as int + 1).drop_last() =~= ids.subrange(0, i as int));
            assert(ids.subrange(0, i as int + 1).last() == ids[i as int]);
            if ck == NodeKind::Block {
                validate_builder_body(c, methods, diags);
            } else if ck == NodeKind::IfStmt {
                validate_builder_stmt(c, methods, diags);
            }
            i += 1;
        }
        assert(ids.subrange(0, ids.len() as int) =~= ids);
        assert(diagnostics_view(diags@) =~= start + builder_stmt_diags(t, id, m));
    } else if k == NodeKind::ForStmt {
        if !methods.has("buildArray") {
            report(diags, stmt, String::from_str("'for' in a result-builder body requires the builder to declare 'buildArray'"));
        }
        validate_blocks(stmt, methods, diags);
        assert(diagnostics_view(diags@) =~= start + builder_stmt_diags(t, id, m));
    } else if k == NodeKind::SwitchStmt {
        if !methods.has("buildEither") {
            report(diags, stmt, String::from_str("'switch' in a result-builder body requires the builder to declare 'buildEither'"));
        }
        let ghost mid = diagnostics_view(diags@);
        let mut i: usize = 0;
        while i < kids.len()
            invariant
                stmt.wf(),
                t == stmt.tree(),
                id == stmt.id() as int,
                m == methods@,
                kids_of(kids@, ids, t),
                forall|j: int| 0 <= j < ids.len() ==> (#[trigger] ids[j] as int) < id,
                i <= kids@.len(),
                diagnostics_view(diags@) == mid + clause_parts_diags(t, ids.subrange(0, i as int), id, m),
            decreases kids@.len() - i,
        {
            let c = &kids[i];
            assert(kids@[i as int].wf() && kids@[i as int].id() == ids[i as int] && kids@[i as int].tree() == t);
            assert((ids[i as int] as int) < id);
            assert(ids.subrange(0, i as int + 1).drop_last() =~= ids.subrange(0, i as int));
            assert(ids.subrange(0, i as int + 1).last() == ids[i as int]);
            if c.kind() == NodeKind::CaseClause {
                validate_blocks(c, methods, diags);
            }
            i += 1;
        }
        assert(ids.subrange(0, ids.len() as int) =~= ids);
        assert(diagnostics_view(diags@) =~= start + builder_stmt_diags(t, id, m));
    } else if k == NodeKind::WhileStmt || k == NodeKind::RepeatStmt {
        report(diags, stmt, String::from_str("'while'/'repeat' loops are not supported in a result-builder body"));
        assert(diagnostics_view(diags@) =~= start + builder_stmt_diags(t, id, m));
    } else {
        let mut msg = String::from_str("'");
        msg.append(k.name());
        msg.append("' is not supported in a result-builder body");
        report(diags, stmt, msg);
        assert(diagnostics_view(diags@) =~= start + builder_stmt_diags(t, id, m));
    }
}

/// Check the body of each block among the children of `parent`.
fn validate_blocks(parent: &Node, methods: &BuilderMethods, diags: &mut Vec<Diagnostic>)
    requires
        parent.wf(),
    ensures
        diagnostics_view(final(diags)@) == diagnostics_view(old(diags)@) + block_parts_diags(
            parent.tree(),
            parent.data().children,
            parent.id() as int,
            methods@,
        ),
    decreases parent.id(), 0int,
{
    let ghost t = parent.tree();
    let ghost id = parent.id() as int;
    let ghost m = methods@;
    let ghost mid = diagnostics_view(diags@);
    proof {
        parent.lemma_in_tree();
        parent.lemma_children_below();
    }
    let kids = children_of(&parent);
    let ghost ids = parent.data().children;
    let mut i: usize = 0;
    while i < kids.len()
        invariant
            parent.wf(),
            t == parent.tree(),
            id == parent.id() as int,
            m == methods@,
            kids_of(kids@, ids, t),
            forall|j: int| 0 <= j < ids.len() ==> (#[trigger] ids[j] as int) < id,
            i <= kids@.len(),
            diagnostics_view(diags@) == mid + block_parts_diags(t, ids.subrange(0, i as int), id, m),
        decreases kids@.len() - i,
    {
        let c = &kids[i];
        assert(kids@[i as int].wf() && kids@[i as int].id() == ids[i as int] && kids@[i as int].tree() == t);
        assert((ids[i as int] as int) < id);
        assert(ids.subrange(0, i as int + 1).drop_last() =~= ids.subrange(0, i as int));
        assert(ids.subrange(0, i as int + 1).last() == ids[i as int]);
        if c.kind() == NodeKind::Block {
            validate_builder_body(c, methods, diags);
        }
        i += 1;
    }
    assert(ids.subrange(0, ids.len() as int) =~= ids);
}

/// Check the statements of the block `block` as a builder body: an explicit
/// `return` among other statements, then each statement
/// ([`validate_builder_stmt`]).
#[verifier::spinoff_prover]
pub fn validate_builder_body(block: &Node, methods: &BuilderMethods, diags: &mut Vec<Diagnostic>)
    requires
        block.wf(),
    ensures
        diagnostics_view(final(diags)@) == diagnostics_view(old(diags)@) + builder_body_diags(
            block.tree(),
            block.data().children,
            block.id() as int,
            methods@,
        ),
    decreases block.id(), 0int,
{
    let ghost t = block.tree();
    let ghost id = block.id() as int;
    let ghost m = methods@;
    let ghost start = diagnostics_view(diags@);
    proof {
        block.lemma_in_tree();
        block.lemma_children_below();
    }
    let stmts = children_of(&block);
    let ghost ids = block.data().children;
    match first_of_kind(&stmts, NodeKind::ReturnStmt, Ghost(t), Ghost(ids)) {
        Some(p) => {
            if stmts.len() > 1 {
                assert(0 <= p < stmts@.len());
                assert(stmts@[p as int].wf());
                assert(stmts@[p as int].id() == ids[p as int]);
                assert(stmts@[p as int].tree() == t);
                report(diags, &stmts[p], String::from_str("cannot use an explicit 'return' statement mixed with other components in a result-builder body"));
            }
        },
        None => {},
    }
    let ghost mid = diagnostics_view(diags@);
    assert(mid == start + return_mix_diag(t, ids));
    let mut i: usize = 0;
    while i < stmts.len()
        invariant
            block.wf(),
            t == block.tree(),
            id == block.id() as int,
            m == methods@,
            kids_of(stmts@, ids, t),
            forall|j: int| 0 <= j < ids.len() ==> (#[trigger] ids[j] as int) < id,
            i <= stmts@.len(),
            diagnostics_view(diags@) == mid + stmt_list_diags(t, ids.subrange(0, i as int), id, m),
        decreases stmts@.len() - i,
    {
        assert(ids.subrange(0, i as int + 1).drop_last() =~= ids.subrange(0, i as int));
        assert(ids.subrange(0, i as int + 1).last() == ids[i as int]);
        assert(stmts@[i as int].wf() && stmts@[i as int].id() == ids[i as int] && stmts@[i as int].tree() == t);
        assert((ids[i as int] as int) < id);
        validate_builder_stmt(&stmts[i], methods, diags);
        i += 1;
    }
    assert(ids.subrange(0, ids.len() as int) =~= ids);
    assert(diagnostics_view(diags@) =~= start + builder_body_diags(t, ids, id, m));
}

/// Whether one of `kids` is an attribute spelled `name`.
pub open spec fn has_attr_named(t: Seq<NodeView>, kids: Seq<usize>, name: Seq<char>) -> bool {
    exists|j: int|
        0 <= j < kids.len() && (#[trigger] t[kids[j] as int]).kind == NodeKind::Attribute
            && t[kids[j] as int].text == Some(name)
}

/// Whether node `i` declares a result builder: a `struct`, `enum`, `class`
/// or `actor` marked `@resultBuilder`.
pub open spec fn is_builder_type(t: Seq<NodeView>, i: int) -> bool {
    let k = t[i].kind;
    &&& k == NodeKind::StructDecl || k == NodeKind::EnumDecl || k == NodeKind::ClassDecl || k
        == NodeKind::ActorDecl
    &&& has_attr_named(t, t[i].children, "resultBuilder"@)
}

/// How many parameters are among `kids`.
pub open spec fn param_count(t: Seq<NodeView>, kids: Seq<usize>) -> nat
    decreases kids.len(),
{
    if kids.len() == 0 {
        0
    } else {
        param_count(t, kids.drop_last()) + if t[kids.last() as int].kind == NodeKind::Param {
            1nat
        } else {
            0nat
        }
    }
}

/// The named functions among `kids` (below `bound`), and those of nested
/// blocks, each with its parameter count, in order.
pub open spec fn member_methods(t: Seq<NodeView>, kids: Seq<usize>, bound: int) -> Seq<(Seq<char>, nat)>
    decreases bound, kids.len(),
{
    if kids.len() == 0 {
        Seq::empty()
    } else {
        let c = kids.last() as int;
        member_methods(t, kids.drop_last(), bound) + if 0 <= c < bound {
            if t[c].kind == NodeKind::FuncDecl && t[c].text is Some {
                seq![(t[c].text.unwrap(), param_count(t, t[c].children))]
            } else if t[c].kind == NodeKind::Block {
                member_methods(t, t[c].children, c)
            } else {
                Seq::empty()
            }
        } else {
            Seq::empty()
        }
    }
}

/// The first node, from index `i` on, that declares the result builder `name`.
pub open spec fn builder_type_from(t: Seq<NodeView>, name: Seq<char>, i: int) -> Option<int>
    decreases t.len() - i,
{
    if i < 0 || i >= t.len() {
        None
    } else if is_builder_type(t, i) && t[i].text == Some(name) {
        Some(i)
    } else {
        builder_type_from(t, name, i + 1)
    }
}

/// The methods of the result builder `name`: those of the first node that
/// declares it.
pub open spec fn builder_methods_of(t: Seq<NodeView>, name: Seq<char>) -> Option<Seq<(Seq<char>, nat)>> {
    match builder_type_from(t, name, 0) {
        Some(i) => Some(member_methods(t, t[i].children, i)),
        None => None,
    }
}

/// The methods of the builder that the first attribute among `kids` (from
/// position `k` on) naming a result builder names.
pub open spec fn attr_builder_at(t: Seq<NodeView>, kids: Seq<usize>, k: int) -> Option<Seq<(Seq<char>, nat)>>
    decreases kids.len() - k,
{
    if k < 0 || k >= kids.len() {
        None
    } else {
        let c = kids[k] as int;
        if t[c].kind == NodeKind::Attribute && t[c].text is Some && builder_methods_of(t, t[c].text.unwrap()) is Some {
            builder_methods_of(t, t[c].text.unwrap())
        } else {
            attr_builder_at(t, kids, k + 1)
        }
    }
}

/// The position, from `k` on, of the first `get` accessor among `kids`.
pub open spec fn getter_at(t: Seq<NodeView>, kids: Seq<usize>, k: int) -> Option<int>
    decreases kids.len() - k,
{
    if k < 0 || k >= kids.len() {
        None
    } else if t[kids[k] as int].kind == NodeKind::AccessorDecl && t[kids[k] as int].text == Some("get"@) {
        Some(k)
    } else {
        getter_at(t, kids, k + 1)
    }
}

/// The block a builder attribute on node `id` applies to: a function's body,
/// or the body of the `get` accessor of a property or subscript.
pub open spec fn builder_body_block(t: Seq<NodeView>, id: int) -> Option<int> {
    let kids = t[id].children;
    if t[id].kind == NodeKind::FuncDecl {
        match first_of_kind_at(t, kids, 0, NodeKind::Block) {
            Some(p) => Some(kids[p] as int),
            None => None,
        }
    } else if t[id].kind == NodeKind::VarDecl || t[id].kind == NodeKind::SubscriptDecl {
        match getter_at(t, kids, 0) {
            Some(p) => {
                let g = kids[p] as int;
                match first_of_kind_at(t, t[g].children, 0, NodeKind::Block) {
                    Some(q) => Some(t[g].children[q] as int),
                    None => None,
                }
            },
            None => None,
        }
    } else {
        None
    }
}

/// The diagnostics of the builder body of node `id`, if it names a builder
/// that can fold a block: none for a body that is a lone `return`.
pub open spec fn target_diags(t: Seq<NodeView>, id: int) -> Seq<DiagnosticView> {
    match attr_builder_at(t, t[id].children, 0) {
        Some(m) => if !has_fold(m) {
            Seq::empty()
        } else {
            match builder_body_block(t, id) {
                Some(b) => {
                    let stmts = t[b].children;
                    if stmts.len() == 1 && t[stmts[0] as int].kind == NodeKind::ReturnStmt {
                        Seq::empty()
                    } else {
                        builder_body_diags(t, stmts, b, m)
                    }
                },
                None => Seq::empty(),
            }
        },
        None => Seq::empty(),
    }
}

/// The builder-body diagnostics of the subtrees of `kids` (below `bound`),
/// each declaration before what it contains.
pub open spec fn builder_walk_diags(t: Seq<NodeView>, kids: Seq<usize>, bound: int) -> Seq<DiagnosticView>
    decreases bound, kids.len(),
{
    if kids.len() == 0 {
        Seq::empty()
    } else {
        let c = kids.last() as int;
        builder_walk_diags(t, kids.drop_last(), bound) + if 0 <= c < bound {
            (if t[c].kind == NodeKind::FuncDecl || t[c].kind == NodeKind::VarDecl || t[c].kind
                == NodeKind::SubscriptDecl {
                target_diags(t, c)
            } else {
                Seq::empty()
            }) + builder_walk_diags(t, t[c].children, c)
        } else {
            Seq::empty()
        }
    }
}

/// Whether one of the children of `node` is an attribute spelled `name`.
fn has_attr(node: &Node, name: &str) -> (r: bool)
    requires
        node.wf(),
    ensures
        r == has_attr_named(node.tree(), node.data().children, name@),
{
    let kids = children_of(&node);
    let ghost t = node.tree();
    let ghost ids = node.data().children;
    let mut i: usize = 0;
    while i < kids.len()
        invariant
            node.wf(),
            t == node.tree(),
            ids == node.data().children,
            kids_of(kids@, ids, t),
            i <= kids@.len(),
            forall|j: int|
                0 <= j < i ==> !((#[trigger] t[ids[j] as int]).kind == NodeKind::Attribute && t[ids[j] as int].text
                    == Some(name@)),
        decreases kids@.len() - i,
    {
        assert(kids@[i as int].wf() && kids@[i as int].id() == ids[i as int] && kids@[i as int].tree() == t);
        if kids[i].kind() == NodeKind::Attribute {
            match kids[i].text() {
                Some(x) => {
                    if str_same(x.as_str(), name) {
                        assert(t[ids[i as int] as int].text == Some(name@));
                        assert(t[ids[i as int] as int].kind == NodeKind::Attribute);
                        assert(0 <= i < ids.len());
                        return true;
                    }
                },
                None => {},
            }
        }
        i += 1;
    }
    false
}

/// Whether `node` declares a result builder.
fn is_builder_node(node: &Node) -> (r: bool)
    requires
        node.wf(),
    ensures
        r == is_builder_type(node.tree(), node.id() as int),
{
    let k = node.kind();
    (k == NodeKind::StructDecl || k == NodeKind::EnumDecl || k == NodeKind::ClassDecl || k
        == NodeKind::ActorDecl) && has_attr(node, "resultBuilder")
}

/// Append to `out` the methods of the children of `node` (see
/// [`member_methods`]).
#[verifier::loop_isolation(false)]
fn collect_methods(node: &Node, out: &mut Vec<(String, usize)>)
    requires
        node.wf(),
    ensures
        final(out)@.map_values(|p: (String, usize)| (p.0@, p.1 as nat)) == old(out)@.map_values(
            |p: (String, usize)| (p.0@, p.1 as nat),
        ) + member_methods(node.tree(), node.data().children, node.id() as int),
    decreases node.id(),
{
    let ghost t = node.tree();
    let ghost id = node.id() as int;
    let ghost start = old(out)@.map_values(|p: (String, usize)| (p.0@, p.1 as nat));
    proof {
        node.lemma_in_tree();
        node.lemma_children_below();
    }
    let kids = children_of(&node);
    let ghost ids = node.data().children;
    let mut i: usize = 0;
    while i < kids.len()
        invariant
            node.wf(),
            t == node.tree(),
            id == node.id() as int,
            i <= kids@.len(),
            out@.map_values(|p: (String, usize)| (p.0@, p.1 as nat)) == start + member_methods(
                t,
                ids.subrange(0, i as int),
                id,
            ),
        decreases kids@.len() - i,
    {
        let c = &kids[i];
        assert(kids@[i as int].wf() && kids@[i as int].id() == ids[i as int] && kids@[i as int].tree() == t);
        assert((ids[i as int] as int) < id);
        assert(ids.subrange(0, i as int + 1).drop_last() =~= ids.subrange(0, i as int));
        assert(ids.subrange(0, i as int + 1).last() == ids[i as int]);
        let ck = c.kind();
        if ck == NodeKind::FuncDecl {
            match c.text() {
                Some(name) => {
                    let n = count_params(c);
                    let ghost before = out@;
                    out.push((name, n));
                    assert(out@.map_values(|p: (String, usize)| (p.0@, p.1 as nat)) =~= before.map_values(
                        |p: (String, usize)| (p.0@, p.1 as nat),
                    ).push((t[ids[i as int] as int].text.unwrap(), param_count(t, t[ids[i as int] as int].children))));
                },
                None => {},
            }
        } else if ck == NodeKind::Block {
            collect_methods(c, out);
        }
        i += 1;
    }
    assert(ids.subrange(0, ids.len() as int) =~= ids);
}

/// How many of the children of `node` are parameters.
fn count_params(node: &Node) -> (r: usize)
    requires
        node.wf(),
    ensures
        r as nat == param_count(node.tree(), node.data().children),
{
    let kids = children_of(&node);
    let ghost t = node.tree();
    let ghost ids = node.data().children;
    let mut n: usize = 0;
    let mut i: usize = 0;
    while i < kids.len()
        invariant
            node.wf(),
            t == node.tree(),
            ids == node.data().children,
            kids_of(kids@, ids, t),
            i <= kids@.len(),
            n <= i,
            n as nat == param_count(t, ids.subrange(0, i as int)),
        decreases kids@.len() - i,
    {
        assert(kids@[i as int].wf() && kids@[i as int].id() == ids[i as int] && kids@[i as int].tree() == t);
        assert(ids.subrange(0, i as int + 1).drop_last() =~= ids.subrange(0, i as int));
        if kids[i].kind() == NodeKind::Param {
            n += 1;
        }
        i += 1;
    }
    assert(ids.subrange(0, ids.len() as int) =~= ids);
    n
}

/// The methods of the result builder `name` declared in `analysis`.
fn builder_named(analysis: &Analysis, name: &str) -> (r: Option<BuilderMethods>)
    requires
        analysis.wf(),
    ensures
        match r {
            Some(m) => builder_methods_of(analysis.tree(), name@) == Some(m@),
            None => builder_methods_of(analysis.tree(), name@) is None,
        },
{
    let ghost t = analysis.tree();
    let n = analysis.node_count();
    let mut i: usize = 0;
    while i < n
        invariant
            analysis.wf(),
            t == analysis.tree(),
            n == t.len(),
            i <= n,
            builder_type_from(t, name@, 0) == builder_type_from(t, name@, i as int),
        decreases n - i,
    {
        let node = analysis.node_at(i);
        if is_builder_node(&node) {
            match node.text() {
                Some(x) => {
                    if str_same(x.as_str(), name) {
                        let mut methods: Vec<(String, usize)> = Vec::new();
                        collect_methods(&node, &mut methods);
                        assert(methods@.map_values(|p: (String, usize)| (p.0@, p.1 as nat)) =~= Seq::<(
                            String,
                            usize,
                        )>::empty().map_values(|p: (String, usize)| (p.0@, p.1 as nat)) + member_methods(
                            t,
                            t[i as int].children,
                            i as int,
                        ));
                        return Some(BuilderMethods { methods });
                    }
                },
                None => {},
            }
        }
        i += 1;
    }
    None
}

/// The builder that the first builder-naming attribute among the children of
/// `node` names.
fn attr_builder(analysis: &Analysis, node: &Node) -> (r: Option<BuilderMethods>)
    requires
        analysis.wf(),
        node.wf(),
        node.tree() == analysis.tree(),
    ensures
        match r {
            Some(m) => attr_builder_at(node.tree(), node.data().children, 0) == Some(m@),
            None => attr_builder_at(node.tree(), node.data().children, 0) is None,
        },
{
    let kids = children_of(&node);
    let ghost t = node.tree();
    let ghost ids = node.data().children;
    let mut i: usize = 0;
    while i < kids.len()
        invariant
            node.wf(),
            t == node.tree(),
            ids == node.data().children,
            analysis.wf(),
            t == analysis.tree(),
            kids_of(kids@, ids, t),
            i <= kids@.len(),
            attr_builder_at(t, ids, 0) == attr_builder_at(t, ids, i as int),
        decreases kids@.len() - i,
    {
        assert(kids@[i as int].wf() && kids@[i as int].id() == ids[i as int] && kids@[i as int].tree() == t);
        if kids[i].kind() == NodeKind::Attribute {
            match kids[i].text() {
                Some(x) => {
                    assert(t[ids[i as int] as int].text == Some(x@));
                    match builder_named(analysis, x.as_str()) {
                        Some(m) => {
                            assert(attr_builder_at(t, ids, i as int) == Some(m@));
                            return Some(m);
                        },
                        None => {},
                    }
                },
                None => {},
            }
        }
        i += 1;
    }
    None
}

/// The first `get` accessor among the children of `node`.
fn getter_of<'a>(node: &Node<'a>) -> (r: Option<Node<'a>>)
    requires
        node.wf(),
    ensures
        match r {
            Some(g) => getter_at(node.tree(), node.data().children, 0) matches Some(p) && g.wf() && g.tree()
                == node.tree() && g.id() == node.data().children[p],
            None => getter_at(node.tree(), node.data().children, 0) is None,
        },
{
    let kids = children_of(&node);
    let ghost t = node.tree();
    let ghost ids = node.data().children;
    let mut i: usize = 0;
    while i < kids.len()
        invariant
            node.wf(),
            t == node.tree(),
            ids == node.data().children,
            kids_of(kids@, ids, t),
            i <= kids@.len(),
            getter_at(t, ids, 0) == getter_at(t, ids, i as int),
        decreases kids@.len() - i,
    {
        assert(kids@[i as int].wf() && kids@[i as int].id() == ids[i as int] && kids@[i as int].tree() == t);
        if kids[i].kind() == NodeKind::AccessorDecl {
            match kids[i].text() {
                Some(x) => {
                    if str_same(x.as_str(), "get") {
                        assert(t[ids[i as int] as int].text == Some("get"@));
                        assert(getter_at(t, ids, i as int) == Some(i as int));
                        return Some(kids[i]);
                    }
                },
                None => {},
            }
        }
        i += 1;
    }
    None
}

/// The first block among the children of `node`.
fn first_block<'a>(node: &Node<'a>) -> (r: Option<Node<'a>>)
    requires
        node.wf(),
    ensures
        match r {
            Some(b) => first_of_kind_at(node.tree(), node.data().children, 0, NodeKind::Block) matches Some(
                p,
            ) && b.wf() && b.tree() == node.tree() && b.id() == node.data().children[p],
            None => first_of_kind_at(node.tree(), node.data().children, 0, NodeKind::Block) is None,
        },
{
    let kids = children_of(&node);
    let ghost t = node.tree();
    let ghost ids = node.data().children;
    match first_of_kind(&kids, NodeKind::Block, Ghost(t), Ghost(ids)) {
        Some(p) => {
            Some(kids[p])
        },
        None => None,
    }
}

/// The builder diagnostics of `node`'s body, if a builder attribute names a
/// builder that can fold a block (see [`target_diags`]).
fn check_target(analysis: &Analysis, node: &Node, diags: &mut Vec<Diagnostic>)
    requires
        analysis.wf(),
        node.wf(),
        node.tree() == analysis.tree(),
    ensures
        diagnostics_view(final(diags)@) == diagnostics_view(old(diags)@) + target_diags(
            node.tree(),
            node.id() as int,
        ),
{
    let ghost t = node.tree();
    let ghost id = node.id() as int;
    let methods = match attr_builder(analysis, node) {
        Some(m) => m,
        None => {
            assert(diagnostics_view(diags@) =~= diagnostics_view(old(diags)@) + target_diags(t, id));
            return;
        },
    };
    if !methods.has_fold() {
        assert(diagnostics_view(diags@) =~= diagnostics_view(old(diags)@) + target_diags(t, id));
        return;
    }
    let k = node.kind();
    let body = if k == NodeKind::FuncDecl {
        first_block(node)
    } else if k == NodeKind::VarDecl || k == NodeKind::SubscriptDecl {
        match getter_of(node) {
            Some(g) => first_block(&g),
            None => None,
        }
    } else {
        None
    };
    match body {
        Some(b) => {
            assert(builder_body_block(t, id) == Some(b.id() as int));
            let stmts = children_of(&b);
            if stmts.len() == 1 {
                assert(stmts@[0].wf() && stmts@[0].id() == b.data().children[0] && stmts@[0].tree() == t);
            }
            if stmts.len() == 1 && stmts[0].kind() == NodeKind::ReturnStmt {
                assert(diagnostics_view(diags@) =~= diagnostics_view(old(diags)@) + target_diags(t, id));
                return;
            }
            validate_builder_body(&b, &methods, diags);
        },
        None => {
            assert(diagnostics_view(diags@) =~= diagnostics_view(old(diags)@) + target_diags(t, id));
        },
    }
}

/// Walk the subtrees of the children of `node`, each declaration before
/// what it contains, and check each builder body met.
fn walk_targets(analysis: &Analysis, node: &Node, diags: &mut Vec<Diagnostic>)
    requires
        analysis.wf(),
        node.wf(),
        node.tree() == analysis.tree(),
    ensures
        diagnostics_view(final(diags)@) == diagnostics_view(old(diags)@) + builder_walk_diags(
            node.tree(),
            node.data().children,
            node.id() as int,
        ),
    decreases node.id(),
{
    let ghost t = node.tree();
    let ghost id = node.id() as int;
    let ghost start = diagnostics_view(diags@);
    proof {
        node.lemma_in_tree();
        node.lemma_children_below();
    }
    let kids = children_of(&node);
    let ghost ids = node.data().children;
    let mut i: usize = 0;
    while i < kids.len()
        invariant
            analysis.wf(),
            node.wf(),
            t == node.tree(),
            t == analysis.tree(),
            id == node.id() as int,
            kids_of(kids@, ids, t),
            forall|j: int| 0 <= j < ids.len() ==> (#[trigger] ids[j] as int) < id,
            i <= kids@.len(),
            diagnostics_view(diags@) == start + builder_walk_diags(t, ids.subrange(0, i as int), id),
        decreases kids@.len() - i,
    {
        let c = &kids[i];
        assert(kids@[i as int].wf() && kids@[i as int].id() == ids[i as int] && kids@[i as int].tree() == t);
        assert((ids[i as int] as int) < id);
        assert(ids.subrange(0, i as int + 1).drop_last() =~= ids.subrange(0, i as int));
        assert(ids.subrange(0, i as int + 1).last() == ids[i as int]);
        let ghost before = diagnostics_view(diags@);
        let ck = c.kind();
        if ck == NodeKind::FuncDecl || ck == NodeKind::VarDecl || ck == NodeKind::SubscriptDecl {
            check_target(analysis, c, diags);
        }
        let ghost mid = diagnostics_view(diags@);
        walk_targets(analysis, c, diags);
        assert(diagnostics_view(diags@) =~= start + builder_walk_diags(t, ids.subrange(0, i as int + 1), id));
        i += 1;
    }
    assert(ids.subrange(0, ids.len() as int) =~= ids);
}

/// The diagnostics that the result-builder bodies of the program give, each
/// declaration before what it contains.
pub open spec fn builder_pass_diags(t: Seq<NodeView>, root: int) -> Seq<DiagnosticView> {
    builder_walk_diags(t, t[root].children, root)
}

/// Check every result-builder body of `analysis`: each function, computed
/// property or subscript whose attribute names a `@resultBuilder` type that
/// can fold a block has its body checked against the builder's methods
/// ([`validate_builder_body`]). The tree is read, not changed.
pub fn check_builder_bodies(analysis: &Analysis) -> (r: Vec<Diagnostic>)
    requires
        analysis.wf(),
    ensures
        diagnostics_view(r@) == builder_pass_diags(analysis.tree(), analysis.root_id() as int),
{
    let mut diags: Vec<Diagnostic> = Vec::new();
    let root = analysis.root();
    walk_targets(analysis, &root, &mut diags);
    assert(diagnostics_view(diags@) =~= builder_pass_diags(analysis.tree(), analysis.root_id() as int));
    diags
}

} // verus!
