//! The annotate pass: resolve names against lexical scopes, record a type on
//! each expression and declaration whose type the pass models, and report
//! the semantic errors found on the way (a mismatched annotation, operands
//! that cannot combine, assignment to a `let` constant, a stored property in
//! an extension, a non-exhaustive `switch`).
//!
//! The pass is stated as a walk over the tree that threads a
//! [`ResolveState`]: the scope stack, the recorded `(node, type)` pairs and
//! the diagnostics. Each executable step below is proved to perform exactly
//! the corresponding step of that walk.
use vstd::prelude::*;
use crate::decode::STATIC;
use crate::sema::{diagnostics_view, switch_diag, Diagnostic, DiagnosticView, Symbols, SymbolsView};
use crate::syntax::Node;
use crate::syntax::{first_child_of_kind, NodeKind, NodeView};
use crate::text::str_same;

verus! {

/// The scalar types the pass models.
#[derive(Debug, Clone, Copy, PartialEq, Eq, Structural)]
pub enum Type {
    Int,
    Double,
    String,
    Bool,
    Void,
    Regex,
}

/// The Swift spelling of `t`.
pub open spec fn type_spelling(t: Type) -> Seq<char> {
    match t {
        Type::Int => "Int"@,
        Type::Double => "Double"@,
        Type::String => "String"@,
        Type::Bool => "Bool"@,
        Type::Void => "Void"@,
        Type::Regex => "Regex"@,
    }
}

impl Type {
    /// The Swift spelling of this type.
    pub fn name(self) -> (r: &'static str)
        ensures
            r@ == type_spelling(self),
    {
        match self {
            Type::Int => "Int",
            Type::Double => "Double",
            Type::String => "String",
            Type::Bool => "Bool",
            Type::Void => "Void",
            Type::Regex => "Regex",
        }
    }
}

/// The modelled type a written annotation names, if any.
pub open spec fn annotation_type(text: Seq<char>) -> Option<Type> {
    if text == "Int"@ {
        Some(Type::Int)
    } else if text == "Double"@ {
        Some(Type::Double)
    } else if text == "String"@ {
        Some(Type::String)
    } else if text == "Bool"@ {
        Some(Type::Bool)
    } else if text == "Void"@ {
        Some(Type::Void)
    } else if text == "Regex"@ {
        Some(Type::Regex)
    } else {
        None
    }
}

/// The modelled type a written annotation names, if any.
pub fn parse_type_name(text: &str) -> (r: Option<Type>)
    ensures
        r == annotation_type(text@),
{
    if str_same(text, "Int") {
        Some(Type::Int)
    } else if str_same(text, "Double") {
        Some(Type::Double)
    } else if str_same(text, "String") {
        Some(Type::String)
    } else if str_same(text, "Bool") {
        Some(Type::Bool)
    } else if str_same(text, "Void") {
        Some(Type::Void)
    } else if str_same(text, "Regex") {
        Some(Type::Regex)
    } else {
        None
    }
}

/// The modelled type of an optional annotation text.
pub open spec fn opt_annotation(text: Option<Seq<char>>) -> Option<Type> {
    match text {
        Some(t) => annotation_type(t),
        None => None,
    }
}

/// Whether a value of type `from` converts implicitly to `to`: an integer
/// widens to `Double`.
pub open spec fn coercible(from: Type, to: Type) -> bool {
    from == Type::Int && to == Type::Double
}

/// One name binding: its type, when known, and whether it may be assigned.
#[derive(Clone, Copy)]
pub struct Binding {
    pub ty: Option<Type>,
    pub mutable: bool,
}

/// The state the walk threads: the scopes (innermost last; within a scope a
/// later binding of a name hides an earlier one), the recorded
/// `(node, type)` pairs, the diagnostics, and whether the walk is directly
/// inside a type's member list (where a `let` may still be assigned).
pub struct ResolveState {
    pub scopes: Seq<Seq<(Seq<char>, Binding)>>,
    pub types: Seq<(usize, Type)>,
    pub diags: Seq<DiagnosticView>,
    pub in_type_body: bool,
}

/// The binding of `name` in one scope.
pub open spec fn scope_lookup(scope: Seq<(Seq<char>, Binding)>, name: Seq<char>) -> Option<Binding>
    decreases scope.len(),
{
    if scope.len() == 0 {
        None
    } else if scope.last().0 == name {
        Some(scope.last().1)
    } else {
        scope_lookup(scope.drop_last(), name)
    }
}

/// The binding of `name` in the innermost scope that binds it.
pub open spec fn lookup_binding(scopes: Seq<Seq<(Seq<char>, Binding)>>, name: Seq<char>) -> Option<Binding>
    decreases scopes.len(),
{
    if scopes.len() == 0 {
        None
    } else {
        match scope_lookup(scopes.last(), name) {
            Some(b) => Some(b),
            None => lookup_binding(scopes.drop_last(), name),
        }
    }
}

/// The type `name` is bound to, when known.
pub open spec fn lookup_type(st: ResolveState, name: Seq<char>) -> Option<Type> {
    match lookup_binding(st.scopes, name) {
        Some(b) => b.ty,
        None => None,
    }
}

/// `st` with `name` bound in the innermost scope; a binding made directly in
/// a type's member list is always assignable.
pub open spec fn bind(st: ResolveState, name: Seq<char>, ty: Option<Type>, mutable: bool) -> ResolveState {
    if st.scopes.len() == 0 {
        st
    } else {
        let b = Binding { ty, mutable: mutable || st.in_type_body };
        ResolveState { scopes: st.scopes.update(st.scopes.len() - 1, st.scopes.last().push((name, b))), ..st }
    }
}

/// `st` with a new innermost scope.
pub open spec fn push_scope(st: ResolveState) -> ResolveState {
    ResolveState { scopes: st.scopes.push(Seq::empty()), ..st }
}

/// `st` without its innermost scope.
pub open spec fn pop_scope(st: ResolveState) -> ResolveState {
    if st.scopes.len() == 0 {
        st
    } else {
        ResolveState { scopes: st.scopes.drop_last(), ..st }
    }
}

/// `st` with `in_type_body` set to `b`.
pub open spec fn with_type_body(st: ResolveState, b: bool) -> ResolveState {
    ResolveState { in_type_body: b, ..st }
}

/// `st` with node `id` recorded as of type `t`, when there is one.
pub open spec fn record(st: ResolveState, id: usize, t: Option<Type>) -> ResolveState {
    match t {
        Some(ty) => ResolveState { types: st.types.push((id, ty)), ..st },
        None => st,
    }
}

/// `st` with a diagnostic `message` at node `n`.
pub open spec fn report(st: ResolveState, message: Seq<char>, n: NodeView) -> ResolveState {
    ResolveState { diags: st.diags.push(DiagnosticView { message, line: n.line, col: n.col }), ..st }
}

/// The entry of `funcs` named `name`, if any.
pub open spec fn func_return(funcs: Seq<(Seq<char>, Type)>, name: Seq<char>) -> Option<Type>
    decreases funcs.len(),
{
    if funcs.len() == 0 {
        None
    } else if funcs.last().0 == name {
        Some(funcs.last().1)
    } else {
        func_return(funcs.drop_last(), name)
    }
}

/// `st` with every function declared among `kids` bound to its declared
/// return type (`Void` when unknown), so that a call may precede the
/// function in its block.
pub open spec fn prebind(nodes: Seq<NodeView>, sv: SymbolsView, kids: Seq<usize>, st: ResolveState) -> ResolveState
    decreases kids.len(),
{
    if kids.len() == 0 {
        st
    } else {
        let st1 = prebind(nodes, sv, kids.drop_last(), st);
        let n = nodes[kids.last() as int];
        if n.kind == NodeKind::FuncDecl && n.text is Some {
            let ret = match func_return(sv.funcs, n.text->0) {
                Some(t) => t,
                None => Type::Void,
            };
            bind(st1, n.text->0, Some(ret), false)
        } else {
            st1
        }
    }
}

/// Whether some child among `kids` has kind `k`.
pub open spec fn has_child_kind(nodes: Seq<NodeView>, kids: Seq<usize>, k: NodeKind) -> bool {
    exists|i: int| 0 <= i < kids.len() && #[trigger] nodes[kids[i] as int].kind == k
}

/// Whether node `c` is an instance stored property: a `let`/`var` without a
/// `static`/`class` modifier and without accessors.
pub open spec fn stored_property(nodes: Seq<NodeView>, c: int) -> bool {
    let n = nodes[c];
    &&& (n.kind == NodeKind::VarDecl || n.kind == NodeKind::LetDecl)
    &&& n.modifiers & STATIC == 0
    &&& !has_child_kind(nodes, n.children, NodeKind::AccessorDecl)
}

/// The annotation and initializer among the children `kids` of a binding
/// that follow its pattern: the modelled type of the last `TypeRef`, and the
/// last child of another kind.
pub open spec fn binding_parts(nodes: Seq<NodeView>, kids: Seq<usize>) -> (Option<Type>, Option<usize>)
    decreases kids.len(),
{
    if kids.len() == 0 {
        (None, None)
    } else {
        let prev = binding_parts(nodes, kids.drop_last());
        let c = kids.last();
        if nodes[c as int].kind == NodeKind::TypeRef {
            (opt_annotation(nodes[c as int].text), prev.1)
        } else {
            (prev.0, Some(c))
        }
    }
}

/// The type a binding gets: its annotation when it has one, else its
/// initializer's.
pub open spec fn bound_type(annotation: Option<Type>, init: Option<Type>) -> Option<Type> {
    match annotation {
        Some(a) => Some(a),
        None => init,
    }
}

/// Whether an initializer of type `init` contradicts the annotation: both
/// known and different, the initializer's not `Void` (a type the pass
/// could not work out) and not convertible.
pub open spec fn mismatched(annotation: Option<Type>, init: Option<Type>) -> bool {
    match (annotation, init) {
        (Some(a), Some(b)) => a != b && b != Type::Void && !coercible(b, a),
        _ => false,
    }
}

/// The message for an initializer of type `b` under annotation `a`.
pub open spec fn convert_message(b: Type, a: Type) -> Seq<char> {
    "cannot convert value of type '"@ + type_spelling(b) + "' to specified type '"@ + type_spelling(a) + "'"@
}

/// The message for operands of types `a` and `b` under operator `op`.
pub open spec fn combine_message(op: Seq<char>, a: Type, b: Type) -> Seq<char> {
    "binary operator '"@ + op + "' cannot combine "@ + type_spelling(a) + " and "@ + type_spelling(b)
}

/// The message for an assignment to the `let` constant `name`.
pub open spec fn let_message(name: Seq<char>) -> Seq<char> {
    "cannot assign to value: '"@ + name + "' is a 'let' constant"@
}

/// The message for a stored property in an extension.
pub open spec fn extension_message() -> Seq<char> {
    "extensions must not contain stored properties"@
}

/// `st` after checking an assignment to node `lhs`: a bare name bound to a
/// constant is reported.
pub open spec fn check_assignable(nodes: Seq<NodeView>, lhs: int, st: ResolveState) -> ResolveState {
    let n = nodes[lhs];
    if n.kind != NodeKind::IdentExpr || n.text is None {
        st
    } else {
        match lookup_binding(st.scopes, n.text->0) {
            Some(b) => if !b.mutable {
                report(st, let_message(n.text->0), n)
            } else {
                st
            },
            None => st,
        }
    }
}

/// The type of a binary expression with operator `op` over operands of
/// types `lhs` and `rhs`, and whether they cannot combine.
pub open spec fn binary_type(op: Seq<char>, lhs: Option<Type>, rhs: Option<Type>) -> (Option<Type>, bool) {
    if crate::sema::comparison_op(op) || op == "&&"@ || op == "||"@ {
        (Some(Type::Bool), false)
    } else if op == "..<"@ || op == "..."@ {
        (None, false)
    } else if op == "??"@ {
        (if rhs is Some {
            rhs
        } else {
            lhs
        }, false)
    } else {
        let l = if lhs == Some(Type::Void) {
            None
        } else {
            lhs
        };
        let r = if rhs == Some(Type::Void) {
            None
        } else {
            rhs
        };
        match (l, r) {
            (Some(a), Some(b)) => if a == b {
                (Some(a), false)
            } else if coercible(a, b) {
                (Some(b), false)
            } else if coercible(b, a) {
                (Some(a), false)
            } else {
                (Some(a), true)
            },
            _ => (if l is Some {
                l
            } else {
                r
            }, false),
        }
    }
}

/// Whether an operand's type is known only as a number, or not known.
pub open spec fn number_or_unknown(t: Option<Type>) -> bool {
    t is None || t == Some(Type::Int) || t == Some(Type::Double)
}

/// Over numbers, the type of a binary expression does not depend on the side
/// each operand stands on: swapping the operands keeps the type and the
/// verdict, for every operator but `??` (which prefers its right side). An
/// arithmetic operator (any but a comparison, `&&`, `||`, a range or `??`)
/// over an `Int` and a `Double`, in either order, gives a `Double` and no
/// error.
pub proof fn lemma_number_operands_commute(op: Seq<char>, lhs: Option<Type>, rhs: Option<Type>)
    requires
        number_or_unknown(lhs),
        number_or_unknown(rhs),
        op != "??"@,
    ensures
        binary_type(op, lhs, rhs) == binary_type(op, rhs, lhs),
        !crate::sema::comparison_op(op) && op != "&&"@ && op != "||"@ && op != "..<"@ && op != "..."@
            && lhs is Some && rhs is Some && (lhs == Some(Type::Double) || rhs == Some(Type::Double))
            ==> binary_type(op, lhs, rhs) == (Some(Type::Double), false),
{
}

/// A comparison or logical operator gives a `Bool`, with no error, whatever
/// its operands; a range gives no type.
pub proof fn lemma_comparisons_are_bool(op: Seq<char>, lhs: Option<Type>, rhs: Option<Type>)
    ensures
        op == "=="@ || op == "!="@ || op == "<"@ || op == ">"@ || op == "<="@ || op == ">="@ || op == "&&"@
            || op == "||"@ ==> binary_type(op, lhs, rhs) == (Some(Type::Bool), false),
{
}

/// An arithmetic operator over two known types that are neither equal nor
/// an `Int` meeting a `Double` is an error, in either order: the type of the
/// left operand is kept, and the verdict does not depend on the order.
pub proof fn lemma_mismatched_operands_are_an_error(op: Seq<char>, a: Type, b: Type)
    requires
        !crate::sema::comparison_op(op) && op != "&&"@ && op != "||"@ && op != "..<"@ && op != "..."@
            && op != "??"@,
        a != b,
        a != Type::Void && b != Type::Void,
        !(a == Type::Int && b == Type::Double) && !(a == Type::Double && b == Type::Int),
    ensures
        binary_type(op, Some(a), Some(b)) == (Some(a), true),
        binary_type(op, Some(b), Some(a)) == (Some(b), true),
{
}

/// The text of node `c`, or `?` when it has none.
pub open spec fn op_of(n: NodeView) -> Seq<char> {
    match n.text {
        Some(t) => t,
        None => "?"@,
    }
}

// The walk. Each function is measured by the node it works on and a rank,
// so that a call goes either to a smaller node or, on the same node, to a
// lower rank.

/// `st` after resolving statement `id`.
pub open spec fn resolve_stmt(nodes: Seq<NodeView>, sv: SymbolsView, id: int, st: ResolveState) -> ResolveState
    decreases id, 5int, 0int,
{
    let n = nodes[id];
    let kids = n.children;
    let k = n.kind;
    if k == NodeKind::LetDecl || k == NodeKind::VarDecl {
        resolve_binding(nodes, sv, id, st)
    } else if k == NodeKind::FuncDecl {
        resolve_func(nodes, sv, id, st)
    } else if k == NodeKind::StructDecl || k == NodeKind::EnumDecl || k == NodeKind::ClassDecl || k
        == NodeKind::ProtocolDecl {
        let s1 = with_type_body(push_scope(st), true);
        let s2 = list_walk(nodes, sv, ListMode::Resolve, kids, id, s1);
        pop_scope(with_type_body(s2, st.in_type_body))
    } else if k == NodeKind::ExtensionDecl {
        let s1 = with_type_body(push_scope(st), true);
        let s2 = list_walk(nodes, sv, ListMode::Members, kids, id, s1);
        pop_scope(with_type_body(s2, st.in_type_body))
    } else if k == NodeKind::AssociatedTypeDecl || k == NodeKind::TypeAliasDecl || k == NodeKind::BreakStmt
        || k == NodeKind::ContinueStmt || k == NodeKind::FallthroughStmt || k == NodeKind::OperatorDecl || k
        == NodeKind::PrecedenceGroupDecl {
        st
    } else if k == NodeKind::DeinitDecl || k == NodeKind::AccessorDecl || k == NodeKind::IfStmt || k
        == NodeKind::GuardStmt || k == NodeKind::WhileStmt || k == NodeKind::DoStmt || k
        == NodeKind::CompilerDirective {
        list_walk(nodes, sv, ListMode::Resolve, kids, id, st)
    } else if k == NodeKind::InitDecl || k == NodeKind::SubscriptDecl {
        pop_scope(list_walk(nodes, sv, ListMode::Init, kids, id, push_scope(st)))
    } else if k == NodeKind::EnumCaseDecl {
        list_walk(nodes, sv, ListMode::Infer, kids, id, st)
    } else if k == NodeKind::Block {
        let s1 = prebind(nodes, sv, kids, with_type_body(push_scope(st), false));
        let s2 = list_walk(nodes, sv, ListMode::Resolve, kids, id, s1);
        pop_scope(with_type_body(s2, st.in_type_body))
    } else if k == NodeKind::RepeatStmt {
        let s1 = if kids.len() > 0 && kids[0] < id {
            resolve_stmt(nodes, sv, kids[0] as int, st)
        } else {
            st
        };
        if kids.len() > 1 && kids[1] < id {
            infer(nodes, sv, kids[1] as int, s1).1
        } else {
            s1
        }
    } else if k == NodeKind::ForStmt {
        pop_scope(for_walk(nodes, sv, id, push_scope(st)))
    } else if k == NodeKind::CatchClause {
        pop_scope(list_walk(nodes, sv, ListMode::Resolve, kids, id, push_scope(st)))
    } else if k == NodeKind::SwitchStmt {
        if kids.len() > 0 && kids[0] < id {
            let s1 = infer(nodes, sv, kids[0] as int, st).1;
            let s2 = list_walk(nodes, sv, ListMode::Clauses, kids.drop_first(), id, s1);
            ResolveState { diags: s2.diags + switch_diag(nodes, id, sv.enums), ..s2 }
        } else {
            st
        }
    } else if k == NodeKind::ReturnStmt || k == NodeKind::ThrowStmt {
        if kids.len() > 0 && kids[0] < id {
            infer(nodes, sv, kids[0] as int, st).1
        } else {
            st
        }
    } else if k == NodeKind::DeferStmt {
        if kids.len() > 0 && kids[0] < id {
            resolve_stmt(nodes, sv, kids[0] as int, st)
        } else {
            st
        }
    } else {
        infer(nodes, sv, id, st).1
    }
}

/// `st` after the parts of `for` loop `id` that follow its pattern: the
/// iterable (second child) is inferred, then each later child is resolved
/// when it is the body block and inferred otherwise (the `where` guard).
pub open spec fn for_walk(nodes: Seq<NodeView>, sv: SymbolsView, id: int, st: ResolveState) -> ResolveState
    decreases id, 4int, 1int,
{
    let kids = nodes[id].children;
    if kids.len() > 1 && kids[1] < id {
        let s1 = infer(nodes, sv, kids[1] as int, st).1;
        list_walk(nodes, sv, ListMode::For, kids.skip(2), id, s1)
    } else {
        st
    }
}

/// `st` after a `let`/`var` declaration `d` (children: pattern, then an
/// optional annotation and initializer): the initializer is inferred, a
/// contradicting annotation reported, and a name pattern bound to the
/// annotation's type (else the initializer's), both recorded.
pub open spec fn resolve_binding(nodes: Seq<NodeView>, sv: SymbolsView, d: int, st: ResolveState) -> ResolveState
    decreases d, 4int, 0int,
{
    let n = nodes[d];
    let kids = n.children;
    if kids.len() == 0 {
        st
    } else {
        let parts = binding_parts(nodes, kids.drop_first());
        let annotation = parts.0;
        let (init_ty, s1) = match parts.1 {
            Some(c) => if c < d {
                infer(nodes, sv, c as int, st)
            } else {
                (None, st)
            },
            None => (None, st),
        };
        let s2 = if mismatched(annotation, init_ty) {
            report(s1, convert_message(init_ty->0, annotation->0), n)
        } else {
            s1
        };
        let ty = bound_type(annotation, init_ty);
        let s3 = record(s2, d as usize, ty);
        let p = nodes[kids[0] as int];
        if p.kind == NodeKind::PatternValueBinding && p.text is Some {
            record(bind(s3, p.text->0, ty, n.kind == NodeKind::VarDecl), kids[0], ty)
        } else {
            s3
        }
    }
}

/// The modelled type of the last `TypeRef` among `kids` (an annotation that
/// names no modelled type counts as none).
pub open spec fn last_annotation(nodes: Seq<NodeView>, kids: Seq<usize>) -> Option<Type>
    decreases kids.len(),
{
    if kids.len() == 0 {
        None
    } else if nodes[kids.last() as int].kind == NodeKind::TypeRef {
        opt_annotation(nodes[kids.last() as int].text)
    } else {
        last_annotation(nodes, kids.drop_last())
    }
}

/// The last `Block` among `kids`.
pub open spec fn last_block(nodes: Seq<NodeView>, kids: Seq<usize>) -> Option<usize>
    decreases kids.len(),
{
    if kids.len() == 0 {
        None
    } else if nodes[kids.last() as int].kind == NodeKind::Block {
        Some(kids.last())
    } else {
        last_block(nodes, kids.drop_last())
    }
}

/// `st` after function declaration `f`: in a new scope, its parameters are
/// bound, its return type recorded, and its body resolved.
pub open spec fn resolve_func(nodes: Seq<NodeView>, sv: SymbolsView, f: int, st: ResolveState) -> ResolveState
    decreases f, 4int, 0int,
{
    let kids = nodes[f].children;
    let s1 = list_walk(nodes, sv, ListMode::Params, kids, f, push_scope(st));
    let s2 = record(s1, f as usize, last_annotation(nodes, kids));
    let s3 = match last_block(nodes, kids) {
        Some(b) => if b < f {
            resolve_stmt(nodes, sv, b as int, s2)
        } else {
            s2
        },
        None => s2,
    };
    pop_scope(s3)
}

/// `st` after parameter `p`: its name bound (assignable) to the modelled
/// type of its first `TypeRef`, that type recorded, and its other children
/// (a default value) inferred.
pub open spec fn bind_param(nodes: Seq<NodeView>, sv: SymbolsView, p: int, st: ResolveState) -> ResolveState
    decreases p, 4int, 0int,
{
    let n = nodes[p];
    let ty = match first_child_of_kind(nodes, n.children, NodeKind::TypeRef) {
        Some(c) => opt_annotation(nodes[c as int].text),
        None => None,
    };
    let s1 = match n.text {
        Some(name) => record(bind(st, name, ty, true), p as usize, ty),
        None => st,
    };
    list_walk(nodes, sv, ListMode::Defaults, n.children, p, s1)
}

/// `st` after resolving the clause `c` of a switch, in its own scope: its
/// body resolved, its other items (but a bound name) inferred.
pub open spec fn resolve_clause(nodes: Seq<NodeView>, sv: SymbolsView, c: int, st: ResolveState) -> ResolveState
    decreases c, 4int, 0int,
{
    pop_scope(list_walk(nodes, sv, ListMode::Items, nodes[c].children, c, push_scope(st)))
}

/// The type of expression `id` and `st` after inferring it (and recording
/// that type, when known).
pub open spec fn infer(nodes: Seq<NodeView>, sv: SymbolsView, id: int, st: ResolveState) -> (Option<Type>, ResolveState)
    decreases id, 4int, 0int,
{
    let n = nodes[id];
    let kids = n.children;
    let k = n.kind;
    let (ty, s) = if k == NodeKind::IntegerLiteral {
        (Some(Type::Int), st)
    } else if k == NodeKind::FloatLiteral {
        (Some(Type::Double), st)
    } else if k == NodeKind::StringLiteral {
        (Some(Type::String), st)
    } else if k == NodeKind::RegexLiteral {
        (Some(Type::Regex), st)
    } else if k == NodeKind::BoolLiteral {
        (Some(Type::Bool), st)
    } else if k == NodeKind::NilLiteral {
        (None, st)
    } else if k == NodeKind::IdentExpr {
        (match n.text {
            Some(name) => lookup_type(st, name),
            None => None,
        }, st)
    } else if k == NodeKind::CallExpr {
        let (callee, s1) = if kids.len() > 0 && kids[0] < id {
            infer(nodes, sv, kids[0] as int, st)
        } else {
            (None, st)
        };
        let s2 = if kids.len() > 0 {
            list_walk(nodes, sv, ListMode::Infer, kids.drop_first(), id, s1)
        } else {
            s1
        };
        (if callee is Some {
            callee
        } else {
            Some(Type::Void)
        }, s2)
    } else if k == NodeKind::PrefixExpr {
        let (operand, s1) = if kids.len() > 0 && kids[0] < id {
            infer(nodes, sv, kids[0] as int, st)
        } else {
            (None, st)
        };
        (if n.text == Some("!"@) {
            Some(Type::Bool)
        } else {
            operand
        }, s1)
    } else if k == NodeKind::BinaryExpr {
        let (lhs, s1) = if kids.len() > 0 && kids[0] < id {
            infer(nodes, sv, kids[0] as int, st)
        } else {
            (None, st)
        };
        let (rhs, s2) = if kids.len() > 1 && kids[1] < id {
            infer(nodes, sv, kids[1] as int, s1)
        } else {
            (None, s1)
        };
        let (t, bad) = binary_type(op_of(n), lhs, rhs);
        (t, if bad {
            report(s2, combine_message(op_of(n), lhs->0, rhs->0), n)
        } else {
            s2
        })
    } else if k == NodeKind::TernaryExpr {
        let s1 = if kids.len() > 0 && kids[0] < id {
            infer(nodes, sv, kids[0] as int, st).1
        } else {
            st
        };
        let (a, s2) = if kids.len() > 1 && kids[1] < id {
            infer(nodes, sv, kids[1] as int, s1)
        } else {
            (None, s1)
        };
        let (b, s3) = if kids.len() > 2 && kids[2] < id {
            infer(nodes, sv, kids[2] as int, s2)
        } else {
            (None, s2)
        };
        (if a is Some {
            a
        } else {
            b
        }, s3)
    } else if k == NodeKind::IfStmt {
        (None, list_walk(nodes, sv, ListMode::Resolve, kids, id, st))
    } else if k == NodeKind::AssignExpr {
        let s1 = if kids.len() > 0 && kids[0] < id {
            check_assignable(nodes, kids[0] as int, st)
        } else {
            st
        };
        (Some(Type::Void), list_walk(nodes, sv, ListMode::Infer, kids, id, s1))
    } else if k == NodeKind::ClosureExpr {
        let s1 = with_type_body(push_scope(st), false);
        let s2 = list_walk(nodes, sv, ListMode::Resolve, kids, id, s1);
        (None, pop_scope(with_type_body(s2, st.in_type_body)))
    } else if k == NodeKind::TryExpr {
        if kids.len() > 0 && kids[0] < id {
            infer(nodes, sv, kids[0] as int, st)
        } else {
            (None, st)
        }
    } else if k == NodeKind::CastExpr {
        let s1 = if kids.len() > 0 && kids[0] < id {
            infer(nodes, sv, kids[0] as int, st).1
        } else {
            st
        };
        (if n.text == Some("is"@) {
            Some(Type::Bool)
        } else if n.text == Some("as?"@) {
            None
        } else if kids.len() > 1 && kids[1] < id {
            opt_annotation(nodes[kids[1] as int].text)
        } else {
            None
        }, s1)
    } else {
        (None, list_walk(nodes, sv, ListMode::Infer, kids, id, st))
    };
    (ty, record(s, id as usize, ty))
}

/// The type a literal of kind `k` has: `Int`, `Double`, `String`, `Regex`
/// or `Bool`; none for `nil`.
pub open spec fn literal_type(k: NodeKind) -> Option<Type> {
    match k {
        NodeKind::IntegerLiteral => Some(Type::Int),
        NodeKind::FloatLiteral => Some(Type::Double),
        NodeKind::StringLiteral => Some(Type::String),
        NodeKind::RegexLiteral => Some(Type::Regex),
        NodeKind::BoolLiteral => Some(Type::Bool),
        _ => None,
    }
}

/// A literal is inferred at the type of its kind, whatever the scope: the
/// state only gains that type recorded for the node, and no diagnostic.
pub proof fn lemma_literal_type(nodes: Seq<NodeView>, sv: SymbolsView, id: int, st: ResolveState)
    requires
        0 <= id < nodes.len(),
        nodes[id].kind == NodeKind::IntegerLiteral || nodes[id].kind == NodeKind::FloatLiteral
            || nodes[id].kind == NodeKind::StringLiteral || nodes[id].kind == NodeKind::RegexLiteral
            || nodes[id].kind == NodeKind::BoolLiteral || nodes[id].kind == NodeKind::NilLiteral,
    ensures
        infer(nodes, sv, id, st) == (literal_type(nodes[id].kind), record(st, id as usize, literal_type(nodes[id].kind))),
        infer(nodes, sv, id, st).1.diags == st.diags,
{
}

/// Each literal has the type Swift gives it: an integer literal `Int`, a
/// float literal `Double`, a string `String`, a regex `Regex`, `true` and
/// `false` `Bool`; `nil` alone has no type of its own.
pub proof fn lemma_literals_have_their_types(nodes: Seq<NodeView>, sv: SymbolsView, id: int, st: ResolveState)
    requires
        0 <= id < nodes.len(),
    ensures
        nodes[id].kind == NodeKind::IntegerLiteral ==> infer(nodes, sv, id, st).0 == Some(Type::Int),
        nodes[id].kind == NodeKind::FloatLiteral ==> infer(nodes, sv, id, st).0 == Some(Type::Double),
        nodes[id].kind == NodeKind::StringLiteral ==> infer(nodes, sv, id, st).0 == Some(Type::String),
        nodes[id].kind == NodeKind::RegexLiteral ==> infer(nodes, sv, id, st).0 == Some(Type::Regex),
        nodes[id].kind == NodeKind::BoolLiteral ==> infer(nodes, sv, id, st).0 == Some(Type::Bool),
        nodes[id].kind == NodeKind::NilLiteral ==> infer(nodes, sv, id, st).0 is None,
{
    let k = nodes[id].kind;
    if k == NodeKind::IntegerLiteral || k == NodeKind::FloatLiteral || k == NodeKind::StringLiteral || k
        == NodeKind::RegexLiteral || k == NodeKind::BoolLiteral || k == NodeKind::NilLiteral {
        lemma_literal_type(nodes, sv, id, st);
    }
}

/// A name that no enclosing scope binds is inferred at no type, with no
/// diagnostic and nothing recorded.
pub proof fn lemma_unbound_name(nodes: Seq<NodeView>, sv: SymbolsView, id: int, st: ResolveState)
    requires
        0 <= id < nodes.len(),
        nodes[id].kind == NodeKind::IdentExpr,
        nodes[id].text matches Some(name) && lookup_type(st, name) is None,
    ensures
        infer(nodes, sv, id, st) == (None::<Type>, st),
{
}

/// How a list of children is walked.
#[derive(Clone, Copy, PartialEq, Eq, Structural)]
pub enum ListMode {
    /// Each child resolved as a statement.
    Resolve,
    /// Each child inferred as an expression.
    Infer,
    /// The members of an extension: a stored property is reported, then
    /// every member resolved.
    Members,
    /// The children of an initializer or subscript: a parameter bound, a
    /// `TypeRef` skipped, anything else resolved.
    Init,
    /// Only the parameters bound.
    Params,
    /// Everything but a `TypeRef` inferred (a parameter's default value).
    Defaults,
    /// The items of a case clause: the body `Block` resolved, a bound name
    /// skipped, anything else (a value pattern, the guard) inferred.
    Items,
    /// The children of a `for` loop: a `Block` resolved, anything else
    /// inferred.
    For,
    /// Each case clause resolved.
    Clauses,
}

/// `st` after walking each of `kids` (children of `parent`) in order.
pub open spec fn list_walk(nodes: Seq<NodeView>, sv: SymbolsView, mode: ListMode, kids: Seq<usize>, parent: int, st: ResolveState) -> ResolveState
    decreases parent, 2int, kids.len(),
{
    if kids.len() == 0 {
        st
    } else {
        let s1 = list_walk(nodes, sv, mode, kids.drop_last(), parent, st);
        let c = kids.last() as int;
        if 0 <= c < parent {
            list_step(nodes, sv, mode, c, s1)
        } else {
            s1
        }
    }
}

/// `st` after walking child `c` in the given mode.
pub open spec fn list_step(nodes: Seq<NodeView>, sv: SymbolsView, mode: ListMode, c: int, st: ResolveState) -> ResolveState
    decreases c, 6int, 0int,
{
    let k = nodes[c].kind;
    match mode {
        ListMode::Resolve => resolve_stmt(nodes, sv, c, st),
        ListMode::Infer => infer(nodes, sv, c, st).1,
        ListMode::Members => resolve_stmt(
            nodes,
            sv,
            c,
            if stored_property(nodes, c) {
                report(st, extension_message(), nodes[c])
            } else {
                st
            },
        ),
        ListMode::Init => if k == NodeKind::Param {
            bind_param(nodes, sv, c, st)
        } else if k == NodeKind::TypeRef {
            st
        } else {
            resolve_stmt(nodes, sv, c, st)
        },
        ListMode::Params => if k == NodeKind::Param {
            bind_param(nodes, sv, c, st)
        } else {
            st
        },
        ListMode::Defaults => if k != NodeKind::TypeRef {
            infer(nodes, sv, c, st).1
        } else {
            st
        },
        ListMode::Items => if k == NodeKind::Block {
            resolve_stmt(nodes, sv, c, st)
        } else if k == NodeKind::PatternValueBinding {
            st
        } else {
            infer(nodes, sv, c, st).1
        },
        ListMode::For => if k == NodeKind::Block {
            resolve_stmt(nodes, sv, c, st)
        } else {
            infer(nodes, sv, c, st).1
        },
        ListMode::Clauses => resolve_clause(nodes, sv, c, st),
    }
}

/// The state the walk starts from: one empty scope, nothing recorded.
pub open spec fn initial_state() -> ResolveState {
    ResolveState { scopes: seq![Seq::empty()], types: Seq::empty(), diags: Seq::empty(), in_type_body: false }
}

/// The annotate pass over the tree `nodes` rooted at `root`: the functions
/// declared at top level are bound first, then each top-level statement is
/// resolved in order.
pub open spec fn annotate(nodes: Seq<NodeView>, sv: SymbolsView, root: int) -> ResolveState {
    let kids = nodes[root].children;
    list_walk(nodes, sv, ListMode::Resolve, kids, root, prebind(nodes, sv, kids, initial_state()))
}

/// The plain values of one scope.
pub open spec fn scope_view(s: Seq<(String, Binding)>) -> Seq<(Seq<char>, Binding)> {
    s.map_values(|e: (String, Binding)| (e.0@, e.1))
}

/// The plain values of a scope stack.
pub open spec fn scopes_view(v: Seq<Vec<(String, Binding)>>) -> Seq<Seq<(Seq<char>, Binding)>> {
    v.map_values(|s: Vec<(String, Binding)>| scope_view(s@))
}

/// The running state of the annotate pass (see [`ResolveState`]).
pub struct Resolver {
    scopes: Vec<Vec<(String, Binding)>>,
    types: Vec<(usize, Type)>,
    diags: Vec<Diagnostic>,
    in_type_body: bool,
}

impl View for Resolver {
    type V = ResolveState;

    closed spec fn view(&self) -> ResolveState {
        ResolveState {
            scopes: scopes_view(self.scopes@),
            types: self.types@,
            diags: diagnostics_view(self.diags@),
            in_type_body: self.in_type_body,
        }
    }
}

impl Resolver {
    /// A resolver in the initial state (see [`initial_state`]).
    fn new() -> (r: Resolver)
        ensures
            r@ == initial_state(),
    {
        let mut scopes: Vec<Vec<(String, Binding)>> = Vec::new();
        scopes.push(Vec::new());
        let r = Resolver { scopes, types: Vec::new(), diags: Vec::new(), in_type_body: false };
        assert(r@.scopes =~= initial_state().scopes) by {
            assert(scope_view(r.scopes@[0]@) =~= Seq::<(Seq<char>, Binding)>::empty());
        }
        assert(r@.diags =~= Seq::<DiagnosticView>::empty());
        r
    }

    fn push_scope(&mut self)
        ensures
            final(self)@ == push_scope(old(self)@),
    {
        self.scopes.push(Vec::new());
        assert(scope_view(Seq::<(String, Binding)>::empty()) =~= Seq::<(Seq<char>, Binding)>::empty());
        assert(self@.scopes =~= push_scope(old(self)@).scopes);
    }

    fn pop_scope(&mut self)
        ensures
            final(self)@ == pop_scope(old(self)@),
    {
        if self.scopes.len() > 0 {
            self.scopes.pop();
            assert(self@.scopes =~= pop_scope(old(self)@).scopes);
        }
    }

    fn set_type_body(&mut self, b: bool)
        ensures
            final(self)@ == with_type_body(old(self)@, b),
    {
        self.in_type_body = b;
    }

    fn bind(&mut self, name: String, ty: Option<Type>, mutable: bool)
        ensures
            final(self)@ == bind(old(self)@, name@, ty, mutable),
    {
        if self.scopes.len() == 0 {
            return;
        }
        let b = Binding { ty, mutable: mutable || self.in_type_body };
        let ghost nv = name@;
        let mut last = self.scopes.pop().unwrap();
        let ghost lv = scope_view(last@);
        last.push((name, b));
        assert(scope_view(last@) =~= lv.push((nv, b)));
        self.scopes.push(last);
        assert(self@.scopes =~= bind(old(self)@, nv, ty, mutable).scopes);
    }

    fn lookup_binding(&self, name: &str) -> (r: Option<Binding>)
        ensures
            r == lookup_binding(self@.scopes, name@),
    {
        let ghost sv = self@.scopes;
        let mut i = self.scopes.len();
        assert(sv.take(i as int) =~= sv);
        while i > 0
            invariant
                i <= self.scopes@.len(),
                sv == self@.scopes,
                lookup_binding(sv, name@) == lookup_binding(sv.take(i as int), name@),
            decreases i,
        {
            assert(sv.take(i as int).drop_last() =~= sv.take(i as int - 1));
            assert(sv.take(i as int).last() == scope_view(self.scopes@[i - 1]@));
            let scope = &self.scopes[i - 1];
            let ghost cv = scope_view(scope@);
            let ghost rest = lookup_binding(sv.take(i as int - 1), name@);
            assert(lookup_binding(sv, name@) == match scope_lookup(cv, name@) {
                Some(b) => Some(b),
                None => rest,
            });
            let mut j = scope.len();
            assert(cv.take(j as int) =~= cv);
            while j > 0
                invariant
                    j <= scope@.len(),
                    sv == self@.scopes,
                    cv == scope_view(scope@),
                    scope_lookup(cv, name@) == scope_lookup(cv.take(j as int), name@),
                    lookup_binding(sv, name@) == match scope_lookup(cv, name@) {
                        Some(b) => Some(b),
                        None => rest,
                    },
                decreases j,
            {
                assert(cv.take(j as int).drop_last() =~= cv.take(j as int - 1));
                assert(cv.take(j as int).last() == (scope@[j - 1].0@, scope@[j - 1].1));
                if str_same(scope[j - 1].0.as_str(), name) {
                    let b = scope[j - 1].1;
                    assert(scope_lookup(cv.take(j as int), name@) == Some(b));
                    assert(scope_lookup(cv, name@) == Some(b));
                    return Some(b);
                }
                j -= 1;
            }
            assert(cv.take(0) =~= Seq::<(Seq<char>, Binding)>::empty());
            i -= 1;
        }
        assert(sv.take(0) =~= Seq::<Seq<(Seq<char>, Binding)>>::empty());
        None
    }

    fn record(&mut self, id: usize, t: Option<Type>)
        ensures
            final(self)@ == record(old(self)@, id, t),
    {
        match t {
            Some(ty) => {
                self.types.push((id, ty));
            },
            None => {},
        }
    }

    fn report(&mut self, message: String, node: &Node)
        requires
            node.wf(),
        ensures
            final(self)@ == report(old(self)@, message@, node.data()),
    {
        let ghost before = self@.diags;
        let ghost mv = message@;
        self.diags.push(Diagnostic { message, line: node.line(), col: node.col() });
        assert(self@.diags =~= before.push(DiagnosticView { message: mv, line: node.data().line, col: node.data().col }));
    }
}

/// The message for an initializer of type `b` under annotation `a`.
fn convert_message_of(b: Type, a: Type) -> (r: String)
    ensures
        r@ == convert_message(b, a),
{
    let mut m = String::from_str("cannot convert value of type '");
    m.append(b.name());
    m.append("' to specified type '");
    m.append(a.name());
    m.append("'");
    m
}

/// The message for operands of types `a` and `b` under operator `op`.
fn combine_message_of(op: &str, a: Type, b: Type) -> (r: String)
    ensures
        r@ == combine_message(op@, a, b),
{
    let mut m = String::from_str("binary operator '");
    m.append(op);
    m.append("' cannot combine ");
    m.append(a.name());
    m.append(" and ");
    m.append(b.name());
    m
}

/// The message for an assignment to the `let` constant `name`.
fn let_message_of(name: &str) -> (r: String)
    ensures
        r@ == let_message(name@),
{
    let mut m = String::from_str("cannot assign to value: '");
    m.append(name);
    m.append("' is a 'let' constant");
    m
}

/// The type and error flag of a binary expression (see [`binary_type`]).
fn binary_type_of(op: &str, lhs: Option<Type>, rhs: Option<Type>) -> (r: (Option<Type>, bool))
    ensures
        r == binary_type(op@, lhs, rhs),
{
    if crate::sema::is_comparison(op) || crate::sema::is_logical(op) {
        return (Some(Type::Bool), false);
    }
    if crate::sema::is_range(op) {
        return (None, false);
    }
    if str_same(op, "??") {
        return (if rhs.is_some() {
            rhs
        } else {
            lhs
        }, false);
    }
    let l = match lhs {
        Some(Type::Void) => None,
        _ => lhs,
    };
    let r = match rhs {
        Some(Type::Void) => None,
        _ => rhs,
    };
    match (l, r) {
        (Some(a), Some(b)) => {
            if a == b {
                (Some(a), false)
            } else if a == Type::Int && b == Type::Double {
                (Some(b), false)
            } else if b == Type::Int && a == Type::Double {
                (Some(a), false)
            } else {
                (Some(a), true)
            }
        },
        _ => (if l.is_some() {
            l
        } else {
            r
        }, false),
    }
}

impl<'a> Node<'a> {
    /// Whether some child of this node has kind `k`.
    fn has_child(&self, k: NodeKind) -> (r: bool)
        requires
            self.wf(),
        ensures
            r == has_child_kind(self.tree(), self.data().children, k),
    {
        let kids = self.child_vec();
        let ghost ch = self.data().children;
        let ghost nodes = self.tree();
        let mut j: usize = 0;
        while j < kids.len()
            invariant
                kids@.len() == ch.len(),
                j <= kids@.len(),
                ch == self.data().children,
                nodes == self.tree(),
                forall|i: int|
                    0 <= i < kids@.len() ==> #[trigger] kids@[i].wf() && kids@[i].id() == ch[i]
                        && kids@[i].tree() == nodes,
                forall|i: int| 0 <= i < j ==> #[trigger] nodes[ch[i] as int].kind != k,
            decreases kids@.len() - j,
        {
            assert(kids@[j as int].wf());
            if kids[j].kind() == k {
                assert(nodes[ch[j as int] as int].kind == k);
                return true;
            }
            j += 1;
        }
        false
    }

    /// Whether this node is an instance stored property (see
    /// [`stored_property`]).
    fn is_stored_property(&self) -> (r: bool)
        requires
            self.wf(),
        ensures
            r == stored_property(self.tree(), self.id() as int),
    {
        let k = self.kind();
        (k == NodeKind::VarDecl || k == NodeKind::LetDecl) && self.modifiers() & STATIC == 0 && !self.has_child(
            NodeKind::AccessorDecl,
        )
    }

    /// The annotation and initializer of this binding (see
    /// [`binding_parts`]); the node has at least one child.
    fn binding_parts(&self) -> (r: (Option<Type>, Option<Node<'a>>))
        requires
            self.wf(),
            self.data().children.len() > 0,
        ensures
            r.0 == binding_parts(self.tree(), self.data().children.drop_first()).0,
            crate::syntax::opt_id(r.1) == binding_parts(self.tree(), self.data().children.drop_first()).1,
            crate::syntax::opt_node_in(r.1, self.tree()),
    {
        let kids = self.child_vec();
        let ghost ch = self.data().children;
        let ghost nodes = self.tree();
        let ghost rest = ch.drop_first();
        let mut ann: Option<Type> = None;
        let mut init: Option<Node<'a>> = None;
        let mut j: usize = 1;
        assert(rest.take(0) =~= Seq::<usize>::empty());
        while j < kids.len()
            invariant
                kids@.len() == ch.len(),
                1 <= j <= kids@.len(),
                ch == self.data().children,
                rest == ch.drop_first(),
                nodes == self.tree(),
                forall|i: int|
                    0 <= i < kids@.len() ==> #[trigger] kids@[i].wf() && kids@[i].id() == ch[i]
                        && kids@[i].tree() == nodes,
                ann == binding_parts(nodes, rest.take(j - 1)).0,
                crate::syntax::opt_id(init) == binding_parts(nodes, rest.take(j - 1)).1,
                crate::syntax::opt_node_in(init, nodes),
            decreases kids@.len() - j,
        {
            let c = kids[j];
            assert(kids@[j as int].wf());
            assert(rest.take(j as int).drop_last() =~= rest.take(j - 1));
            assert(rest.take(j as int).last() == ch[j as int]);
            if c.kind() == NodeKind::TypeRef {
                ann = match c.text() {
                    Some(t) => parse_type_name(t.as_str()),
                    None => None,
                };
            } else {
                init = Some(c);
            }
            j += 1;
        }
        assert(rest.take(kids@.len() - 1) =~= rest);
        (ann, init)
    }

    /// The modelled type of the last `TypeRef` child (see
    /// [`last_annotation`]).
    fn last_annotation(&self) -> (r: Option<Type>)
        requires
            self.wf(),
        ensures
            r == last_annotation(self.tree(), self.data().children),
    {
        let kids = self.child_vec();
        let ghost ch = self.data().children;
        let ghost nodes = self.tree();
        let mut j = kids.len();
        assert(ch.take(j as int) =~= ch);
        while j > 0
            invariant
                kids@.len() == ch.len(),
                j <= kids@.len(),
                ch == self.data().children,
                nodes == self.tree(),
                forall|i: int|
                    0 <= i < kids@.len() ==> #[trigger] kids@[i].wf() && kids@[i].id() == ch[i]
                        && kids@[i].tree() == nodes,
                last_annotation(nodes, ch) == last_annotation(nodes, ch.take(j as int)),
            decreases j,
        {
            assert(kids@[j - 1].wf());
            assert(ch.take(j as int).drop_last() =~= ch.take(j - 1));
            assert(ch.take(j as int).last() == ch[j - 1]);
            let c = kids[j - 1];
            if c.kind() == NodeKind::TypeRef {
                return match c.text() {
                    Some(t) => parse_type_name(t.as_str()),
                    None => None,
                };
            }
            j -= 1;
        }
        None
    }

    /// The last `Block` child (see [`last_block`]).
    fn last_block(&self) -> (r: Option<Node<'a>>)
        requires
            self.wf(),
        ensures
            crate::syntax::opt_id(r) == last_block(self.tree(), self.data().children),
            crate::syntax::opt_node_in(r, self.tree()),
    {
        let kids = self.child_vec();
        let ghost ch = self.data().children;
        let ghost nodes = self.tree();
        let mut j = kids.len();
        assert(ch.take(j as int) =~= ch);
        while j > 0
            invariant
                kids@.len() == ch.len(),
                j <= kids@.len(),
                ch == self.data().children,
                nodes == self.tree(),
                forall|i: int|
                    0 <= i < kids@.len() ==> #[trigger] kids@[i].wf() && kids@[i].id() == ch[i]
                        && kids@[i].tree() == nodes,
                last_block(nodes, ch) == last_block(nodes, ch.take(j as int)),
            decreases j,
        {
            assert(kids@[j - 1].wf());
            assert(ch.take(j as int).drop_last() =~= ch.take(j - 1));
            assert(ch.take(j as int).last() == ch[j - 1]);
            let c = kids[j - 1];
            if c.kind() == NodeKind::Block {
                return Some(c);
            }
            j -= 1;
        }
        None
    }
}

impl Resolver {
    /// Walk the children of `node` from index `from` (0 or 1) in `mode`
    /// (see [`list_walk`]).
    fn walk_list(&mut self, syms: &Symbols, mode: ListMode, node: &Node, from: usize)
        requires
            node.wf(),
            from <= node.data().children.len(),
        ensures
            final(self)@ == list_walk(
                node.tree(),
                syms@,
                mode,
                if from == 0 {
                    node.data().children
                } else if from == 1 {
                    node.data().children.drop_first()
                } else {
                    node.data().children.skip(from as int)
                },
                node.id() as int,
                old(self)@,
            ),
        decreases node.id(), 2int,
    {
        proof {
            node.lemma_children_below();
        }
        let kids = node.child_vec();
        let ghost ch = node.data().children;
        let ghost nodes = node.tree();
        let ghost me = node.id() as int;
        let ghost sv = syms@;
        let ghost start = self@;
        let mut j: usize = from;
        assert(ch.subrange(from as int, from as int) =~= Seq::<usize>::empty());
        while j < kids.len()
            invariant
                kids@.len() == ch.len(),
                from <= j <= kids@.len(),
                ch == node.data().children,
                nodes == node.tree(),
                me == node.id() as int,
                sv == syms@,
                forall|i: int| 0 <= i < ch.len() ==> (#[trigger] ch[i] as int) < me,
                forall|i: int|
                    0 <= i < kids@.len() ==> #[trigger] kids@[i].wf() && kids@[i].id() == ch[i]
                        && kids@[i].tree() == nodes,
                self@ == list_walk(nodes, sv, mode, ch.subrange(from as int, j as int), me, start),
            decreases kids@.len() - j,
        {
            let child = kids[j];
            assert(kids@[j as int].wf());
            assert(ch.subrange(from as int, j + 1).drop_last() =~= ch.subrange(from as int, j as int));
            assert(ch.subrange(from as int, j + 1).last() == ch[j as int]);
            assert((ch[j as int] as int) < me);
            self.step(syms, mode, &child);
            j += 1;
        }
        if from == 0 {
            assert(ch.subrange(0, ch.len() as int) =~= ch);
        } else if from == 1 {
            assert(ch.subrange(1, ch.len() as int) =~= ch.drop_first());
        } else {
            assert(ch.subrange(from as int, ch.len() as int) =~= ch.skip(from as int));
        }
    }

    /// Walk one child in `mode` (see [`list_step`]).
    fn step(&mut self, syms: &Symbols, mode: ListMode, node: &Node)
        requires
            node.wf(),
        ensures
            final(self)@ == list_step(node.tree(), syms@, mode, node.id() as int, old(self)@),
        decreases node.id(), 6int,
    {
        let k = node.kind();
        match mode {
            ListMode::Resolve => self.resolve_stmt(syms, node),
            ListMode::Infer => {
                self.infer(syms, node);
            },
            ListMode::Members => {
                if node.is_stored_property() {
                    self.report(String::from_str("extensions must not contain stored properties"), node);
                }
                self.resolve_stmt(syms, node);
            },
            ListMode::Init => {
                if k == NodeKind::Param {
                    self.bind_param(syms, node);
                } else if k != NodeKind::TypeRef {
                    self.resolve_stmt(syms, node);
                }
            },
            ListMode::Params => {
                if k == NodeKind::Param {
                    self.bind_param(syms, node);
                }
            },
            ListMode::Defaults => {
                if k != NodeKind::TypeRef {
                    self.infer(syms, node);
                }
            },
            ListMode::Items => {
                if k == NodeKind::Block {
                    self.resolve_stmt(syms, node);
                } else if k != NodeKind::PatternValueBinding {
                    self.infer(syms, node);
                }
            },
            ListMode::For => {
                if k == NodeKind::Block {
                    self.resolve_stmt(syms, node);
                } else {
                    self.infer(syms, node);
                }
            },
            ListMode::Clauses => self.resolve_clause(syms, node),
        }
    }

    /// Resolve statement `node` (see [`resolve_stmt`]).
    fn resolve_stmt(&mut self, syms: &Symbols, node: &Node)
        requires
            node.wf(),
        ensures
            final(self)@ == resolve_stmt(node.tree(), syms@, node.id() as int, old(self)@),
        decreases node.id(), 5int,
    {
        proof {
            node.lemma_children_below();
        }
        let ghost kids = node.data().children;
        let k = node.kind();
        if k == NodeKind::LetDecl || k == NodeKind::VarDecl {
            self.resolve_binding(syms, node);
        } else if k == NodeKind::FuncDecl {
            self.resolve_func(syms, node);
        } else if k == NodeKind::StructDecl || k == NodeKind::EnumDecl || k == NodeKind::ClassDecl || k
            == NodeKind::ProtocolDecl || k == NodeKind::ExtensionDecl {
            let saved = self.in_type_body;
            self.push_scope();
            self.set_type_body(true);
            if k == NodeKind::ExtensionDecl {
                self.walk_list(syms, ListMode::Members, node, 0);
            } else {
                self.walk_list(syms, ListMode::Resolve, node, 0);
            }
            self.set_type_body(saved);
            self.pop_scope();
        } else if k == NodeKind::AssociatedTypeDecl || k == NodeKind::TypeAliasDecl || k == NodeKind::BreakStmt
            || k == NodeKind::ContinueStmt || k == NodeKind::FallthroughStmt || k == NodeKind::OperatorDecl || k
        == NodeKind::PrecedenceGroupDecl {
        } else if k == NodeKind::DeinitDecl || k == NodeKind::AccessorDecl || k == NodeKind::IfStmt || k
            == NodeKind::GuardStmt || k == NodeKind::WhileStmt || k == NodeKind::DoStmt || k
            == NodeKind::CompilerDirective {
            self.walk_list(syms, ListMode::Resolve, node, 0);
        } else if k == NodeKind::InitDecl || k == NodeKind::SubscriptDecl {
            self.push_scope();
            self.walk_list(syms, ListMode::Init, node, 0);
            self.pop_scope();
        } else if k == NodeKind::EnumCaseDecl {
            self.walk_list(syms, ListMode::Infer, node, 0);
        } else if k == NodeKind::Block {
            let saved = self.in_type_body;
            self.push_scope();
            self.set_type_body(false);
            self.prebind(syms, node);
            self.walk_list(syms, ListMode::Resolve, node, 0);
            self.set_type_body(saved);
            self.pop_scope();
        } else if k == NodeKind::RepeatStmt {
            let kv = node.child_vec();
            if kv.len() > 0 {
                assert(kv@[0].wf());
                self.resolve_stmt(syms, &kv[0]);
            }
            if kv.len() > 1 {
                assert(kv@[1].wf());
                self.infer(syms, &kv[1]);
            }
        } else if k == NodeKind::ForStmt {
            self.push_scope();
            let ghost s0 = self@;
            let kv = node.child_vec();
            proof {
                node.lemma_children_below();
            }
            if kv.len() > 1 {
                assert(kv@[1].wf());
                self.infer(syms, &kv[1]);
                self.walk_list(syms, ListMode::For, node, 2);
            }
            assert(self@ == for_walk(node.tree(), syms@, node.id() as int, s0));
            self.pop_scope();
        } else if k == NodeKind::CatchClause {
            self.push_scope();
            self.walk_list(syms, ListMode::Resolve, node, 0);
            self.pop_scope();
        } else if k == NodeKind::SwitchStmt {
            let kv = node.child_vec();
            if kv.len() > 0 {
                assert(kv@[0].wf());
                self.infer(syms, &kv[0]);
                self.walk_list(syms, ListMode::Clauses, node, 1);
                let ghost s2 = self@;
                node.check_switch(&syms.enums, &mut self.diags);
                assert(self@ == ResolveState {
                    diags: s2.diags + switch_diag(node.tree(), node.id() as int, syms@.enums),
                    ..s2
                });
            }
        } else if k == NodeKind::ReturnStmt || k == NodeKind::ThrowStmt {
            let kv = node.child_vec();
            if kv.len() > 0 {
                assert(kv@[0].wf());
                self.infer(syms, &kv[0]);
            }
        } else if k == NodeKind::DeferStmt {
            let kv = node.child_vec();
            if kv.len() > 0 {
                assert(kv@[0].wf());
                self.resolve_stmt(syms, &kv[0]);
            }
        } else {
            self.infer(syms, node);
        }
    }

    /// Bind the functions declared among `node`'s children (see [`prebind`]).
    fn prebind(&mut self, syms: &Symbols, node: &Node)
        requires
            node.wf(),
        ensures
            final(self)@ == prebind(node.tree(), syms@, node.data().children, old(self)@),
    {
        let kids = node.child_vec();
        let ghost ch = node.data().children;
        let ghost nodes = node.tree();
        let ghost start = self@;
        let mut j: usize = 0;
        while j < kids.len()
            invariant
                kids@.len() == ch.len(),
                j <= kids@.len(),
                ch == node.data().children,
                nodes == node.tree(),
                forall|i: int|
                    0 <= i < kids@.len() ==> #[trigger] kids@[i].wf() && kids@[i].id() == ch[i]
                        && kids@[i].tree() == nodes,
                self@ == prebind(nodes, syms@, ch.take(j as int), start),
            decreases kids@.len() - j,
        {
            let child = kids[j];
            assert(kids@[j as int].wf());
            assert(ch.take(j as int + 1).drop_last() =~= ch.take(j as int));
            assert(ch.take(j as int + 1).last() == ch[j as int]);
            if child.kind() == NodeKind::FuncDecl {
                match child.text() {
                    Some(name) => {
                        let ret = match syms.func_return(name.as_str()) {
                            Some(t) => t,
                            None => Type::Void,
                        };
                        self.bind(name, Some(ret), false);
                    },
                    None => {},
                }
            }
            j += 1;
        }
        assert(ch.take(kids@.len() as int) =~= ch);
    }

    /// Resolve the `let`/`var` declaration `node` (see [`resolve_binding`]).
    fn resolve_binding(&mut self, syms: &Symbols, node: &Node)
        requires
            node.wf(),
        ensures
            final(self)@ == resolve_binding(node.tree(), syms@, node.id() as int, old(self)@),
        decreases node.id(), 4int,
    {
        proof {
            node.lemma_children_below();
        }
        let kv = node.child_vec();
        if kv.len() == 0 {
            return;
        }
        let (annotation, init) = node.binding_parts();
        proof {
            let ch = node.data().children;
            lemma_binding_init_in(node.tree(), ch.drop_first());
            if let Some(c) = init {
                let i = choose|i: int| 0 <= i < ch.drop_first().len() && ch.drop_first()[i] == c.id();
                assert(ch[i + 1] == c.id());
            }
        }
        let init_ty = match init {
            Some(c) => self.infer(syms, &c),
            None => None,
        };
        let bad = match (annotation, init_ty) {
            (Some(a), Some(b)) => a != b && b != Type::Void && !(b == Type::Int && a == Type::Double),
            _ => false,
        };
        if bad {
            match (annotation, init_ty) {
                (Some(a), Some(b)) => {
                    let m = convert_message_of(b, a);
                    self.report(m, node);
                },
                _ => {},
            }
        }
        let ty = match annotation {
            Some(a) => Some(a),
            None => init_ty,
        };
        self.record(node.index(), ty);
        let p = kv[0];
        assert(kv@[0].wf());
        if p.kind() == NodeKind::PatternValueBinding {
            match p.text() {
                Some(name) => {
                    self.bind(name, ty, node.kind() == NodeKind::VarDecl);
                    self.record(p.index(), ty);
                },
                None => {},
            }
        }
    }

    /// Resolve the function declaration `node` (see [`resolve_func`]).
    fn resolve_func(&mut self, syms: &Symbols, node: &Node)
        requires
            node.wf(),
        ensures
            final(self)@ == resolve_func(node.tree(), syms@, node.id() as int, old(self)@),
        decreases node.id(), 4int,
    {
        proof {
            node.lemma_children_below();
        }
        self.push_scope();
        self.walk_list(syms, ListMode::Params, node, 0);
        let ret = node.last_annotation();
        self.record(node.index(), ret);
        match node.last_block() {
            Some(b) => {
                proof {
                    lemma_last_block_in(node.tree(), node.data().children);
                }
                self.resolve_stmt(syms, &b);
            },
            None => {},
        }
        self.pop_scope();
    }

    /// Bind parameter `node` (see [`bind_param`]).
    fn bind_param(&mut self, syms: &Symbols, node: &Node)
        requires
            node.wf(),
        ensures
            final(self)@ == bind_param(node.tree(), syms@, node.id() as int, old(self)@),
        decreases node.id(), 4int,
    {
        let ty = match node.first_child_kind(NodeKind::TypeRef) {
            Some(c) => match c.text() {
                Some(t) => parse_type_name(t.as_str()),
                None => None,
            },
            None => None,
        };
        match node.text() {
            Some(name) => {
                self.bind(name, ty, true);
                self.record(node.index(), ty);
            },
            None => {},
        }
        self.walk_list(syms, ListMode::Defaults, node, 0);
    }

    /// Resolve the case clause `node` in its own scope (see
    /// [`resolve_clause`]).
    fn resolve_clause(&mut self, syms: &Symbols, node: &Node)
        requires
            node.wf(),
        ensures
            final(self)@ == resolve_clause(node.tree(), syms@, node.id() as int, old(self)@),
        decreases node.id(), 4int,
    {
        self.push_scope();
        self.walk_list(syms, ListMode::Items, node, 0);
        self.pop_scope();
    }
}

/// The last `Block` among `kids` is one of them.
proof fn lemma_last_block_in(nodes: Seq<NodeView>, kids: Seq<usize>)
    ensures
        last_block(nodes, kids) matches Some(b) ==> exists|i: int| 0 <= i < kids.len() && kids[i] == b,
    decreases kids.len(),
{
    if kids.len() > 0 && nodes[kids.last() as int].kind != NodeKind::Block {
        lemma_last_block_in(nodes, kids.drop_last());
        if let Some(b) = last_block(nodes, kids.drop_last()) {
            let i = choose|i: int| 0 <= i < kids.drop_last().len() && kids.drop_last()[i] == b;
            assert(kids[i] == b);
        }
    } else if kids.len() > 0 {
        assert(kids[kids.len() - 1] == kids.last());
    }
}

/// The initializer [`binding_parts`] finds is one of `kids`.
proof fn lemma_binding_init_in(nodes: Seq<NodeView>, kids: Seq<usize>)
    ensures
        binding_parts(nodes, kids).1 matches Some(c) ==> exists|i: int| 0 <= i < kids.len() && kids[i] == c,
    decreases kids.len(),
{
    if kids.len() > 0 {
        lemma_binding_init_in(nodes, kids.drop_last());
        if nodes[kids.last() as int].kind == NodeKind::TypeRef {
            if let Some(c) = binding_parts(nodes, kids.drop_last()).1 {
                let i = choose|i: int| 0 <= i < kids.drop_last().len() && kids.drop_last()[i] == c;
                assert(kids[i] == c);
            }
        } else {
            assert(kids[kids.len() - 1] == kids.last());
        }
    }
}

impl Symbols {
    /// The declared return type of the function named `name`, if declared.
    pub fn func_return(&self, name: &str) -> (r: Option<Type>)
        ensures
            r == func_return(self@.funcs, name@),
    {
        let ghost fv = self@.funcs;
        let mut j = self.funcs.len();
        assert(fv.take(j as int) =~= fv);
        while j > 0
            invariant
                j <= self.funcs@.len(),
                fv == self@.funcs,
                func_return(fv, name@) == func_return(fv.take(j as int), name@),
            decreases j,
        {
            assert(fv.take(j as int).drop_last() =~= fv.take(j - 1));
            assert(fv.take(j as int).last() == (self.funcs@[j - 1].0@, self.funcs@[j - 1].1));
            if str_same(self.funcs[j - 1].0.as_str(), name) {
                return Some(self.funcs[j - 1].1);
            }
            j -= 1;
        }
        None
    }
}

impl Resolver {
    /// Check an assignment to `lhs` (see [`check_assignable`]).
    fn check_assignable(&mut self, lhs: &Node)
        requires
            lhs.wf(),
        ensures
            final(self)@ == check_assignable(lhs.tree(), lhs.id() as int, old(self)@),
    {
        if lhs.kind() != NodeKind::IdentExpr {
            return;
        }
        match lhs.text() {
            Some(name) => {
                match self.lookup_binding(name.as_str()) {
                    Some(b) => {
                        if !b.mutable {
                            let m = let_message_of(name.as_str());
                            self.report(m, lhs);
                        }
                    },
                    None => {},
                }
            },
            None => {},
        }
    }

    /// Infer the type of expression `node`, recording it when known (see
    /// [`infer`]).
    fn infer(&mut self, syms: &Symbols, node: &Node) -> (r: Option<Type>)
        requires
            node.wf(),
        ensures
            (r, final(self)@) == infer(node.tree(), syms@, node.id() as int, old(self)@),
        decreases node.id(), 4int,
    {
        proof {
            node.lemma_children_below();
        }
        let k = node.kind();
        let kv = node.child_vec();
        proof {
            if kv@.len() > 0 {
                assert(kv@[0].wf());
            }
            if kv@.len() > 1 {
                assert(kv@[1].wf());
            }
            if kv@.len() > 2 {
                assert(kv@[2].wf());
            }
        }
        let ty: Option<Type> = if k == NodeKind::IntegerLiteral {
            Some(Type::Int)
        } else if k == NodeKind::FloatLiteral {
            Some(Type::Double)
        } else if k == NodeKind::StringLiteral {
            Some(Type::String)
        } else if k == NodeKind::RegexLiteral {
            Some(Type::Regex)
        } else if k == NodeKind::BoolLiteral {
            Some(Type::Bool)
        } else if k == NodeKind::NilLiteral {
            None
        } else if k == NodeKind::IdentExpr {
            match node.text() {
                Some(name) => match self.lookup_binding(name.as_str()) {
                    Some(b) => b.ty,
                    None => None,
                },
                None => None,
            }
        } else if k == NodeKind::CallExpr {
            let callee = if kv.len() > 0 {
                self.infer(syms, &kv[0])
            } else {
                None
            };
            if kv.len() > 0 {
                self.walk_list(syms, ListMode::Infer, node, 1);
            }
            if callee.is_some() {
                callee
            } else {
                Some(Type::Void)
            }
        } else if k == NodeKind::PrefixExpr {
            let operand = if kv.len() > 0 {
                self.infer(syms, &kv[0])
            } else {
                None
            };
            let bang = match node.text() {
                Some(t) => str_same(t.as_str(), "!"),
                None => false,
            };
            if bang {
                Some(Type::Bool)
            } else {
                operand
            }
        } else if k == NodeKind::BinaryExpr {
            let lhs = if kv.len() > 0 {
                self.infer(syms, &kv[0])
            } else {
                None
            };
            let rhs = if kv.len() > 1 {
                self.infer(syms, &kv[1])
            } else {
                None
            };
            let op = match node.text() {
                Some(t) => t,
                None => String::from_str("?"),
            };
            let (t, bad) = binary_type_of(op.as_str(), lhs, rhs);
            if bad {
                match (lhs, rhs) {
                    (Some(a), Some(b)) => {
                        let m = combine_message_of(op.as_str(), a, b);
                        self.report(m, node);
                    },
                    _ => {},
                }
            }
            t
        } else if k == NodeKind::TernaryExpr {
            if kv.len() > 0 {
                self.infer(syms, &kv[0]);
            }
            let a = if kv.len() > 1 {
                self.infer(syms, &kv[1])
            } else {
                None
            };
            let b = if kv.len() > 2 {
                self.infer(syms, &kv[2])
            } else {
                None
            };
            if a.is_some() {
                a
            } else {
                b
            }
        } else if k == NodeKind::IfStmt {
            self.walk_list(syms, ListMode::Resolve, node, 0);
            None
        } else if k == NodeKind::AssignExpr {
            if kv.len() > 0 {
                self.check_assignable(&kv[0]);
            }
            self.walk_list(syms, ListMode::Infer, node, 0);
            Some(Type::Void)
        } else if k == NodeKind::ClosureExpr {
            let saved = self.in_type_body;
            self.push_scope();
            self.set_type_body(false);
            self.walk_list(syms, ListMode::Resolve, node, 0);
            self.set_type_body(saved);
            self.pop_scope();
            None
        } else if k == NodeKind::TryExpr {
            if kv.len() > 0 {
                self.infer(syms, &kv[0])
            } else {
                None
            }
        } else if k == NodeKind::CastExpr {
            if kv.len() > 0 {
                self.infer(syms, &kv[0]);
            }
            let text = node.text();
            let is_is = match &text {
                Some(t) => str_same(t.as_str(), "is"),
                None => false,
            };
            let is_opt = match &text {
                Some(t) => str_same(t.as_str(), "as?"),
                None => false,
            };
            if is_is {
                Some(Type::Bool)
            } else if is_opt {
                None
            } else if kv.len() > 1 {
                match kv[1].text() {
                    Some(t) => parse_type_name(t.as_str()),
                    None => None,
                }
            } else {
                None
            }
        } else {
            self.walk_list(syms, ListMode::Infer, node, 0);
            None
        };
        self.record(node.index(), ty);
        ty
    }
}

/// The type last recorded for node `i` among `types`.
pub open spec fn last_type(types: Seq<(usize, Type)>, i: int) -> Option<Type>
    decreases types.len(),
{
    if types.len() == 0 {
        None
    } else if types.last().0 == i {
        Some(types.last().1)
    } else {
        last_type(types.drop_last(), i)
    }
}

/// `nodes` with the type text of each node that has a recorded type set to
/// the spelling of the last type recorded for it.
pub open spec fn annotated(nodes: Seq<NodeView>, types: Seq<(usize, Type)>) -> Seq<NodeView> {
    Seq::new(
        nodes.len(),
        |i: int|
            match last_type(types, i) {
                Some(t) => NodeView { type_text: Some(type_spelling(t)), ..nodes[i] },
                None => nodes[i],
            },
    )
}

/// What a program declares: the symbols of the walk from the root.
pub open spec fn program_symbols(nodes: Seq<NodeView>, root: int) -> SymbolsView {
    crate::sema::symbols_in(nodes, nodes[root].children, root, SymbolsView { enums: Seq::empty(), funcs: Seq::empty() })
}

/// The outcome of the annotate pass over the tree `nodes` rooted at `root`.
pub open spec fn checked(nodes: Seq<NodeView>, root: int) -> ResolveState {
    annotate(nodes, program_symbols(nodes, root), root)
}

/// Run the annotate pass over the tree of `analysis`, returning the recorded
/// `(node, type)` pairs and the diagnostics (see [`annotate`]).
pub fn annotate_tree(analysis: &crate::syntax::Analysis, syms: &Symbols) -> (r: (Vec<(usize, Type)>, Vec<Diagnostic>))
    requires
        analysis.wf(),
    ensures
        r.0@ == annotate(analysis.tree(), syms@, analysis.root_id() as int).types,
        diagnostics_view(r.1@) == annotate(analysis.tree(), syms@, analysis.root_id() as int).diags,
{
    let root = analysis.root();
    let mut rs = Resolver::new();
    rs.prebind(syms, &root);
    rs.walk_list(syms, ListMode::Resolve, &root, 0);
    (rs.types, rs.diags)
}

/// `st2` differs from `st` at most in the innermost scope, keeps the number
/// of scopes, and agrees on whether the walk is directly in a type body.
pub open spec fn same_frame(st: ResolveState, st2: ResolveState) -> bool {
    &&& st2.scopes.len() == st.scopes.len()
    &&& st2.scopes.drop_last() == st.scopes.drop_last()
    &&& st2.in_type_body == st.in_type_body
}

/// Statement kinds that open a scope of their own: what they declare stays
/// inside them.
pub open spec fn opens_scope(k: NodeKind) -> bool {
    k == NodeKind::StructDecl || k == NodeKind::EnumDecl || k == NodeKind::ClassDecl || k
        == NodeKind::ProtocolDecl || k == NodeKind::ExtensionDecl || k == NodeKind::Block || k
        == NodeKind::FuncDecl || k == NodeKind::InitDecl || k == NodeKind::SubscriptDecl || k
        == NodeKind::ForStmt
}

/// A binding keeps the frame.
proof fn lemma_bind_frame(st: ResolveState, name: Seq<char>, ty: Option<Type>, mutable: bool)
    requires
        st.scopes.len() >= 1,
    ensures
        same_frame(st, bind(st, name, ty, mutable)),
{
    let st2 = bind(st, name, ty, mutable);
    assert(st2.scopes.drop_last() =~= st.scopes.drop_last());
}

/// Resolving a statement keeps the frame, and a statement that opens a scope
/// leaves the scope stack exactly as it found it: the names it declares do
/// not leak out of it.
pub proof fn lemma_locals_stay_local(nodes: Seq<NodeView>, sv: SymbolsView, id: int, st: ResolveState)
    requires
        0 <= id < nodes.len(),
        st.scopes.len() >= 1,
    ensures
        same_frame(st, resolve_stmt(nodes, sv, id, st)),
        opens_scope(nodes[id].kind) ==> resolve_stmt(nodes, sv, id, st).scopes == st.scopes,
    decreases id, 5int, 0int,
{
    let n = nodes[id];
    let kids = n.children;
    let k = n.kind;
    if k == NodeKind::LetDecl || k == NodeKind::VarDecl {
        lemma_binding_frame(nodes, sv, id, st);
    } else if k == NodeKind::FuncDecl {
        lemma_func_frame(nodes, sv, id, st);
    } else if k == NodeKind::StructDecl || k == NodeKind::EnumDecl || k == NodeKind::ClassDecl || k
        == NodeKind::ProtocolDecl {
        let s1 = with_type_body(push_scope(st), true);
        lemma_list_frame(nodes, sv, ListMode::Resolve, kids, id, s1);
        let s2 = list_walk(nodes, sv, ListMode::Resolve, kids, id, s1);
        assert(s2.scopes.drop_last() =~= st.scopes);
    } else if k == NodeKind::ExtensionDecl {
        let s1 = with_type_body(push_scope(st), true);
        lemma_list_frame(nodes, sv, ListMode::Members, kids, id, s1);
        let s2 = list_walk(nodes, sv, ListMode::Members, kids, id, s1);
        assert(s2.scopes.drop_last() =~= st.scopes);
    } else if k == NodeKind::AssociatedTypeDecl || k == NodeKind::TypeAliasDecl || k == NodeKind::BreakStmt
        || k == NodeKind::ContinueStmt || k == NodeKind::FallthroughStmt || k == NodeKind::OperatorDecl || k
        == NodeKind::PrecedenceGroupDecl {
    } else if k == NodeKind::DeinitDecl || k == NodeKind::AccessorDecl || k == NodeKind::IfStmt || k
        == NodeKind::GuardStmt || k == NodeKind::WhileStmt || k == NodeKind::DoStmt || k
        == NodeKind::CompilerDirective {
        lemma_list_frame(nodes, sv, ListMode::Resolve, kids, id, st);
    } else if k == NodeKind::InitDecl || k == NodeKind::SubscriptDecl {
        lemma_list_frame(nodes, sv, ListMode::Init, kids, id, push_scope(st));
        let s2 = list_walk(nodes, sv, ListMode::Init, kids, id, push_scope(st));
        assert(s2.scopes.drop_last() =~= st.scopes);
    } else if k == NodeKind::EnumCaseDecl {
        lemma_list_frame(nodes, sv, ListMode::Infer, kids, id, st);
    } else if k == NodeKind::Block {
        let s0 = with_type_body(push_scope(st), false);
        lemma_prebind_frame(nodes, sv, kids, s0);
        let s1 = prebind(nodes, sv, kids, s0);
        lemma_list_frame(nodes, sv, ListMode::Resolve, kids, id, s1);
        let s2 = list_walk(nodes, sv, ListMode::Resolve, kids, id, s1);
        assert(s2.scopes.drop_last() =~= st.scopes);
    } else if k == NodeKind::RepeatStmt {
        let s1 = if kids.len() > 0 && kids[0] < id {
            lemma_locals_stay_local(nodes, sv, kids[0] as int, st);
            resolve_stmt(nodes, sv, kids[0] as int, st)
        } else {
            st
        };
        if kids.len() > 1 && kids[1] < id {
            lemma_infer_frame(nodes, sv, kids[1] as int, s1);
        }
    } else if k == NodeKind::ForStmt {
        let s0 = push_scope(st);
        if kids.len() > 1 && kids[1] < id {
            lemma_infer_frame(nodes, sv, kids[1] as int, s0);
            let s1 = infer(nodes, sv, kids[1] as int, s0).1;
            lemma_list_frame(nodes, sv, ListMode::For, kids.skip(2), id, s1);
        }
        let s2 = for_walk(nodes, sv, id, s0);
        assert(s2.scopes.drop_last() =~= st.scopes);
    } else if k == NodeKind::CatchClause {
        lemma_list_frame(nodes, sv, ListMode::Resolve, kids, id, push_scope(st));
        let s2 = list_walk(nodes, sv, ListMode::Resolve, kids, id, push_scope(st));
        assert(s2.scopes.drop_last() =~= st.scopes);
    } else if k == NodeKind::SwitchStmt {
        if kids.len() > 0 && kids[0] < id {
            lemma_infer_frame(nodes, sv, kids[0] as int, st);
            let s1 = infer(nodes, sv, kids[0] as int, st).1;
            lemma_list_frame(nodes, sv, ListMode::Clauses, kids.drop_first(), id, s1);
        }
    } else if k == NodeKind::ReturnStmt || k == NodeKind::ThrowStmt {
        if kids.len() > 0 && kids[0] < id {
            lemma_infer_frame(nodes, sv, kids[0] as int, st);
        }
    } else if k == NodeKind::DeferStmt {
        if kids.len() > 0 && kids[0] < id {
            lemma_locals_stay_local(nodes, sv, kids[0] as int, st);
        }
    } else {
        lemma_infer_frame(nodes, sv, id, st);
    }
}

/// Binding the functions of a block keeps the frame.
proof fn lemma_prebind_frame(nodes: Seq<NodeView>, sv: SymbolsView, kids: Seq<usize>, st: ResolveState)
    requires
        st.scopes.len() >= 1,
    ensures
        same_frame(st, prebind(nodes, sv, kids, st)),
    decreases kids.len(),
{
    if kids.len() > 0 {
        lemma_prebind_frame(nodes, sv, kids.drop_last(), st);
        let st1 = prebind(nodes, sv, kids.drop_last(), st);
        let n = nodes[kids.last() as int];
        if n.kind == NodeKind::FuncDecl && n.text is Some {
            let ret = match func_return(sv.funcs, n.text->0) {
                Some(t) => t,
                None => Type::Void,
            };
            lemma_bind_frame(st1, n.text->0, Some(ret), false);
        }
    }
}

/// A `let`/`var` declaration keeps the frame.
proof fn lemma_binding_frame(nodes: Seq<NodeView>, sv: SymbolsView, d: int, st: ResolveState)
    requires
        0 <= d < nodes.len(),
        st.scopes.len() >= 1,
    ensures
        same_frame(st, resolve_binding(nodes, sv, d, st)),
    decreases d, 4int, 0int,
{
    let n = nodes[d];
    let kids = n.children;
    if kids.len() > 0 {
        let parts = binding_parts(nodes, kids.drop_first());
        let annotation = parts.0;
        let (init_ty, s1) = match parts.1 {
            Some(c) => if c < d {
                lemma_infer_frame(nodes, sv, c as int, st);
                infer(nodes, sv, c as int, st)
            } else {
                (None, st)
            },
            None => (None, st),
        };
        let s2 = if mismatched(annotation, init_ty) {
            report(s1, convert_message(init_ty->0, annotation->0), n)
        } else {
            s1
        };
        let ty = bound_type(annotation, init_ty);
        let s3 = record(s2, d as usize, ty);
        let p = nodes[kids[0] as int];
        if p.kind == NodeKind::PatternValueBinding && p.text is Some {
            lemma_bind_frame(s3, p.text->0, ty, n.kind == NodeKind::VarDecl);
        }
    }
}

/// A function declaration leaves the scope stack as it found it.
proof fn lemma_func_frame(nodes: Seq<NodeView>, sv: SymbolsView, f: int, st: ResolveState)
    requires
        0 <= f < nodes.len(),
        st.scopes.len() >= 1,
    ensures
        same_frame(st, resolve_func(nodes, sv, f, st)),
        resolve_func(nodes, sv, f, st).scopes == st.scopes,
    decreases f, 4int, 0int,
{
    let kids = nodes[f].children;
    lemma_list_frame(nodes, sv, ListMode::Params, kids, f, push_scope(st));
    let s1 = list_walk(nodes, sv, ListMode::Params, kids, f, push_scope(st));
    let s2 = record(s1, f as usize, last_annotation(nodes, kids));
    let s3 = match last_block(nodes, kids) {
        Some(b) => if b < f {
            lemma_locals_stay_local(nodes, sv, b as int, s2);
            resolve_stmt(nodes, sv, b as int, s2)
        } else {
            s2
        },
        None => s2,
    };
    assert(s3.scopes.drop_last() =~= st.scopes);
}

/// Binding a parameter keeps the frame.
proof fn lemma_param_frame(nodes: Seq<NodeView>, sv: SymbolsView, p: int, st: ResolveState)
    requires
        0 <= p < nodes.len(),
        st.scopes.len() >= 1,
    ensures
        same_frame(st, bind_param(nodes, sv, p, st)),
    decreases p, 4int, 0int,
{
    let n = nodes[p];
    let ty = match first_child_of_kind(nodes, n.children, NodeKind::TypeRef) {
        Some(c) => opt_annotation(nodes[c as int].text),
        None => None,
    };
    let s1 = match n.text {
        Some(name) => {
            lemma_bind_frame(st, name, ty, true);
            record(bind(st, name, ty, true), p as usize, ty)
        },
        None => st,
    };
    lemma_list_frame(nodes, sv, ListMode::Defaults, n.children, p, s1);
}

/// A case clause leaves the scope stack as it found it.
proof fn lemma_clause_frame(nodes: Seq<NodeView>, sv: SymbolsView, c: int, st: ResolveState)
    requires
        0 <= c < nodes.len(),
        st.scopes.len() >= 1,
    ensures
        same_frame(st, resolve_clause(nodes, sv, c, st)),
        resolve_clause(nodes, sv, c, st).scopes == st.scopes,
    decreases c, 4int, 0int,
{
    lemma_list_frame(nodes, sv, ListMode::Items, nodes[c].children, c, push_scope(st));
    let s2 = list_walk(nodes, sv, ListMode::Items, nodes[c].children, c, push_scope(st));
    assert(s2.scopes.drop_last() =~= st.scopes);
}

/// Inferring an expression keeps the frame.
proof fn lemma_infer_frame(nodes: Seq<NodeView>, sv: SymbolsView, id: int, st: ResolveState)
    requires
        0 <= id < nodes.len(),
        st.scopes.len() >= 1,
    ensures
        same_frame(st, infer(nodes, sv, id, st).1),
    decreases id, 4int, 0int,
{
    let n = nodes[id];
    let kids = n.children;
    let k = n.kind;
    if k == NodeKind::CallExpr {
        let s1 = if kids.len() > 0 && kids[0] < id {
            lemma_infer_frame(nodes, sv, kids[0] as int, st);
            infer(nodes, sv, kids[0] as int, st).1
        } else {
            st
        };
        if kids.len() > 0 {
            lemma_list_frame(nodes, sv, ListMode::Infer, kids.drop_first(), id, s1);
        }
    } else if k == NodeKind::PrefixExpr || k == NodeKind::TryExpr {
        if kids.len() > 0 && kids[0] < id {
            lemma_infer_frame(nodes, sv, kids[0] as int, st);
        }
    } else if k == NodeKind::BinaryExpr {
        let s1 = if kids.len() > 0 && kids[0] < id {
            lemma_infer_frame(nodes, sv, kids[0] as int, st);
            infer(nodes, sv, kids[0] as int, st).1
        } else {
            st
        };
        if kids.len() > 1 && kids[1] < id {
            lemma_infer_frame(nodes, sv, kids[1] as int, s1);
        }
    } else if k == NodeKind::TernaryExpr {
        let s1 = if kids.len() > 0 && kids[0] < id {
            lemma_infer_frame(nodes, sv, kids[0] as int, st);
            infer(nodes, sv, kids[0] as int, st).1
        } else {
            st
        };
        let s2 = if kids.len() > 1 && kids[1] < id {
            lemma_infer_frame(nodes, sv, kids[1] as int, s1);
            infer(nodes, sv, kids[1] as int, s1).1
        } else {
            s1
        };
        if kids.len() > 2 && kids[2] < id {
            lemma_infer_frame(nodes, sv, kids[2] as int, s2);
        }
    } else if k == NodeKind::IfStmt {
        lemma_list_frame(nodes, sv, ListMode::Resolve, kids, id, st);
    } else if k == NodeKind::AssignExpr {
        let s1 = if kids.len() > 0 && kids[0] < id {
            check_assignable(nodes, kids[0] as int, st)
        } else {
            st
        };
        lemma_list_frame(nodes, sv, ListMode::Infer, kids, id, s1);
    } else if k == NodeKind::ClosureExpr {
        let s1 = with_type_body(push_scope(st), false);
        lemma_list_frame(nodes, sv, ListMode::Resolve, kids, id, s1);
        let s2 = list_walk(nodes, sv, ListMode::Resolve, kids, id, s1);
        assert(s2.scopes.drop_last() =~= st.scopes);
    } else if k == NodeKind::CastExpr {
        if kids.len() > 0 && kids[0] < id {
            lemma_infer_frame(nodes, sv, kids[0] as int, st);
        }
    } else if k == NodeKind::IntegerLiteral || k == NodeKind::FloatLiteral || k == NodeKind::StringLiteral || k
        == NodeKind::RegexLiteral || k == NodeKind::BoolLiteral || k == NodeKind::NilLiteral || k
        == NodeKind::IdentExpr {
    } else {
        lemma_list_frame(nodes, sv, ListMode::Infer, kids, id, st);
    }
}

/// Walking a list of children keeps the frame.
proof fn lemma_list_frame(nodes: Seq<NodeView>, sv: SymbolsView, mode: ListMode, kids: Seq<usize>, parent: int, st: ResolveState)
    requires
        0 <= parent < nodes.len(),
        st.scopes.len() >= 1,
    ensures
        same_frame(st, list_walk(nodes, sv, mode, kids, parent, st)),
    decreases parent, 2int, kids.len(),
{
    if kids.len() > 0 {
        lemma_list_frame(nodes, sv, mode, kids.drop_last(), parent, st);
        let s1 = list_walk(nodes, sv, mode, kids.drop_last(), parent, st);
        let c = kids.last() as int;
        if 0 <= c < parent {
            lemma_step_frame(nodes, sv, mode, c, s1);
        }
    }
}

/// Walking one child keeps the frame.
proof fn lemma_step_frame(nodes: Seq<NodeView>, sv: SymbolsView, mode: ListMode, c: int, st: ResolveState)
    requires
        0 <= c < nodes.len(),
        st.scopes.len() >= 1,
    ensures
        same_frame(st, list_step(nodes, sv, mode, c, st)),
    decreases c, 6int, 0int,
{
    let k = nodes[c].kind;
    match mode {
        ListMode::Resolve => lemma_locals_stay_local(nodes, sv, c, st),
        ListMode::Infer => lemma_infer_frame(nodes, sv, c, st),
        ListMode::Members => {
            let s1 = if stored_property(nodes, c) {
                report(st, extension_message(), nodes[c])
            } else {
                st
            };
            lemma_locals_stay_local(nodes, sv, c, s1);
        },
        ListMode::Init => if k == NodeKind::Param {
            lemma_param_frame(nodes, sv, c, st);
        } else if k != NodeKind::TypeRef {
            lemma_locals_stay_local(nodes, sv, c, st);
        },
        ListMode::Params => if k == NodeKind::Param {
            lemma_param_frame(nodes, sv, c, st);
        },
        ListMode::Defaults => if k != NodeKind::TypeRef {
            lemma_infer_frame(nodes, sv, c, st);
        },
        ListMode::Items => if k == NodeKind::Block {
            lemma_locals_stay_local(nodes, sv, c, st);
        } else if k != NodeKind::PatternValueBinding {
            lemma_infer_frame(nodes, sv, c, st);
        },
        ListMode::For => if k == NodeKind::Block {
            lemma_locals_stay_local(nodes, sv, c, st);
        } else {
            lemma_infer_frame(nodes, sv, c, st);
        },
        ListMode::Clauses => lemma_clause_frame(nodes, sv, c, st),
    }
}

} // verus!
