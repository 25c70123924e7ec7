//! `list_symbols`: a cheap, outline-style symbol index over one or more Swift
//! source files.
//!
//! It walks the syntax tree [`Analysis`] exposes, picking out declaration
//! nodes and reading the facts already decoded onto them (`decl_name`,
//! `type_text`, `param_info`, …). Each file is analyzed on its own, so every
//! [`Symbol`]'s `line` is file-local.
//!
//! Only declarations are listed: a function's body is not descended into,
//! so local variables and nested helper functions do not appear. The result
//! is an outline of types, members and top-level functions and properties.
use vstd::prelude::*;
use crate::syntax::{Analysis, Node, NodeKind, NodeView, decl_name_in, opt_view};
use crate::project::{SourceFile, files_view};
use crate::text::str_same;

verus! {

/// The declaration category of a [`Symbol`], named by its lowercase Swift
/// keyword (`func`, `struct`, `typealias`, …).
#[derive(Debug, Clone, Copy, PartialEq, Eq, Structural)]
pub enum SymbolKind {
    Func,
    Struct,
    Class,
    Enum,
    Protocol,
    Actor,
    Extension,
    Var,
    Let,
    Case,
    Init,
    Deinit,
    Subscript,
    TypeAlias,
    AssociatedType,
}

/// The keyword a symbol kind is named by.
pub open spec fn symbol_kind_name(k: SymbolKind) -> Seq<char> {
    match k {
        SymbolKind::Func => "func"@,
        SymbolKind::Struct => "struct"@,
        SymbolKind::Class => "class"@,
        SymbolKind::Enum => "enum"@,
        SymbolKind::Protocol => "protocol"@,
        SymbolKind::Actor => "actor"@,
        SymbolKind::Extension => "extension"@,
        SymbolKind::Var => "var"@,
        SymbolKind::Let => "let"@,
        SymbolKind::Case => "case"@,
        SymbolKind::Init => "init"@,
        SymbolKind::Deinit => "deinit"@,
        SymbolKind::Subscript => "subscript"@,
        SymbolKind::TypeAlias => "typealias"@,
        SymbolKind::AssociatedType => "associatedtype"@,
    }
}

/// Whether declarations of kind `k` host member declarations.
pub open spec fn container_kind(k: SymbolKind) -> bool {
    k == SymbolKind::Struct || k == SymbolKind::Class || k == SymbolKind::Enum || k == SymbolKind::Protocol
        || k == SymbolKind::Actor || k == SymbolKind::Extension
}

/// The symbol kind of a declaration node kind.
pub open spec fn symbol_kind_of(kind: NodeKind) -> Option<SymbolKind> {
    match kind {
        NodeKind::FuncDecl => Some(SymbolKind::Func),
        NodeKind::StructDecl => Some(SymbolKind::Struct),
        NodeKind::ClassDecl => Some(SymbolKind::Class),
        NodeKind::EnumDecl => Some(SymbolKind::Enum),
        NodeKind::ProtocolDecl => Some(SymbolKind::Protocol),
        NodeKind::ActorDecl => Some(SymbolKind::Actor),
        NodeKind::ExtensionDecl => Some(SymbolKind::Extension),
        NodeKind::VarDecl => Some(SymbolKind::Var),
        NodeKind::LetDecl => Some(SymbolKind::Let),
        NodeKind::EnumCaseDecl => Some(SymbolKind::Case),
        NodeKind::InitDecl => Some(SymbolKind::Init),
        NodeKind::DeinitDecl => Some(SymbolKind::Deinit),
        NodeKind::SubscriptDecl => Some(SymbolKind::Subscript),
        NodeKind::TypeAliasDecl => Some(SymbolKind::TypeAlias),
        NodeKind::AssociatedTypeDecl => Some(SymbolKind::AssociatedType),
        _ => None,
    }
}

impl SymbolKind {
    /// The lowercase Swift keyword this kind names.
    pub fn name(self) -> (r: &'static str)
        ensures
            r@ == symbol_kind_name(self),
    {
        match self {
            SymbolKind::Func => "func",
            SymbolKind::Struct => "struct",
            SymbolKind::Class => "class",
            SymbolKind::Enum => "enum",
            SymbolKind::Protocol => "protocol",
            SymbolKind::Actor => "actor",
            SymbolKind::Extension => "extension",
            SymbolKind::Var => "var",
            SymbolKind::Let => "let",
            SymbolKind::Case => "case",
            SymbolKind::Init => "init",
            SymbolKind::Deinit => "deinit",
            SymbolKind::Subscript => "subscript",
            SymbolKind::TypeAlias => "typealias",
            SymbolKind::AssociatedType => "associatedtype",
        }
    }

    /// Whether this kind's declaration hosts nested member declarations
    /// that are listed with this symbol's name as their `container`.
    fn is_container(self) -> (r: bool)
        ensures
            r == container_kind(self),
    {
        match self {
            SymbolKind::Struct | SymbolKind::Class | SymbolKind::Enum | SymbolKind::Protocol
            | SymbolKind::Actor | SymbolKind::Extension => true,
            _ => false,
        }
    }

    fn of(kind: NodeKind) -> (r: Option<SymbolKind>)
        ensures
            r == symbol_kind_of(kind),
    {
        match kind {
            NodeKind::FuncDecl => Some(SymbolKind::Func),
            NodeKind::StructDecl => Some(SymbolKind::Struct),
            NodeKind::ClassDecl => Some(SymbolKind::Class),
            NodeKind::EnumDecl => Some(SymbolKind::Enum),
            NodeKind::ProtocolDecl => Some(SymbolKind::Protocol),
            NodeKind::ActorDecl => Some(SymbolKind::Actor),
            NodeKind::ExtensionDecl => Some(SymbolKind::Extension),
            NodeKind::VarDecl => Some(SymbolKind::Var),
            NodeKind::LetDecl => Some(SymbolKind::Let),
            NodeKind::EnumCaseDecl => Some(SymbolKind::Case),
            NodeKind::InitDecl => Some(SymbolKind::Init),
            NodeKind::DeinitDecl => Some(SymbolKind::Deinit),
            NodeKind::SubscriptDecl => Some(SymbolKind::Subscript),
            NodeKind::TypeAliasDecl => Some(SymbolKind::TypeAlias),
            NodeKind::AssociatedTypeDecl => Some(SymbolKind::AssociatedType),
            _ => None,
        }
    }
}

/// One declaration found while listing symbols.
#[derive(Debug, Clone, PartialEq, Eq)]
pub struct Symbol {
    pub name: String,
    pub kind: SymbolKind,
    /// The `path` of the [`SourceFile`] this symbol was declared in.
    pub file: String,
    /// 1-based, file-local source line.
    pub line: u32,
    /// The name of the nearest enclosing container declaration (a
    /// struct/class/enum/protocol/actor/extension), if any.
    pub container: Option<String>,
    /// A cheap text rendering of the declaration's shape (parameter list and
    /// return type of a func, type of a var/let, …).
    pub signature: Option<String>,
}

/// The plain values of a [`Symbol`].
pub struct SymbolView {
    pub name: Seq<char>,
    pub kind: SymbolKind,
    pub file: Seq<char>,
    pub line: u32,
    pub container: Option<Seq<char>>,
    pub signature: Option<Seq<char>>,
}

impl View for Symbol {
    type V = SymbolView;

    open spec fn view(&self) -> SymbolView {
        SymbolView {
            name: self.name@,
            kind: self.kind,
            file: self.file@,
            line: self.line,
            container: opt_view(self.container),
            signature: opt_view(self.signature),
        }
    }
}

/// The plain values of a list of symbols.
pub open spec fn symbols_view(s: Seq<Symbol>) -> Seq<SymbolView> {
    s.map_values(|x: Symbol| x@)
}

// --------------------------------------------------------------- text

/// `parts` joined by `sep`.
pub open spec fn join(parts: Seq<Seq<char>>, sep: Seq<char>) -> Seq<char>
    decreases parts.len(),
{
    if parts.len() == 0 {
        Seq::empty()
    } else if parts.len() == 1 {
        parts[0]
    } else {
        join(parts.drop_last(), sep) + sep + parts.last()
    }
}

/// The texts of the children among `kids` of kind `k` that have one.
pub open spec fn texts_of_kind(nodes: Seq<NodeView>, kids: Seq<usize>, k: NodeKind) -> Seq<Seq<char>>
    decreases kids.len(),
{
    if kids.len() == 0 {
        Seq::empty()
    } else {
        let n = nodes[kids.last() as int];
        if n.kind == k && n.text is Some {
            texts_of_kind(nodes, kids.drop_last(), k).push(n.text->0)
        } else {
            texts_of_kind(nodes, kids.drop_last(), k)
        }
    }
}

/// One parameter rendered as Swift source: `[label ]name: [inout ]Type[...]`,
/// the label shown only when it differs from the name.
pub open spec fn param_text(n: NodeView) -> Seq<char> {
    let info = n.param;
    let label = match info.label {
        Some(l) => if l != info.name {
            l + " "@
        } else {
            Seq::empty()
        },
        None => Seq::empty(),
    };
    let ty = match n.type_text {
        Some(t) => t,
        None => Seq::empty(),
    };
    let inout_kw = if info.is_inout {
        "inout "@
    } else {
        Seq::empty()
    };
    let variadic = if info.variadic {
        "..."@
    } else {
        Seq::empty()
    };
    label + info.name + ": "@ + inout_kw + ty + variadic
}

/// The `Param` children among `kids`, rendered.
pub open spec fn param_texts(nodes: Seq<NodeView>, kids: Seq<usize>) -> Seq<Seq<char>>
    decreases kids.len(),
{
    if kids.len() == 0 {
        Seq::empty()
    } else if nodes[kids.last() as int].kind == NodeKind::Param {
        param_texts(nodes, kids.drop_last()).push(param_text(nodes[kids.last() as int]))
    } else {
        param_texts(nodes, kids.drop_last())
    }
}

/// The first text among the children of kind `k`, if any.
pub open spec fn first_text_of_kind(nodes: Seq<NodeView>, kids: Seq<usize>, k: NodeKind) -> Option<Seq<char>>
    decreases kids.len(),
{
    if kids.len() == 0 {
        None
    } else if nodes[kids[0] as int].kind == k {
        nodes[kids[0] as int].text
    } else {
        first_text_of_kind(nodes, kids.drop_first(), k)
    }
}

/// The cheap signature of declaration node `n` of symbol kind `k` named
/// `name`.
pub open spec fn signature_text(nodes: Seq<NodeView>, n: NodeView, k: SymbolKind, name: Seq<char>) -> Option<Seq<char>> {
    if k == SymbolKind::Func || k == SymbolKind::Init || k == SymbolKind::Subscript {
        let params = join(param_texts(nodes, n.children), ", "@);
        let head = if k == SymbolKind::Func {
            "func "@ + name + "("@ + params + ")"@
        } else if k == SymbolKind::Init {
            "init("@ + params + ")"@
        } else {
            "subscript("@ + params + ")"@
        };
        match n.type_text {
            Some(ret) => if ret != "Void"@ {
                Some(head + " -> "@ + ret)
            } else {
                Some(head)
            },
            None => Some(head),
        }
    } else if k == SymbolKind::Var || k == SymbolKind::Let {
        let ty = match first_text_of_kind(nodes, n.children, NodeKind::TypeRef) {
            Some(t) => Some(t),
            None => n.type_text,
        };
        match ty {
            Some(t) => Some(name + ": "@ + t),
            None => Some(name),
        }
    } else if k == SymbolKind::Case {
        let assoc = texts_of_kind(nodes, n.children, NodeKind::TypeRef);
        if assoc.len() == 0 {
            Some("case "@ + name)
        } else {
            Some("case "@ + name + "("@ + join(assoc, ", "@) + ")"@)
        }
    } else if container_kind(k) {
        let conforms = texts_of_kind(nodes, n.children, NodeKind::TypeRef);
        if conforms.len() == 0 {
            Some(name)
        } else {
            Some(name + ": "@ + join(conforms, ", "@))
        }
    } else {
        None
    }
}

/// `parts` joined by `sep`.
fn join_texts(parts: &Vec<String>, sep: &str) -> (r: String)
    ensures
        r@ == join(crate::decode::strings_view(parts@), sep@),
{
    let ghost pv = crate::decode::strings_view(parts@);
    let mut out = String::new();
    let mut k: usize = 0;
    assert(pv.take(0) =~= Seq::<Seq<char>>::empty());
    while k < parts.len()
        invariant
            k <= parts@.len(),
            pv == crate::decode::strings_view(parts@),
            out@ == join(pv.take(k as int), sep@),
        decreases parts@.len() - k,
    {
        assert(pv.take(k as int + 1).drop_last() =~= pv.take(k as int));
        assert(pv.take(k as int + 1).last() == parts@[k as int]@);
        if k > 0 {
            out.append(sep);
        } else {
            assert(pv.take(1).len() == 1);
        }
        out.append(parts[k].as_str());
        k += 1;
    }
    assert(pv.take(parts@.len() as int) =~= pv);
    out
}

/// The texts of the children of `node` of kind `k` that have one.
fn child_texts(node: &Node, k: NodeKind) -> (r: Vec<String>)
    requires
        node.wf(),
    ensures
        crate::decode::strings_view(r@) == texts_of_kind(node.tree(), node.data().children, k),
{
    let kids = node.child_vec();
    let ghost ch = node.data().children;
    let mut out: Vec<String> = Vec::new();
    let mut j: usize = 0;
    assert(crate::decode::strings_view(out@) =~= texts_of_kind(node.tree(), ch.take(0), k));
    while j < kids.len()
        invariant
            kids@.len() == ch.len(),
            j <= kids@.len(),
            ch == node.data().children,
            forall|i: int|
                0 <= i < kids@.len() ==> #[trigger] kids@[i].wf() && kids@[i].id() == ch[i]
                    && kids@[i].tree() == node.tree(),
            crate::decode::strings_view(out@) == texts_of_kind(node.tree(), ch.take(j as int), k),
        decreases kids@.len() - j,
    {
        assert(kids@[j as int].wf());
        assert(ch.take(j as int + 1).drop_last() =~= ch.take(j as int));
        assert(ch.take(j as int + 1).last() == ch[j as int]);
        if kids[j].kind() == k {
            match kids[j].text() {
                Some(t) => {
                    let ghost before = crate::decode::strings_view(out@);
                    out.push(t);
                    assert(crate::decode::strings_view(out@) =~= before.push(t@));
                },
                None => {},
            }
        }
        j += 1;
    }
    assert(ch.take(kids@.len() as int) =~= ch);
    out
}

/// One parameter rendered as Swift source.
fn render_param(p: &Node) -> (r: String)
    requires
        p.wf(),
    ensures
        r@ == param_text(p.data()),
{
    let info = p.param_info();
    let mut out = String::new();
    match &info.label {
        Some(l) => {
            if !str_same(l.as_str(), info.name.as_str()) {
                out.append(l.as_str());
                out.append(" ");
            }
        },
        None => {},
    }
    out.append(info.name.as_str());
    out.append(": ");
    if info.is_inout {
        out.append("inout ");
    }
    match p.type_text() {
        Some(t) => out.append(t.as_str()),
        None => {},
    }
    if info.variadic {
        out.append("...");
    }
    proof {
        let d = p.data();
        assert(out@ =~= param_text(d));
    }
    out
}

/// Render a `FuncDecl`/`InitDecl`/`SubscriptDecl`'s `Param` children as
/// Swift-style parameter source text (`_ x: Int, label y: String...`).
fn param_list(node: &Node) -> (r: String)
    requires
        node.wf(),
    ensures
        r@ == join(param_texts(node.tree(), node.data().children), ", "@),
{
    let kids = node.child_vec();
    let ghost ch = node.data().children;
    let mut parts: Vec<String> = Vec::new();
    let mut j: usize = 0;
    assert(crate::decode::strings_view(parts@) =~= param_texts(node.tree(), ch.take(0)));
    while j < kids.len()
        invariant
            kids@.len() == ch.len(),
            j <= kids@.len(),
            ch == node.data().children,
            forall|i: int|
                0 <= i < kids@.len() ==> #[trigger] kids@[i].wf() && kids@[i].id() == ch[i]
                    && kids@[i].tree() == node.tree(),
            crate::decode::strings_view(parts@) == param_texts(node.tree(), ch.take(j as int)),
        decreases kids@.len() - j,
    {
        assert(kids@[j as int].wf());
        assert(ch.take(j as int + 1).drop_last() =~= ch.take(j as int));
        assert(ch.take(j as int + 1).last() == ch[j as int]);
        if kids[j].kind() == NodeKind::Param {
            let t = render_param(&kids[j]);
            let ghost before = crate::decode::strings_view(parts@);
            parts.push(t);
            assert(crate::decode::strings_view(parts@) =~= before.push(t@));
        }
        j += 1;
    }
    assert(ch.take(kids@.len() as int) =~= ch);
    join_texts(&parts, ", ")
}

/// The first text among the children of `node` of kind `k`, if any.
fn first_child_text(node: &Node, k: NodeKind) -> (r: Option<String>)
    requires
        node.wf(),
    ensures
        opt_view(r) == first_text_of_kind(node.tree(), node.data().children, k),
{
    let kids = node.child_vec();
    let ghost ch = node.data().children;
    let mut j: usize = 0;
    assert(ch.skip(0) =~= ch);
    while j < kids.len()
        invariant
            kids@.len() == ch.len(),
            j <= kids@.len(),
            ch == node.data().children,
            forall|i: int|
                0 <= i < kids@.len() ==> #[trigger] kids@[i].wf() && kids@[i].id() == ch[i]
                    && kids@[i].tree() == node.tree(),
            first_text_of_kind(node.tree(), ch.skip(j as int), k) == first_text_of_kind(node.tree(), ch, k),
        decreases kids@.len() - j,
    {
        assert(kids@[j as int].wf());
        assert(ch.skip(j as int)[0] == ch[j as int]);
        assert(ch.skip(j as int).drop_first() =~= ch.skip(j as int + 1));
        if kids[j].kind() == k {
            return kids[j].text();
        }
        j += 1;
    }
    assert(ch.skip(j as int).len() == 0);
    None
}

/// Build the cheap signature string for one declaration.
fn signature_of(node: &Node, kind: SymbolKind, name: &str) -> (r: Option<String>)
    requires
        node.wf(),
    ensures
        opt_view(r) == signature_text(node.tree(), node.data(), kind, name@),
{
    if kind == SymbolKind::Func || kind == SymbolKind::Init || kind == SymbolKind::Subscript {
        let params = param_list(node);
        let mut head = if kind == SymbolKind::Func {
            let mut h = String::from_str("func ");
            h.append(name);
            h.append("(");
            h
        } else if kind == SymbolKind::Init {
            String::from_str("init(")
        } else {
            String::from_str("subscript(")
        };
        head.append(params.as_str());
        head.append(")");
        match node.type_text() {
            Some(ret) => {
                if !str_same(ret.as_str(), "Void") {
                    head.append(" -> ");
                    head.append(ret.as_str());
                }
            },
            None => {},
        }
        Some(head)
    } else if kind == SymbolKind::Var || kind == SymbolKind::Let {
        let ty = match first_child_text(node, NodeKind::TypeRef) {
            Some(t) => Some(t),
            None => node.type_text(),
        };
        let mut s = String::from_str(name);
        match ty {
            Some(t) => {
                s.append(": ");
                s.append(t.as_str());
            },
            None => {},
        }
        Some(s)
    } else if kind == SymbolKind::Case {
        let assoc = child_texts(node, NodeKind::TypeRef);
        let mut s = String::from_str("case ");
        s.append(name);
        if assoc.len() > 0 {
            s.append("(");
            let j = join_texts(&assoc, ", ");
            s.append(j.as_str());
            s.append(")");
        }
        Some(s)
    } else if kind.is_container() {
        let conforms = child_texts(node, NodeKind::TypeRef);
        let mut s = String::from_str(name);
        if conforms.len() > 0 {
            s.append(": ");
            let j = join_texts(&conforms, ", ");
            s.append(j.as_str());
        }
        Some(s)
    } else {
        None
    }
}

// ---------------------------------------------------------------- walk

/// The plain value of an optional name.
pub open spec fn opt_name(o: Option<&str>) -> Option<Seq<char>> {
    match o {
        Some(s) => Some(s@),
        None => None,
    }
}

/// The name a declaration of kind `k` is listed under: the keyword itself
/// for `init`, `deinit` and `subscript`, else its declared name.
pub open spec fn listed_name(nodes: Seq<NodeView>, n: NodeView, k: SymbolKind) -> Option<Seq<char>> {
    if k == SymbolKind::Init {
        Some("init"@)
    } else if k == SymbolKind::Deinit {
        Some("deinit"@)
    } else if k == SymbolKind::Subscript {
        Some("subscript"@)
    } else {
        decl_name_in(nodes, n.children, n.text)
    }
}

/// The symbols declared among `kids` (children of node `parent`), in order.
pub open spec fn syms_in(
    nodes: Seq<NodeView>,
    kids: Seq<usize>,
    parent: int,
    file: Seq<char>,
    container: Option<Seq<char>>,
) -> Seq<SymbolView>
    decreases parent, 0int, kids.len(),
{
    if kids.len() == 0 {
        Seq::empty()
    } else {
        let c = kids.last() as int;
        let rest = syms_in(nodes, kids.drop_last(), parent, file, container);
        if 0 <= c < parent {
            rest + syms_of(nodes, c, file, container)
        } else {
            rest
        }
    }
}

/// The symbols node `c` contributes: itself when it is a named declaration
/// (then its members, when it is a container), or the declarations inside a
/// `#if` directive; a function body is never entered.
pub open spec fn syms_of(nodes: Seq<NodeView>, c: int, file: Seq<char>, container: Option<Seq<char>>) -> Seq<SymbolView>
    decreases c, 1int, 0int,
{
    let n = nodes[c];
    match symbol_kind_of(n.kind) {
        None => if n.kind == NodeKind::CompilerDirective {
            syms_in(nodes, n.children, c, file, container)
        } else {
            Seq::empty()
        },
        Some(k) => match listed_name(nodes, n, k) {
            None => Seq::empty(),
            Some(nm) => {
                let me = SymbolView {
                    name: nm,
                    kind: k,
                    file,
                    line: n.line,
                    container,
                    signature: signature_text(nodes, n, k, nm),
                };
                if container_kind(k) {
                    seq![me] + syms_in(nodes, n.children, c, file, Some(nm))
                } else {
                    seq![me]
                }
            },
        },
    }
}

/// The listing of `kids` holds the own symbol of each listed declaration
/// among them.
proof fn lemma_syms_in_holds_each_child(
    nodes: Seq<NodeView>,
    kids: Seq<usize>,
    parent: int,
    file: Seq<char>,
    container: Option<Seq<char>>,
    i: int,
)
    requires
        0 <= i < kids.len(),
        0 <= kids[i] < parent,
        syms_of(nodes, kids[i] as int, file, container).len() > 0,
    ensures
        syms_in(nodes, kids, parent, file, container).contains(syms_of(nodes, kids[i] as int, file, container)[0]),
    decreases kids.len(),
{
    let rest = syms_in(nodes, kids.drop_last(), parent, file, container);
    let mine = syms_of(nodes, kids[i] as int, file, container);
    if i == kids.len() - 1 {
        assert(syms_in(nodes, kids, parent, file, container) == rest + mine);
        assert((rest + mine)[rest.len() as int] == mine[0]);
    } else {
        assert(kids.drop_last()[i] == kids[i]);
        lemma_syms_in_holds_each_child(nodes, kids.drop_last(), parent, file, container, i);
        let w = choose|w: int| 0 <= w < rest.len() && rest[w] == mine[0];
        let c = kids.last() as int;
        if 0 <= c < parent {
            let all = rest + syms_of(nodes, c, file, container);
            assert(all[w] == rest[w]);
        }
    }
}

/// A named type declaration lists itself first and then every listed
/// member declaration directly inside it, the member with the type's name
/// as its container: alike for a struct, class, enum, protocol, actor or
/// extension. So `actor Counter { var n = 0 }` lists `Counter`, then `n`
/// inside `Counter`.
pub proof fn lemma_type_members_are_listed_inside_it(
    nodes: Seq<NodeView>,
    c: int,
    file: Seq<char>,
    container: Option<Seq<char>>,
    i: int,
)
    requires
        0 <= c < nodes.len(),
        nodes[c].kind == NodeKind::StructDecl || nodes[c].kind == NodeKind::ClassDecl || nodes[c].kind
            == NodeKind::EnumDecl || nodes[c].kind == NodeKind::ProtocolDecl || nodes[c].kind
            == NodeKind::ActorDecl || nodes[c].kind == NodeKind::ExtensionDecl,
        listed_name(nodes, nodes[c], symbol_kind_of(nodes[c].kind).unwrap()) is Some,
        0 <= i < nodes[c].children.len(),
        0 <= nodes[c].children[i] < c,
        symbol_kind_of(nodes[nodes[c].children[i] as int].kind) is Some,
        syms_of(
            nodes,
            nodes[c].children[i] as int,
            file,
            listed_name(nodes, nodes[c], symbol_kind_of(nodes[c].kind).unwrap()),
        ).len() > 0,
    ensures
        ({
            let nm = listed_name(nodes, nodes[c], symbol_kind_of(nodes[c].kind).unwrap());
            let member = syms_of(nodes, nodes[c].children[i] as int, file, nm)[0];
            &&& syms_of(nodes, c, file, container)[0].name == nm.unwrap()
            &&& syms_of(nodes, c, file, container)[0].container == container
            &&& syms_of(nodes, c, file, container).contains(member)
            &&& member.container == nm
        }),
{
    let nm = listed_name(nodes, nodes[c], symbol_kind_of(nodes[c].kind).unwrap());
    let m = nodes[c].children[i] as int;
    lemma_syms_in_holds_each_child(nodes, nodes[c].children, c, file, nm, i);
    let inner = syms_in(nodes, nodes[c].children, c, file, nm);
    let all = syms_of(nodes, c, file, container);
    assert(all == seq![all[0]] + inner);
    let w = choose|w: int| 0 <= w < inner.len() && inner[w] == syms_of(nodes, m, file, nm)[0];
    assert(all[w + 1] == inner[w]);
    assert(syms_of(nodes, m, file, nm)[0].container == nm);
    assert(all[0].name == nm.unwrap());
}

/// A function, initializer, deinitializer, subscript or property lists
/// itself alone: its body (its statements, local bindings and nested
/// helpers) is never entered.
pub proof fn lemma_bodies_are_not_entered(nodes: Seq<NodeView>, c: int, file: Seq<char>, container: Option<Seq<char>>)
    requires
        0 <= c < nodes.len(),
        nodes[c].kind == NodeKind::FuncDecl || nodes[c].kind == NodeKind::InitDecl || nodes[c].kind
            == NodeKind::DeinitDecl || nodes[c].kind == NodeKind::SubscriptDecl || nodes[c].kind
            == NodeKind::VarDecl || nodes[c].kind == NodeKind::LetDecl,
        listed_name(nodes, nodes[c], symbol_kind_of(nodes[c].kind).unwrap()) is Some,
    ensures
        syms_of(nodes, c, file, container).len() == 1,
        syms_of(nodes, c, file, container)[0].name == listed_name(
            nodes,
            nodes[c],
            symbol_kind_of(nodes[c].kind).unwrap(),
        ).unwrap(),
        syms_of(nodes, c, file, container)[0].container == container,
{
}

/// Append the symbols declared among `node`'s children to `out`.
fn walk(node: &Node, file: &str, container: Option<&str>, out: &mut Vec<Symbol>)
    requires
        node.wf(),
    ensures
        symbols_view(final(out)@) == symbols_view(old(out)@) + syms_in(
            node.tree(),
            node.data().children,
            node.id() as int,
            file@,
            opt_name(container),
        ),
    decreases node.id(),
{
    proof {
        node.lemma_children_below();
    }
    let kids = node.child_vec();
    let ghost ch = node.data().children;
    let ghost nodes = node.tree();
    let ghost start = symbols_view(out@);
    let mut j: usize = 0;
    assert(syms_in(nodes, ch.take(0), node.id() as int, file@, opt_name(container)) =~= Seq::<SymbolView>::empty());
    assert(start + Seq::<SymbolView>::empty() =~= start);
    while j < kids.len()
        invariant
            kids@.len() == ch.len(),
            j <= kids@.len(),
            ch == node.data().children,
            nodes == node.tree(),
            node.wf(),
            forall|i: int| 0 <= i < ch.len() ==> (#[trigger] ch[i] as int) < node.id() as int,
            forall|i: int|
                0 <= i < kids@.len() ==> #[trigger] kids@[i].wf() && kids@[i].id() == ch[i]
                    && kids@[i].tree() == nodes,
            symbols_view(out@) == start + syms_in(nodes, ch.take(j as int), node.id() as int, file@, opt_name(container)),
        decreases kids@.len() - j,
    {
        let child = kids[j];
        assert(kids@[j as int].wf());
        assert(ch.take(j as int + 1).drop_last() =~= ch.take(j as int));
        assert(ch.take(j as int + 1).last() == ch[j as int]);
        assert((ch[j as int] as int) < node.id() as int);
        let ghost before = symbols_view(out@);
        let ghost added = syms_of(nodes, ch[j as int] as int, file@, opt_name(container));
        let ck = child.kind();
        match SymbolKind::of(ck) {
            None => {
                if ck == NodeKind::CompilerDirective {
                    walk(&child, file, container, out);
                }
                assert(symbols_view(out@) =~= before + added);
            },
            Some(kind) => {
                let name = if kind == SymbolKind::Init {
                    Some(String::from_str("init"))
                } else if kind == SymbolKind::Deinit {
                    Some(String::from_str("deinit"))
                } else if kind == SymbolKind::Subscript {
                    Some(String::from_str("subscript"))
                } else {
                    child.decl_name()
                };
                match name {
                    None => {
                        assert(symbols_view(out@) =~= before + added);
                    },
                    Some(nm) => {
                        let sig = signature_of(&child, kind, nm.as_str());
                        let cont = match container {
                            Some(c) => Some(String::from_str(c)),
                            None => None,
                        };
                        let sym = Symbol {
                            name: nm.clone(),
                            kind,
                            file: String::from_str(file),
                            line: child.line(),
                            container: cont,
                            signature: sig,
                        };
                        out.push(sym);
                        let ghost mid = symbols_view(out@);
                        assert(mid =~= before.push(sym@));
                        if kind.is_container() {
                            walk(&child, file, Some(nm.as_str()), out);
                            assert(symbols_view(out@) =~= before + added);
                        } else {
                            assert(symbols_view(out@) =~= before + added);
                        }
                    },
                }
            },
        }
        assert(before + added == start + syms_in(nodes, ch.take(j as int + 1), node.id() as int, file@, opt_name(container))) by {
            assert(start + syms_in(nodes, ch.take(j as int), node.id() as int, file@, opt_name(container)) + added
                =~= start + (syms_in(nodes, ch.take(j as int), node.id() as int, file@, opt_name(container)) + added));
        }
        j += 1;
    }
    assert(ch.take(kids@.len() as int) =~= ch);
}

/// The symbols one analyzed file declares, in outline order.
pub fn symbols_of_analysis(analysis: &Analysis, file: &str) -> (r: Vec<Symbol>)
    requires
        analysis.wf(),
    ensures
        symbols_view(r@) == syms_in(
            analysis.tree(),
            analysis.tree()[analysis.root_id() as int].children,
            analysis.root_id() as int,
            file@,
            None,
        ),
{
    let mut out: Vec<Symbol> = Vec::new();
    let root = analysis.root();
    walk(&root, file, None, &mut out);
    assert(symbols_view(out@) =~= Seq::<SymbolView>::empty() + syms_in(
        analysis.tree(),
        analysis.tree()[analysis.root_id() as int].children,
        analysis.root_id() as int,
        file@,
        None,
    ));
    out
}

/// The concatenation of `parts`.
pub open spec fn concat_syms(parts: Seq<Seq<SymbolView>>) -> Seq<SymbolView>
    decreases parts.len(),
{
    if parts.len() == 0 {
        Seq::empty()
    } else {
        concat_syms(parts.drop_last()) + parts.last()
    }
}

/// `part` is what file `f` contributes: nothing when it cannot be analyzed
/// (a NUL character in its path or text), else the symbols of an analysis of
/// its text (one that meets [`crate::syntax::analysis_of`]).
pub open spec fn file_part(f: (Seq<char>, Seq<char>), part: Seq<SymbolView>) -> bool {
    if f.0.contains('\0') || f.1.contains('\0') {
        part.len() == 0
    } else {
        exists|a: Analysis|
            crate::syntax::analysis_of(a, f.1) && part == #[trigger] syms_in(
                a.tree(),
                a.tree()[a.root_id() as int].children,
                a.root_id() as int,
                f.0,
                None,
            )
    }
}

/// A file whose text holds no statement (nothing but `;`) contributes no
/// symbols.
pub proof fn lemma_blank_file_has_no_symbols(f: (Seq<char>, Seq<char>), part: Seq<SymbolView>)
    requires
        file_part(f, part),
        crate::lex_spec::lexable(f.1),
        crate::lex_spec::spec_tokenize(f.1) matches Ok(ts) && crate::parser::blank_program(ts),
    ensures
        part.len() == 0,
{
    if !(f.0.contains('\0') || f.1.contains('\0')) {
        let a = choose|a: Analysis|
            crate::syntax::analysis_of(a, f.1) && part == #[trigger] syms_in(
                a.tree(),
                a.tree()[a.root_id() as int].children,
                a.root_id() as int,
                f.0,
                None,
            );
        assert(a.root_id() == 0);
        assert(a.tree()[0].children.len() == 0);
    }
}

/// List every declaration symbol across `files`. Each file is analyzed
/// independently (a syntax error in one file still yields symbols for the
/// others); files that fail to analyze contribute no symbols.
pub fn list_symbols(files: &[SourceFile]) -> (r: Vec<Symbol>)
    ensures
        exists|parts: Seq<Seq<SymbolView>>|
            parts.len() == files@.len() && symbols_view(r@) == concat_syms(parts) && forall|i: int|
                0 <= i < files@.len() ==> file_part(#[trigger] files_view(files@)[i], parts[i]),
{
    let mut out: Vec<Symbol> = Vec::new();
    let ghost mut parts: Seq<Seq<SymbolView>> = Seq::empty();
    let mut k: usize = 0;
    while k < files.len()
        invariant
            k <= files@.len(),
            parts.len() == k,
            symbols_view(out@) == concat_syms(parts),
            forall|i: int| 0 <= i < k ==> file_part(#[trigger] files_view(files@)[i], parts[i]),
        decreases files@.len() - k,
    {
        let f = &files[k];
        assert(files_view(files@)[k as int] == f@);
        match Analysis::analyze(f.source.as_str(), f.path.as_str()) {
            Err(_) => {
                proof {
                    let old_parts = parts;
                    parts = parts.push(Seq::empty());
                    assert(parts.drop_last() =~= old_parts);
                    assert(symbols_view(out@) =~= concat_syms(old_parts) + Seq::<SymbolView>::empty());
                    assert forall|i: int| 0 <= i < k + 1 implies file_part(#[trigger] files_view(files@)[i], parts[i]) by {
                        if i < k {
                            assert(parts[i] == old_parts[i]);
                        }
                    }
                }
            },
            Ok(a) => {
                let ghost before = symbols_view(out@);
                let ghost part = syms_in(a.tree(), a.tree()[a.root_id() as int].children, a.root_id() as int, f@.0, None);
                let mut syms = symbols_of_analysis(&a, f.path.as_str());
                out.append(&mut syms);
                assert(symbols_view(out@) =~= before + part);
                proof {
                    let old_parts = parts;
                    parts = parts.push(part);
                    assert(parts.drop_last() =~= old_parts);
                    assert(file_part(f@, part));
                    assert forall|i: int| 0 <= i < k + 1 implies file_part(#[trigger] files_view(files@)[i], parts[i]) by {
                        if i < k {
                            assert(parts[i] == old_parts[i]);
                        }
                    }
                }
            },
        }
        k += 1;
    }
    out
}

} // verus!
