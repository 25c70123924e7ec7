//! The runtime-facing syntax tree: an [`Analysis`] owns every node of one
//! source file in an arena, and a [`Node`] is a cheap cursor borrowing the
//! analysis, so it can never dangle.
//!
//! Every node is stored after its children, so child indices are always
//! smaller than their parent's: walks over the tree terminate.
use vstd::prelude::*;
use crate::decode;
use crate::lex_spec::{lexable, spec_tokenize};

verus! {

/// The kind of syntax a [`Node`] represents.
#[derive(Debug, Clone, Copy, PartialEq, Eq, Structural)]
pub enum NodeKind {
    SourceFile,
    ExprStmt,
    CallExpr,
    IdentExpr,
    MemberExpr,
    IntegerLiteral,
    FloatLiteral,
    StringLiteral,
    BoolLiteral,
    NilLiteral,
    ArrayLiteral,
    DictionaryLiteral,
    TupleExpr,
    ClosureExpr,
    PrefixExpr,
    BinaryExpr,
    AssignExpr,
    SubscriptExpr,
    InoutExpr,
    ForceUnwrapExpr,
    OptionalChainExpr,
    MacroExpansion,
    LetDecl,
    VarDecl,
    PatternValueBinding,
    PatternWildcard,
    TypeRef,
    FuncDecl,
    InitDecl,
    DeinitDecl,
    Param,
    Block,
    ReturnStmt,
    StructDecl,
    ClassDecl,
    EnumDecl,
    ProtocolDecl,
    ActorDecl,
    ExtensionDecl,
    EnumCaseDecl,
    EnumElementDecl,
    ImportDecl,
    TypeAliasDecl,
    AssociatedTypeDecl,
    SubscriptDecl,
    AccessorDecl,
    CaseClause,
    CompilerDirective,
    Attribute,
    IfStmt,
    GuardStmt,
    WhileStmt,
    RepeatStmt,
    ForStmt,
    SwitchStmt,
    DoStmt,
    ThrowStmt,
    DeferStmt,
    BreakStmt,
    ContinueStmt,
    FallthroughStmt,
    TernaryExpr,
    CastExpr,
    TryExpr,
    AwaitExpr,
    RegexLiteral,
    PatternTuple,
    EnumCasePattern,
    WhereClause,
    OperatorDecl,
    PrecedenceGroupDecl,
    CatchClause,
    ClosureCapture,
    KeyPathExpr,
    GenericParam,
    RangePattern,
    PostfixExpr,
    /// A raw kind number with no named variant.
    Other(u32),
}

impl NodeKind {
    /// The snake_case name of the kind, as the JSON dump writes it.
    pub fn name(self) -> (r: &'static str)
        ensures
            r@ == kind_name(self),
    {
        match self {
            NodeKind::SourceFile => "source_file",
            NodeKind::ExprStmt => "expr_stmt",
            NodeKind::CallExpr => "call_expr",
            NodeKind::IdentExpr => "ident_expr",
            NodeKind::MemberExpr => "member_expr",
            NodeKind::IntegerLiteral => "integer_literal",
            NodeKind::FloatLiteral => "float_literal",
            NodeKind::StringLiteral => "string_literal",
            NodeKind::BoolLiteral => "bool_literal",
            NodeKind::NilLiteral => "nil_literal",
            NodeKind::ArrayLiteral => "array_literal",
            NodeKind::DictionaryLiteral => "dictionary_literal",
            NodeKind::TupleExpr => "tuple_expr",
            NodeKind::ClosureExpr => "closure_expr",
            NodeKind::PrefixExpr => "prefix_expr",
            NodeKind::BinaryExpr => "binary_expr",
            NodeKind::AssignExpr => "assign_expr",
            NodeKind::SubscriptExpr => "subscript_expr",
            NodeKind::InoutExpr => "inout_expr",
            NodeKind::ForceUnwrapExpr => "force_unwrap_expr",
            NodeKind::OptionalChainExpr => "optional_chain_expr",
            NodeKind::MacroExpansion => "macro_expansion",
            NodeKind::LetDecl => "let_decl",
            NodeKind::VarDecl => "var_decl",
            NodeKind::PatternValueBinding => "pattern_value_binding",
            NodeKind::PatternWildcard => "pattern_wildcard",
            NodeKind::TypeRef => "type_ref",
            NodeKind::FuncDecl => "func_decl",
            NodeKind::InitDecl => "init_decl",
            NodeKind::DeinitDecl => "deinit_decl",
            NodeKind::Param => "param",
            NodeKind::Block => "block",
            NodeKind::ReturnStmt => "return_stmt",
            NodeKind::StructDecl => "struct_decl",
            NodeKind::ClassDecl => "class_decl",
            NodeKind::EnumDecl => "enum_decl",
            NodeKind::ProtocolDecl => "protocol_decl",
            NodeKind::ActorDecl => "actor_decl",
            NodeKind::ExtensionDecl => "extension_decl",
            NodeKind::EnumCaseDecl => "enum_case_decl",
            NodeKind::EnumElementDecl => "enum_element_decl",
            NodeKind::ImportDecl => "import_decl",
            NodeKind::TypeAliasDecl => "type_alias_decl",
            NodeKind::AssociatedTypeDecl => "associated_type_decl",
            NodeKind::SubscriptDecl => "subscript_decl",
            NodeKind::AccessorDecl => "accessor_decl",
            NodeKind::CaseClause => "case_clause",
            NodeKind::CompilerDirective => "compiler_directive",
            NodeKind::Attribute => "attribute",
            NodeKind::IfStmt => "if_stmt",
            NodeKind::GuardStmt => "guard_stmt",
            NodeKind::WhileStmt => "while_stmt",
            NodeKind::RepeatStmt => "repeat_stmt",
            NodeKind::ForStmt => "for_stmt",
            NodeKind::SwitchStmt => "switch_stmt",
            NodeKind::DoStmt => "do_stmt",
            NodeKind::ThrowStmt => "throw_stmt",
            NodeKind::DeferStmt => "defer_stmt",
            NodeKind::BreakStmt => "break_stmt",
            NodeKind::ContinueStmt => "continue_stmt",
            NodeKind::FallthroughStmt => "fallthrough_stmt",
            NodeKind::TernaryExpr => "ternary_expr",
            NodeKind::CastExpr => "cast_expr",
            NodeKind::TryExpr => "try_expr",
            NodeKind::AwaitExpr => "await_expr",
            NodeKind::RegexLiteral => "regex_literal",
            NodeKind::PatternTuple => "pattern_tuple",
            NodeKind::EnumCasePattern => "enum_case_pattern",
            NodeKind::WhereClause => "where_clause",
            NodeKind::OperatorDecl => "operator_decl",
            NodeKind::PrecedenceGroupDecl => "precedence_group_decl",
            NodeKind::CatchClause => "catch_clause",
            NodeKind::ClosureCapture => "closure_capture",
            NodeKind::KeyPathExpr => "key_path_expr",
            NodeKind::GenericParam => "generic_param",
            NodeKind::RangePattern => "range_pattern",
            NodeKind::PostfixExpr => "postfix_expr",
            NodeKind::Other(_) => "other",
        }
    }
}

pub open spec fn kind_name(k: NodeKind) -> Seq<char> {
    match k {
        NodeKind::SourceFile => "source_file"@,
        NodeKind::ExprStmt => "expr_stmt"@,
        NodeKind::CallExpr => "call_expr"@,
        NodeKind::IdentExpr => "ident_expr"@,
        NodeKind::MemberExpr => "member_expr"@,
        NodeKind::IntegerLiteral => "integer_literal"@,
        NodeKind::FloatLiteral => "float_literal"@,
        NodeKind::StringLiteral => "string_literal"@,
        NodeKind::BoolLiteral => "bool_literal"@,
        NodeKind::NilLiteral => "nil_literal"@,
        NodeKind::ArrayLiteral => "array_literal"@,
        NodeKind::DictionaryLiteral => "dictionary_literal"@,
        NodeKind::TupleExpr => "tuple_expr"@,
        NodeKind::ClosureExpr => "closure_expr"@,
        NodeKind::PrefixExpr => "prefix_expr"@,
        NodeKind::BinaryExpr => "binary_expr"@,
        NodeKind::AssignExpr => "assign_expr"@,
        NodeKind::SubscriptExpr => "subscript_expr"@,
        NodeKind::InoutExpr => "inout_expr"@,
        NodeKind::ForceUnwrapExpr => "force_unwrap_expr"@,
        NodeKind::OptionalChainExpr => "optional_chain_expr"@,
        NodeKind::MacroExpansion => "macro_expansion"@,
        NodeKind::LetDecl => "let_decl"@,
        NodeKind::VarDecl => "var_decl"@,
        NodeKind::PatternValueBinding => "pattern_value_binding"@,
        NodeKind::PatternWildcard => "pattern_wildcard"@,
        NodeKind::TypeRef => "type_ref"@,
        NodeKind::FuncDecl => "func_decl"@,
        NodeKind::InitDecl => "init_decl"@,
        NodeKind::DeinitDecl => "deinit_decl"@,
        NodeKind::Param => "param"@,
        NodeKind::Block => "block"@,
        NodeKind::ReturnStmt => "return_stmt"@,
        NodeKind::StructDecl => "struct_decl"@,
        NodeKind::ClassDecl => "class_decl"@,
        NodeKind::EnumDecl => "enum_decl"@,
        NodeKind::ProtocolDecl => "protocol_decl"@,
        NodeKind::ActorDecl => "actor_decl"@,
        NodeKind::ExtensionDecl => "extension_decl"@,
        NodeKind::EnumCaseDecl => "enum_case_decl"@,
        NodeKind::EnumElementDecl => "enum_element_decl"@,
        NodeKind::ImportDecl => "import_decl"@,
        NodeKind::TypeAliasDecl => "type_alias_decl"@,
        NodeKind::AssociatedTypeDecl => "associated_type_decl"@,
        NodeKind::SubscriptDecl => "subscript_decl"@,
        NodeKind::AccessorDecl => "accessor_decl"@,
        NodeKind::CaseClause => "case_clause"@,
        NodeKind::CompilerDirective => "compiler_directive"@,
        NodeKind::Attribute => "attribute"@,
        NodeKind::IfStmt => "if_stmt"@,
        NodeKind::GuardStmt => "guard_stmt"@,
        NodeKind::WhileStmt => "while_stmt"@,
        NodeKind::RepeatStmt => "repeat_stmt"@,
        NodeKind::ForStmt => "for_stmt"@,
        NodeKind::SwitchStmt => "switch_stmt"@,
        NodeKind::DoStmt => "do_stmt"@,
        NodeKind::ThrowStmt => "throw_stmt"@,
        NodeKind::DeferStmt => "defer_stmt"@,
        NodeKind::BreakStmt => "break_stmt"@,
        NodeKind::ContinueStmt => "continue_stmt"@,
        NodeKind::FallthroughStmt => "fallthrough_stmt"@,
        NodeKind::TernaryExpr => "ternary_expr"@,
        NodeKind::CastExpr => "cast_expr"@,
        NodeKind::TryExpr => "try_expr"@,
        NodeKind::AwaitExpr => "await_expr"@,
        NodeKind::RegexLiteral => "regex_literal"@,
        NodeKind::PatternTuple => "pattern_tuple"@,
        NodeKind::EnumCasePattern => "enum_case_pattern"@,
        NodeKind::WhereClause => "where_clause"@,
        NodeKind::OperatorDecl => "operator_decl"@,
        NodeKind::PrecedenceGroupDecl => "precedence_group_decl"@,
        NodeKind::CatchClause => "catch_clause"@,
        NodeKind::ClosureCapture => "closure_capture"@,
        NodeKind::KeyPathExpr => "key_path_expr"@,
        NodeKind::GenericParam => "generic_param"@,
        NodeKind::RangePattern => "range_pattern"@,
        NodeKind::PostfixExpr => "postfix_expr"@,
        NodeKind::Other(_) => "other"@,
    }
}

/// The name a kind is written with in the dump (its variant name, and
/// `Other(n)` for a raw kind).
pub open spec fn kind_debug(k: NodeKind) -> Seq<char> {
    match k {
        NodeKind::SourceFile => "SourceFile"@,
        NodeKind::ExprStmt => "ExprStmt"@,
        NodeKind::CallExpr => "CallExpr"@,
        NodeKind::IdentExpr => "IdentExpr"@,
        NodeKind::MemberExpr => "MemberExpr"@,
        NodeKind::IntegerLiteral => "IntegerLiteral"@,
        NodeKind::FloatLiteral => "FloatLiteral"@,
        NodeKind::StringLiteral => "StringLiteral"@,
        NodeKind::BoolLiteral => "BoolLiteral"@,
        NodeKind::NilLiteral => "NilLiteral"@,
        NodeKind::ArrayLiteral => "ArrayLiteral"@,
        NodeKind::DictionaryLiteral => "DictionaryLiteral"@,
        NodeKind::TupleExpr => "TupleExpr"@,
        NodeKind::ClosureExpr => "ClosureExpr"@,
        NodeKind::PrefixExpr => "PrefixExpr"@,
        NodeKind::BinaryExpr => "BinaryExpr"@,
        NodeKind::AssignExpr => "AssignExpr"@,
        NodeKind::SubscriptExpr => "SubscriptExpr"@,
        NodeKind::InoutExpr => "InoutExpr"@,
        NodeKind::ForceUnwrapExpr => "ForceUnwrapExpr"@,
        NodeKind::OptionalChainExpr => "OptionalChainExpr"@,
        NodeKind::MacroExpansion => "MacroExpansion"@,
        NodeKind::LetDecl => "LetDecl"@,
        NodeKind::VarDecl => "VarDecl"@,
        NodeKind::PatternValueBinding => "PatternValueBinding"@,
        NodeKind::PatternWildcard => "PatternWildcard"@,
        NodeKind::TypeRef => "TypeRef"@,
        NodeKind::FuncDecl => "FuncDecl"@,
        NodeKind::InitDecl => "InitDecl"@,
        NodeKind::DeinitDecl => "DeinitDecl"@,
        NodeKind::Param => "Param"@,
        NodeKind::Block => "Block"@,
        NodeKind::ReturnStmt => "ReturnStmt"@,
        NodeKind::StructDecl => "StructDecl"@,
        NodeKind::ClassDecl => "ClassDecl"@,
        NodeKind::EnumDecl => "EnumDecl"@,
        NodeKind::ProtocolDecl => "ProtocolDecl"@,
        NodeKind::ActorDecl => "ActorDecl"@,
        NodeKind::ExtensionDecl => "ExtensionDecl"@,
        NodeKind::EnumCaseDecl => "EnumCaseDecl"@,
        NodeKind::EnumElementDecl => "EnumElementDecl"@,
        NodeKind::ImportDecl => "ImportDecl"@,
        NodeKind::TypeAliasDecl => "TypeAliasDecl"@,
        NodeKind::AssociatedTypeDecl => "AssociatedTypeDecl"@,
        NodeKind::SubscriptDecl => "SubscriptDecl"@,
        NodeKind::AccessorDecl => "AccessorDecl"@,
        NodeKind::CaseClause => "CaseClause"@,
        NodeKind::CompilerDirective => "CompilerDirective"@,
        NodeKind::Attribute => "Attribute"@,
        NodeKind::IfStmt => "IfStmt"@,
        NodeKind::GuardStmt => "GuardStmt"@,
        NodeKind::WhileStmt => "WhileStmt"@,
        NodeKind::RepeatStmt => "RepeatStmt"@,
        NodeKind::ForStmt => "ForStmt"@,
        NodeKind::SwitchStmt => "SwitchStmt"@,
        NodeKind::DoStmt => "DoStmt"@,
        NodeKind::ThrowStmt => "ThrowStmt"@,
        NodeKind::DeferStmt => "DeferStmt"@,
        NodeKind::BreakStmt => "BreakStmt"@,
        NodeKind::ContinueStmt => "ContinueStmt"@,
        NodeKind::FallthroughStmt => "FallthroughStmt"@,
        NodeKind::TernaryExpr => "TernaryExpr"@,
        NodeKind::CastExpr => "CastExpr"@,
        NodeKind::TryExpr => "TryExpr"@,
        NodeKind::AwaitExpr => "AwaitExpr"@,
        NodeKind::RegexLiteral => "RegexLiteral"@,
        NodeKind::PatternTuple => "PatternTuple"@,
        NodeKind::EnumCasePattern => "EnumCasePattern"@,
        NodeKind::WhereClause => "WhereClause"@,
        NodeKind::OperatorDecl => "OperatorDecl"@,
        NodeKind::PrecedenceGroupDecl => "PrecedenceGroupDecl"@,
        NodeKind::CatchClause => "CatchClause"@,
        NodeKind::ClosureCapture => "ClosureCapture"@,
        NodeKind::KeyPathExpr => "KeyPathExpr"@,
        NodeKind::GenericParam => "GenericParam"@,
        NodeKind::RangePattern => "RangePattern"@,
        NodeKind::PostfixExpr => "PostfixExpr"@,
        NodeKind::Other(n) => "Other("@ + crate::text::decimal(n as nat) + ")"@,
    }
}

impl NodeKind {
    /// The name this kind is written with in the dump.
    pub fn debug_name(self) -> (r: String)
        ensures
            r@ == kind_debug(self),
    {
        match self {
            NodeKind::SourceFile => String::from_str("SourceFile"),
            NodeKind::ExprStmt => String::from_str("ExprStmt"),
            NodeKind::CallExpr => String::from_str("CallExpr"),
            NodeKind::IdentExpr => String::from_str("IdentExpr"),
            NodeKind::MemberExpr => String::from_str("MemberExpr"),
            NodeKind::IntegerLiteral => String::from_str("IntegerLiteral"),
            NodeKind::FloatLiteral => String::from_str("FloatLiteral"),
            NodeKind::StringLiteral => String::from_str("StringLiteral"),
            NodeKind::BoolLiteral => String::from_str("BoolLiteral"),
            NodeKind::NilLiteral => String::from_str("NilLiteral"),
            NodeKind::ArrayLiteral => String::from_str("ArrayLiteral"),
            NodeKind::DictionaryLiteral => String::from_str("DictionaryLiteral"),
            NodeKind::TupleExpr => String::from_str("TupleExpr"),
            NodeKind::ClosureExpr => String::from_str("ClosureExpr"),
            NodeKind::PrefixExpr => String::from_str("PrefixExpr"),
            NodeKind::BinaryExpr => String::from_str("BinaryExpr"),
            NodeKind::AssignExpr => String::from_str("AssignExpr"),
            NodeKind::SubscriptExpr => String::from_str("SubscriptExpr"),
            NodeKind::InoutExpr => String::from_str("InoutExpr"),
            NodeKind::ForceUnwrapExpr => String::from_str("ForceUnwrapExpr"),
            NodeKind::OptionalChainExpr => String::from_str("OptionalChainExpr"),
            NodeKind::MacroExpansion => String::from_str("MacroExpansion"),
            NodeKind::LetDecl => String::from_str("LetDecl"),
            NodeKind::VarDecl => String::from_str("VarDecl"),
            NodeKind::PatternValueBinding => String::from_str("PatternValueBinding"),
            NodeKind::PatternWildcard => String::from_str("PatternWildcard"),
            NodeKind::TypeRef => String::from_str("TypeRef"),
            NodeKind::FuncDecl => String::from_str("FuncDecl"),
            NodeKind::InitDecl => String::from_str("InitDecl"),
            NodeKind::DeinitDecl => String::from_str("DeinitDecl"),
            NodeKind::Param => String::from_str("Param"),
            NodeKind::Block => String::from_str("Block"),
            NodeKind::ReturnStmt => String::from_str("ReturnStmt"),
            NodeKind::StructDecl => String::from_str("StructDecl"),
            NodeKind::ClassDecl => String::from_str("ClassDecl"),
            NodeKind::EnumDecl => String::from_str("EnumDecl"),
            NodeKind::ProtocolDecl => String::from_str("ProtocolDecl"),
            NodeKind::ActorDecl => String::from_str("ActorDecl"),
            NodeKind::ExtensionDecl => String::from_str("ExtensionDecl"),
            NodeKind::EnumCaseDecl => String::from_str("EnumCaseDecl"),
            NodeKind::EnumElementDecl => String::from_str("EnumElementDecl"),
            NodeKind::ImportDecl => String::from_str("ImportDecl"),
            NodeKind::TypeAliasDecl => String::from_str("TypeAliasDecl"),
            NodeKind::AssociatedTypeDecl => String::from_str("AssociatedTypeDecl"),
            NodeKind::SubscriptDecl => String::from_str("SubscriptDecl"),
            NodeKind::AccessorDecl => String::from_str("AccessorDecl"),
            NodeKind::CaseClause => String::from_str("CaseClause"),
            NodeKind::CompilerDirective => String::from_str("CompilerDirective"),
            NodeKind::Attribute => String::from_str("Attribute"),
            NodeKind::IfStmt => String::from_str("IfStmt"),
            NodeKind::GuardStmt => String::from_str("GuardStmt"),
            NodeKind::WhileStmt => String::from_str("WhileStmt"),
            NodeKind::RepeatStmt => String::from_str("RepeatStmt"),
            NodeKind::ForStmt => String::from_str("ForStmt"),
            NodeKind::SwitchStmt => String::from_str("SwitchStmt"),
            NodeKind::DoStmt => String::from_str("DoStmt"),
            NodeKind::ThrowStmt => String::from_str("ThrowStmt"),
            NodeKind::DeferStmt => String::from_str("DeferStmt"),
            NodeKind::BreakStmt => String::from_str("BreakStmt"),
            NodeKind::ContinueStmt => String::from_str("ContinueStmt"),
            NodeKind::FallthroughStmt => String::from_str("FallthroughStmt"),
            NodeKind::TernaryExpr => String::from_str("TernaryExpr"),
            NodeKind::CastExpr => String::from_str("CastExpr"),
            NodeKind::TryExpr => String::from_str("TryExpr"),
            NodeKind::AwaitExpr => String::from_str("AwaitExpr"),
            NodeKind::RegexLiteral => String::from_str("RegexLiteral"),
            NodeKind::PatternTuple => String::from_str("PatternTuple"),
            NodeKind::EnumCasePattern => String::from_str("EnumCasePattern"),
            NodeKind::WhereClause => String::from_str("WhereClause"),
            NodeKind::OperatorDecl => String::from_str("OperatorDecl"),
            NodeKind::PrecedenceGroupDecl => String::from_str("PrecedenceGroupDecl"),
            NodeKind::CatchClause => String::from_str("CatchClause"),
            NodeKind::ClosureCapture => String::from_str("ClosureCapture"),
            NodeKind::KeyPathExpr => String::from_str("KeyPathExpr"),
            NodeKind::GenericParam => String::from_str("GenericParam"),
            NodeKind::RangePattern => String::from_str("RangePattern"),
            NodeKind::PostfixExpr => String::from_str("PostfixExpr"),
            NodeKind::Other(n) => {
                let mut s = String::from_str("Other(");
                crate::text::push_decimal(&mut s, n as u64);
                s.append(")");
                s
            },
        }
    }
}

/// The scalars of an optional string.
pub open spec fn opt_view(o: Option<String>) -> Option<Seq<char>> {
    match o {
        Some(s) => Some(s@),
        None => None,
    }
}

/// A copy of an optional string.
pub fn copy_opt(o: &Option<String>) -> (r: Option<String>)
    ensures
        opt_view(r) == opt_view(*o),
{
    match o {
        Some(s) => Some(s.clone()),
        None => None,
    }
}

/// Decoded shape of a function parameter.
#[derive(Debug, Clone)]
pub struct ParamInfo {
    /// External argument label used at call sites (`None` when written `_`).
    pub label: Option<String>,
    /// Internal name the parameter binds to inside the body.
    pub name: String,
    /// Whether the parameter is variadic (`T...`).
    pub variadic: bool,
    /// Whether the parameter is `@autoclosure` (its argument is deferred).
    pub autoclosure: bool,
    /// Whether the parameter is `inout`.
    pub is_inout: bool,
}

/// The plain values of a [`ParamInfo`].
pub struct ParamView {
    pub label: Option<Seq<char>>,
    pub name: Seq<char>,
    pub variadic: bool,
    pub autoclosure: bool,
    pub is_inout: bool,
}

impl View for ParamInfo {
    type V = ParamView;

    open spec fn view(&self) -> ParamView {
        ParamView {
            label: opt_view(self.label),
            name: self.name@,
            variadic: self.variadic,
            autoclosure: self.autoclosure,
            is_inout: self.is_inout,
        }
    }
}

impl ParamInfo {
    /// The parameter record of a node that is not a parameter.
    pub fn empty() -> (r: ParamInfo)
        ensures
            r@ == (ParamView {
                label: None,
                name: Seq::empty(),
                variadic: false,
                autoclosure: false,
                is_inout: false,
            }),
    {
        ParamInfo {
            label: None,
            name: String::new(),
            variadic: false,
            autoclosure: false,
            is_inout: false,
        }
    }

    /// A copy of this record.
    pub fn copy(&self) -> (r: ParamInfo)
        ensures
            r@ == self@,
    {
        ParamInfo {
            label: copy_opt(&self.label),
            name: self.name.clone(),
            variadic: self.variadic,
            autoclosure: self.autoclosure,
            is_inout: self.is_inout,
        }
    }
}

/// One analysis diagnostic (syntax error), with its location.
#[derive(Debug, Clone)]
pub struct Diagnostic {
    pub message: String,
    pub line: u32,
    pub col: u32,
}

impl Diagnostic {
    /// A copy of this diagnostic.
    pub fn copy(&self) -> (r: Diagnostic)
        ensures
            r.message@ == self.message@,
            r.line == self.line,
            r.col == self.col,
    {
        Diagnostic { message: self.message.clone(), line: self.line, col: self.col }
    }
}

/// `tree` and `diags` are what the semantic checks make of some tree of the
/// same size parsed from the source: its nodes annotated with the types the
/// annotate pass records, and the diagnostics of the result-builder checks
/// followed by those of the annotate pass.
pub open spec fn checked_result(tree: Seq<NodeView>, root: int, diags: Seq<Diagnostic>) -> bool {
    exists|t: Seq<NodeView>|
        #![trigger crate::resolve::checked(t, root)]
        t.len() == tree.len() && tree == crate::resolve::annotated(t, crate::resolve::checked(t, root).types)
            && diag_views(diags) == crate::builder::builder_pass_diags(t, root) + crate::resolve::checked(t, root).diags
}

/// The plain values of `v`.
pub open spec fn diag_views(v: Seq<Diagnostic>) -> Seq<crate::sema::DiagnosticView> {
    v.map_values(|d: Diagnostic| crate::sema::DiagnosticView { message: d.message@, line: d.line, col: d.col })
}

/// The semantic diagnostics `found`, as the analysis reports them.
fn frontend_diagnostics(found: &Vec<crate::sema::Diagnostic>) -> (r: Vec<Diagnostic>)
    ensures
        diag_views(r@) == crate::sema::diagnostics_view(found@),
{
    let mut out: Vec<Diagnostic> = Vec::new();
    let mut k: usize = 0;
    while k < found.len()
        invariant
            k <= found@.len(),
            out@.len() == k,
            forall|i: int|
                0 <= i < k ==> #[trigger] out@[i].message@ == found@[i].message@ && out@[i].line
                    == found@[i].line && out@[i].col == found@[i].col,
        decreases found@.len() - k,
    {
        let d = &found[k];
        out.push(Diagnostic { message: d.message.clone(), line: d.line, col: d.col });
        k += 1;
    }
    assert(diag_views(out@) =~= crate::sema::diagnostics_view(found@));
    out
}

/// Why [`Analysis::analyze`] could not produce a result.
#[derive(Debug, Clone, PartialEq, Eq, Structural)]
pub enum AnalyzeError {
    /// `source` or `filename` contained an interior NUL byte.
    InteriorNul,
}

impl AnalyzeError {
    /// The human-readable description of this error.
    pub fn message(&self) -> (r: String)
        ensures
            r@ == "source contained an interior NUL byte"@,
    {
        String::from_str("source contained an interior NUL byte")
    }
}

/// One stored node of the arena.
pub struct SyntaxNode {
    pub kind: NodeKind,
    /// The text of the node's primary token (identifier, literal, operator).
    pub text: Option<String>,
    /// 1-based source line of the node's first token.
    pub line: u32,
    /// 1-based source column of the node's first token.
    pub col: u32,
    /// The type written for, or resolved to, the node.
    pub type_text: Option<String>,
    /// The declaration modifier bitmask.
    pub modifiers: u32,
    /// The argument label of a call argument.
    pub arg_label: Option<String>,
    /// The statement label of a loop.
    pub loop_label: Option<String>,
    /// The value of an integer literal.
    pub int_value: Option<i64>,
    /// The value of a boolean literal.
    pub bool_value: Option<bool>,
    /// For a case clause: whether it is `default`.
    pub case_is_default: bool,
    /// For a case clause: the index of its `where` guard.
    pub case_where: Option<usize>,
    /// For a parameter: its label, name and flags.
    pub param: ParamInfo,
    /// Indices of the children, in source order.
    pub children: Vec<usize>,
}

/// The plain values of a [`SyntaxNode`].
pub struct NodeView {
    pub kind: NodeKind,
    pub text: Option<Seq<char>>,
    pub line: u32,
    pub col: u32,
    pub type_text: Option<Seq<char>>,
    pub modifiers: u32,
    pub arg_label: Option<Seq<char>>,
    pub loop_label: Option<Seq<char>>,
    pub int_value: Option<i64>,
    pub bool_value: Option<bool>,
    pub case_is_default: bool,
    pub case_where: Option<usize>,
    pub param: ParamView,
    pub children: Seq<usize>,
}

impl View for SyntaxNode {
    type V = NodeView;

    open spec fn view(&self) -> NodeView {
        NodeView {
            kind: self.kind,
            text: opt_view(self.text),
            line: self.line,
            col: self.col,
            type_text: opt_view(self.type_text),
            modifiers: self.modifiers,
            arg_label: opt_view(self.arg_label),
            loop_label: opt_view(self.loop_label),
            int_value: self.int_value,
            bool_value: self.bool_value,
            case_is_default: self.case_is_default,
            case_where: self.case_where,
            param: self.param@,
            children: self.children@,
        }
    }
}

/// Every child and `where` guard of node `i` is stored before it.
pub open spec fn node_wf(nodes: Seq<NodeView>, i: int) -> bool {
    &&& forall|k: int|
        0 <= k < nodes[i].children.len() ==> #[trigger] nodes[i].children[k] < i
    &&& match nodes[i].case_where {
        Some(w) => w < i,
        None => true,
    }
}

/// A well-formed arena: every node only refers to earlier nodes.
pub open spec fn tree_wf(nodes: Seq<NodeView>) -> bool {
    forall|i: int| 0 <= i < nodes.len() ==> #[trigger] node_wf(nodes, i)
}

/// The views of the stored nodes.
pub open spec fn nodes_view(v: Seq<SyntaxNode>) -> Seq<NodeView> {
    v.map_values(|n: SyntaxNode| n@)
}

/// Whether `s` contains a NUL character.
fn has_nul(s: &str) -> (r: bool)
    ensures
        r == s@.contains('\0'),
{
    let n = s.unicode_len();
    let mut k: usize = 0;
    while k < n
        invariant
            n == s@.len(),
            k <= n,
            forall|i: int| 0 <= i < k ==> s@[i] != '\0',
        decreases n - k,
    {
        if s.get_char(k) == '\0' {
            return true;
        }
        k += 1;
    }
    false
}

/// An owned Swift analysis result: the syntax tree plus diagnostics for one
/// Swift source file.
pub struct Analysis {
    nodes: Vec<SyntaxNode>,
    root: usize,
    diagnostics: Vec<Diagnostic>,
}

/// What analyzing `source` promises of the resulting analysis `a` (see
/// [`Analysis::analyze`]): a well-formed tree under a `SourceFile` root;
/// either a bare root with the one diagnostic of a lexical or syntax error,
/// or the checked tree with the diagnostics of the semantic passes; and,
/// for the sources whose tokens show it, which of the two and what the
/// statements are.
pub open spec fn analysis_of(a: Analysis, source: Seq<char>) -> bool {
    &&& a.wf()
    &&& a.root_id() + 1 == a.tree().len()
    &&& a.tree()[a.root_id() as int].kind == NodeKind::SourceFile
    &&& (a.tree().len() == 1 && a.diagnostics_view().len() == 1) || checked_result(
        a.tree(),
        a.root_id() as int,
        a.diagnostics_view(),
    )
    &&& !lexable(source) ==> a.diagnostics_view().len() == 1
    &&& lexable(source) ==> (spec_tokenize(source) matches Err(e) ==> {
        &&& a.diagnostics_view().len() == 1
        &&& a.diagnostics_view()[0].message@ == e.message
        &&& a.diagnostics_view()[0].line == e.line
        &&& a.diagnostics_view()[0].col == e.col
    })
    &&& lexable(source) ==> (spec_tokenize(source) matches Ok(ts) ==> (
    crate::parser::bad_binding_first(ts) ==> a.tree().len() == 1 && a.diagnostics_view().len()
        == 1))
    &&& lexable(source) ==> (spec_tokenize(source) matches Ok(ts) ==> (
    crate::parser::blank_program(ts) ==> a.tree().len() == 1 && a.tree()[0].children.len() == 0
        && a.diagnostics_view().len() == 0))
    &&& lexable(source) ==> (spec_tokenize(source) matches Ok(ts) ==> (
    crate::parser::atom_program_from(ts, 0) ==> {
        &&& a.tree()[a.root_id() as int].children.len() == crate::parser::atom_program_count(ts, 0)
        &&& forall|i: int|
            0 <= i < crate::parser::atom_program_count(ts, 0) ==> a.tree()[#[trigger] a.tree()[
                a.root_id() as int].children[i] as int].kind == NodeKind::ExprStmt
    }))
    &&& lexable(source) ==> (spec_tokenize(source) matches Ok(ts) ==> (crate::parser::lexed_call_program(ts) ==> {
        let c = 1 + crate::parser::lexed_atom_call_at(ts, crate::parser::view_after_semicolons(ts, 0)).unwrap().0.len() as int;
        &&& a.root_id() == c + 2
        &&& crate::parser::lexed_call_tree(a.tree(), ts)
        &&& a.tree()[a.root_id() as int].children == seq![(c + 1) as usize]
    }))
}

/// Recording types on a tree keeps the shape of a one-call program's
/// statement.
proof fn lemma_call_tree_annotated(
    t: Seq<NodeView>,
    types: Seq<(usize, crate::resolve::Type)>,
    ts: Seq<crate::lex_spec::SpecToken>,
)
    requires
        crate::parser::lexed_call_tree(t, ts),
    ensures
        crate::parser::lexed_call_tree(crate::resolve::annotated(t, types), ts),
{
    let t2 = crate::resolve::annotated(t, types);
    let k = crate::parser::view_after_semicolons(ts, 0);
    let items = crate::parser::lexed_atom_call_at(ts, k).unwrap().0;
    let c = 1 + items.len() as int;
    assert forall|i: int| 0 <= i < t.len() implies t2[i].kind == t[i].kind && t2[i].children == t[i].children
        && t2[i].arg_label == t[i].arg_label by {}
    let ids = t[c].children;
    let now = t.subrange(0, c);
    let now2 = t2.subrange(0, c);
    assert(t2[c].children == ids);
    assert(now2.subrange(0, 1) =~= seq![t2[0]]);
    assert forall|i: int| 1 <= i < ids.len() implies {
        &&& #[trigger] ids[i] == 1 + i - 1
        &&& now2[ids[i] as int].kind == items[i - 1].0
        &&& now2[ids[i] as int].children.len() == 0
        &&& (items[i - 1].1 matches Some(l) ==> now2[ids[i] as int].arg_label == Some(l))
    } by {
        assert(ids[i] == seq![t[0]].len() + i - 1);
        assert(now[ids[i] as int] == t[ids[i] as int]);
        assert(now2[ids[i] as int] == t2[ids[i] as int]);
    }
    assert(crate::parser::atom_args_built(seq![t2[0]], now2, t2[c].children, 0, items));
}

impl Analysis {
    /// The stored nodes, by index.
    pub closed spec fn tree(&self) -> Seq<NodeView> {
        nodes_view(self.nodes@)
    }

    /// The index of the root node.
    pub closed spec fn root_id(&self) -> usize {
        self.root
    }

    /// The diagnostics, in source order.
    pub closed spec fn diagnostics_view(&self) -> Seq<Diagnostic> {
        self.diagnostics@
    }

    /// The root exists and every node refers only to earlier ones.
    pub closed spec fn wf(&self) -> bool {
        &&& self.root < self.nodes@.len()
        &&& tree_wf(nodes_view(self.nodes@))
    }

    /// Tokenize, parse and type-resolve `source`. A lexical or syntax error
    /// becomes the one diagnostic, and the tree is then the bare `SourceFile`
    /// root; otherwise the tree carries the types the semantic checks record
    /// and the diagnostics are theirs ([`crate::sema::analyze`]). `filename`
    /// only has to be free of NUL characters.
    /// Returns `Err` only if `source` or `filename` contains one.
    pub fn analyze(source: &str, filename: &str) -> (r: Result<Analysis, AnalyzeError>)
        ensures
            r is Err <==> (source@.contains('\0') || filename@.contains('\0')),
            r matches Ok(a) ==> analysis_of(a, source@),
    {
        if has_nul(source) || has_nul(filename) {
            return Err(AnalyzeError::InteriorNul);
        }
        match crate::parser::parse(source) {
            Ok(a) => {
                let mut a = a;
                let ghost t = a.tree();
                let ghost root = a.root_id() as int;
                let found = crate::sema::analyze(&mut a);
                let diagnostics = frontend_diagnostics(&found);
                let r = Analysis { nodes: a.nodes, root: a.root, diagnostics };
                proof {
                    assert(r.tree() == crate::resolve::annotated(t, crate::resolve::checked(t, root).types));
                    assert(r.tree()[root].kind == t[root].kind);
                    assert(r.tree()[root].children == t[root].children);
                    if lexable(source@) {
                        if let Ok(ts) = spec_tokenize(source@) {
                            if crate::parser::lexed_call_program(ts) {
                                lemma_call_tree_annotated(t, crate::resolve::checked(t, root).types, ts);
                            }
                        }
                    }
                    assert forall|i: int| 0 <= i < t[root].children.len() implies r.tree()[#[trigger] r.tree()[
                        root].children[i] as int].kind == t[t[root].children[i] as int].kind by {
                        assert(node_wf(t, root));
                        assert(t[root].children[i] < root);
                    }
                    if t.len() == 1 && t[0].children.len() == 0 {
                        assert(root == 0);
                        assert(r.tree()[0].children == t[0].children);
                        assert(crate::builder::builder_pass_diags(t, root) =~= Seq::empty());
                        let sv = crate::resolve::program_symbols(t, root);
                        let kids = t[root].children;
                        assert(crate::resolve::prebind(t, sv, kids, crate::resolve::initial_state())
                            == crate::resolve::initial_state());
                        assert(crate::resolve::checked(t, root).diags.len() == 0);
                    }
                    assert(checked_result(r.tree(), r.root_id() as int, r.diagnostics_view()));
                }
                Ok(r)
            },
            Err(e) => {
                let root = SyntaxNode {
                    kind: NodeKind::SourceFile,
                    text: None,
                    line: 1,
                    col: 1,
                    type_text: None,
                    modifiers: 0,
                    arg_label: None,
                    loop_label: None,
                    int_value: None,
                    bool_value: None,
                    case_is_default: false,
                    case_where: None,
                    param: ParamInfo::empty(),
                    children: Vec::new(),
                };
                let mut nodes: Vec<SyntaxNode> = Vec::new();
                nodes.push(root);
                let mut diagnostics: Vec<Diagnostic> = Vec::new();
                diagnostics.push(Diagnostic { message: e.message, line: e.line, col: e.col });
                proof {
                    assert(nodes_view(nodes@).len() == 1);
                    assert(node_wf(nodes_view(nodes@), 0));
                }
                Ok(Analysis::from_parts(nodes, 0, diagnostics))
            },
        }
    }

    /// Record `types` on the nodes: the type text of each node with a
    /// recorded type becomes the spelling of the last one recorded for it.
    #[verifier::spinoff_prover]
    pub(crate) fn set_types(&mut self, types: &Vec<(usize, crate::resolve::Type)>)
        requires
            old(self).wf(),
        ensures
            final(self).wf(),
            final(self).tree() == crate::resolve::annotated(old(self).tree(), types@),
            final(self).root_id() == old(self).root_id(),
            final(self).diagnostics_view() == old(self).diagnostics_view(),
    {
        let ghost orig = self.tree();
        let mut k: usize = 0;
        assert(self.tree() =~= crate::resolve::annotated(orig, types@.take(0)));
        while k < types.len()
            invariant
                k <= types@.len(),
                self.wf(),
                self.root_id() == old(self).root_id(),
                self.diagnostics_view() == old(self).diagnostics_view(),
                orig == old(self).tree(),
                self.tree() == crate::resolve::annotated(orig, types@.take(k as int)),
            decreases types@.len() - k,
        {
            let (id, t) = types[k];
            let ghost before = self.tree();
            assert(types@.take(k + 1).drop_last() =~= types@.take(k as int));
            assert(types@.take(k + 1).last() == types@[k as int]);
            if id < self.nodes.len() {
                let ghost old_nodes = self.nodes@;
                let name = String::from_str(t.name());
                self.nodes[id].type_text = Some(name);
                assert forall|i: int| 0 <= i < self.tree().len() implies #[trigger] self.tree()[i]
                    == crate::resolve::annotated(orig, types@.take(k + 1))[i] by {
                    let tk = types@.take(k + 1);
                    assert(tk.last() == (id, t));
                    assert(before[i] == old_nodes[i]@);
                    let prev = crate::resolve::annotated(orig, types@.take(k as int));
                    if i == id as int {
                        assert(crate::resolve::last_type(tk, i) == Some(t));
                        assert(self.nodes@[i]@ == NodeView { type_text: Some(crate::resolve::type_spelling(t)), ..old_nodes[i]@ });
                        match crate::resolve::last_type(types@.take(k as int), i) {
                            Some(t0) => {
                                assert(prev[i] == NodeView { type_text: Some(crate::resolve::type_spelling(t0)), ..orig[i] });
                            },
                            None => {
                                assert(prev[i] == orig[i]);
                            },
                        }
                    } else {
                        assert(crate::resolve::last_type(tk, i) == crate::resolve::last_type(types@.take(k as int), i));
                        assert(self.nodes@[i] == old_nodes[i]);
                    }
                }
                assert forall|i: int| 0 <= i < self.tree().len() implies #[trigger] node_wf(self.tree(), i) by {
                    assert(node_wf(before, i));
                    assert(self.tree()[i].children == before[i].children);
                    assert(self.tree()[i].case_where == before[i].case_where);
                }
            }
            proof {
                if id as int >= before.len() {
                    assert forall|i: int| 0 <= i < self.tree().len() implies #[trigger] self.tree()[i]
                        == crate::resolve::annotated(orig, types@.take(k + 1))[i] by {
                        assert(i != id as int);
                    }
                }
            }
            k += 1;
            assert(self.tree() =~= crate::resolve::annotated(orig, types@.take(k as int)));
        }
        assert(types@.take(types@.len() as int) =~= types@);
    }

    /// Assemble an analysis from its arena, root and diagnostics.
    pub(crate) fn from_parts(nodes: Vec<SyntaxNode>, root: usize, diagnostics: Vec<Diagnostic>) -> (r:
        Analysis)
        requires
            root < nodes@.len(),
            tree_wf(nodes_view(nodes@)),
        ensures
            r.wf(),
            r.tree() == nodes_view(nodes@),
            r.root_id() == root,
            r.diagnostics_view() == diagnostics@,
    {
        Analysis { nodes, root, diagnostics }
    }

    /// The root `source_file` node of the tree.
    pub fn root(&self) -> (r: Node<'_>)
        requires
            self.wf(),
        ensures
            r.wf(),
            r.id() == self.root_id(),
            r.tree() == self.tree(),
    {
        Node { id: self.root, analysis: self }
    }

    /// How many nodes the analysis holds.
    pub fn node_count(&self) -> (r: usize)
        ensures
            r == self.tree().len(),
    {
        self.nodes.len()
    }

    /// The node stored at index `id`.
    pub fn node_at(&self, id: usize) -> (r: Node<'_>)
        requires
            self.wf(),
            id < self.tree().len(),
        ensures
            r.wf(),
            r.id() == id,
            r.tree() == self.tree(),
    {
        Node { id, analysis: self }
    }

    /// Syntax errors produced during analysis, in source order.
    pub fn diagnostics(&self) -> (r: Vec<Diagnostic>)
        ensures
            r@.len() == self.diagnostics_view().len(),
            forall|i: int|
                0 <= i < r@.len() ==> #[trigger] r@[i].message@ == self.diagnostics_view()[i].message@
                    && r@[i].line == self.diagnostics_view()[i].line && r@[i].col
                    == self.diagnostics_view()[i].col,
    {
        let mut out: Vec<Diagnostic> = Vec::new();
        let mut k: usize = 0;
        while k < self.diagnostics.len()
            invariant
                k <= self.diagnostics@.len(),
                out@.len() == k,
                forall|i: int|
                    0 <= i < k ==> #[trigger] out@[i].message@ == self.diagnostics@[i].message@
                        && out@[i].line == self.diagnostics@[i].line && out@[i].col
                        == self.diagnostics@[i].col,
            decreases self.diagnostics@.len() - k,
        {
            out.push(self.diagnostics[k].copy());
            k += 1;
        }
        out
    }

    /// Returns `true` if analysis produced no errors.
    pub fn is_ok(&self) -> (r: bool)
        ensures
            r == (self.diagnostics_view().len() == 0),
    {
        self.diagnostics.len() == 0
    }
}

/// A borrowed view of one tree node. Tied to its [`Analysis`] by lifetime
/// `'a`, so it can never outlive the arena that backs it.
#[derive(Clone, Copy)]
pub struct Node<'a> {
    id: usize,
    analysis: &'a Analysis,
}

/// Decoded shape of a `switch` case clause.
#[derive(Clone, Copy)]
pub struct CaseInfo<'a> {
    /// `true` for the `default:` clause.
    pub is_default: bool,
    /// The `where` guard expression, if the clause has one.
    pub where_expr: Option<Node<'a>>,
}

/// Computed-accessor and observer bodies of a `var`/`let` property.
#[derive(Clone)]
pub struct VarAccessors<'a> {
    pub is_computed: bool,
    pub has_setter: bool,
    pub getter_body: Option<Node<'a>>,
    pub setter_body: Option<Node<'a>>,
    pub will_set_body: Option<Node<'a>>,
    pub did_set_body: Option<Node<'a>>,
    pub setter_param: Option<String>,
    pub will_set_param: Option<String>,
    pub did_set_param: Option<String>,
}

/// The children of one node, handed out one at a time by
/// [`Children::next`].
pub struct Children<'a> {
    items: Vec<Node<'a>>,
    pos: usize,
}

impl<'a> Children<'a> {
    #[verifier::type_invariant]
    spec fn inv(self) -> bool {
        self.pos <= self.items@.len()
    }

    /// The children not handed out yet, in source order.
    pub closed spec fn rest(&self) -> Seq<Node<'a>> {
        self.items@.skip(self.pos as int)
    }

    /// The next child, if any.
    pub fn next(&mut self) -> (r: Option<Node<'a>>)
        ensures
            match r {
                Some(n) => old(self).rest().len() > 0 && n == old(self).rest()[0]
                    && final(self).rest() == old(self).rest().drop_first(),
                None => old(self).rest().len() == 0 && final(self).rest() == old(self).rest(),
            },
    {
        proof {
            use_type_invariant(&*self);
        }
        if self.pos < self.items.len() {
            let n = self.items[self.pos];
            self.pos = self.pos + 1;
            assert(self.items@.skip(self.pos as int) =~= old(self).rest().drop_first());
            Some(n)
        } else {
            None
        }
    }

    /// The children not handed out yet, in source order.
    pub fn into_vec(self) -> (r: Vec<Node<'a>>)
        ensures
            r@ == self.rest(),
    {
        proof {
            use_type_invariant(&self);
        }
        let mut out: Vec<Node<'a>> = Vec::new();
        let mut k = self.pos;
        while k < self.items.len()
            invariant
                self.pos <= k <= self.items@.len(),
                out@ == self.items@.subrange(self.pos as int, k as int),
            decreases self.items@.len() - k,
        {
            out.push(self.items[k]);
            k += 1;
            assert(out@ =~= self.items@.subrange(self.pos as int, k as int));
        }
        assert(self.items@.subrange(self.pos as int, self.items@.len() as int) =~= self.rest());
        out
    }
}

/// The plain values of a [`VarAccessors`]: bodies by node index.
pub struct AccessorsView {
    pub is_computed: bool,
    pub has_setter: bool,
    pub getter_body: Option<usize>,
    pub setter_body: Option<usize>,
    pub will_set_body: Option<usize>,
    pub did_set_body: Option<usize>,
    pub setter_param: Option<Seq<char>>,
    pub will_set_param: Option<Seq<char>>,
    pub did_set_param: Option<Seq<char>>,
}

/// The index of an optional cursor.
pub open spec fn opt_id<'a>(n: Option<Node<'a>>) -> Option<usize> {
    match n {
        Some(c) => Some(c.id()),
        None => None,
    }
}

/// An optional cursor, when present, points into `tree`.
pub open spec fn opt_node_in<'a>(n: Option<Node<'a>>, tree: Seq<NodeView>) -> bool {
    n matches Some(c) ==> c.wf() && c.tree() == tree
}

/// The plain values of `va`.
pub open spec fn accessors_view<'a>(va: VarAccessors<'a>) -> AccessorsView {
    AccessorsView {
        is_computed: va.is_computed,
        has_setter: va.has_setter,
        getter_body: opt_id(va.getter_body),
        setter_body: opt_id(va.setter_body),
        will_set_body: opt_id(va.will_set_body),
        did_set_body: opt_id(va.did_set_body),
        setter_param: opt_view(va.setter_param),
        will_set_param: opt_view(va.will_set_param),
        did_set_param: opt_view(va.did_set_param),
    }
}

/// A property with no accessors.
pub open spec fn no_accessors() -> AccessorsView {
    AccessorsView {
        is_computed: false,
        has_setter: false,
        getter_body: None,
        setter_body: None,
        will_set_body: None,
        did_set_body: None,
        setter_param: None,
        will_set_param: None,
        did_set_param: None,
    }
}

/// The text of the first `Param` child among `children`, if any.
pub open spec fn param_text(nodes: Seq<NodeView>, children: Seq<usize>) -> Option<Seq<char>> {
    match first_child_of_kind(nodes, children, NodeKind::Param) {
        Some(p) => nodes[p as int].text,
        None => None,
    }
}

/// `av` updated by child `c`: an `AccessorDecl` named `get`, `set`,
/// `willSet` or `didSet` records its first `Block` child as that accessor's
/// body (and its `Param` child's name); any other child changes nothing.
pub open spec fn apply_accessor(nodes: Seq<NodeView>, av: AccessorsView, c: usize) -> AccessorsView {
    let n = nodes[c as int];
    let body = first_child_of_kind(nodes, n.children, NodeKind::Block);
    let param = param_text(nodes, n.children);
    if n.kind != NodeKind::AccessorDecl {
        av
    } else if n.text == Some("get"@) {
        AccessorsView { is_computed: true, getter_body: body, ..av }
    } else if n.text == Some("set"@) {
        AccessorsView { has_setter: true, setter_body: body, setter_param: param, ..av }
    } else if n.text == Some("willSet"@) {
        AccessorsView { will_set_body: body, will_set_param: param, ..av }
    } else if n.text == Some("didSet"@) {
        AccessorsView { did_set_body: body, did_set_param: param, ..av }
    } else {
        av
    }
}

/// The accessors declared among `kids`, a later one overriding an earlier.
pub open spec fn accessors_in(nodes: Seq<NodeView>, kids: Seq<usize>) -> AccessorsView
    decreases kids.len(),
{
    if kids.len() == 0 {
        no_accessors()
    } else {
        apply_accessor(nodes, accessors_in(nodes, kids.drop_last()), kids.last())
    }
}

/// The index of the first child of node `id` of kind `k`, if any.
pub open spec fn first_child_of_kind(nodes: Seq<NodeView>, children: Seq<usize>, k: NodeKind) -> Option<
    usize,
>
    decreases children.len(),
{
    if children.len() == 0 {
        None
    } else if nodes[children[0] as int].kind == k {
        Some(children[0])
    } else {
        first_child_of_kind(nodes, children.drop_first(), k)
    }
}

/// The name a declaration carries: that of its first binding-pattern or
/// wildcard child, else its own text.
pub open spec fn decl_name_in(nodes: Seq<NodeView>, children: Seq<usize>, own: Option<Seq<char>>) -> Option<
    Seq<char>,
>
    decreases children.len(),
{
    if children.len() == 0 {
        own
    } else if nodes[children[0] as int].kind == NodeKind::PatternValueBinding {
        nodes[children[0] as int].text
    } else if nodes[children[0] as int].kind == NodeKind::PatternWildcard {
        Some("_"@)
    } else {
        decl_name_in(nodes, children.drop_first(), own)
    }
}

impl<'a> Node<'a> {
    /// The index of this node in its analysis.
    pub closed spec fn id(&self) -> usize {
        self.id
    }

    /// All nodes of the analysis this cursor reads.
    pub closed spec fn tree(&self) -> Seq<NodeView> {
        self.analysis.tree()
    }

    /// The stored values of this node.
    pub open spec fn data(&self) -> NodeView {
        self.tree()[self.id() as int]
    }

    /// The cursor points into a well-formed analysis.
    pub closed spec fn wf(&self) -> bool {
        &&& self.analysis.wf()
        &&& self.id < self.analysis.nodes@.len()
    }

    proof fn lemma_wf(&self)
        requires
            self.wf(),
        ensures
            0 <= self.id() < self.tree().len(),
            tree_wf(self.tree()),
            node_wf(self.tree(), self.id() as int),
            self.tree()[self.id() as int] == self.analysis.nodes@[self.id as int]@,
    {
        assert(node_wf(self.tree(), self.id() as int));
    }

    /// A node lies in a well-formed tree.
    pub proof fn lemma_in_tree(&self)
        requires
            self.wf(),
        ensures
            0 <= self.id() < self.tree().len(),
            tree_wf(self.tree()),
    {
        self.lemma_wf();
    }

    /// A node's index lies below `usize::MAX`.
    pub proof fn lemma_id_bound(&self)
        requires
            self.wf(),
        ensures
            (self.id() as int) < usize::MAX,
    {
        assert(self.analysis.nodes@.len() == self.analysis.nodes.len());
    }

    /// Every child of this node is stored before it.
    pub proof fn lemma_children_below(&self)
        requires
            self.wf(),
        ensures
            forall|i: int|
                0 <= i < self.data().children.len() ==> (#[trigger] self.data().children[i] as int) < self.id() as int,
    {
        self.lemma_wf();
    }

    fn cursor(&self, id: usize) -> (r: Node<'a>)
        requires
            self.wf(),
            id < self.tree().len(),
        ensures
            r.wf(),
            r.id() == id,
            r.tree() == self.tree(),
    {
        Node { id, analysis: self.analysis }
    }

    /// The kind of syntax this node represents.
    pub fn kind(&self) -> (r: NodeKind)
        requires
            self.wf(),
        ensures
            r == self.data().kind,
    {
        proof {
            self.lemma_wf();
        }
        self.analysis.nodes[self.id].kind
    }

    /// This node's direct children, in source order, as a vector.
    pub(crate) fn child_vec(&self) -> (r: Vec<Node<'a>>)
        requires
            self.wf(),
        ensures
            r@.len() == self.data().children.len(),
            forall|i: int|
                0 <= i < r@.len() ==> #[trigger] r@[i].wf() && r@[i].id()
                    == self.data().children[i] && r@[i].tree() == self.tree(),
    {
        proof {
            self.lemma_wf();
        }
        let kids = &self.analysis.nodes[self.id].children;
        let mut out: Vec<Node<'a>> = Vec::new();
        let mut k: usize = 0;
        while k < kids.len()
            invariant
                self.wf(),
                tree_wf(self.tree()),
                kids@ == self.data().children,
                k <= kids@.len(),
                out@.len() == k,
                forall|i: int|
                    0 <= i < k ==> #[trigger] out@[i].wf() && out@[i].id() == kids@[i]
                        && out@[i].tree() == self.tree(),
            decreases kids@.len() - k,
        {
            proof {
                assert(node_wf(self.tree(), self.id() as int));
            }
            out.push(self.cursor(kids[k]));
            k += 1;
        }
        out
    }

    /// This node's direct children, in source order.
    pub fn children(&self) -> (r: Children<'a>)
        requires
            self.wf(),
        ensures
            r.rest().len() == self.data().children.len(),
            forall|i: int|
                0 <= i < r.rest().len() ==> #[trigger] r.rest()[i].wf() && r.rest()[i].id()
                    == self.data().children[i] && r.rest()[i].tree() == self.tree(),
    {
        let items = self.child_vec();
        let r = Children { items, pos: 0 };
        assert(r.rest() =~= r.items@);
        r
    }

    /// The first child of kind `k`, if any.
    pub(crate) fn first_child_kind(&self, k: NodeKind) -> (r: Option<Node<'a>>)
        requires
            self.wf(),
        ensures
            opt_id(r) == first_child_of_kind(self.tree(), self.data().children, k),
            opt_node_in(r, self.tree()),
    {
        let kids = self.child_vec();
        let ghost ch = self.data().children;
        let mut j: usize = 0;
        proof {
            assert(ch.skip(0) =~= ch);
        }
        while j < kids.len()
            invariant
                self.wf(),
                kids@.len() == ch.len(),
                ch == self.data().children,
                j <= kids@.len(),
                forall|i: int|
                    0 <= i < kids@.len() ==> #[trigger] kids@[i].wf() && kids@[i].id() == ch[i]
                        && kids@[i].tree() == self.tree(),
                first_child_of_kind(self.tree(), ch.skip(j as int), k) == first_child_of_kind(
                    self.tree(),
                    ch,
                    k,
                ),
            decreases kids@.len() - j,
        {
            let c = kids[j];
            proof {
                assert(kids@[j as int].wf());
                assert(ch.skip(j as int)[0] == ch[j as int]);
                assert(ch.skip(j as int).drop_first() =~= ch.skip(j as int + 1));
            }
            if c.kind() == k {
                return Some(c);
            }
            j += 1;
        }
        proof {
            assert(ch.skip(j as int).len() == 0);
        }
        None
    }

    /// For a `var`/`let`/`subscript`, its computed-accessor and observer
    /// bodies (a later accessor of the same kind overrides an earlier one).
    pub fn var_accessors(&self) -> (r: VarAccessors<'a>)
        requires
            self.wf(),
        ensures
            accessors_view(r) == accessors_in(self.tree(), self.data().children),
            opt_node_in(r.getter_body, self.tree()),
            opt_node_in(r.setter_body, self.tree()),
            opt_node_in(r.will_set_body, self.tree()),
            opt_node_in(r.did_set_body, self.tree()),
    {
        let mut acc = VarAccessors {
            is_computed: false,
            has_setter: false,
            getter_body: None,
            setter_body: None,
            will_set_body: None,
            did_set_body: None,
            setter_param: None,
            will_set_param: None,
            did_set_param: None,
        };
        let kids = self.child_vec();
        let ghost ch = self.data().children;
        let mut j: usize = 0;
        while j < kids.len()
            invariant
                self.wf(),
                kids@.len() == ch.len(),
                ch == self.data().children,
                j <= kids@.len(),
                forall|i: int|
                    0 <= i < kids@.len() ==> #[trigger] kids@[i].wf() && kids@[i].id() == ch[i]
                        && kids@[i].tree() == self.tree(),
                accessors_view(acc) == accessors_in(self.tree(), ch.take(j as int)),
                opt_node_in(acc.getter_body, self.tree()),
                opt_node_in(acc.setter_body, self.tree()),
                opt_node_in(acc.will_set_body, self.tree()),
                opt_node_in(acc.did_set_body, self.tree()),
            decreases kids@.len() - j,
        {
            let c = kids[j];
            proof {
                assert(kids@[j as int].wf());
                assert(ch.take(j as int + 1).drop_last() =~= ch.take(j as int));
                assert(ch.take(j as int + 1).last() == ch[j as int]);
            }
            if c.kind() == NodeKind::AccessorDecl {
                let body = c.first_child_kind(NodeKind::Block);
                let param = match c.first_child_kind(NodeKind::Param) {
                    Some(p) => p.text(),
                    None => None,
                };
                let text = c.text();
                match &text {
                    Some(t) => {
                        if crate::text::str_same(t.as_str(), "get") {
                            acc.is_computed = true;
                            acc.getter_body = body;
                        } else if crate::text::str_same(t.as_str(), "set") {
                            acc.has_setter = true;
                            acc.setter_body = body;
                            acc.setter_param = param;
                        } else if crate::text::str_same(t.as_str(), "willSet") {
                            acc.will_set_body = body;
                            acc.will_set_param = param;
                        } else if crate::text::str_same(t.as_str(), "didSet") {
                            acc.did_set_body = body;
                            acc.did_set_param = param;
                        }
                    },
                    None => {},
                }
            }
            j += 1;
        }
        proof {
            assert(ch.take(kids@.len() as int) =~= ch);
        }
        acc
    }

    /// The first child, if any.
    pub fn first_child(&self) -> (r: Option<Node<'a>>)
        requires
            self.wf(),
        ensures
            match r {
                Some(c) => self.data().children.len() > 0 && c.wf() && c.id()
                    == self.data().children[0] && c.tree() == self.tree(),
                None => self.data().children.len() == 0,
            },
    {
        proof {
            self.lemma_wf();
            assert(node_wf(self.tree(), self.id() as int));
        }
        let kids = &self.analysis.nodes[self.id].children;
        if kids.len() == 0 {
            None
        } else {
            Some(self.cursor(kids[0]))
        }
    }

    /// The source text of this node's primary token (identifier name,
    /// literal text, operator), if any.
    pub fn text(&self) -> (r: Option<String>)
        requires
            self.wf(),
        ensures
            opt_view(r) == self.data().text,
    {
        proof {
            self.lemma_wf();
        }
        copy_opt(&self.analysis.nodes[self.id].text)
    }

    /// For a binary/assignment/cast/enum-case node, the operator's (or
    /// case's) text.
    pub fn op_text(&self) -> (r: Option<String>)
        requires
            self.wf(),
        ensures
            opt_view(r) == self.data().text,
    {
        self.text()
    }

    /// For a `break`/`continue` statement, its target loop label, if any.
    pub fn jump_label(&self) -> (r: Option<String>)
        requires
            self.wf(),
        ensures
            opt_view(r) == self.data().text,
    {
        self.text()
    }

    /// For a declaration node (var/let/func/param), its name: `let`/`var`
    /// carry it in a binding-pattern child, every other declaration as its
    /// own text.
    pub fn decl_name(&self) -> (r: Option<String>)
        requires
            self.wf(),
        ensures
            opt_view(r) == decl_name_in(self.tree(), self.data().children, self.data().text),
    {
        let kids = self.child_vec();
        let ghost ch = self.data().children;
        let mut k: usize = 0;
        proof {
            assert(ch.skip(0) =~= ch);
        }
        while k < kids.len()
            invariant
                self.wf(),
                kids@.len() == ch.len(),
                ch == self.data().children,
                k <= kids@.len(),
                forall|i: int|
                    0 <= i < kids@.len() ==> #[trigger] kids@[i].wf() && kids@[i].id() == ch[i]
                        && kids@[i].tree() == self.tree(),
                decl_name_in(self.tree(), ch.skip(k as int), self.data().text) == decl_name_in(
                    self.tree(),
                    ch,
                    self.data().text,
                ),
            decreases kids@.len() - k,
        {
            let child = kids[k];
            let ck = child.kind();
            proof {
                assert(ch.skip(k as int)[0] == ch[k as int]);
                assert(ch.skip(k as int).drop_first() =~= ch.skip(k as int + 1));
                assert(kids@[k as int].wf());
                assert(child.id() == ch[k as int] && child.tree() == self.tree());
            }
            match ck {
                NodeKind::PatternValueBinding => {
                    return child.text();
                },
                NodeKind::PatternWildcard => {
                    return Some(String::from_str("_"));
                },
                _ => {},
            }
            k += 1;
        }
        proof {
            assert(ch.skip(k as int).len() == 0);
        }
        self.text()
    }

    /// The integer value of an `IntegerLiteral` node, else `None`.
    pub fn int_value(&self) -> (r: Option<i64>)
        requires
            self.wf(),
        ensures
            r == self.data().int_value,
    {
        proof {
            self.lemma_wf();
        }
        self.analysis.nodes[self.id].int_value
    }

    /// The value of a `BoolLiteral` node, else `None`.
    pub fn bool(&self) -> (r: Option<bool>)
        requires
            self.wf(),
        ensures
            r == self.data().bool_value,
    {
        proof {
            self.lemma_wf();
        }
        self.analysis.nodes[self.id].bool_value
    }

    /// The 1-based source line of this node's first token.
    pub fn line(&self) -> (r: u32)
        requires
            self.wf(),
        ensures
            r == self.data().line,
    {
        proof {
            self.lemma_wf();
        }
        self.analysis.nodes[self.id].line
    }

    /// The index of this node in its analysis.
    pub(crate) fn index(&self) -> (r: usize)
        ensures
            r == self.id(),
    {
        self.id
    }

    /// The 1-based source column of this node's first token.
    pub(crate) fn col(&self) -> (r: u32)
        requires
            self.wf(),
        ensures
            r == self.data().col,
    {
        proof {
            self.lemma_wf();
        }
        self.analysis.nodes[self.id].col
    }

    /// The type name of this node (e.g. `Int`, `String`), if any.
    pub fn type_text(&self) -> (r: Option<String>)
        requires
            self.wf(),
        ensures
            opt_view(r) == self.data().type_text,
    {
        proof {
            self.lemma_wf();
        }
        copy_opt(&self.analysis.nodes[self.id].type_text)
    }

    /// The declaration modifier bitmask.
    pub fn modifiers(&self) -> (r: u32)
        requires
            self.wf(),
        ensures
            r == self.data().modifiers,
    {
        proof {
            self.lemma_wf();
        }
        self.analysis.nodes[self.id].modifiers
    }

    /// Whether this node carries the `async` effect modifier — `async let`
    /// on a binding, or `for await` on a loop.
    pub fn is_async(&self) -> (r: bool)
        requires
            self.wf(),
        ensures
            r == (self.data().modifiers & decode::ASYNC != 0),
    {
        self.modifiers() & decode::ASYNC != 0
    }

    /// For a `LetDecl`/`VarDecl`, whether it was written `async let`.
    pub fn is_async_let(&self) -> (r: bool)
        requires
            self.wf(),
        ensures
            r == (self.data().modifiers & decode::ASYNC != 0),
    {
        self.is_async()
    }

    /// For a `for`/`while`/`repeat` loop, its statement label, if any.
    pub fn loop_label(&self) -> (r: Option<String>)
        requires
            self.wf(),
        ensures
            opt_view(r) == self.data().loop_label,
    {
        proof {
            self.lemma_wf();
        }
        copy_opt(&self.analysis.nodes[self.id].loop_label)
    }

    /// The argument label of a call argument, if present.
    pub fn arg_label(&self) -> (r: Option<String>)
        requires
            self.wf(),
        ensures
            opt_view(r) == self.data().arg_label,
    {
        proof {
            self.lemma_wf();
        }
        copy_opt(&self.analysis.nodes[self.id].arg_label)
    }

    /// For a parameter node, its label/name/variadic/inout info.
    pub fn param_info(&self) -> (r: ParamInfo)
        requires
            self.wf(),
        ensures
            r@ == self.data().param,
    {
        proof {
            self.lemma_wf();
        }
        self.analysis.nodes[self.id].param.copy()
    }

    /// For a `CaseClause`, whether it is `default` and its optional `where` guard.
    pub fn case_info(&self) -> (r: CaseInfo<'a>)
        requires
            self.wf(),
        ensures
            r.is_default == self.data().case_is_default,
            match self.data().case_where {
                Some(w) => r.where_expr matches Some(n) && n.wf() && n.id() == w && n.tree()
                    == self.tree(),
                None => r.where_expr is None,
            },
    {
        proof {
            self.lemma_wf();
        }
        let data = &self.analysis.nodes[self.id];
        CaseInfo {
            is_default: data.case_is_default,
            where_expr: match data.case_where {
                Some(w) => Some(self.cursor(w)),
                None => None,
            },
        }
    }

    /// Decode this node's `modifiers` bitmask into a list of flag names.
    pub fn modifier_names(&self) -> (r: Vec<&'static str>)
        requires
            self.wf(),
        ensures
            r@ == decode::names_set_in(decode::flag_table(), self.data().modifiers),
    {
        let m = self.modifiers();
        decode::flag_names(m)
    }

    /// For a `var`/`let` property, the ownership keyword (`weak`/`unowned`).
    pub fn ownership(&self) -> (r: Option<String>)
        requires
            self.wf(),
        ensures
            opt_view(r) == (if self.data().modifiers & decode::WEAK != 0 {
                Some("weak"@)
            } else if self.data().modifiers & decode::UNOWNED != 0 {
                Some("unowned"@)
            } else {
                None
            }),
    {
        let m = self.modifiers();
        if m & decode::WEAK != 0 {
            Some(String::from_str("weak"))
        } else if m & decode::UNOWNED != 0 {
            Some(String::from_str("unowned"))
        } else {
            None
        }
    }
}

} // verus!
