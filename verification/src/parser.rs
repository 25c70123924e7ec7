//! A recursive-descent + Pratt parser over the [`crate::lexer`] token stream,
//! building the arena of [`crate::syntax`] directly.
//!
//! Every node is created only after all of its children, so a child's index
//! is always smaller than its parent's: the arena is well formed by
//! construction, and the root (`SourceFile`) is the last node.
//!
//! Declarations (with their generic clauses), bindings, expressions (with
//! Swift's operator precedence and any operators the source declares),
//! closures with their capture lists and signatures, key paths, types, and
//! every statement form are parsed into full trees: `if`/`guard`/`while`
//! condition lists, `for` patterns, iterables and guards, `switch` subjects,
//! case patterns (enum-case, tuple, cast, optional and range patterns),
//! guards and clause bodies, and `do` blocks with their `catch` clauses.
use vstd::prelude::*;
use crate::lexer::{Token, TokenKind};
use crate::syntax::{Analysis, NodeKind, NodeView, SyntaxNode, ParamInfo, nodes_view, node_wf, opt_view, tree_wf};
use crate::lexer::tokenize;
use crate::lex_spec::{lexable, spec_tokenize, SpecToken};
use crate::lexer::tokens_view;
use crate::text::str_same;
use crate::decode;

verus! {

/// A syntax error: a human-readable message and the 1-based location.
#[derive(Debug, Clone, PartialEq, Eq)]
pub struct ParseError {
    pub message: String,
    pub line: u32,
    pub col: u32,
}

/// Every index in `ids` is below `n`.
pub open spec fn ids_below(ids: Seq<usize>, n: int) -> bool {
    forall|i: int| 0 <= i < ids.len() ==> #[trigger] ids[i] < n
}

/// Whether `w` is a declaration modifier word that may precede a declaration.
pub open spec fn modifier_word(w: Seq<char>) -> bool {
    w == "static"@ || w == "class"@ || w == "mutating"@ || w == "nonmutating"@ || w == "lazy"@
        || w == "final"@ || w == "override"@ || w == "required"@ || w == "convenience"@ || w
        == "public"@ || w == "private"@ || w == "internal"@ || w == "fileprivate"@ || w
        == "open"@ || w == "package"@ || w == "weak"@ || w == "unowned"@ || w == "indirect"@
        || w == "dynamic"@ || w == "consuming"@ || w == "borrowing"@ || w == "prefix"@ || w
        == "postfix"@ || w == "infix"@ || w == "async"@
}

/// Declaration modifiers that may precede a declaration keyword.
pub fn is_modifier_word(w: &str) -> (r: bool)
    ensures
        r == modifier_word(w@),
{
    str_same(w, "static") || str_same(w, "class") || str_same(w, "mutating") || str_same(
        w,
        "nonmutating",
    ) || str_same(w, "lazy") || str_same(w, "final") || str_same(w, "override") || str_same(
        w,
        "required",
    ) || str_same(w, "convenience") || str_same(w, "public") || str_same(w, "private")
        || str_same(w, "internal") || str_same(w, "fileprivate") || str_same(w, "open")
        || str_same(w, "package") || str_same(w, "weak") || str_same(w, "unowned") || str_same(
        w,
        "indirect",
    ) || str_same(w, "dynamic") || str_same(w, "consuming") || str_same(w, "borrowing")
        || str_same(w, "prefix") || str_same(w, "postfix") || str_same(w, "infix") || str_same(
        w,
        "async",
    )
}

/// Words the lexer classes as keywords that Swift reserves only in context,
/// so that they still name a binding (`let package = Package(...)`).
pub open spec fn contextual_word(w: Seq<char>) -> bool {
    w == "package"@ || w == "open"@ || w == "some"@ || w == "any"@ || w == "lazy"@ || w
        == "weak"@ || w == "unowned"@ || w == "mutating"@ || w == "indirect"@
}

/// Whether the keyword `w` may still stand as a binding name.
pub fn is_contextual_word(w: &str) -> (r: bool)
    ensures
        r == contextual_word(w@),
{
    str_same(w, "package") || str_same(w, "open") || str_same(w, "some") || str_same(w, "any")
        || str_same(w, "lazy") || str_same(w, "weak") || str_same(w, "unowned") || str_same(
        w,
        "mutating",
    ) || str_same(w, "indirect")
}

/// Whether `w` introduces a declaration that a modifier run may precede.
pub open spec fn decl_keyword(w: Seq<char>) -> bool {
    w == "struct"@ || w == "enum"@ || w == "class"@ || w == "protocol"@ || w == "extension"@
        || w == "func"@ || w == "init"@ || w == "subscript"@ || w == "let"@ || w == "var"@ || w
        == "case"@ || w == "typealias"@ || w == "associatedtype"@ || w == "deinit"@ || w
        == "actor"@ || w == "import"@
}

/// Keywords that introduce a declaration a modifier run may precede.
pub fn is_decl_keyword(w: &str) -> (r: bool)
    ensures
        r == decl_keyword(w@),
{
    str_same(w, "struct") || str_same(w, "enum") || str_same(w, "class") || str_same(
        w,
        "protocol",
    ) || str_same(w, "extension") || str_same(w, "func") || str_same(w, "init") || str_same(
        w,
        "subscript",
    ) || str_same(w, "let") || str_same(w, "var") || str_same(w, "case") || str_same(
        w,
        "typealias",
    ) || str_same(w, "associatedtype") || str_same(w, "deinit") || str_same(w, "actor")
        || str_same(w, "import")
}

/// Whether `w` is an accessor introducer inside a property or subscript body.
pub open spec fn accessor_kw(w: Seq<char>) -> bool {
    w == "get"@ || w == "set"@ || w == "willSet"@ || w == "didSet"@
}

/// Accessor introducers inside a property/subscript body.
pub fn is_accessor_kw(w: &str) -> (r: bool)
    ensures
        r == accessor_kw(w@),
{
    str_same(w, "get") || str_same(w, "set") || str_same(w, "willSet") || str_same(w, "didSet")
}

/// An accessor block entry may start with a `mutating`/`nonmutating`
/// modifier before the accessor keyword.
pub fn is_accessor_start(w: &str) -> (r: bool)
    ensures
        r == (accessor_kw(w@) || w@ == "mutating"@ || w@ == "nonmutating"@),
{
    is_accessor_kw(w) || str_same(w, "mutating") || str_same(w, "nonmutating")
}

/// Declaration kinds that may follow `import` to import a single symbol.
pub fn is_import_kind(w: &str) -> (r: bool)
    ensures
        r == (w@ == "typealias"@ || w@ == "struct"@ || w@ == "class"@ || w@ == "enum"@ || w@
            == "protocol"@ || w@ == "let"@ || w@ == "var"@ || w@ == "func"@),
{
    str_same(w, "typealias") || str_same(w, "struct") || str_same(w, "class") || str_same(
        w,
        "enum",
    ) || str_same(w, "protocol") || str_same(w, "let") || str_same(w, "var") || str_same(
        w,
        "func",
    )
}

/// Whether `kw` is a statement that may carry a leading `label:`.
pub fn is_labelable(kw: &str) -> (r: bool)
    ensures
        r == (kw@ == "for"@ || kw@ == "while"@ || kw@ == "repeat"@ || kw@ == "switch"@),
{
    str_same(kw, "for") || str_same(kw, "while") || str_same(kw, "repeat") || str_same(
        kw,
        "switch",
    )
}

/// Whether `op` is a plain or compound assignment operator.
pub open spec fn assignment_op(op: Seq<char>) -> bool {
    op == "="@ || op == "+="@ || op == "-="@ || op == "*="@ || op == "/="@ || op == "%="@ || op
        == "&="@ || op == "|="@ || op == "^="@ || op == "<<="@ || op == ">>="@ || op == "&+="@
        || op == "&-="@ || op == "&*="@
}

/// Whether `op` is a plain or compound assignment operator.
pub fn is_assignment(op: &str) -> (r: bool)
    ensures
        r == assignment_op(op@),
{
    str_same(op, "=") || str_same(op, "+=") || str_same(op, "-=") || str_same(op, "*=")
        || str_same(op, "/=") || str_same(op, "%=") || str_same(op, "&=") || str_same(op, "|=")
        || str_same(op, "^=") || str_same(op, "<<=") || str_same(op, ">>=") || str_same(op, "&+=")
        || str_same(op, "&-=") || str_same(op, "&*=")
}

/// Precedence of the ternary conditional (Swift `TernaryPrecedence`, /10).
pub const TERNARY_BP: u8 = 6;

/// Precedence of `is`/`as` casts (Swift `CastingPrecedence`, /10).
pub const CAST_BP: u8 = 13;

/// Swift's `DefaultPrecedence`, used for operators declared without a group.
pub const DEFAULT_BP: u8 = 14;

/// The precedence of a built-in infix operator (Swift's standard groups,
/// divided by ten); an undeclared operator gets the default precedence.
pub open spec fn operator_precedence(op: Seq<char>) -> u8 {
    if op == "<<"@ || op == ">>"@ || op == "&<<"@ || op == "&>>"@ {
        16
    } else if op == "*"@ || op == "/"@ || op == "%"@ || op == "&"@ || op == "&*"@ {
        15
    } else if op == "+"@ || op == "-"@ || op == "|"@ || op == "^"@ || op == "&+"@ || op == "&-"@ {
        14
    } else if op == "..<"@ || op == "..."@ {
        13
    } else if op == "??"@ {
        12
    } else if op == "=="@ || op == "!="@ || op == "<"@ || op == ">"@ || op == "<="@ || op
        == ">="@ || op == "==="@ || op == "!=="@ {
        9
    } else if op == "&&"@ {
        8
    } else if op == "||"@ {
        7
    } else {
        DEFAULT_BP
    }
}

/// `(left, right)` binding powers: `??` is right-associative, every other
/// operator left-associative.
pub open spec fn binding_power_of(op: Seq<char>) -> (u8, u8) {
    if operator_precedence(op) == 12 {
        (12, 11)
    } else {
        (operator_precedence(op), (operator_precedence(op) + 1) as u8)
    }
}

/// `(left_bp, right_bp)` for a built-in infix operator, encoding precedence
/// and associativity (`right_bp < left_bp` means right-associative).
pub fn builtin_binding_power(op: &str) -> (r: Option<(u8, u8)>)
    ensures
        r == Some(binding_power_of(op@)),
{
    let p: u8 = if str_same(op, "<<") || str_same(op, ">>") || str_same(op, "&<<") || str_same(
        op,
        "&>>",
    ) {
        16
    } else if str_same(op, "*") || str_same(op, "/") || str_same(op, "%") || str_same(op, "&")
        || str_same(op, "&*") {
        15
    } else if str_same(op, "+") || str_same(op, "-") || str_same(op, "|") || str_same(op, "^")
        || str_same(op, "&+") || str_same(op, "&-") {
        14
    } else if str_same(op, "..<") || str_same(op, "...") {
        13
    } else if str_same(op, "??") {
        return Some((12, 11));
    } else if str_same(op, "==") || str_same(op, "!=") || str_same(op, "<") || str_same(op, ">")
        || str_same(op, "<=") || str_same(op, ">=") || str_same(op, "===") || str_same(op, "!==") {
        9
    } else if str_same(op, "&&") {
        8
    } else if str_same(op, "||") {
        7
    } else {
        DEFAULT_BP
    };
    Some((p, p + 1))
}

/// Two texts that differ at one position differ.
proof fn lemma_texts_differ(a: Seq<char>, b: Seq<char>, i: int)
    requires
        0 <= i < a.len(),
        i < b.len(),
        a[i] != b[i],
    ensures
        a != b,
{
}

/// The precedence of `<<`.
proof fn lemma_prec_ltlt()
    ensures
        operator_precedence("<<"@) == 16,
{
    reveal_strlit("<<");
}

/// The precedence of `>>`.
proof fn lemma_prec_gtgt()
    ensures
        operator_precedence(">>"@) == 16,
{
    reveal_strlit(">>");
    reveal_strlit("<<");
    lemma_texts_differ(">>"@, "<<"@, 0);
}

/// The precedence of `&<<`.
proof fn lemma_prec_ampltlt()
    ensures
        operator_precedence("&<<"@) == 16,
{
    reveal_strlit("&<<");
    reveal_strlit("<<");
    assert("&<<"@.len() != "<<"@.len());
    reveal_strlit(">>");
    assert("&<<"@.len() != ">>"@.len());
}

/// The precedence of `&>>`.
proof fn lemma_prec_ampgtgt()
    ensures
        operator_precedence("&>>"@) == 16,
{
    reveal_strlit("&>>");
    reveal_strlit("<<");
    assert("&>>"@.len() != "<<"@.len());
    reveal_strlit(">>");
    assert("&>>"@.len() != ">>"@.len());
    reveal_strlit("&<<");
    lemma_texts_differ("&>>"@, "&<<"@, 1);
}

/// The precedence of `*`.
proof fn lemma_prec_star()
    ensures
        operator_precedence("*"@) == 15,
{
    reveal_strlit("*");
    reveal_strlit("<<");
    assert("*"@.len() != "<<"@.len());
    reveal_strlit(">>");
    assert("*"@.len() != ">>"@.len());
    reveal_strlit("&<<");
    assert("*"@.len() != "&<<"@.len());
    reveal_strlit("&>>");
    assert("*"@.len() != "&>>"@.len());
}

/// The precedence of `/`.
proof fn lemma_prec_slash()
    ensures
        operator_precedence("/"@) == 15,
{
    reveal_strlit("/");
    reveal_strlit("<<");
    assert("/"@.len() != "<<"@.len());
    reveal_strlit(">>");
    assert("/"@.len() != ">>"@.len());
    reveal_strlit("&<<");
    assert("/"@.len() != "&<<"@.len());
    reveal_strlit("&>>");
    assert("/"@.len() != "&>>"@.len());
    reveal_strlit("*");
    lemma_texts_differ("/"@, "*"@, 0);
}

/// The precedence of `%`.
proof fn lemma_prec_pct()
    ensures
        operator_precedence("%"@) == 15,
{
    reveal_strlit("%");
    reveal_strlit("<<");
    assert("%"@.len() != "<<"@.len());
    reveal_strlit(">>");
    assert("%"@.len() != ">>"@.len());
    reveal_strlit("&<<");
    assert("%"@.len() != "&<<"@.len());
    reveal_strlit("&>>");
    assert("%"@.len() != "&>>"@.len());
    reveal_strlit("*");
    lemma_texts_differ("%"@, "*"@, 0);
    reveal_strlit("/");
    lemma_texts_differ("%"@, "/"@, 0);
}

/// The precedence of `&`.
proof fn lemma_prec_amp()
    ensures
        operator_precedence("&"@) == 15,
{
    reveal_strlit("&");
    reveal_strlit("<<");
    assert("&"@.len() != "<<"@.len());
    reveal_strlit(">>");
    assert("&"@.len() != ">>"@.len());
    reveal_strlit("&<<");
    assert("&"@.len() != "&<<"@.len());
    reveal_strlit("&>>");
    assert("&"@.len() != "&>>"@.len());
    reveal_strlit("*");
    lemma_texts_differ("&"@, "*"@, 0);
    reveal_strlit("/");
    lemma_texts_differ("&"@, "/"@, 0);
    reveal_strlit("%");
    lemma_texts_differ("&"@, "%"@, 0);
}

/// The precedence of `&*`.
proof fn lemma_prec_ampstar()
    ensures
        operator_precedence("&*"@) == 15,
{
    reveal_strlit("&*");
    reveal_strlit("<<");
    lemma_texts_differ("&*"@, "<<"@, 0);
    reveal_strlit(">>");
    lemma_texts_differ("&*"@, ">>"@, 0);
    reveal_strlit("&<<");
    assert("&*"@.len() != "&<<"@.len());
    reveal_strlit("&>>");
    assert("&*"@.len() != "&>>"@.len());
    reveal_strlit("*");
    assert("&*"@.len() != "*"@.len());
    reveal_strlit("/");
    assert("&*"@.len() != "/"@.len());
    reveal_strlit("%");
    assert("&*"@.len() != "%"@.len());
    reveal_strlit("&");
    assert("&*"@.len() != "&"@.len());
}

/// The precedence of `+`.
proof fn lemma_prec_plus()
    ensures
        operator_precedence("+"@) == 14,
{
    reveal_strlit("+");
    reveal_strlit("<<");
    assert("+"@.len() != "<<"@.len());
    reveal_strlit(">>");
    assert("+"@.len() != ">>"@.len());
    reveal_strlit("&<<");
    assert("+"@.len() != "&<<"@.len());
    reveal_strlit("&>>");
    assert("+"@.len() != "&>>"@.len());
    reveal_strlit("*");
    lemma_texts_differ("+"@, "*"@, 0);
    reveal_strlit("/");
    lemma_texts_differ("+"@, "/"@, 0);
    reveal_strlit("%");
    lemma_texts_differ("+"@, "%"@, 0);
    reveal_strlit("&");
    lemma_texts_differ("+"@, "&"@, 0);
    reveal_strlit("&*");
    assert("+"@.len() != "&*"@.len());
}

/// The precedence of `-`.
proof fn lemma_prec_minus()
    ensures
        operator_precedence("-"@) == 14,
{
    reveal_strlit("-");
    reveal_strlit("<<");
    assert("-"@.len() != "<<"@.len());
    reveal_strlit(">>");
    assert("-"@.len() != ">>"@.len());
    reveal_strlit("&<<");
    assert("-"@.len() != "&<<"@.len());
    reveal_strlit("&>>");
    assert("-"@.len() != "&>>"@.len());
    reveal_strlit("*");
    lemma_texts_differ("-"@, "*"@, 0);
    reveal_strlit("/");
    lemma_texts_differ("-"@, "/"@, 0);
    reveal_strlit("%");
    lemma_texts_differ("-"@, "%"@, 0);
    reveal_strlit("&");
    lemma_texts_differ("-"@, "&"@, 0);
    reveal_strlit("&*");
    assert("-"@.len() != "&*"@.len());
    reveal_strlit("+");
    lemma_texts_differ("-"@, "+"@, 0);
}

/// The precedence of `|`.
proof fn lemma_prec_bar()
    ensures
        operator_precedence("|"@) == 14,
{
    reveal_strlit("|");
    reveal_strlit("<<");
    assert("|"@.len() != "<<"@.len());
    reveal_strlit(">>");
    assert("|"@.len() != ">>"@.len());
    reveal_strlit("&<<");
    assert("|"@.len() != "&<<"@.len());
    reveal_strlit("&>>");
    assert("|"@.len() != "&>>"@.len());
    reveal_strlit("*");
    lemma_texts_differ("|"@, "*"@, 0);
    reveal_strlit("/");
    lemma_texts_differ("|"@, "/"@, 0);
    reveal_strlit("%");
    lemma_texts_differ("|"@, "%"@, 0);
    reveal_strlit("&");
    lemma_texts_differ("|"@, "&"@, 0);
    reveal_strlit("&*");
    assert("|"@.len() != "&*"@.len());
    reveal_strlit("+");
    lemma_texts_differ("|"@, "+"@, 0);
    reveal_strlit("-");
    lemma_texts_differ("|"@, "-"@, 0);
}

/// The precedence of `^`.
proof fn lemma_prec_caret()
    ensures
        operator_precedence("^"@) == 14,
{
    reveal_strlit("^");
    reveal_strlit("<<");
    assert("^"@.len() != "<<"@.len());
    reveal_strlit(">>");
    assert("^"@.len() != ">>"@.len());
    reveal_strlit("&<<");
    assert("^"@.len() != "&<<"@.len());
    reveal_strlit("&>>");
    assert("^"@.len() != "&>>"@.len());
    reveal_strlit("*");
    lemma_texts_differ("^"@, "*"@, 0);
    reveal_strlit("/");
    lemma_texts_differ("^"@, "/"@, 0);
    reveal_strlit("%");
    lemma_texts_differ("^"@, "%"@, 0);
    reveal_strlit("&");
    lemma_texts_differ("^"@, "&"@, 0);
    reveal_strlit("&*");
    assert("^"@.len() != "&*"@.len());
    reveal_strlit("+");
    lemma_texts_differ("^"@, "+"@, 0);
    reveal_strlit("-");
    lemma_texts_differ("^"@, "-"@, 0);
    reveal_strlit("|");
    lemma_texts_differ("^"@, "|"@, 0);
}

/// The precedence of `&+`.
proof fn lemma_prec_ampplus()
    ensures
        operator_precedence("&+"@) == 14,
{
    reveal_strlit("&+");
    reveal_strlit("<<");
    lemma_texts_differ("&+"@, "<<"@, 0);
    reveal_strlit(">>");
    lemma_texts_differ("&+"@, ">>"@, 0);
    reveal_strlit("&<<");
    assert("&+"@.len() != "&<<"@.len());
    reveal_strlit("&>>");
    assert("&+"@.len() != "&>>"@.len());
    reveal_strlit("*");
    assert("&+"@.len() != "*"@.len());
    reveal_strlit("/");
    assert("&+"@.len() != "/"@.len());
    reveal_strlit("%");
    assert("&+"@.len() != "%"@.len());
    reveal_strlit("&");
    assert("&+"@.len() != "&"@.len());
    reveal_strlit("&*");
    lemma_texts_differ("&+"@, "&*"@, 1);
    reveal_strlit("+");
    assert("&+"@.len() != "+"@.len());
    reveal_strlit("-");
    assert("&+"@.len() != "-"@.len());
    reveal_strlit("|");
    assert("&+"@.len() != "|"@.len());
    reveal_strlit("^");
    assert("&+"@.len() != "^"@.len());
}

/// The precedence of `&-`.
proof fn lemma_prec_ampminus()
    ensures
        operator_precedence("&-"@) == 14,
{
    reveal_strlit("&-");
    reveal_strlit("<<");
    lemma_texts_differ("&-"@, "<<"@, 0);
    reveal_strlit(">>");
    lemma_texts_differ("&-"@, ">>"@, 0);
    reveal_strlit("&<<");
    assert("&-"@.len() != "&<<"@.len());
    reveal_strlit("&>>");
    assert("&-"@.len() != "&>>"@.len());
    reveal_strlit("*");
    assert("&-"@.len() != "*"@.len());
    reveal_strlit("/");
    assert("&-"@.len() != "/"@.len());
    reveal_strlit("%");
    assert("&-"@.len() != "%"@.len());
    reveal_strlit("&");
    assert("&-"@.len() != "&"@.len());
    reveal_strlit("&*");
    lemma_texts_differ("&-"@, "&*"@, 1);
    reveal_strlit("+");
    assert("&-"@.len() != "+"@.len());
    reveal_strlit("-");
    assert("&-"@.len() != "-"@.len());
    reveal_strlit("|");
    assert("&-"@.len() != "|"@.len());
    reveal_strlit("^");
    assert("&-"@.len() != "^"@.len());
    reveal_strlit("&+");
    lemma_texts_differ("&-"@, "&+"@, 1);
}

/// The precedence of `..<`.
proof fn lemma_prec_dotdotlt()
    ensures
        operator_precedence("..<"@) == 13,
{
    reveal_strlit("..<");
    reveal_strlit("<<");
    assert("..<"@.len() != "<<"@.len());
    reveal_strlit(">>");
    assert("..<"@.len() != ">>"@.len());
    reveal_strlit("&<<");
    lemma_texts_differ("..<"@, "&<<"@, 0);
    reveal_strlit("&>>");
    lemma_texts_differ("..<"@, "&>>"@, 0);
    reveal_strlit("*");
    assert("..<"@.len() != "*"@.len());
    reveal_strlit("/");
    assert("..<"@.len() != "/"@.len());
    reveal_strlit("%");
    assert("..<"@.len() != "%"@.len());
    reveal_strlit("&");
    assert("..<"@.len() != "&"@.len());
    reveal_strlit("&*");
    assert("..<"@.len() != "&*"@.len());
    reveal_strlit("+");
    assert("..<"@.len() != "+"@.len());
    reveal_strlit("-");
    assert("..<"@.len() != "-"@.len());
    reveal_strlit("|");
    assert("..<"@.len() != "|"@.len());
    reveal_strlit("^");
    assert("..<"@.len() != "^"@.len());
    reveal_strlit("&+");
    assert("..<"@.len() != "&+"@.len());
    reveal_strlit("&-");
    assert("..<"@.len() != "&-"@.len());
}

/// The precedence of `...`.
proof fn lemma_prec_dotdotdot()
    ensures
        operator_precedence("..."@) == 13,
{
    reveal_strlit("...");
    reveal_strlit("<<");
    assert("..."@.len() != "<<"@.len());
    reveal_strlit(">>");
    assert("..."@.len() != ">>"@.len());
    reveal_strlit("&<<");
    lemma_texts_differ("..."@, "&<<"@, 0);
    reveal_strlit("&>>");
    lemma_texts_differ("..."@, "&>>"@, 0);
    reveal_strlit("*");
    assert("..."@.len() != "*"@.len());
    reveal_strlit("/");
    assert("..."@.len() != "/"@.len());
    reveal_strlit("%");
    assert("..."@.len() != "%"@.len());
    reveal_strlit("&");
    assert("..."@.len() != "&"@.len());
    reveal_strlit("&*");
    assert("..."@.len() != "&*"@.len());
    reveal_strlit("+");
    assert("..."@.len() != "+"@.len());
    reveal_strlit("-");
    assert("..."@.len() != "-"@.len());
    reveal_strlit("|");
    assert("..."@.len() != "|"@.len());
    reveal_strlit("^");
    assert("..."@.len() != "^"@.len());
    reveal_strlit("&+");
    assert("..."@.len() != "&+"@.len());
    reveal_strlit("&-");
    assert("..."@.len() != "&-"@.len());
    reveal_strlit("..<");
    lemma_texts_differ("..."@, "..<"@, 2);
}

/// The precedence of `??`.
proof fn lemma_prec_qq()
    ensures
        operator_precedence("??"@) == 12,
{
    reveal_strlit("??");
    reveal_strlit("<<");
    lemma_texts_differ("??"@, "<<"@, 0);
    reveal_strlit(">>");
    lemma_texts_differ("??"@, ">>"@, 0);
    reveal_strlit("&<<");
    assert("??"@.len() != "&<<"@.len());
    reveal_strlit("&>>");
    assert("??"@.len() != "&>>"@.len());
    reveal_strlit("*");
    assert("??"@.len() != "*"@.len());
    reveal_strlit("/");
    assert("??"@.len() != "/"@.len());
    reveal_strlit("%");
    assert("??"@.len() != "%"@.len());
    reveal_strlit("&");
    assert("??"@.len() != "&"@.len());
    reveal_strlit("&*");
    lemma_texts_differ("??"@, "&*"@, 0);
    reveal_strlit("+");
    assert("??"@.len() != "+"@.len());
    reveal_strlit("-");
    assert("??"@.len() != "-"@.len());
    reveal_strlit("|");
    assert("??"@.len() != "|"@.len());
    reveal_strlit("^");
    assert("??"@.len() != "^"@.len());
    reveal_strlit("&+");
    lemma_texts_differ("??"@, "&+"@, 0);
    reveal_strlit("&-");
    lemma_texts_differ("??"@, "&-"@, 0);
    reveal_strlit("..<");
    assert("??"@.len() != "..<"@.len());
    reveal_strlit("...");
    assert("??"@.len() != "..."@.len());
}

/// The precedence of `==`.
proof fn lemma_prec_eqeq()
    ensures
        operator_precedence("=="@) == 9,
{
    reveal_strlit("==");
    reveal_strlit("<<");
    lemma_texts_differ("=="@, "<<"@, 0);
    reveal_strlit(">>");
    lemma_texts_differ("=="@, ">>"@, 0);
    reveal_strlit("&<<");
    assert("=="@.len() != "&<<"@.len());
    reveal_strlit("&>>");
    assert("=="@.len() != "&>>"@.len());
    reveal_strlit("*");
    assert("=="@.len() != "*"@.len());
    reveal_strlit("/");
    assert("=="@.len() != "/"@.len());
    reveal_strlit("%");
    assert("=="@.len() != "%"@.len());
    reveal_strlit("&");
    assert("=="@.len() != "&"@.len());
    reveal_strlit("&*");
    lemma_texts_differ("=="@, "&*"@, 0);
    reveal_strlit("+");
    assert("=="@.len() != "+"@.len());
    reveal_strlit("-");
    assert("=="@.len() != "-"@.len());
    reveal_strlit("|");
    assert("=="@.len() != "|"@.len());
    reveal_strlit("^");
    assert("=="@.len() != "^"@.len());
    reveal_strlit("&+");
    lemma_texts_differ("=="@, "&+"@, 0);
    reveal_strlit("&-");
    lemma_texts_differ("=="@, "&-"@, 0);
    reveal_strlit("..<");
    assert("=="@.len() != "..<"@.len());
    reveal_strlit("...");
    assert("=="@.len() != "..."@.len());
    reveal_strlit("??");
    lemma_texts_differ("=="@, "??"@, 0);
}

/// The precedence of `!=`.
proof fn lemma_prec_bangeq()
    ensures
        operator_precedence("!="@) == 9,
{
    reveal_strlit("!=");
    reveal_strlit("<<");
    lemma_texts_differ("!="@, "<<"@, 0);
    reveal_strlit(">>");
    lemma_texts_differ("!="@, ">>"@, 0);
    reveal_strlit("&<<");
    assert("!="@.len() != "&<<"@.len());
    reveal_strlit("&>>");
    assert("!="@.len() != "&>>"@.len());
    reveal_strlit("*");
    assert("!="@.len() != "*"@.len());
    reveal_strlit("/");
    assert("!="@.len() != "/"@.len());
    reveal_strlit("%");
    assert("!="@.len() != "%"@.len());
    reveal_strlit("&");
    assert("!="@.len() != "&"@.len());
    reveal_strlit("&*");
    lemma_texts_differ("!="@, "&*"@, 0);
    reveal_strlit("+");
    assert("!="@.len() != "+"@.len());
    reveal_strlit("-");
    assert("!="@.len() != "-"@.len());
    reveal_strlit("|");
    assert("!="@.len() != "|"@.len());
    reveal_strlit("^");
    assert("!="@.len() != "^"@.len());
    reveal_strlit("&+");
    lemma_texts_differ("!="@, "&+"@, 0);
    reveal_strlit("&-");
    lemma_texts_differ("!="@, "&-"@, 0);
    reveal_strlit("..<");
    assert("!="@.len() != "..<"@.len());
    reveal_strlit("...");
    assert("!="@.len() != "..."@.len());
    reveal_strlit("??");
    lemma_texts_differ("!="@, "??"@, 0);
    reveal_strlit("==");
    lemma_texts_differ("!="@, "=="@, 0);
}

/// The precedence of `<`.
proof fn lemma_prec_lt()
    ensures
        operator_precedence("<"@) == 9,
{
    reveal_strlit("<");
    reveal_strlit("<<");
    assert("<"@.len() != "<<"@.len());
    reveal_strlit(">>");
    assert("<"@.len() != ">>"@.len());
    reveal_strlit("&<<");
    assert("<"@.len() != "&<<"@.len());
    reveal_strlit("&>>");
    assert("<"@.len() != "&>>"@.len());
    reveal_strlit("*");
    lemma_texts_differ("<"@, "*"@, 0);
    reveal_strlit("/");
    lemma_texts_differ("<"@, "/"@, 0);
    reveal_strlit("%");
    lemma_texts_differ("<"@, "%"@, 0);
    reveal_strlit("&");
    lemma_texts_differ("<"@, "&"@, 0);
    reveal_strlit("&*");
    assert("<"@.len() != "&*"@.len());
    reveal_strlit("+");
    lemma_texts_differ("<"@, "+"@, 0);
    reveal_strlit("-");
    lemma_texts_differ("<"@, "-"@, 0);
    reveal_strlit("|");
    lemma_texts_differ("<"@, "|"@, 0);
    reveal_strlit("^");
    lemma_texts_differ("<"@, "^"@, 0);
    reveal_strlit("&+");
    assert("<"@.len() != "&+"@.len());
    reveal_strlit("&-");
    assert("<"@.len() != "&-"@.len());
    reveal_strlit("..<");
    assert("<"@.len() != "..<"@.len());
    reveal_strlit("...");
    assert("<"@.len() != "..."@.len());
    reveal_strlit("??");
    assert("<"@.len() != "??"@.len());
    reveal_strlit("==");
    assert("<"@.len() != "=="@.len());
    reveal_strlit("!=");
    assert("<"@.len() != "!="@.len());
}

/// The precedence of `>`.
proof fn lemma_prec_gt()
    ensures
        operator_precedence(">"@) == 9,
{
    reveal_strlit(">");
    reveal_strlit("<<");
    assert(">"@.len() != "<<"@.len());
    reveal_strlit(">>");
    assert(">"@.len() != ">>"@.len());
    reveal_strlit("&<<");
    assert(">"@.len() != "&<<"@.len());
    reveal_strlit("&>>");
    assert(">"@.len() != "&>>"@.len());
    reveal_strlit("*");
    lemma_texts_differ(">"@, "*"@, 0);
    reveal_strlit("/");
    lemma_texts_differ(">"@, "/"@, 0);
    reveal_strlit("%");
    lemma_texts_differ(">"@, "%"@, 0);
    reveal_strlit("&");
    lemma_texts_differ(">"@, "&"@, 0);
    reveal_strlit("&*");
    assert(">"@.len() != "&*"@.len());
    reveal_strlit("+");
    lemma_texts_differ(">"@, "+"@, 0);
    reveal_strlit("-");
    lemma_texts_differ(">"@, "-"@, 0);
    reveal_strlit("|");
    lemma_texts_differ(">"@, "|"@, 0);
    reveal_strlit("^");
    lemma_texts_differ(">"@, "^"@, 0);
    reveal_strlit("&+");
    assert(">"@.len() != "&+"@.len());
    reveal_strlit("&-");
    assert(">"@.len() != "&-"@.len());
    reveal_strlit("..<");
    assert(">"@.len() != "..<"@.len());
    reveal_strlit("...");
    assert(">"@.len() != "..."@.len());
    reveal_strlit("??");
    assert(">"@.len() != "??"@.len());
    reveal_strlit("==");
    assert(">"@.len() != "=="@.len());
    reveal_strlit("!=");
    assert(">"@.len() != "!="@.len());
    reveal_strlit("<");
    lemma_texts_differ(">"@, "<"@, 0);
}

/// The precedence of `<=`.
proof fn lemma_prec_lteq()
    ensures
        operator_precedence("<="@) == 9,
{
    reveal_strlit("<=");
    reveal_strlit("<<");
    lemma_texts_differ("<="@, "<<"@, 1);
    reveal_strlit(">>");
    lemma_texts_differ("<="@, ">>"@, 0);
    reveal_strlit("&<<");
    assert("<="@.len() != "&<<"@.len());
    reveal_strlit("&>>");
    assert("<="@.len() != "&>>"@.len());
    reveal_strlit("*");
    assert("<="@.len() != "*"@.len());
    reveal_strlit("/");
    assert("<="@.len() != "/"@.len());
    reveal_strlit("%");
    assert("<="@.len() != "%"@.len());
    reveal_strlit("&");
    assert("<="@.len() != "&"@.len());
    reveal_strlit("&*");
    lemma_texts_differ("<="@, "&*"@, 0);
    reveal_strlit("+");
    assert("<="@.len() != "+"@.len());
    reveal_strlit("-");
    assert("<="@.len() != "-"@.len());
    reveal_strlit("|");
    assert("<="@.len() != "|"@.len());
    reveal_strlit("^");
    assert("<="@.len() != "^"@.len());
    reveal_strlit("&+");
    lemma_texts_differ("<="@, "&+"@, 0);
    reveal_strlit("&-");
    lemma_texts_differ("<="@, "&-"@, 0);
    reveal_strlit("..<");
    assert("<="@.len() != "..<"@.len());
    reveal_strlit("...");
    assert("<="@.len() != "..."@.len());
    reveal_strlit("??");
    lemma_texts_differ("<="@, "??"@, 0);
    reveal_strlit("==");
    lemma_texts_differ("<="@, "=="@, 0);
    reveal_strlit("!=");
    lemma_texts_differ("<="@, "!="@, 0);
    reveal_strlit("<");
    assert("<="@.len() != "<"@.len());
    reveal_strlit(">");
    assert("<="@.len() != ">"@.len());
}

/// The precedence of `>=`.
proof fn lemma_prec_gteq()
    ensures
        operator_precedence(">="@) == 9,
{
    reveal_strlit(">=");
    reveal_strlit("<<");
    lemma_texts_differ(">="@, "<<"@, 0);
    reveal_strlit(">>");
    lemma_texts_differ(">="@, ">>"@, 1);
    reveal_strlit("&<<");
    assert(">="@.len() != "&<<"@.len());
    reveal_strlit("&>>");
    assert(">="@.len() != "&>>"@.len());
    reveal_strlit("*");
    assert(">="@.len() != "*"@.len());
    reveal_strlit("/");
    assert(">="@.len() != "/"@.len());
    reveal_strlit("%");
    assert(">="@.len() != "%"@.len());
    reveal_strlit("&");
    assert(">="@.len() != "&"@.len());
    reveal_strlit("&*");
    lemma_texts_differ(">="@, "&*"@, 0);
    reveal_strlit("+");
    assert(">="@.len() != "+"@.len());
    reveal_strlit("-");
    assert(">="@.len() != "-"@.len());
    reveal_strlit("|");
    assert(">="@.len() != "|"@.len());
    reveal_strlit("^");
    assert(">="@.len() != "^"@.len());
    reveal_strlit("&+");
    lemma_texts_differ(">="@, "&+"@, 0);
    reveal_strlit("&-");
    lemma_texts_differ(">="@, "&-"@, 0);
    reveal_strlit("..<");
    assert(">="@.len() != "..<"@.len());
    reveal_strlit("...");
    assert(">="@.len() != "..."@.len());
    reveal_strlit("??");
    lemma_texts_differ(">="@, "??"@, 0);
    reveal_strlit("==");
    lemma_texts_differ(">="@, "=="@, 0);
    reveal_strlit("!=");
    lemma_texts_differ(">="@, "!="@, 0);
    reveal_strlit("<");
    assert(">="@.len() != "<"@.len());
    reveal_strlit(">");
    assert(">="@.len() != ">"@.len());
    reveal_strlit("<=");
    lemma_texts_differ(">="@, "<="@, 0);
}

/// The precedence of `===`.
proof fn lemma_prec_eqeqeq()
    ensures
        operator_precedence("==="@) == 9,
{
    reveal_strlit("===");
    reveal_strlit("<<");
    assert("==="@.len() != "<<"@.len());
    reveal_strlit(">>");
    assert("==="@.len() != ">>"@.len());
    reveal_strlit("&<<");
    lemma_texts_differ("==="@, "&<<"@, 0);
    reveal_strlit("&>>");
    lemma_texts_differ("==="@, "&>>"@, 0);
    reveal_strlit("*");
    assert("==="@.len() != "*"@.len());
    reveal_strlit("/");
    assert("==="@.len() != "/"@.len());
    reveal_strlit("%");
    assert("==="@.len() != "%"@.len());
    reveal_strlit("&");
    assert("==="@.len() != "&"@.len());
    reveal_strlit("&*");
    assert("==="@.len() != "&*"@.len());
    reveal_strlit("+");
    assert("==="@.len() != "+"@.len());
    reveal_strlit("-");
    assert("==="@.len() != "-"@.len());
    reveal_strlit("|");
    assert("==="@.len() != "|"@.len());
    reveal_strlit("^");
    assert("==="@.len() != "^"@.len());
    reveal_strlit("&+");
    assert("==="@.len() != "&+"@.len());
    reveal_strlit("&-");
    assert("==="@.len() != "&-"@.len());
    reveal_strlit("..<");
    lemma_texts_differ("==="@, "..<"@, 0);
    reveal_strlit("...");
    lemma_texts_differ("==="@, "..."@, 0);
    reveal_strlit("??");
    assert("==="@.len() != "??"@.len());
    reveal_strlit("==");
    assert("==="@.len() != "=="@.len());
    reveal_strlit("!=");
    assert("==="@.len() != "!="@.len());
    reveal_strlit("<");
    assert("==="@.len() != "<"@.len());
    reveal_strlit(">");
    assert("==="@.len() != ">"@.len());
    reveal_strlit("<=");
    assert("==="@.len() != "<="@.len());
    reveal_strlit(">=");
    assert("==="@.len() != ">="@.len());
}

/// The precedence of `!==`.
proof fn lemma_prec_bangeqeq()
    ensures
        operator_precedence("!=="@) == 9,
{
    reveal_strlit("!==");
    reveal_strlit("<<");
    assert("!=="@.len() != "<<"@.len());
    reveal_strlit(">>");
    assert("!=="@.len() != ">>"@.len());
    reveal_strlit("&<<");
    lemma_texts_differ("!=="@, "&<<"@, 0);
    reveal_strlit("&>>");
    lemma_texts_differ("!=="@, "&>>"@, 0);
    reveal_strlit("*");
    assert("!=="@.len() != "*"@.len());
    reveal_strlit("/");
    assert("!=="@.len() != "/"@.len());
    reveal_strlit("%");
    assert("!=="@.len() != "%"@.len());
    reveal_strlit("&");
    assert("!=="@.len() != "&"@.len());
    reveal_strlit("&*");
    assert("!=="@.len() != "&*"@.len());
    reveal_strlit("+");
    assert("!=="@.len() != "+"@.len());
    reveal_strlit("-");
    assert("!=="@.len() != "-"@.len());
    reveal_strlit("|");
    assert("!=="@.len() != "|"@.len());
    reveal_strlit("^");
    assert("!=="@.len() != "^"@.len());
    reveal_strlit("&+");
    assert("!=="@.len() != "&+"@.len());
    reveal_strlit("&-");
    assert("!=="@.len() != "&-"@.len());
    reveal_strlit("..<");
    lemma_texts_differ("!=="@, "..<"@, 0);
    reveal_strlit("...");
    lemma_texts_differ("!=="@, "..."@, 0);
    reveal_strlit("??");
    assert("!=="@.len() != "??"@.len());
    reveal_strlit("==");
    assert("!=="@.len() != "=="@.len());
    reveal_strlit("!=");
    assert("!=="@.len() != "!="@.len());
    reveal_strlit("<");
    assert("!=="@.len() != "<"@.len());
    reveal_strlit(">");
    assert("!=="@.len() != ">"@.len());
    reveal_strlit("<=");
    assert("!=="@.len() != "<="@.len());
    reveal_strlit(">=");
    assert("!=="@.len() != ">="@.len());
    reveal_strlit("===");
    lemma_texts_differ("!=="@, "==="@, 0);
}

/// The precedence of `&&`.
proof fn lemma_prec_ampamp()
    ensures
        operator_precedence("&&"@) == 8,
{
    reveal_strlit("&&");
    reveal_strlit("<<");
    lemma_texts_differ("&&"@, "<<"@, 0);
    reveal_strlit(">>");
    lemma_texts_differ("&&"@, ">>"@, 0);
    reveal_strlit("&<<");
    assert("&&"@.len() != "&<<"@.len());
    reveal_strlit("&>>");
    assert("&&"@.len() != "&>>"@.len());
    reveal_strlit("*");
    assert("&&"@.len() != "*"@.len());
    reveal_strlit("/");
    assert("&&"@.len() != "/"@.len());
    reveal_strlit("%");
    assert("&&"@.len() != "%"@.len());
    reveal_strlit("&");
    assert("&&"@.len() != "&"@.len());
    reveal_strlit("&*");
    lemma_texts_differ("&&"@, "&*"@, 1);
    reveal_strlit("+");
    assert("&&"@.len() != "+"@.len());
    reveal_strlit("-");
    assert("&&"@.len() != "-"@.len());
    reveal_strlit("|");
    assert("&&"@.len() != "|"@.len());
    reveal_strlit("^");
    assert("&&"@.len() != "^"@.len());
    reveal_strlit("&+");
    lemma_texts_differ("&&"@, "&+"@, 1);
    reveal_strlit("&-");
    lemma_texts_differ("&&"@, "&-"@, 1);
    reveal_strlit("..<");
    assert("&&"@.len() != "..<"@.len());
    reveal_strlit("...");
    assert("&&"@.len() != "..."@.len());
    reveal_strlit("??");
    lemma_texts_differ("&&"@, "??"@, 0);
    reveal_strlit("==");
    lemma_texts_differ("&&"@, "=="@, 0);
    reveal_strlit("!=");
    lemma_texts_differ("&&"@, "!="@, 0);
    reveal_strlit("<");
    assert("&&"@.len() != "<"@.len());
    reveal_strlit(">");
    assert("&&"@.len() != ">"@.len());
    reveal_strlit("<=");
    lemma_texts_differ("&&"@, "<="@, 0);
    reveal_strlit(">=");
    lemma_texts_differ("&&"@, ">="@, 0);
    reveal_strlit("===");
    assert("&&"@.len() != "==="@.len());
    reveal_strlit("!==");
    assert("&&"@.len() != "!=="@.len());
}

/// The precedence of `||`.
proof fn lemma_prec_barbar()
    ensures
        operator_precedence("||"@) == 7,
{
    reveal_strlit("||");
    reveal_strlit("<<");
    lemma_texts_differ("||"@, "<<"@, 0);
    reveal_strlit(">>");
    lemma_texts_differ("||"@, ">>"@, 0);
    reveal_strlit("&<<");
    assert("||"@.len() != "&<<"@.len());
    reveal_strlit("&>>");
    assert("||"@.len() != "&>>"@.len());
    reveal_strlit("*");
    assert("||"@.len() != "*"@.len());
    reveal_strlit("/");
    assert("||"@.len() != "/"@.len());
    reveal_strlit("%");
    assert("||"@.len() != "%"@.len());
    reveal_strlit("&");
    assert("||"@.len() != "&"@.len());
    reveal_strlit("&*");
    lemma_texts_differ("||"@, "&*"@, 0);
    reveal_strlit("+");
    assert("||"@.len() != "+"@.len());
    reveal_strlit("-");
    assert("||"@.len() != "-"@.len());
    reveal_strlit("|");
    assert("||"@.len() != "|"@.len());
    reveal_strlit("^");
    assert("||"@.len() != "^"@.len());
    reveal_strlit("&+");
    lemma_texts_differ("||"@, "&+"@, 0);
    reveal_strlit("&-");
    lemma_texts_differ("||"@, "&-"@, 0);
    reveal_strlit("..<");
    assert("||"@.len() != "..<"@.len());
    reveal_strlit("...");
    assert("||"@.len() != "..."@.len());
    reveal_strlit("??");
    lemma_texts_differ("||"@, "??"@, 0);
    reveal_strlit("==");
    lemma_texts_differ("||"@, "=="@, 0);
    reveal_strlit("!=");
    lemma_texts_differ("||"@, "!="@, 0);
    reveal_strlit("<");
    assert("||"@.len() != "<"@.len());
    reveal_strlit(">");
    assert("||"@.len() != ">"@.len());
    reveal_strlit("<=");
    lemma_texts_differ("||"@, "<="@, 0);
    reveal_strlit(">=");
    lemma_texts_differ("||"@, ">="@, 0);
    reveal_strlit("===");
    assert("||"@.len() != "==="@.len());
    reveal_strlit("!==");
    assert("||"@.len() != "!=="@.len());
    reveal_strlit("&&");
    lemma_texts_differ("||"@, "&&"@, 0);
}

/// Every declaration modifier that the flag table names (all of its first
/// twenty entries but the effects `throws` and `rethrows`) is read by the
/// parser as a modifier, and sets its own flag.
pub proof fn lemma_table_modifiers_are_read(j: int)
    requires
        0 <= j < 20,
        j != 14 && j != 15,
    ensures
        modifier_word(decode::flag_table()[j].1@),
        decode::modifier_bit(decode::flag_table()[j].1@) == decode::flag_table()[j].0,
{
    let t = decode::flag_table();
    reveal_strlit("failable");
    if j == 0 {
        assert(t[0].1@ == "public"@);
        reveal_strlit("public");
    } else if j == 1 {
        assert(t[1].1@ == "private"@);
        reveal_strlit("private");
    } else if j == 2 {
        assert(t[2].1@ == "internal"@);
        reveal_strlit("internal");
        assert("internal"@[0] != "failable"@[0]);
    } else if j == 3 {
        assert(t[3].1@ == "fileprivate"@);
        reveal_strlit("fileprivate");
    } else if j == 4 {
        assert(t[4].1@ == "open"@);
        reveal_strlit("open");
    } else if j == 5 {
        assert(t[5].1@ == "static"@);
        reveal_strlit("static");
    } else if j == 6 {
        assert(t[6].1@ == "final"@);
        reveal_strlit("final");
    } else if j == 7 {
        assert(t[7].1@ == "override"@);
        reveal_strlit("override");
        assert("override"@[0] != "failable"@[0]);
    } else if j == 8 {
        assert(t[8].1@ == "mutating"@);
        reveal_strlit("mutating");
        assert("mutating"@[0] != "failable"@[0]);
    } else if j == 9 {
        assert(t[9].1@ == "nonmutating"@);
        reveal_strlit("nonmutating");
    } else if j == 10 {
        assert(t[10].1@ == "lazy"@);
        reveal_strlit("lazy");
    } else if j == 11 {
        assert(t[11].1@ == "weak"@);
        reveal_strlit("weak");
    } else if j == 12 {
        assert(t[12].1@ == "unowned"@);
        reveal_strlit("unowned");
    } else if j == 13 {
        assert(t[13].1@ == "async"@);
        reveal_strlit("async");
    } else if j == 16 {
        assert(t[16].1@ == "indirect"@);
        reveal_strlit("indirect");
        assert("indirect"@[0] != "failable"@[0]);
    } else if j == 17 {
        assert(t[17].1@ == "required"@);
        reveal_strlit("required");
        assert("required"@[0] != "failable"@[0]);
    } else if j == 18 {
        assert(t[18].1@ == "convenience"@);
        reveal_strlit("convenience");
    } else if j == 19 {
        assert(t[19].1@ == "dynamic"@);
        reveal_strlit("dynamic");
    }
    assert(t[14].1@ == "throws"@);
    assert(t[15].1@ == "rethrows"@);
    assert(t[20].1@ == "optional"@);
    assert(t[24].1@ == "failable"@);
    reveal_strlit("failable");
    reveal_strlit("throws");
    reveal_strlit("rethrows");
    decode::lemma_table_keywords_encode_to_their_bits(j);
}

/// Swift's standard precedence groups, from the tightest: shifts, then
/// multiplication (`*`, `/`, `%`, `&`, `&*`), addition (`+`, `-`, `|`, `^`,
/// `&+`, `&-`), ranges, nil-coalescing, comparison, `&&`, `||`. Each built-in
/// operator binds tighter than every operator of a later group, all
/// operators of one group bind alike, and every built-in operator but `??`
/// is left-associative (`??` is right-associative).
pub proof fn lemma_builtin_precedence_groups(a: Seq<char>, b: Seq<char>, ga: int, gb: int)
    requires
        0 <= ga < 8,
        0 <= gb < 8,
        ga == 0 ==> (a == "<<"@ || a == ">>"@ || a == "&<<"@ || a == "&>>"@),
        ga == 1 ==> (a == "*"@ || a == "/"@ || a == "%"@ || a == "&"@ || a == "&*"@),
        ga == 2 ==> (a == "+"@ || a == "-"@ || a == "|"@ || a == "^"@ || a == "&+"@ || a == "&-"@),
        ga == 3 ==> (a == "..<"@ || a == "..."@),
        ga == 4 ==> (a == "??"@),
        ga == 5 ==> (a == "=="@ || a == "!="@ || a == "<"@ || a == ">"@ || a == "<="@ || a == ">="@ || a == "==="@ || a == "!=="@),
        ga == 6 ==> (a == "&&"@),
        ga == 7 ==> (a == "||"@),
        gb == 0 ==> (b == "<<"@ || b == ">>"@ || b == "&<<"@ || b == "&>>"@),
        gb == 1 ==> (b == "*"@ || b == "/"@ || b == "%"@ || b == "&"@ || b == "&*"@),
        gb == 2 ==> (b == "+"@ || b == "-"@ || b == "|"@ || b == "^"@ || b == "&+"@ || b == "&-"@),
        gb == 3 ==> (b == "..<"@ || b == "..."@),
        gb == 4 ==> (b == "??"@),
        gb == 5 ==> (b == "=="@ || b == "!="@ || b == "<"@ || b == ">"@ || b == "<="@ || b == ">="@ || b == "==="@ || b == "!=="@),
        gb == 6 ==> (b == "&&"@),
        gb == 7 ==> (b == "||"@),
    ensures
        ga < gb ==> operator_precedence(a) > operator_precedence(b),
        ga == gb ==> operator_precedence(a) == operator_precedence(b),
        a != "??"@ ==> binding_power_of(a).1 == binding_power_of(a).0 + 1,
        a == "??"@ ==> binding_power_of(a).1 < binding_power_of(a).0,
{
    if a == "<<"@ || b == "<<"@ {
        lemma_prec_ltlt();
    }
    if a == ">>"@ || b == ">>"@ {
        lemma_prec_gtgt();
    }
    if a == "&<<"@ || b == "&<<"@ {
        lemma_prec_ampltlt();
    }
    if a == "&>>"@ || b == "&>>"@ {
        lemma_prec_ampgtgt();
    }
    if a == "*"@ || b == "*"@ {
        lemma_prec_star();
    }
    if a == "/"@ || b == "/"@ {
        lemma_prec_slash();
    }
    if a == "%"@ || b == "%"@ {
        lemma_prec_pct();
    }
    if a == "&"@ || b == "&"@ {
        lemma_prec_amp();
    }
    if a == "&*"@ || b == "&*"@ {
        lemma_prec_ampstar();
    }
    if a == "+"@ || b == "+"@ {
        lemma_prec_plus();
    }
    if a == "-"@ || b == "-"@ {
        lemma_prec_minus();
    }
    if a == "|"@ || b == "|"@ {
        lemma_prec_bar();
    }
    if a == "^"@ || b == "^"@ {
        lemma_prec_caret();
    }
    if a == "&+"@ || b == "&+"@ {
        lemma_prec_ampplus();
    }
    if a == "&-"@ || b == "&-"@ {
        lemma_prec_ampminus();
    }
    if a == "..<"@ || b == "..<"@ {
        lemma_prec_dotdotlt();
    }
    if a == "..."@ || b == "..."@ {
        lemma_prec_dotdotdot();
    }
    if a == "??"@ || b == "??"@ {
        lemma_prec_qq();
    }
    if a == "=="@ || b == "=="@ {
        lemma_prec_eqeq();
    }
    if a == "!="@ || b == "!="@ {
        lemma_prec_bangeq();
    }
    if a == "<"@ || b == "<"@ {
        lemma_prec_lt();
    }
    if a == ">"@ || b == ">"@ {
        lemma_prec_gt();
    }
    if a == "<="@ || b == "<="@ {
        lemma_prec_lteq();
    }
    if a == ">="@ || b == ">="@ {
        lemma_prec_gteq();
    }
    if a == "==="@ || b == "==="@ {
        lemma_prec_eqeqeq();
    }
    if a == "!=="@ || b == "!=="@ {
        lemma_prec_bangeqeq();
    }
    if a == "&&"@ || b == "&&"@ {
        lemma_prec_ampamp();
    }
    if a == "||"@ || b == "||"@ {
        lemma_prec_barbar();
    }
}

/// The multiplicative operators `*`, `/` and `%` share one precedence,
/// tighter than that of the additive `+` and `-`: after `a +` a following
/// `%` (or `*`, `/`) binds to the right operand, so `a + b % c` reads as
/// `a + (b % c)`; after `a %` a following `+` does not, so `a % b + c` reads
/// as `(a % b) + c`.
pub proof fn lemma_multiplicative_binds_tighter_than_additive(mul: Seq<char>, add: Seq<char>)
    requires
        mul == "*"@ || mul == "/"@ || mul == "%"@,
        add == "+"@ || add == "-"@,
    ensures
        binding_power_of(mul) == binding_power_of("*"@),
        binding_power_of(add) == binding_power_of("+"@),
        binding_power_of(mul).0 >= binding_power_of(add).1,
        binding_power_of(add).0 < binding_power_of(mul).1,
{
    reveal_strlit("<<");
    reveal_strlit(">>");
    reveal_strlit("&<<");
    reveal_strlit("&>>");
    reveal_strlit("*");
    reveal_strlit("/");
    reveal_strlit("%");
    reveal_strlit("&");
    reveal_strlit("&*");
    reveal_strlit("+");
    reveal_strlit("-");
    assert("*"@[0] != "/"@[0] && "*"@[0] != "%"@[0] && "/"@[0] != "%"@[0]);
    assert("+"@[0] != "-"@[0] && "+"@[0] != "*"@[0] && "+"@[0] != "/"@[0] && "+"@[0] != "%"@[0]);
    assert("-"@[0] != "*"@[0] && "-"@[0] != "/"@[0] && "-"@[0] != "%"@[0] && "+"@[0] != "&"@[0]);
    assert("-"@[0] != "&"@[0] && "*"@[0] != "&"@[0] && "/"@[0] != "&"@[0] && "%"@[0] != "&"@[0]);
    assert(operator_precedence("*"@) == 15);
    assert(operator_precedence("/"@) == 15);
    assert(operator_precedence("%"@) == 15);
    assert(operator_precedence("+"@) == 14);
    assert(operator_precedence("-"@) == 14);
}

/// Where a parenthesised run scanned from index `k`, with `depth` groups
/// already open, ends: just past the `)` that closes the outermost group
/// (a `)` with none open closes at once), or at the first `Eof`. The depth
/// saturates at `u64::MAX`.
pub open spec fn paren_end(toks: Seq<Token>, k: int, depth: int) -> int
    decreases toks.len() - k,
{
    if k < 0 || k >= toks.len() || toks[k].kind == TokenKind::Eof {
        k
    } else if toks[k].kind == TokenKind::LParen {
        paren_end(toks, k + 1, if depth < u64::MAX {
            depth + 1
        } else {
            depth
        })
    } else if toks[k].kind == TokenKind::RParen {
        let d = if depth > 0 {
            depth - 1
        } else {
            0
        };
        if d == 0 {
            k + 1
        } else {
            paren_end(toks, k + 1, d)
        }
    } else {
        paren_end(toks, k + 1, depth)
    }
}

/// A scan from `k` stops at or before the first `Eof` and passes no `Eof`.
proof fn lemma_paren_end(toks: Seq<Token>, k: int, depth: int)
    requires
        0 <= k < toks.len(),
        toks.last().kind == TokenKind::Eof,
    ensures
        k <= paren_end(toks, k, depth) < toks.len(),
        forall|j: int| k <= j < paren_end(toks, k, depth) ==> #[trigger] toks[j].kind != TokenKind::Eof,
    decreases toks.len() - k,
{
    if toks[k].kind == TokenKind::Eof {
    } else {
        assert(k + 1 < toks.len());
        if toks[k].kind == TokenKind::LParen {
            lemma_paren_end(toks, k + 1, if depth < u64::MAX {
                depth + 1
            } else {
                depth
            });
        } else if toks[k].kind == TokenKind::RParen {
            let d = if depth > 0 {
                depth - 1
            } else {
                0
            };
            if d != 0 {
                lemma_paren_end(toks, k + 1, d);
            }
        } else {
            lemma_paren_end(toks, k + 1, depth);
        }
    }
}

/// Where skipping an inactive conditional-compilation branch from index
/// `k`, inside `depth` nested `#if` groups, stops: at the first `#elseif`,
/// `#else` or `#endif` outside any nested group, or at the first `Eof`.
pub open spec fn directive_skip_end(toks: Seq<Token>, k: int, depth: int) -> int
    decreases toks.len() - k,
{
    if k < 0 || k >= toks.len() || toks[k].kind == TokenKind::Eof {
        k
    } else {
        let t = toks[k];
        let dir = t.kind == TokenKind::Directive;
        if dir && t.text@ == "#if"@ {
            directive_skip_end(toks, k + 1, if depth < u64::MAX {
                depth + 1
            } else {
                depth
            })
        } else if dir && depth == 0 && (t.text@ == "#elseif"@ || t.text@ == "#else"@ || t.text@ == "#endif"@) {
            k
        } else if dir && t.text@ == "#endif"@ {
            directive_skip_end(toks, k + 1, depth - 1)
        } else {
            directive_skip_end(toks, k + 1, depth)
        }
    }
}

/// Whether token `t` is the effect marker `async` (a keyword or a plain
/// identifier).
pub open spec fn async_token(t: Token) -> bool {
    (t.kind == TokenKind::Keyword || t.kind == TokenKind::Identifier) && t.text@ == "async"@
}

/// Whether token `t` is the keyword `throws` or `rethrows`.
pub open spec fn throws_token(t: Token) -> bool {
    t.kind == TokenKind::Keyword && (t.text@ == "throws"@ || t.text@ == "rethrows"@)
}

/// The effects written from index `s` on: their modifier bits (`async`,
/// then `throws` or `rethrows`), and the index just past them (past a typed
/// `throws(E)`'s parentheses too).
pub open spec fn effects_at(toks: Seq<Token>, s: int) -> (u32, int) {
    let is_async = async_token(toks[s]);
    let a = if is_async {
        s + 1
    } else {
        s
    };
    let first: u32 = if is_async {
        decode::ASYNC
    } else {
        0
    };
    if throws_token(toks[a]) {
        let e: u32 = if toks[a].text@ == "throws"@ {
            decode::THROWS
        } else {
            decode::RETHROWS
        };
        (first | e, if toks[a + 1].kind == TokenKind::LParen {
            paren_end(toks, a + 1, 0)
        } else {
            a + 1
        })
    } else {
        (first, a)
    }
}

/// Whether token `t`, right after a type name, ends the type: it is no
/// operator (`<`, `!`, `&`, `->`), `.`, `?` or effect marker.
pub open spec fn ends_type_name(t: Token) -> bool {
    &&& t.kind != TokenKind::Oper
    &&& t.kind != TokenKind::Question
    &&& t.kind != TokenKind::Dot
    &&& !async_token(t)
    &&& !throws_token(t)
}

/// Whether token `t` can open a type: an attribute, `~`, `any`, `some`,
/// `inout`, `[`, `(` or a name.
pub open spec fn opens_type(t: Token) -> bool {
    ||| t.kind == TokenKind::Attribute
    ||| t.kind == TokenKind::Oper && t.text@ == "~"@
    ||| t.kind == TokenKind::Keyword && (t.text@ == "any"@ || t.text@ == "some"@ || t.text@ == "inout"@)
    ||| t.kind == TokenKind::LBracket
    ||| t.kind == TokenKind::LParen
    ||| t.kind == TokenKind::Identifier
}

/// The nesting depth after reading `cs` from depth `d`: each `<` opens a
/// level and each `>` closes one, saturating at the bounds of an `i64`.
pub open spec fn angle_depth(cs: Seq<char>, d: int) -> int
    decreases cs.len(),
{
    if cs.len() == 0 {
        d
    } else {
        let d1 = if cs[0] == '<' {
            if d < i64::MAX {
                d + 1
            } else {
                d
            }
        } else if cs[0] == '>' {
            if d > i64::MIN {
                d - 1
            } else {
                d
            }
        } else {
            d
        };
        angle_depth(cs.drop_first(), d1)
    }
}

/// A balanced `< ... >` group read from index `k` at depth `depth`: the
/// texts of the tokens it takes, run together, and the index just past
/// them. An operator token that brings the depth to zero or below ends the
/// group; the first `Eof` ends it too, untaken.
pub open spec fn angle_group(toks: Seq<Token>, k: int, depth: int) -> (Seq<char>, int)
    decreases toks.len() - k,
{
    if k < 0 || k >= toks.len() || toks[k].kind == TokenKind::Eof {
        (Seq::empty(), k)
    } else {
        let t = toks[k];
        let d = if t.kind == TokenKind::Oper {
            angle_depth(t.text@, depth)
        } else {
            depth
        };
        if t.kind == TokenKind::Oper && d <= 0 {
            (t.text@, k + 1)
        } else {
            let rest = angle_group(toks, k + 1, d);
            (t.text@ + rest.0, rest.1)
        }
    }
}

/// The token at index `i` of `toks`, or the last one (the `Eof`) past
/// the end.
pub open spec fn tok_at(toks: Seq<Token>, i: int) -> Token {
    if 0 <= i < toks.len() {
        toks[i]
    } else {
        toks.last()
    }
}

/// The index of the first token from `k` on that is no attribute.
pub open spec fn skip_attributes(toks: Seq<Token>, k: int) -> int
    decreases toks.len() - k,
{
    if 0 <= k < toks.len() && toks[k].kind == TokenKind::Attribute {
        skip_attributes(toks, k + 1)
    } else {
        k
    }
}

/// Whether token `t` is a type's `?` or `!` suffix.
pub open spec fn type_suffix_token(t: Token) -> bool {
    t.kind == TokenKind::Question || (t.kind == TokenKind::Oper && t.text@ == "!"@)
}

/// `acc` followed by the `?` and `!` suffixes from index `e` on, and the
/// index just past them.
pub open spec fn type_suffixes(toks: Seq<Token>, e: int, acc: Seq<char>) -> (Seq<char>, int)
    decreases toks.len() - e,
{
    if 0 <= e < toks.len() && type_suffix_token(toks[e]) {
        type_suffixes(toks, e + 1, acc + toks[e].text@)
    } else {
        (acc, e)
    }
}

/// `acc` followed by the `.Name` parts (each with its generic arguments)
/// from index `e` on, and the index just past them.
pub open spec fn dotted_name(toks: Seq<Token>, e: int, acc: Seq<char>) -> (Seq<char>, int)
    decreases toks.len() - e,
{
    if 0 <= e < toks.len() && toks[e].kind == TokenKind::Dot && tok_at(toks, e + 1).kind
        == TokenKind::Identifier {
        let acc2 = acc + "."@ + tok_at(toks, e + 1).text@;
        let a = tok_at(toks, e + 2);
        if a.kind == TokenKind::Oper && a.text@ == "<"@ {
            let g = angle_group(toks, e + 2, 0);
            if e < g.1 <= toks.len() {
                dotted_name(toks, g.1, acc2 + g.0)
            } else {
                (acc2 + g.0, g.1)
            }
        } else if e + 2 <= toks.len() {
            dotted_name(toks, e + 2, acc2)
        } else {
            (acc2, e + 2)
        }
    } else {
        (acc, e)
    }
}

/// A named type at index `j`: the name with its generic arguments and
/// dotted parts, and the index just past it.
pub open spec fn type_name_at(toks: Seq<Token>, j: int) -> (Seq<char>, int) {
    let a = tok_at(toks, j + 1);
    if a.kind == TokenKind::Oper && a.text@ == "<"@ {
        let g = angle_group(toks, j + 1, 0);
        dotted_name(toks, g.1, tok_at(toks, j).text@ + g.0)
    } else {
        dotted_name(toks, j + 1, tok_at(toks, j).text@)
    }
}

/// The type that the tokens spell from index `k`, with nesting budget
/// `fuel`: its text, rebuilt from its tokens, and the index just past it;
/// `None` where no type can be read there.
pub open spec fn type_scan(toks: Seq<Token>, k: int, fuel: nat) -> Option<(Seq<char>, int)>
    decreases fuel, 4int, 0int,
{
    if fuel == 0 {
        None
    } else {
        let f = (fuel - 1) as nat;
        let j = skip_attributes(toks, k);
        let t = tok_at(toks, j);
        if t.kind == TokenKind::Oper && t.text@ == "~"@ {
            match type_scan(toks, j + 1, f) {
                Some((r, e)) => Some(("~"@ + r, e)),
                None => None,
            }
        } else if t.kind == TokenKind::Keyword && (t.text@ == "any"@ || t.text@ == "some"@ || t.text@
            == "inout"@) && tok_at(toks, j + 1).kind != TokenKind::Eof {
            match type_scan(toks, j + 1, f) {
                Some((r, e)) => Some((t.text@ + " "@ + r, e)),
                None => None,
            }
        } else {
            match type_base(toks, j, fuel) {
                None => None,
                Some((b, e1)) => {
                    let sx = type_suffixes(toks, e1, b);
                    match compositions(toks, sx.1, sx.0, fuel) {
                        None => None,
                        Some((c, e3)) => {
                            let e4 = effects_at(toks, e3).1;
                            let a = tok_at(toks, e4);
                            if a.kind == TokenKind::Oper && a.text@ == "->"@ {
                                match type_scan(toks, e4 + 1, f) {
                                    Some((r, e5)) => Some((c + " -> "@ + r, e5)),
                                    None => None,
                                }
                            } else {
                                Some((c, e4))
                            }
                        },
                    }
                },
            }
        }
    }
}

/// The head of a type at index `j` (after its attributes): an array or
/// dictionary, a tuple or a named type, with its text and end.
pub open spec fn type_base(toks: Seq<Token>, j: int, fuel: nat) -> Option<(Seq<char>, int)>
    decreases fuel, 3int, 0int,
{
    if fuel == 0 {
        None
    } else {
        let f = (fuel - 1) as nat;
        let t = tok_at(toks, j);
        if t.kind == TokenKind::LBracket {
            match type_scan(toks, j + 1, f) {
                None => None,
                Some((key, e)) => if tok_at(toks, e).kind == TokenKind::Colon {
                    match type_scan(toks, e + 1, f) {
                        None => None,
                        Some((v, e2)) => if tok_at(toks, e2).kind == TokenKind::RBracket {
                            Some(("["@ + key + ": "@ + v + "]"@, e2 + 1))
                        } else {
                            None
                        },
                    }
                } else if tok_at(toks, e).kind == TokenKind::RBracket {
                    Some(("["@ + key + "]"@, e + 1))
                } else {
                    None
                },
            }
        } else if t.kind == TokenKind::LParen {
            tuple_type(toks, j, fuel)
        } else if t.kind == TokenKind::Identifier {
            Some(type_name_at(toks, j))
        } else {
            None
        }
    }
}

/// A tuple type (or `()`) whose `(` is at index `j`, with its text and end.
pub open spec fn tuple_type(toks: Seq<Token>, j: int, fuel: nat) -> Option<(Seq<char>, int)>
    decreases fuel, 2int, 0int,
{
    if tok_at(toks, j + 1).kind == TokenKind::RParen {
        Some(("("@ + ")"@, j + 2))
    } else {
        match tuple_items(toks, j + 1, "("@, true, fuel) {
            None => None,
            Some((items, e)) => if tok_at(toks, e).kind == TokenKind::RParen {
                Some((items + ")"@, e + 1))
            } else {
                None
            },
        }
    }
}

/// `acc` followed by the comma-separated, optionally labeled tuple element
/// types from index `k` on (`", "` before each but the first), and the
/// index of the token after the last one.
pub open spec fn tuple_items(toks: Seq<Token>, k: int, acc: Seq<char>, first: bool, fuel: nat) -> Option<
    (Seq<char>, int),
>
    decreases fuel, 1int, toks.len() - k,
{
    if fuel == 0 {
        None
    } else {
        let f = (fuel - 1) as nat;
        let acc1 = if first {
            acc
        } else {
            acc + ", "@
        };
        let t = tok_at(toks, k);
        let labeled = t.kind == TokenKind::Identifier && tok_at(toks, k + 1).kind == TokenKind::Colon;
        let acc2 = if labeled {
            acc1 + t.text@ + ": "@
        } else {
            acc1
        };
        let s = if labeled {
            k + 2
        } else {
            k
        };
        match type_scan(toks, s, f) {
            None => None,
            Some((ty, e)) => if tok_at(toks, e).kind == TokenKind::Comma {
                if k < e + 1 <= toks.len() {
                    tuple_items(toks, e + 1, acc2 + ty, false, fuel)
                } else {
                    None
                }
            } else {
                Some((acc2 + ty, e))
            },
        }
    }
}

/// `acc` followed by the `& Type` compositions from index `e` on, and the
/// index just past them; `None` where one of the types cannot be read.
pub open spec fn compositions(toks: Seq<Token>, e: int, acc: Seq<char>, fuel: nat) -> Option<(Seq<char>, int)>
    decreases fuel, 1int, toks.len() - e,
{
    if fuel == 0 {
        None
    } else {
        let a = tok_at(toks, e);
        if a.kind == TokenKind::Oper && a.text@ == "&"@ {
            match type_scan(toks, e + 1, (fuel - 1) as nat) {
                None => None,
                Some((r, e2)) => if e < e2 <= toks.len() {
                    compositions(toks, e2, acc + " & "@ + r, fuel)
                } else {
                    None
                },
            }
        } else {
            Some((acc, e))
        }
    }
}

/// The texts of tokens `lo` up to `hi`, run together.
pub open spec fn texts_from(toks: Seq<Token>, lo: int, hi: int) -> Seq<char>
    decreases hi - lo,
{
    if lo >= hi {
        Seq::empty()
    } else {
        texts_from(toks, lo, hi - 1) + toks[hi - 1].text@
    }
}

/// A blank between tokens: space, tab, newline or carriage return.
pub open spec fn blank_char(c: char) -> bool {
    c == ' ' || c == '\t' || c == '\n' || c == '\r'
}

/// `cs` without its leading blanks (`blank`) or leading `<`s (otherwise).
pub open spec fn drop_front(cs: Seq<char>, blank: bool) -> Seq<char>
    decreases cs.len(),
{
    if cs.len() > 0 && (if blank {
        blank_char(cs[0])
    } else {
        cs[0] == '<'
    }) {
        drop_front(cs.drop_first(), blank)
    } else {
        cs
    }
}

/// `cs` without its trailing blanks (`blank`) or trailing `>`s (otherwise).
pub open spec fn drop_back(cs: Seq<char>, blank: bool) -> Seq<char>
    decreases cs.len(),
{
    if cs.len() > 0 && (if blank {
        blank_char(cs.last())
    } else {
        cs.last() == '>'
    }) {
        drop_back(cs.drop_last(), blank)
    } else {
        cs
    }
}

/// The written type of a generic argument clause's text `cs`: trimmed of
/// blanks, of leading `<` and trailing `>`, and of blanks again.
pub open spec fn type_argument(cs: Seq<char>) -> Seq<char> {
    let a = drop_back(drop_front(cs, true), true);
    let b = drop_back(drop_front(a, false), false);
    drop_back(drop_front(b, true), true)
}

/// Whether `c` is stripped: a blank when `blank`, else the bracket `b`.
fn strippable(c: char, blank: bool, b: char) -> (r: bool)
    ensures
        r == (if blank {
            blank_char(c)
        } else {
            c == b
        }),
{
    if blank {
        is_blank(c)
    } else {
        c == b
    }
}

/// Strip from the front of `cs[lo..hi]` (see [`drop_front`]), returning
/// where what is left begins.
fn front_strip(cs: &Vec<char>, lo: usize, hi: usize, blank: bool) -> (r: usize)
    requires
        lo <= hi <= cs@.len(),
    ensures
        lo <= r <= hi,
        cs@.subrange(r as int, hi as int) == drop_front(cs@.subrange(lo as int, hi as int), blank),
{
    let mut k = lo;
    while k < hi && strippable(cs[k], blank, '<')
        invariant
            lo <= k <= hi <= cs@.len(),
            drop_front(cs@.subrange(lo as int, hi as int), blank) == drop_front(cs@.subrange(k as int, hi as int), blank),
        decreases hi - k,
    {
        assert(cs@.subrange(k as int, hi as int).drop_first() =~= cs@.subrange(k + 1, hi as int));
        assert(cs@.subrange(k as int, hi as int)[0] == cs@[k as int]);
        k += 1;
    }
    if k < hi {
        assert(cs@.subrange(k as int, hi as int)[0] == cs@[k as int]);
    }
    k
}

/// Strip from the back of `cs[lo..hi]` (see [`drop_back`]), returning
/// where what is left ends.
fn back_strip(cs: &Vec<char>, lo: usize, hi: usize, blank: bool) -> (r: usize)
    requires
        lo <= hi <= cs@.len(),
    ensures
        lo <= r <= hi,
        cs@.subrange(lo as int, r as int) == drop_back(cs@.subrange(lo as int, hi as int), blank),
{
    let mut k = hi;
    while k > lo && strippable(cs[k - 1], blank, '>')
        invariant
            lo <= k <= hi <= cs@.len(),
            drop_back(cs@.subrange(lo as int, hi as int), blank) == drop_back(cs@.subrange(lo as int, k as int), blank),
        decreases k - lo,
    {
        assert(cs@.subrange(lo as int, k as int).drop_last() =~= cs@.subrange(lo as int, k - 1));
        assert(cs@.subrange(lo as int, k as int).last() == cs@[k - 1]);
        k -= 1;
    }
    if k > lo {
        assert(cs@.subrange(lo as int, k as int).last() == cs@[k - 1]);
    }
    k
}

/// The depth after an operator text `cs` inside a generic argument
/// clause at depth `d`: each `<` opens a level (saturating), each `>`
/// closes one; any other character, or closing below zero, rules the
/// clause out.
pub open spec fn oper_depth(cs: Seq<char>, d: int) -> Option<int>
    decreases cs.len(),
{
    if cs.len() == 0 {
        Some(d)
    } else if cs[0] == '<' {
        oper_depth(cs.drop_first(), if d < i64::MAX {
            d + 1
        } else {
            d
        })
    } else if cs[0] == '>' {
        if d - 1 < 0 {
            None
        } else {
            oper_depth(cs.drop_first(), d - 1)
        }
    } else {
        None
    }
}

/// Where a generic argument clause read from index `i` at depth `depth`
/// ends (just past the operator token that closes it), if the tokens up to
/// there can form one: names, `?`, `&`, `,`, `.`, `[`, `]`, `:`, the
/// keywords `some`, `any`, `inout`, `protocol`, `class`, and operators made
/// of angle brackets.
pub open spec fn generic_clause_end(toks: Seq<Token>, i: int, depth: int) -> Option<int>
    decreases toks.len() - i,
{
    if i < 0 || i >= toks.len() || toks[i].kind == TokenKind::Eof {
        None
    } else {
        let t = toks[i];
        if t.kind == TokenKind::Oper && (t.text@ == "?"@ || t.text@ == "&"@) {
            generic_clause_end(toks, i + 1, depth)
        } else if t.kind == TokenKind::Oper {
            match oper_depth(t.text@, depth) {
                None => None,
                Some(d) => if d == 0 {
                    Some(i + 1)
                } else {
                    generic_clause_end(toks, i + 1, d)
                },
            }
        } else if t.kind == TokenKind::Identifier || t.kind == TokenKind::Question || t.kind == TokenKind::Comma
            || t.kind == TokenKind::Dot || t.kind == TokenKind::LBracket || t.kind == TokenKind::RBracket || t.kind
            == TokenKind::Colon {
            generic_clause_end(toks, i + 1, depth)
        } else if t.kind == TokenKind::Keyword && (t.text@ == "some"@ || t.text@ == "any"@ || t.text@ == "inout"@
            || t.text@ == "protocol"@ || t.text@ == "class"@) {
            generic_clause_end(toks, i + 1, depth)
        } else {
            None
        }
    }
}

/// Where the generic argument clause of a call or member access that
/// starts at index `p` ends: the clause must start with `<`, close, and be
/// followed on the same line by `(` or by a `{` that does not open an
/// accessor, or by `.`.
pub open spec fn generic_args_end(toks: Seq<Token>, p: int) -> Option<int> {
    let first = toks[p];
    if first.kind != TokenKind::Oper || first.text@.len() == 0 || first.text@[0] != '<' {
        None
    } else {
        match generic_clause_end(toks, p, 0) {
            None => None,
            Some(e) => {
                let next = toks[e];
                if next.kind == TokenKind::LParen && !next.leading_newline {
                    Some(e)
                } else if next.kind == TokenKind::LBrace && !next.leading_newline {
                    let after = if e + 1 < toks.len() {
                        toks[e + 1]
                    } else {
                        next
                    };
                    if !accessor_kw(after.text@) {
                        Some(e)
                    } else {
                        None
                    }
                } else if next.kind == TokenKind::Dot {
                    Some(e)
                } else {
                    None
                }
            },
        }
    }
}

/// The index of the first token from `k` on that ends the line.
pub open spec fn line_end(toks: Seq<Token>, k: int) -> int
    decreases toks.len() - k,
{
    if k < 0 || k >= toks.len() || line_stop(toks[k]) {
        k
    } else {
        line_end(toks, k + 1)
    }
}

/// A line ends at the first token that ends it.
proof fn lemma_line_end(toks: Seq<Token>, k: int, f: int)
    requires
        0 <= k <= f < toks.len(),
        line_stop(toks[f]),
        forall|j: int| k <= j < f ==> !line_stop(#[trigger] toks[j]),
    ensures
        line_end(toks, k) == f,
    decreases f - k,
{
    if k < f {
        lemma_line_end(toks, k + 1, f);
    }
}

/// Whether `w` names a platform condition, which always holds here.
pub open spec fn platform_check(w: Seq<char>) -> bool {
    w == "os"@ || w == "canImport"@ || w == "arch"@ || w == "swift"@ || w == "compiler"@ || w
        == "targetEnvironment"@
}

/// The value of a conditional-compilation condition read from index `k`
/// to the end of its line, and the index where reading stops. `value` is
/// the value so far, `negate` a pending `!`, `and_false` whether a `&&`
/// followed a false operand, `any` whether the current operand was read.
/// A flag holds when it is a platform check, `DEBUG` or `true`; an operand
/// after the first of an `&&`/`||` run only counts through `&&`; a true
/// value before `||` makes the whole condition hold, and the rest of the
/// line is skipped.
pub open spec fn condition_value(toks: Seq<Token>, k: int, value: bool, negate: bool, and_false: bool, any: bool) -> (
    bool,
    int,
)
    decreases toks.len() - k,
{
    if k < 0 || k >= toks.len() || toks[k].leading_newline || toks[k].kind == TokenKind::Eof {
        (value && !and_false, k)
    } else {
        let t = toks[k];
        if t.kind == TokenKind::Identifier {
            let held = platform_check(t.text@) || t.text@ == "DEBUG"@ || t.text@ == "true"@;
            let flag = if negate {
                !held
            } else {
                held
            };
            let j = if k + 1 < toks.len() && toks[k + 1].kind == TokenKind::LParen {
                paren_end(toks, k + 1, 0)
            } else {
                k + 1
            };
            if j <= k || j > toks.len() {
                (value && !and_false, k)
            } else {
                condition_value(toks, j, if !and_false && !any {
                    flag
                } else {
                    value
                }, false, and_false, true)
            }
        } else if t.kind == TokenKind::Keyword && t.text@ == "true"@ {
            condition_value(toks, k + 1, if !any {
                !negate
            } else {
                value
            }, false, and_false, true)
        } else if t.kind == TokenKind::Keyword && t.text@ == "false"@ {
            condition_value(toks, k + 1, if !any {
                negate
            } else {
                value
            }, false, and_false, true)
        } else if t.kind == TokenKind::Oper && t.text@ == "!"@ {
            condition_value(toks, k + 1, value, !negate, and_false, any)
        } else if t.kind == TokenKind::Oper && t.text@ == "&&"@ {
            condition_value(toks, k + 1, value, negate, and_false || !value, false)
        } else if t.kind == TokenKind::Oper && t.text@ == "||"@ {
            if value {
                (true, line_end(toks, k + 1))
            } else {
                condition_value(toks, k + 1, value, negate, and_false, false)
            }
        } else {
            condition_value(toks, k + 1, value, negate, and_false, any)
        }
    }
}

/// `s` without its first character, when it has one.
pub open spec fn sigil_dropped(s: Seq<char>) -> Seq<char> {
    if s.len() > 0 {
        s.drop_first()
    } else {
        s
    }
}

/// Whether token `i` counts as a declaration modifier in a run where
/// `objc` says whether `@objc` came before: `class` only when no name
/// follows it, `optional` only after `@objc` and before `func`, `var` or
/// `subscript`, any other modifier word always.
pub open spec fn meta_modifier(toks: Seq<Token>, i: int, objc: bool) -> bool {
    let t = toks[i];
    let next = toks[i + 1];
    if t.text@ == "class"@ {
        next.kind != TokenKind::Identifier
    } else if t.text@ == "optional"@ {
        objc && (next.text@ == "func"@ || next.text@ == "var"@ || next.text@ == "subscript"@)
    } else {
        modifier_word(t.text@)
    }
}

/// The index after the modifier or attribute at `i`, past its
/// parenthesised argument when one follows.
pub open spec fn meta_step(toks: Seq<Token>, i: int) -> int {
    if toks[i + 1].kind == TokenKind::LParen {
        paren_end(toks, i + 1, 0)
    } else {
        i + 1
    }
}

/// Whether a run of modifiers and attributes goes on at `i`.
pub open spec fn meta_goes_on(toks: Seq<Token>, i: int, objc: bool) -> bool {
    &&& 0 <= i
    &&& i + 1 < toks.len()
    &&& toks[i].kind != TokenKind::Eof
    &&& (toks[i].kind == TokenKind::Attribute || meta_modifier(toks, i, objc))
    &&& i < meta_step(toks, i) <= toks.len()
}

/// Where the run of modifiers and attributes from `i` ends.
pub open spec fn meta_scan(toks: Seq<Token>, i: int, objc: bool) -> int
    decreases toks.len() - i,
{
    if meta_goes_on(toks, i, objc) {
        meta_scan(
            toks,
            meta_step(toks, i),
            objc || (toks[i].kind == TokenKind::Attribute && toks[i].text@ == "@objc"@),
        )
    } else {
        i
    }
}

/// A run ends at or after where it starts.
proof fn lemma_meta_scan_ge(toks: Seq<Token>, i: int, objc: bool)
    ensures
        meta_scan(toks, i, objc) >= i,
    decreases toks.len() - i,
{
    if meta_goes_on(toks, i, objc) {
        lemma_meta_scan_ge(
            toks,
            meta_step(toks, i),
            objc || (toks[i].kind == TokenKind::Attribute && toks[i].text@ == "@objc"@),
        );
    }
}

/// The modifier bits of the run from `i` up to `e`, or'ed into `acc`.
pub open spec fn meta_bits(toks: Seq<Token>, i: int, e: int, objc: bool, acc: u32) -> u32
    decreases toks.len() - i,
{
    if i < e && meta_goes_on(toks, i, objc) {
        meta_bits(
            toks,
            meta_step(toks, i),
            e,
            objc || (toks[i].kind == TokenKind::Attribute && toks[i].text@ == "@objc"@),
            if toks[i].kind == TokenKind::Attribute {
                acc
            } else {
                acc | decode::modifier_bit(toks[i].text@)
            },
        )
    } else {
        acc
    }
}

/// The names (without `@`) of the attributes of the run from `i` up to `e`.
pub open spec fn meta_attrs(toks: Seq<Token>, i: int, e: int, objc: bool) -> Seq<Seq<char>>
    decreases toks.len() - i,
{
    if i < e && meta_goes_on(toks, i, objc) {
        let rest = meta_attrs(
            toks,
            meta_step(toks, i),
            e,
            objc || (toks[i].kind == TokenKind::Attribute && toks[i].text@ == "@objc"@),
        );
        if toks[i].kind == TokenKind::Attribute {
            seq![sigil_dropped(toks[i].text@)] + rest
        } else {
            rest
        }
    } else {
        Seq::empty()
    }
}

/// The index of the first token from `k` on that is not a `;`.
pub open spec fn after_semicolons(toks: Seq<Token>, k: int) -> int
    decreases toks.len() - k,
{
    if 0 <= k < toks.len() && toks[k].kind == TokenKind::Semicolon {
        after_semicolons(toks, k + 1)
    } else {
        k
    }
}

/// A run of `;` ends at the first token that is not one.
proof fn lemma_after_semicolons(toks: Seq<Token>, k: int, f: int)
    requires
        0 <= k <= f < toks.len(),
        toks[f].kind != TokenKind::Semicolon,
        forall|j: int| k <= j < f ==> #[trigger] toks[j].kind == TokenKind::Semicolon,
    ensures
        after_semicolons(toks, k) == f,
    decreases f - k,
{
    if k < f {
        lemma_after_semicolons(toks, k + 1, f);
    }
}

/// Whether the tokens from `k` on hold nothing but `;` before a `}` or
/// the end of the file.
pub open spec fn empty_body_at(toks: Seq<Token>, k: int) -> bool {
    let j = after_semicolons(toks, k);
    0 <= j < toks.len() && (toks[j].kind == TokenKind::RBrace || toks[j].kind == TokenKind::Eof)
}

/// The node kind of the primary expression that token `t` forms on its
/// own: a literal, `true`, `false`, `nil`, or a name (`self` and `super`
/// among them); `None` for any other token, `if` included.
pub open spec fn atom_node_kind(t: Token) -> Option<NodeKind> {
    if t.kind == TokenKind::IntLiteral {
        Some(NodeKind::IntegerLiteral)
    } else if t.kind == TokenKind::FloatLiteral {
        Some(NodeKind::FloatLiteral)
    } else if t.kind == TokenKind::StringLiteral {
        Some(NodeKind::StringLiteral)
    } else if t.kind == TokenKind::RegexLiteral {
        Some(NodeKind::RegexLiteral)
    } else if t.kind == TokenKind::Keyword && t.text@ == "if"@ {
        None
    } else if t.kind == TokenKind::Keyword && (t.text@ == "true"@ || t.text@ == "false"@) {
        Some(NodeKind::BoolLiteral)
    } else if t.kind == TokenKind::Keyword && t.text@ == "nil"@ {
        Some(NodeKind::NilLiteral)
    } else if t.kind == TokenKind::Identifier || (t.kind == TokenKind::Keyword && (t.text@ == "self"@
        || t.text@ == "super"@)) {
        Some(NodeKind::IdentExpr)
    } else {
        None
    }
}

/// Whether token `t` can open a primary expression: an atom, `if`, `{`,
/// `(`, `[`, a directive or an implicit member's `.`.
pub open spec fn opens_primary(t: Token) -> bool {
    ||| atom_node_kind(t) is Some
    ||| t.kind == TokenKind::Keyword && t.text@ == "if"@
    ||| t.kind == TokenKind::LBrace
    ||| t.kind == TokenKind::LParen
    ||| t.kind == TokenKind::LBracket
    ||| t.kind == TokenKind::Directive
    ||| t.kind == TokenKind::Dot
}

/// Whether token `t` ends a postfix chain: it is none of `.`, `?`, `(`,
/// `[`, `{` or an operator.
pub open spec fn ends_postfix(t: Token) -> bool {
    !(t.kind == TokenKind::Oper || t.kind == TokenKind::Question || t.kind == TokenKind::LBrace
        || t.kind == TokenKind::LParen || t.kind == TokenKind::LBracket || t.kind == TokenKind::Dot)
}

/// The bracket that closes an argument list opened by `open`: `)` for a
/// call's `(`, `]` for a subscript's `[`.
pub open spec fn close_of(open: TokenKind) -> TokenKind {
    if open == TokenKind::LParen {
        TokenKind::RParen
    } else if open == TokenKind::LBracket {
        TokenKind::RBracket
    } else {
        TokenKind::Eof
    }
}

/// The call or subscript arguments from index `k` on when each is a lone
/// atom, optionally labeled, the arguments separated by `,` and closed by
/// `close`: each argument's node kind and label, and the index of the
/// closing token; `None` where the tokens are not such a list.
pub open spec fn atom_args(toks: Seq<Token>, k: int, close: TokenKind) -> Option<
    (Seq<(NodeKind, Option<Seq<char>>)>, int),
>
    decreases toks.len() - k,
{
    let t0 = tok_at(toks, k);
    let labeled = (t0.kind == TokenKind::Identifier || t0.kind == TokenKind::Keyword) && tok_at(toks, k + 1).kind
        == TokenKind::Colon;
    let a = if labeled {
        k + 2
    } else {
        k
    };
    let t = tok_at(toks, a);
    let n = tok_at(toks, a + 1);
    let item = (atom_node_kind(t).unwrap(), if labeled {
        Some(t0.text@)
    } else {
        None::<Seq<char>>
    });
    if !(0 <= k && a + 1 < toks.len() && lone_atom(t)) {
        None
    } else if n.kind == TokenKind::Comma {
        match atom_args(toks, a + 2, close) {
            Some((rest, e)) => Some((seq![item] + rest, e)),
            None => None,
        }
    } else if n.kind == close {
        Some((seq![item], a + 1))
    } else {
        None
    }
}

/// The argument list `ids` (the callee, then one node per argument) was
/// built on top of the nodes `base`, giving `now`: one new childless node
/// per item of `items`, in order, of the item's kind and with its label.
pub open spec fn atom_args_built(
    base: Seq<NodeView>,
    now: Seq<NodeView>,
    ids: Seq<usize>,
    callee: usize,
    items: Seq<(NodeKind, Option<Seq<char>>)>,
) -> bool {
    &&& ids.len() == items.len() + 1
    &&& ids[0] == callee
    &&& now.len() == base.len() + items.len()
    &&& now.subrange(0, base.len() as int) == base
    &&& forall|i: int|
        1 <= i < ids.len() ==> {
            &&& #[trigger] ids[i] == base.len() + i - 1
            &&& now[ids[i] as int].kind == items[i - 1].0
            &&& now[ids[i] as int].children.len() == 0
            &&& (items[i - 1].1 matches Some(l) ==> now[ids[i] as int].arg_label == Some(l))
        }
}

/// One more argument node on an argument list.
proof fn lemma_args_step(
    base: Seq<NodeView>,
    prev: Seq<NodeView>,
    next: Seq<NodeView>,
    ids: Seq<usize>,
    callee: usize,
    items: Seq<(NodeKind, Option<Seq<char>>)>,
    item: (NodeKind, Option<Seq<char>>),
    id: usize,
)
    requires
        atom_args_built(base, prev, ids, callee, items),
        next.len() == prev.len() + 1,
        next.subrange(0, prev.len() as int) == prev,
        next[prev.len() as int].kind == item.0,
        next[prev.len() as int].children.len() == 0,
        item.1 matches Some(l) ==> next[prev.len() as int].arg_label == Some(l),
        id == prev.len(),
    ensures
        atom_args_built(base, next, ids.push(id), callee, items.push(item)),
{
    let ids2 = ids.push(id);
    let items2 = items.push(item);
    assert(next.subrange(0, base.len() as int) =~= base) by {
        assert(prev.subrange(0, base.len() as int) == base);
        assert forall|j: int| 0 <= j < base.len() implies next[j] == base[j] by {
            assert(next.subrange(0, prev.len() as int)[j] == next[j]);
            assert(prev.subrange(0, base.len() as int)[j] == prev[j]);
        }
    }
    assert forall|i: int| 1 <= i < ids2.len() implies {
        &&& #[trigger] ids2[i] == base.len() + i - 1
        &&& next[ids2[i] as int].kind == items2[i - 1].0
        &&& next[ids2[i] as int].children.len() == 0
        &&& (items2[i - 1].1 matches Some(l) ==> next[ids2[i] as int].arg_label == Some(l))
    } by {
        if i < ids.len() {
            assert(ids2[i] == ids[i]);
            assert(items2[i - 1] == items[i - 1]);
            assert(next.subrange(0, prev.len() as int)[ids[i] as int] == next[ids[i] as int]);
        }
    }
}

/// Words that, at the head of a statement or right after an expression,
/// start something other than a lone expression statement.
pub open spec fn reserved_lead(w: Seq<char>) -> bool {
    ||| w == "let"@ || w == "var"@ || w == "import"@ || w == "func"@ || w == "struct"@
    ||| w == "enum"@ || w == "class"@ || w == "protocol"@ || w == "extension"@
    ||| w == "associatedtype"@ || w == "typealias"@ || w == "deinit"@ || w == "init"@
    ||| w == "subscript"@ || w == "return"@ || w == "if"@ || w == "guard"@ || w == "while"@
    ||| w == "repeat"@ || w == "for"@ || w == "switch"@ || w == "do"@ || w == "throw"@
    ||| w == "defer"@ || w == "break"@ || w == "continue"@ || w == "fallthrough"@ || w == "case"@
    ||| w == "try"@ || w == "await"@ || w == "operator"@ || w == "precedencegroup"@
    ||| w == "actor"@ || w == "is"@ || w == "as"@ || w == "consume"@ || w == "copy"@ || w == "borrow"@
}

/// Whether token `t` is an atom that stands as a statement of its own: it
/// is neither a declaration modifier nor a reserved word.
pub open spec fn lone_atom(t: Token) -> bool {
    &&& atom_node_kind(t) is Some
    &&& !modifier_word(t.text@)
    &&& !reserved_lead(t.text@)
}

/// Whether token `t` ends an expression that a lone atom began: it goes
/// on with neither a postfix suffix, an operator, nor `is` or `as`.
pub open spec fn ends_expr(t: Token) -> bool {
    &&& ends_postfix(t)
    &&& !(t.kind == TokenKind::Keyword && (t.text@ == "is"@ || t.text@ == "as"@))
}

/// Whether token `t` ends a lone-atom statement: `;`, `}`, the end of the
/// file, or another lone atom on a new line.
pub open spec fn ends_atom_stmt(t: Token) -> bool {
    ||| t.kind == TokenKind::Semicolon
    ||| t.kind == TokenKind::RBrace
    ||| t.kind == TokenKind::Eof
    ||| t.leading_newline && lone_atom(t)
}

/// Whether the tokens from `k` on are lone-atom statements and `;` up to a
/// `}` or the end of the file.
pub open spec fn atom_stmts(toks: Seq<Token>, k: int) -> bool
    decreases toks.len() - k,
{
    if !(0 <= k < toks.len()) {
        false
    } else if toks[k].kind == TokenKind::Semicolon {
        atom_stmts(toks, k + 1)
    } else if toks[k].kind == TokenKind::RBrace || toks[k].kind == TokenKind::Eof {
        true
    } else {
        &&& lone_atom(toks[k])
        &&& k + 1 < toks.len()
        &&& ends_atom_stmt(toks[k + 1])
        &&& atom_stmts(toks, k + 1)
    }
}

/// How many statements the run of lone-atom statements from `k` holds.
pub open spec fn atom_stmt_count(toks: Seq<Token>, k: int) -> nat
    decreases toks.len() - k,
{
    if !(0 <= k < toks.len()) {
        0
    } else if toks[k].kind == TokenKind::Semicolon {
        atom_stmt_count(toks, k + 1)
    } else if toks[k].kind == TokenKind::RBrace || toks[k].kind == TokenKind::Eof {
        0
    } else {
        1 + atom_stmt_count(toks, k + 1)
    }
}

/// Where the run of lone-atom statements from `k` ends: at its `}` or the
/// end of the file.
pub open spec fn atom_stmts_end(toks: Seq<Token>, k: int) -> int
    decreases toks.len() - k,
{
    if !(0 <= k < toks.len()) {
        k
    } else if toks[k].kind == TokenKind::RBrace || toks[k].kind == TokenKind::Eof {
        k
    } else {
        atom_stmts_end(toks, k + 1)
    }
}

/// What [`atom_node_kind`] gives for a token of kind `k` spelled `w`.
pub open spec fn atom_kind_of(k: TokenKind, w: Seq<char>) -> Option<NodeKind> {
    if k == TokenKind::IntLiteral {
        Some(NodeKind::IntegerLiteral)
    } else if k == TokenKind::FloatLiteral {
        Some(NodeKind::FloatLiteral)
    } else if k == TokenKind::StringLiteral {
        Some(NodeKind::StringLiteral)
    } else if k == TokenKind::RegexLiteral {
        Some(NodeKind::RegexLiteral)
    } else if k == TokenKind::Keyword && w == "if"@ {
        None
    } else if k == TokenKind::Keyword && (w == "true"@ || w == "false"@) {
        Some(NodeKind::BoolLiteral)
    } else if k == TokenKind::Keyword && w == "nil"@ {
        Some(NodeKind::NilLiteral)
    } else if k == TokenKind::Identifier || (k == TokenKind::Keyword && (w == "self"@ || w == "super"@)) {
        Some(NodeKind::IdentExpr)
    } else {
        None
    }
}

/// Whether the lexed token `t` is a lone atom (see [`lone_atom`]).
pub open spec fn lone_atom_token(t: SpecToken) -> bool {
    &&& atom_kind_of(t.kind, t.text) is Some
    &&& !modifier_word(t.text)
    &&& !reserved_lead(t.text)
}

/// Whether the lexed tokens from `k` on are lone-atom statements and `;`
/// up to the end of the file.
pub open spec fn atom_program_from(toks: Seq<SpecToken>, k: int) -> bool
    decreases toks.len() - k,
{
    if !(0 <= k < toks.len()) {
        false
    } else if toks[k].kind == TokenKind::Semicolon {
        atom_program_from(toks, k + 1)
    } else if toks[k].kind == TokenKind::Eof {
        true
    } else {
        let n = toks[k + 1];
        &&& lone_atom_token(toks[k])
        &&& k + 1 < toks.len()
        &&& (n.kind == TokenKind::Semicolon || n.kind == TokenKind::Eof || (n.leading_newline
            && lone_atom_token(n)))
        &&& atom_program_from(toks, k + 1)
    }
}

/// How many lone atoms the lexed tokens from `k` on hold before the first
/// `}` or the end of the file.
pub open spec fn atom_program_count(toks: Seq<SpecToken>, k: int) -> nat
    decreases toks.len() - k,
{
    if !(0 <= k < toks.len()) {
        0
    } else if toks[k].kind == TokenKind::Semicolon {
        atom_program_count(toks, k + 1)
    } else if toks[k].kind == TokenKind::RBrace || toks[k].kind == TokenKind::Eof {
        0
    } else {
        1 + atom_program_count(toks, k + 1)
    }
}

/// The lexed token at index `i` of `ts`, or the last one past the end.
pub open spec fn lexed_at(ts: Seq<SpecToken>, i: int) -> SpecToken {
    if 0 <= i < ts.len() {
        ts[i]
    } else {
        ts.last()
    }
}

/// [`atom_args`] read on lexed tokens.
pub open spec fn lexed_atom_args(ts: Seq<SpecToken>, k: int, close: TokenKind) -> Option<
    (Seq<(NodeKind, Option<Seq<char>>)>, int),
>
    decreases ts.len() - k,
{
    let t0 = lexed_at(ts, k);
    let labeled = (t0.kind == TokenKind::Identifier || t0.kind == TokenKind::Keyword) && lexed_at(ts, k + 1).kind
        == TokenKind::Colon;
    let a = if labeled {
        k + 2
    } else {
        k
    };
    let t = lexed_at(ts, a);
    let n = lexed_at(ts, a + 1);
    let item = (atom_kind_of(t.kind, t.text).unwrap(), if labeled {
        Some(t0.text)
    } else {
        None::<Seq<char>>
    });
    if !(0 <= k && a + 1 < ts.len() && lone_atom_token(t)) {
        None
    } else if n.kind == TokenKind::Comma {
        match lexed_atom_args(ts, a + 2, close) {
            Some((rest, e)) => Some((seq![item] + rest, e)),
            None => None,
        }
    } else if n.kind == close {
        Some((seq![item], a + 1))
    } else {
        None
    }
}

/// [`atom_call_at`] read on lexed tokens.
pub open spec fn lexed_atom_call_at(ts: Seq<SpecToken>, k: int) -> Option<(Seq<(NodeKind, Option<Seq<char>>)>, int)> {
    if lone_atom_token(lexed_at(ts, k)) && lexed_at(ts, k + 1).kind == TokenKind::LParen && !lexed_at(
        ts,
        k + 1,
    ).leading_newline {
        lexed_atom_args(ts, k + 2, TokenKind::RParen)
    } else {
        None
    }
}

/// Whether the lexed tokens `ts` hold one statement, a call of a name over
/// lone atoms, between runs of `;` (see [`call_program`]).
pub open spec fn lexed_call_program(ts: Seq<SpecToken>) -> bool {
    let k = view_after_semicolons(ts, 0);
    let ac = lexed_atom_call_at(ts, k);
    &&& 0 <= k < ts.len()
    &&& lexed_at(ts, k).kind == TokenKind::Identifier
    &&& ac is Some
    &&& 0 <= ac.unwrap().1 + 1 < ts.len()
    &&& lexed_at(ts, view_after_semicolons(ts, ac.unwrap().1 + 1)).kind == TokenKind::Eof
}

/// The nodes `t` hold, from index 0 on, the one call statement of the
/// lexed tokens `ts` (see [`lexed_call_program`]): the callee's childless
/// node of its kind, one childless node per argument with its kind and
/// label, the `CallExpr` over them and the `ExprStmt` over the call.
pub open spec fn lexed_call_tree(t: Seq<NodeView>, ts: Seq<SpecToken>) -> bool {
    let k = view_after_semicolons(ts, 0);
    let items = lexed_atom_call_at(ts, k).unwrap().0;
    let c = 1 + items.len() as int;
    &&& t.len() >= c + 2
    &&& t[0].kind == atom_kind_of(lexed_at(ts, k).kind, lexed_at(ts, k).text).unwrap()
    &&& t[0].children.len() == 0
    &&& atom_args_built(seq![t[0]], t.subrange(0, c), t[c].children, 0, items)
    &&& t[c].kind == NodeKind::CallExpr
    &&& t[c + 1].kind == NodeKind::ExprStmt
    &&& t[c + 1].children == seq![c as usize]
}

/// Argument lists read the same on tokens and on their views.
proof fn lemma_lexed_atom_args(v: Seq<Token>, k: int, close: TokenKind)
    ensures
        lexed_atom_args(tokens_view(v), k, close) == atom_args(v, k, close),
    decreases v.len() - k,
{
    let ts = tokens_view(v);
    assert forall|i: int| #![auto] v.len() > 0 ==> lexed_at(ts, i) == tok_at(v, i)@ by {
        if v.len() > 0 {
            if 0 <= i < v.len() {
                assert(ts[i] == v[i]@);
            } else {
                assert(ts.last() == v.last()@);
            }
        }
    }
    if v.len() > 0 {
        let t0 = tok_at(v, k);
        let labeled = (t0.kind == TokenKind::Identifier || t0.kind == TokenKind::Keyword) && tok_at(v, k + 1).kind
            == TokenKind::Colon;
        let a = if labeled {
            k + 2
        } else {
            k
        };
        assert(lexed_at(ts, k) == tok_at(v, k)@);
        assert(lexed_at(ts, k + 1) == tok_at(v, k + 1)@);
        assert(lexed_at(ts, a) == tok_at(v, a)@);
        assert(lexed_at(ts, a + 1) == tok_at(v, a + 1)@);
        if 0 <= k && a + 1 < v.len() && lone_atom(tok_at(v, a)) && tok_at(v, a + 1).kind == TokenKind::Comma {
            lemma_lexed_atom_args(v, a + 2, close);
        }
    }
}

/// A one-call program reads the same on tokens and on their views.
proof fn lemma_lexed_call_program(v: Seq<Token>)
    requires
        v.len() > 0,
    ensures
        lexed_call_program(tokens_view(v)) == call_program(v),
        call_program(v) ==> (lexed_atom_call_at(tokens_view(v), after_semicolons(v, 0)) == atom_call_at(
            v,
            after_semicolons(v, 0),
        ) && lexed_at(tokens_view(v), after_semicolons(v, 0)) == tok_at(v, after_semicolons(v, 0))@),
{
    let ts = tokens_view(v);
    lemma_view_after_semicolons(v, 0);
    let k = after_semicolons(v, 0);
    assert(lexed_at(ts, k) == tok_at(v, k)@);
    assert(lexed_at(ts, k + 1) == tok_at(v, k + 1)@);
    lemma_lexed_atom_args(v, k + 2, TokenKind::RParen);
    let ac = atom_call_at(v, k);
    if ac is Some {
        let e = ac.unwrap().1;
        lemma_view_after_semicolons(v, e + 1);
        let j = after_semicolons(v, e + 1);
        assert(lexed_at(ts, j) == tok_at(v, j)@);
    }
}

/// A program of lone-atom statements reads the same on tokens and on their
/// views.
proof fn lemma_atom_program(v: Seq<Token>, k: int)
    requires
        atom_program_from(tokens_view(v), k),
    ensures
        atom_stmts(v, k),
        0 <= atom_stmts_end(v, k) < v.len(),
        v[atom_stmts_end(v, k)].kind == TokenKind::Eof,
        atom_program_count(tokens_view(v), k) == atom_stmt_count(v, k),
    decreases v.len() - k,
{
    let ts = tokens_view(v);
    assert(ts[k] == v[k]@);
    if v[k].kind != TokenKind::Eof {
        if k + 1 < v.len() {
            assert(ts[k + 1] == v[k + 1]@);
        }
        lemma_atom_program(v, k + 1);
    }
}

/// A run of `;` does not change what follows it.
proof fn lemma_atom_stmts_skip(toks: Seq<Token>, k: int, f: int)
    requires
        0 <= k <= f < toks.len(),
        forall|j: int| k <= j < f ==> #[trigger] toks[j].kind == TokenKind::Semicolon,
        atom_stmts(toks, k),
    ensures
        atom_stmts(toks, f),
        atom_stmt_count(toks, f) == atom_stmt_count(toks, k),
        atom_stmts_end(toks, f) == atom_stmts_end(toks, k),
    decreases f - k,
{
    if k < f {
        lemma_atom_stmts_skip(toks, k + 1, f);
    }
}

/// Whether token `t` may stand in a closure signature before its `in`: a
/// name, `,`, `:`, `(`, `)`, `->`, `inout`, `throws`, `rethrows` or `async`.
pub open spec fn closure_sig_token(t: Token) -> bool {
    ||| t.kind == TokenKind::Identifier || t.kind == TokenKind::Comma || t.kind == TokenKind::Colon
    ||| t.kind == TokenKind::LParen || t.kind == TokenKind::RParen
    ||| t.kind == TokenKind::Oper && t.text@ == "->"@
    ||| t.kind == TokenKind::Keyword && (t.text@ == "inout"@ || t.text@ == "throws"@ || t.text@
        == "rethrows"@ || t.text@ == "async"@)
}

/// Whether no binding pattern starts with token `t`: it is neither a name,
/// a keyword that may name a binding, nor `(`.
pub open spec fn bad_pattern_start(t: Token) -> bool {
    !(t.kind == TokenKind::Identifier || (t.kind == TokenKind::Keyword && contextual_word(t.text@)) || t.kind
        == TokenKind::LParen)
}

/// The index of the first token view from `k` on that is not a `;`.
pub open spec fn view_after_semicolons(toks: Seq<SpecToken>, k: int) -> int
    decreases toks.len() - k,
{
    if 0 <= k < toks.len() && toks[k].kind == TokenKind::Semicolon {
        view_after_semicolons(toks, k + 1)
    } else {
        k
    }
}

/// Whether the tokens `toks` hold no statement: nothing but `;` before the
/// end of the file.
pub open spec fn blank_program(toks: Seq<SpecToken>) -> bool {
    let j = view_after_semicolons(toks, 0);
    0 <= j < toks.len() && toks[j].kind == TokenKind::Eof
}

/// Whether the first statement of the tokens `toks` (after any `;`) is
/// `let` or `var` followed by a token that no binding pattern starts with.
pub open spec fn bad_binding_first(toks: Seq<SpecToken>) -> bool {
    let j = view_after_semicolons(toks, 0);
    let t = toks[j + 1];
    &&& 0 <= j && j + 1 < toks.len()
    &&& toks[j].kind == TokenKind::Keyword && (toks[j].text == "let"@ || toks[j].text == "var"@)
    &&& !(t.kind == TokenKind::Identifier || (t.kind == TokenKind::Keyword && contextual_word(t.text))
        || t.kind == TokenKind::LParen)
}

/// Skipping `;` reads the same on tokens and on their views.
proof fn lemma_view_after_semicolons(v: Seq<Token>, k: int)
    ensures
        view_after_semicolons(tokens_view(v), k) == after_semicolons(v, k),
    decreases v.len() - k,
{
    if 0 <= k < v.len() && v[k].kind == TokenKind::Semicolon {
        lemma_view_after_semicolons(v, k + 1);
    }
}

/// `let` and `var` are neither declaration modifiers, `class`, nor
/// `optional`.
proof fn lemma_binding_keyword(w: Seq<char>)
    requires
        w == "let"@ || w == "var"@,
    ensures
        !modifier_word(w),
        w != "class"@,
        w != "optional"@,
{
    reveal_strlit("let");
    reveal_strlit("var");
    reveal_strlit("class");
    reveal_strlit("optional");
    reveal_strlit("static");
    reveal_strlit("mutating");
    reveal_strlit("nonmutating");
    reveal_strlit("lazy");
    reveal_strlit("final");
    reveal_strlit("override");
    reveal_strlit("required");
    reveal_strlit("convenience");
    reveal_strlit("public");
    reveal_strlit("private");
    reveal_strlit("internal");
    reveal_strlit("fileprivate");
    reveal_strlit("open");
    reveal_strlit("package");
    reveal_strlit("weak");
    reveal_strlit("unowned");
    reveal_strlit("indirect");
    reveal_strlit("dynamic");
    reveal_strlit("consuming");
    reveal_strlit("borrowing");
    reveal_strlit("prefix");
    reveal_strlit("postfix");
    reveal_strlit("infix");
    reveal_strlit("async");
    assert(w.len() == 3);
}

/// Whether token `t` ends a `where` clause: the body's `{`, the end of
/// the file, or a token on a new line.
pub open spec fn where_stop(t: Token) -> bool {
    t.kind == TokenKind::LBrace || t.kind == TokenKind::Eof || t.leading_newline
}

/// Whether token `t` ends the current line: it starts a new line or is the
/// end of the file.
pub open spec fn line_stop(t: Token) -> bool {
    t.leading_newline || t.kind == TokenKind::Eof
}

/// Whether token `t` ends an inactive branch: the end of the file, or an
/// `#elseif`, `#else` or `#endif` directive.
pub open spec fn directive_boundary(t: Token) -> bool {
    t.kind == TokenKind::Eof || (t.kind == TokenKind::Directive && (t.text@ == "#elseif"@ || t.text@
        == "#else"@ || t.text@ == "#endif"@))
}

/// The name of a token kind, as error messages spell it.
pub open spec fn kind_text(k: TokenKind) -> Seq<char> {
    match k {
        TokenKind::Identifier => "Identifier"@,
        TokenKind::Keyword => "Keyword"@,
        TokenKind::IntLiteral => "IntLiteral"@,
        TokenKind::FloatLiteral => "FloatLiteral"@,
        TokenKind::StringLiteral => "StringLiteral"@,
        TokenKind::RegexLiteral => "RegexLiteral"@,
        TokenKind::LParen => "LParen"@,
        TokenKind::RParen => "RParen"@,
        TokenKind::LBrace => "LBrace"@,
        TokenKind::RBrace => "RBrace"@,
        TokenKind::LBracket => "LBracket"@,
        TokenKind::RBracket => "RBracket"@,
        TokenKind::Comma => "Comma"@,
        TokenKind::Colon => "Colon"@,
        TokenKind::Semicolon => "Semicolon"@,
        TokenKind::Dot => "Dot"@,
        TokenKind::Question => "Question"@,
        TokenKind::Oper => "Oper"@,
        TokenKind::Attribute => "Attribute"@,
        TokenKind::Directive => "Directive"@,
        TokenKind::Eof => "Eof"@,
    }
}

/// The name of a token kind, as error messages spell it (see
/// [`kind_text`]).
fn kind_label(k: TokenKind) -> (r: &'static str)
    ensures
        r@ == kind_text(k),
{
    match k {
        TokenKind::Identifier => "Identifier",
        TokenKind::Keyword => "Keyword",
        TokenKind::IntLiteral => "IntLiteral",
        TokenKind::FloatLiteral => "FloatLiteral",
        TokenKind::StringLiteral => "StringLiteral",
        TokenKind::RegexLiteral => "RegexLiteral",
        TokenKind::LParen => "LParen",
        TokenKind::RParen => "RParen",
        TokenKind::LBrace => "LBrace",
        TokenKind::RBrace => "RBrace",
        TokenKind::LBracket => "LBracket",
        TokenKind::RBracket => "RBracket",
        TokenKind::Comma => "Comma",
        TokenKind::Colon => "Colon",
        TokenKind::Semicolon => "Semicolon",
        TokenKind::Dot => "Dot",
        TokenKind::Question => "Question",
        TokenKind::Oper => "Oper",
        TokenKind::Attribute => "Attribute",
        TokenKind::Directive => "Directive",
        TokenKind::Eof => "Eof",
    }
}

/// `a` followed by `b`.
fn joined(a: &str, b: &str) -> (r: String)
    ensures
        r@ == a@ + b@,
{
    let mut s = String::from_str(a);
    s.append(b);
    s
}

/// `"{what}, found {kind}"`.
fn found_message(what: &str, k: TokenKind) -> (r: String)
    ensures
        r@ == what@ + ", found "@ + kind_text(k),
{
    let mut s = String::from_str(what);
    s.append(", found ");
    s.append(kind_label(k));
    s
}

/// A node with no payload beyond its kind, text, position and children.
fn plain_node(kind: NodeKind, text: Option<String>, line: u32, col: u32, children: Vec<usize>) -> (n:
    SyntaxNode)
    ensures
        n.kind == kind,
        n.text == text,
        n.children@ == children@,
        n.case_where is None,
{
    SyntaxNode {
        kind,
        text,
        line,
        col,
        type_text: None,
        modifiers: 0,
        arg_label: None,
        loop_label: None,
        int_value: None,
        bool_value: None,
        case_is_default: false,
        case_where: None,
        param: ParamInfo::empty(),
        children,
    }
}

/// Declaration modifiers and attributes collected ahead of a declaration:
/// the modifier mask and the already-built attribute nodes.
struct DeclMeta {
    modifiers: u32,
    attributes: Vec<usize>,
}

/// The parser state: the token stream, the cursor, and the growing arena.
pub struct Parser<'a> {
    tokens: Vec<Token<'a>>,
    pos: usize,
    nodes: Vec<SyntaxNode>,
    /// Set while parsing a `switch` subject, where `{` opens the clauses
    /// rather than a trailing closure.
    no_trailing: bool,
    /// The precedence of each operator the file declares.
    ops: Vec<(String, (u8, bool))>,
}

/// `new` extends `old`: still well formed over the same tokens, no node
/// lost, cursor not moved back.
pub open spec fn extends(old: &Parser, new: &Parser) -> bool {
    past(new, old.count(), old.cursor(), old.token_count())
}

/// Well formed over `n0` tokens, with at least `c0` nodes and the cursor at
/// or past `p0`.
pub open spec fn past(p: &Parser, c0: nat, p0: nat, n0: nat) -> bool {
    &&& p.wf()
    &&& c0 <= p.count()
    &&& p0 <= p.cursor()
    &&& p.token_count() == n0
}

/// Parsing from `old` to `new` read the lone atom at the cursor of `old`
/// into one childless node of its kind, the result `r`, and nothing else.
pub closed spec fn lone_atom_parsed(old: &Parser, new: &Parser, r: Result<usize, ParseError>) -> bool {
    let t = old.tok_ahead(0);
    &&& r matches Ok(id)
    &&& new.arena() == old.arena().push(new.arena()[id as int])
    &&& new.arena()[id as int].kind == atom_node_kind(t).unwrap()
    &&& new.arena()[id as int].children.len() == 0
    &&& new.cursor() == old.cursor() + 1
    &&& new.tokens@ == old.tokens@
    &&& new.no_trailing == old.no_trailing
}

/// The arguments of a call whose callee is the lone atom at index `k` and
/// whose arguments are lone atoms (see [`atom_args`]), with the index of its
/// `)`; `None` where the tokens from `k` are no such call.
pub open spec fn atom_call_at(toks: Seq<Token>, k: int) -> Option<(Seq<(NodeKind, Option<Seq<char>>)>, int)> {
    if lone_atom(tok_at(toks, k)) && tok_at(toks, k + 1).kind == TokenKind::LParen && !tok_at(
        toks,
        k + 1,
    ).leading_newline {
        atom_args(toks, k + 2, TokenKind::RParen)
    } else {
        None
    }
}

/// The cursor of `p` is on a call over lone atoms (see [`atom_call_at`])
/// followed by what ends an expression.
pub closed spec fn at_atom_call(p: &Parser) -> bool {
    &&& atom_call_at(p.tokens@, p.cursor() as int) is Some
    &&& ends_expr(tok_at(p.tokens@, atom_call_at(p.tokens@, p.cursor() as int).unwrap().1 + 1))
}

/// Parsing from `old` to `new` read the call over lone atoms at the cursor
/// of `old`: the callee's childless node, one childless node per argument,
/// then the `CallExpr` over them all, the result `r`.
pub closed spec fn atom_call_parsed(old: &Parser, new: &Parser, r: Result<usize, ParseError>) -> bool {
    let toks = old.tokens@;
    let ac = atom_call_at(toks, old.cursor() as int).unwrap();
    let items = ac.0;
    let a = old.count() as int;
    let c = a + 1 + items.len();
    &&& r matches Ok(id) && id == c
    &&& new.arena().len() == c + 1
    &&& new.arena().subrange(0, a) == old.arena()
    &&& new.arena()[a].kind == atom_node_kind(tok_at(toks, old.cursor() as int)).unwrap()
    &&& new.arena()[a].children.len() == 0
    &&& atom_args_built(
        old.arena().push(new.arena()[a]),
        new.arena().subrange(0, c),
        new.arena()[c].children,
        a as usize,
        items,
    )
    &&& new.arena()[c].kind == NodeKind::CallExpr
    &&& new.cursor() == ac.1 + 1
    &&& new.tokens@ == toks
}

/// The cursor of `p` is on a statement that is a call of a name over lone
/// atoms, ended by `;`, `}`, the end of the file or a new line.
pub closed spec fn at_call_stmt(p: &Parser) -> bool {
    let toks = p.tokens@;
    let k = p.cursor() as int;
    let n = tok_at(toks, atom_call_at(toks, k).unwrap().1 + 1);
    &&& tok_at(toks, k).kind == TokenKind::Identifier
    &&& at_atom_call(p)
    &&& (n.kind == TokenKind::Semicolon || n.kind == TokenKind::RBrace || n.kind == TokenKind::Eof
        || n.leading_newline)
}

/// Parsing from `old` to `new` read the call statement at the cursor of
/// `old` (see [`at_call_stmt`]): the call's nodes as in
/// [`atom_call_parsed`], then an `ExprStmt` over the call, the single index
/// that `r` holds.
pub closed spec fn call_stmt_parsed(old: &Parser, new: &Parser, r: Result<Vec<usize>, ParseError>) -> bool {
    let toks = old.tokens@;
    let ac = atom_call_at(toks, old.cursor() as int).unwrap();
    let items = ac.0;
    let a = old.count() as int;
    let c = a + 1 + items.len();
    &&& r matches Ok(ids) && ids@ == seq![(c + 1) as usize]
    &&& new.arena().len() == c + 2
    &&& new.arena().subrange(0, a) == old.arena()
    &&& new.arena()[a].kind == atom_node_kind(tok_at(toks, old.cursor() as int)).unwrap()
    &&& new.arena()[a].children.len() == 0
    &&& atom_args_built(
        old.arena().push(new.arena()[a]),
        new.arena().subrange(0, c),
        new.arena()[c].children,
        a as usize,
        items,
    )
    &&& new.arena()[c].kind == NodeKind::CallExpr
    &&& new.arena()[c + 1].kind == NodeKind::ExprStmt
    &&& new.arena()[c + 1].children == seq![c as usize]
    &&& new.cursor() == ac.1 + 1
    &&& new.tokens@ == toks
}

/// Whether the tokens `toks` hold one statement, a call of a name over
/// lone atoms (see [`atom_call_at`]), between runs of `;`.
pub open spec fn call_program(toks: Seq<Token>) -> bool {
    let k = after_semicolons(toks, 0);
    let ac = atom_call_at(toks, k);
    &&& 0 <= k < toks.len()
    &&& tok_at(toks, k).kind == TokenKind::Identifier
    &&& ac is Some
    &&& 0 <= ac.unwrap().1 + 1 < toks.len()
    &&& tok_at(toks, after_semicolons(toks, ac.unwrap().1 + 1)).kind == TokenKind::Eof
}

/// The nodes `t` hold, from index 0 on, the statement that the call at
/// index `k` of `toks` reads as: the callee's childless node, the
/// arguments' nodes (see [`atom_args_built`]), the `CallExpr` over them and
/// the `ExprStmt` over the call.
pub open spec fn call_stmt_nodes(t: Seq<NodeView>, toks: Seq<Token>, k: int) -> bool {
    let items = atom_call_at(toks, k).unwrap().0;
    let c = 1 + items.len() as int;
    &&& t.len() >= c + 2
    &&& t[0].kind == atom_node_kind(tok_at(toks, k)).unwrap()
    &&& t[0].children.len() == 0
    &&& atom_args_built(seq![t[0]], t.subrange(0, c), t[c].children, 0, items)
    &&& t[c].kind == NodeKind::CallExpr
    &&& t[c + 1].kind == NodeKind::ExprStmt
    &&& t[c + 1].children == seq![c as usize]
}

/// Parsing from `old` to `new` read the lone atom at the cursor of `old`
/// into an expression statement: the atom's childless node, then an
/// `ExprStmt` node over it, the single index that `r` holds.
pub closed spec fn lone_stmt_parsed(old: &Parser, new: &Parser, r: Result<Vec<usize>, ParseError>) -> bool {
    let t = old.tok_ahead(0);
    let n = old.count();
    &&& r matches Ok(ids)
    &&& ids@.len() == 1 && ids@[0] == n + 1
    &&& new.arena().len() == n + 2
    &&& new.arena().subrange(0, n as int) == old.arena()
    &&& new.arena()[n as int].kind == atom_node_kind(t).unwrap()
    &&& new.arena()[n as int].children.len() == 0
    &&& new.arena()[n + 1int].kind == NodeKind::ExprStmt
    &&& new.arena()[n + 1int].children.len() == 1 && new.arena()[n + 1int].children[0] == n
    &&& new.cursor() == old.cursor() + 1
    &&& new.tokens@ == old.tokens@
}

/// The cursor of `p` is on `while`, a lone atom as its condition and a body
/// `{ ... }` of lone-atom statements.
pub closed spec fn at_simple_while(p: &Parser) -> bool {
    let toks = p.tokens@;
    let k = p.pos as int;
    &&& p.tok_ahead(0).kind == TokenKind::Keyword && p.tok_ahead(0).text@ == "while"@
    &&& lone_atom(p.tok_ahead(1))
    &&& p.tok_ahead(2).kind == TokenKind::LBrace
    &&& atom_stmts(toks, k + 3)
    &&& toks[atom_stmts_end(toks, k + 3)].kind == TokenKind::RBrace
}

/// Parsing from `old` to `new` read the `while` loop at the cursor of `old`
/// (see `at_simple_while`) into a `WhileStmt` node `r` over its condition
/// and body, with the loop label `label`.
pub closed spec fn simple_while_parsed(old: &Parser, new: &Parser, label: Option<Seq<char>>, r: Result<usize, ParseError>) -> bool {
    let end = atom_stmts_end(old.tokens@, old.pos as int + 3);
    &&& r matches Ok(id)
    &&& new.arena()[id as int].kind == NodeKind::WhileStmt
    &&& new.arena()[id as int].loop_label == label
    &&& new.arena()[id as int].children.len() == 2
    &&& new.arena()[new.arena()[id as int].children[0] as int].kind == atom_node_kind(old.tok_ahead(1)).unwrap()
    &&& new.arena()[new.arena()[id as int].children[1] as int].kind == NodeKind::Block
    &&& new.cursor() == end + 1
}

/// The cursor of `p` is on a closure `{ ... }` with neither a capture list
/// nor a signature, whose body holds only lone-atom statements.
pub closed spec fn at_atom_closure(p: &Parser) -> bool {
    let toks = p.tokens@;
    let k = p.pos as int + 1;
    &&& p.cur_kind() == TokenKind::LBrace
    &&& !closure_sig_token(p.tok_ahead(1))
    &&& !(p.tok_ahead(1).kind == TokenKind::Keyword && p.tok_ahead(1).text@ == "in"@)
    &&& p.tok_ahead(1).kind != TokenKind::LBracket
    &&& atom_stmts(toks, k)
    &&& toks[atom_stmts_end(toks, k)].kind == TokenKind::RBrace
}

/// The cursor of `p` is on a trailing closure over the node `start`, which
/// is no call: a `{` on the same line, outside a condition, not opening an
/// accessor, holding only lone-atom statements, with nothing after its `}`
/// that would go on with the expression.
pub closed spec fn trailing_atom_closure(p: &Parser, start: usize) -> bool {
    let e = atom_stmts_end(p.tokens@, p.cursor() as int + 1);
    &&& p.tok_ahead(0).kind == TokenKind::LBrace
    &&& !p.tok_ahead(0).leading_newline
    &&& !p.in_condition()
    &&& !accessor_kw(p.tok_ahead(1).text@)
    &&& at_atom_closure(p)
    &&& p.arena()[start as int].kind != NodeKind::CallExpr
    &&& ends_postfix(p.tokens@[e + 1])
}

/// The cursor of `p` is on a declaration keyword, a name and an empty
/// body `{ }` (holding `;` at most), with no generic or inheritance clause.
pub closed spec fn at_empty_decl(p: &Parser) -> bool {
    let toks = p.tokens@;
    let k = p.pos as int + 3;
    &&& p.cur_kind() != TokenKind::Eof
    &&& p.tok_ahead(1).kind == TokenKind::Identifier
    &&& p.tok_ahead(2).kind == TokenKind::LBrace
    &&& empty_body_at(toks, k)
    &&& toks[after_semicolons(toks, k)].kind == TokenKind::RBrace
}

/// `id` is the node `p` created last.
pub open spec fn is_last(p: &Parser, id: usize) -> bool {
    p.count() > 0 && id == p.count() - 1
}

impl<'a> Parser<'a> {
    /// The token stream ends with its only reachable `Eof`, the cursor is on a
    /// token, and every stored node refers only to earlier nodes.
    pub closed spec fn wf(&self) -> bool {
        &&& self.tokens@.len() > 0
        &&& self.tokens@.last().kind == TokenKind::Eof
        &&& self.pos < self.tokens@.len()
        &&& tree_wf(nodes_view(self.nodes@))
    }

    /// The kind of the token at the cursor.
    pub closed spec fn cur_kind(&self) -> TokenKind {
        self.tokens@[self.pos as int].kind
    }

    /// How many nodes have been built.
    pub closed spec fn count(&self) -> nat {
        self.nodes@.len()
    }

    /// The cursor position.
    pub closed spec fn cursor(&self) -> nat {
        self.pos as nat
    }

    /// How many tokens the stream holds.
    pub closed spec fn token_count(&self) -> nat {
        self.tokens@.len()
    }

    /// The nodes built so far.
    pub closed spec fn arena(&self) -> Seq<NodeView> {
        nodes_view(self.nodes@)
    }

    /// The cursor is on a lone atom followed by what ends its statement.
    pub open spec fn at_lone_atom(&self) -> bool {
        lone_atom(self.tok_ahead(0)) && ends_atom_stmt(self.tok_ahead(1))
    }

    /// The cursor is on a lone atom followed by what ends an expression
    /// (a `{` too while a condition is read).
    pub open spec fn at_atom_expr(&self) -> bool {
        &&& lone_atom(self.tok_ahead(0))
        &&& ends_expr(self.tok_ahead(1)) || (self.tok_ahead(1).kind == TokenKind::LBrace
            && self.in_condition())
    }

    /// Whether a condition is being read, where a `{` opens the body that
    /// follows rather than a trailing closure.
    pub closed spec fn in_condition(&self) -> bool {
        self.no_trailing
    }

    /// The token `n` places past the cursor, or the last token when the
    /// stream ends before it.
    pub closed spec fn tok_ahead(&self, n: int) -> Token<'a> {
        if self.pos + n < self.tokens@.len() {
            self.tokens@[self.pos + n]
        } else {
            self.tokens@.last()
        }
    }
}

impl<'a> Parser<'a> {
    /// The token at the cursor.
    fn peek(&self) -> (t: Token<'a>)
        requires
            self.wf(),
        ensures
            t == self.tokens@[self.pos as int],
    {
        self.tokens[self.pos]
    }

    /// The kind of the token at the cursor.
    fn peek_kind(&self) -> (k: TokenKind)
        requires
            self.wf(),
        ensures
            k == self.cur_kind(),
    {
        self.tokens[self.pos].kind
    }

    /// The token `n` places past the cursor, or the final `Eof` when the
    /// stream ends before it.
    fn ahead(&self, n: usize) -> (t: Token<'a>)
        requires
            self.wf(),
        ensures
            self.pos + n < self.tokens@.len() ==> t == self.tokens@[self.pos + n],
            self.pos + n >= self.tokens@.len() ==> t == self.tokens@.last(),
    {
        let last = self.tokens.len() - 1;
        if n <= last - self.pos {
            self.tokens[self.pos + n]
        } else {
            self.tokens[last]
        }
    }

    /// Whether the token at the cursor is of kind `k`.
    fn at_kind(&self, k: TokenKind) -> (r: bool)
        requires
            self.wf(),
        ensures
            r == (self.cur_kind() == k),
    {
        self.tokens[self.pos].kind == k
    }

    /// Whether the token at the cursor is the operator `op`.
    fn at_oper(&self, op: &str) -> (r: bool)
        requires
            self.wf(),
        ensures
            r == (self.cur_kind() == TokenKind::Oper && self.tokens@[self.pos as int].text@ == op@),
    {
        let t = self.peek();
        t.kind == TokenKind::Oper && str_same(t.text, op)
    }

    /// Whether the token at the cursor is the keyword `kw`.
    fn at_keyword(&self, kw: &str) -> (r: bool)
        requires
            self.wf(),
        ensures
            r == (self.cur_kind() == TokenKind::Keyword && self.tokens@[self.pos as int].text@ == kw@),
    {
        let t = self.peek();
        t.kind == TokenKind::Keyword && str_same(t.text, kw)
    }

    /// Whether the token at the cursor, of whatever kind, reads `text`.
    fn at_text(&self, text: &str) -> (r: bool)
        requires
            self.wf(),
        ensures
            r == (self.tokens@[self.pos as int].text@ == text@),
    {
        str_same(self.peek().text, text)
    }

    /// Whether the cursor is on the final `Eof`.
    fn at_eof(&self) -> (r: bool)
        requires
            self.wf(),
        ensures
            r == (self.cur_kind() == TokenKind::Eof),
    {
        self.tokens[self.pos].kind == TokenKind::Eof
    }

    /// Consume the token at the cursor (the final `Eof` is never passed).
    fn bump(&mut self) -> (t: Token<'a>)
        requires
            old(self).wf(),
        ensures
            final(self).wf(),
            final(self).arena() == old(self).arena(),
            final(self).count() == old(self).count(),
            final(self).token_count() == old(self).token_count(),
            old(self).cursor() <= final(self).cursor() <= old(self).cursor() + 1,
            t.kind != TokenKind::Eof ==> final(self).cursor() == old(self).cursor() + 1,
            t.kind == TokenKind::Eof ==> final(self).cursor() == old(self).cursor(),
            t == old(self).tokens@[old(self).pos as int],
            final(self).tokens@ == old(self).tokens@,
            final(self).nodes@ == old(self).nodes@,
            final(self).no_trailing == old(self).no_trailing,
    {
        let n = self.tokens.len();
        let t = self.tokens[self.pos];
        if t.kind != TokenKind::Eof {
            assert(self.pos + 1 < n);
            self.pos = self.pos + 1;
        }
        t
    }

    /// Consume a token of kind `kind`, or report what stands there instead.
    fn expect(&mut self, kind: TokenKind) -> (r: Result<Token<'a>, ParseError>)
        requires
            old(self).wf(),
        ensures
            final(self).wf(),
            final(self).arena() == old(self).arena(),
            final(self).count() == old(self).count(),
            final(self).token_count() == old(self).token_count(),
            final(self).tokens@ == old(self).tokens@,
            old(self).cursor() <= final(self).cursor(),
            r is Ok <==> old(self).cur_kind() == kind,
            r is Ok ==> final(self).cursor() == old(self).cursor() + 1 || kind == TokenKind::Eof,
            r matches Ok(t) ==> t == old(self).tokens@[old(self).pos as int],
            r matches Err(e) ==> {
                &&& final(self).cursor() == old(self).cursor()
                &&& e.message@ == "expected "@ + kind_text(kind) + ", found "@ + kind_text(old(self).cur_kind())
                &&& e.line == old(self).tokens@[old(self).pos as int].line
                &&& e.col == old(self).tokens@[old(self).pos as int].col
            },
    {
        let k = self.peek_kind();
        if k == kind {
            Ok(self.bump())
        } else {
            let what = joined("expected ", kind_label(kind));
            Err(self.error_here(found_message(what.as_str(), k)))
        }
    }

    /// An error with `message` at the token under the cursor.
    fn error_here(&self, message: String) -> (e: ParseError)
        requires
            self.wf(),
        ensures
            e.message@ == message@,
            e.line == self.tokens@[self.pos as int].line,
            e.col == self.tokens@[self.pos as int].col,
    {
        let t = self.peek();
        ParseError { message, line: t.line, col: t.col }
    }

    /// Store node `n`, whose children and `where` guard are already stored,
    /// and return its index.
    fn push(&mut self, n: SyntaxNode) -> (id: usize)
        requires
            old(self).wf(),
            ids_below(n.children@, old(self).count() as int),
            n.case_where matches Some(w) ==> w < old(self).count(),
        ensures
            final(self).wf(),
            final(self).cursor() == old(self).cursor(),
            final(self).token_count() == old(self).token_count(),
            final(self).count() == old(self).count() + 1,
            id == old(self).count(),
            final(self).arena() == old(self).arena().push(n@),
            final(self).tokens@ == old(self).tokens@,
            final(self).no_trailing == old(self).no_trailing,
    {
        let ghost before = nodes_view(self.nodes@);
        let id = self.nodes.len();
        self.nodes.push(n);
        proof {
            let after = nodes_view(self.nodes@);
            assert(after =~= before.push(n@));
            assert forall|i: int| 0 <= i < after.len() implies #[trigger] node_wf(after, i) by {
                if i < before.len() {
                    assert(node_wf(before, i));
                    assert(after[i] == before[i]);
                } else {
                    assert(after[i] == n@);
                }
            }
        }
        id
    }

    /// Store a plain node (see [`plain_node`]) and return its index.
    fn add(&mut self, kind: NodeKind, text: Option<String>, line: u32, col: u32, children: Vec<
        usize,
    >) -> (id: usize)
        requires
            old(self).wf(),
            ids_below(children@, old(self).count() as int),
        ensures
            final(self).wf(),
            final(self).cursor() == old(self).cursor(),
            final(self).token_count() == old(self).token_count(),
            final(self).count() == old(self).count() + 1,
            id == old(self).count(),
            final(self).arena()[id as int].kind == kind,
            final(self).arena()[id as int].text == opt_view(text),
            final(self).arena()[id as int].children == children@,
            final(self).arena() == old(self).arena().push(final(self).arena()[id as int]),
            final(self).tokens@ == old(self).tokens@,
            final(self).no_trailing == old(self).no_trailing,
    {
        self.push(plain_node(kind, text, line, col, children))
    }

    /// Record `label` as the argument label of the node stored last.
    fn label_last(&mut self, label: String)
        requires
            old(self).wf(),
            old(self).count() > 0,
        ensures
            final(self).wf(),
            final(self).cursor() == old(self).cursor(),
            final(self).token_count() == old(self).token_count(),
            final(self).tokens@ == old(self).tokens@,
            final(self).count() == old(self).count(),
            final(self).arena() == old(self).arena().update(
                old(self).count() - 1,
                NodeView { arg_label: Some(label@), ..old(self).arena()[old(self).count() - 1] },
            ),
    {
        let k = self.nodes.len() - 1;
        let ghost before = nodes_view(self.nodes@);
        self.nodes[k].arg_label = Some(label);
        proof {
            let after = nodes_view(self.nodes@);
            assert(after =~= before.update(k as int, NodeView { arg_label: Some(label@), ..before[k as int] }));
            assert forall|i: int| 0 <= i < after.len() implies #[trigger] node_wf(after, i) by {
                assert(node_wf(before, i));
                assert(after[i].children == before[i].children);
                assert(after[i].case_where == before[i].case_where);
            }
        }
    }

    /// Skip any run of `;` separators.
    fn skip_semicolons(&mut self)
        requires
            old(self).wf(),
        ensures
            extends(old(self), final(self)),
            final(self).count() == old(self).count(),
            final(self).arena() == old(self).arena(),
            final(self).tokens@ == old(self).tokens@,
            final(self).cur_kind() != TokenKind::Semicolon,
            forall|j: int|
                old(self).cursor() <= j < final(self).cursor() ==> #[trigger] old(self).tokens@[j].kind
                    == TokenKind::Semicolon,
    {
        while self.at_kind(TokenKind::Semicolon)
            invariant
                extends(old(self), self),
                self.count() == old(self).count(),
                self.arena() == old(self).arena(),
                self.tokens@ == old(self).tokens@,
                forall|j: int|
                    old(self).cursor() <= j < self.cursor() ==> #[trigger] old(self).tokens@[j].kind
                        == TokenKind::Semicolon,
            decreases self.token_count() - self.cursor(),
        {
            self.bump();
        }
    }

    /// Consume the effect markers after a parameter list (`async`, then
    /// `throws` or `rethrows`, a typed `throws(E)` included), returning their
    /// modifier bits.
    fn skip_effects(&mut self) -> (bits: u32)
        requires
            old(self).wf(),
        ensures
            extends(old(self), final(self)),
            final(self).count() == old(self).count(),
            final(self).arena() == old(self).arena(),
            final(self).tokens@ == old(self).tokens@,
            (bits, final(self).cursor() as int) == effects_at(old(self).tokens@, old(self).cursor() as int),
    {
        let mut bits: u32 = 0;
        let t = self.peek();
        if (t.kind == TokenKind::Keyword || t.kind == TokenKind::Identifier) && str_same(t.text, "async") {
            self.bump();
            bits = decode::ASYNC;
        }
        if self.at_keyword("throws") || self.at_keyword("rethrows") {
            let e = self.bump();
            bits = bits | if str_same(e.text, "throws") {
                decode::THROWS
            } else {
                decode::RETHROWS
            };
            if self.at_kind(TokenKind::LParen) {
                self.skip_balanced_parens();
            }
        }
        bits
    }

    /// Consume a `where` constraint clause up to the body `{`, the end of
    /// the line or the end of the file.
    fn skip_where_clause(&mut self)
        requires
            old(self).wf(),
        ensures
            extends(old(self), final(self)),
            final(self).count() == old(self).count(),
            final(self).arena() == old(self).arena(),
            final(self).tokens@ == old(self).tokens@,
            where_stop(final(self).tokens@[final(self).pos as int]),
            old(self).cur_kind() == TokenKind::Eof ==> final(self).cursor() == old(self).cursor(),
            old(self).cur_kind() != TokenKind::Eof ==> old(self).cursor() + 1 <= final(self).cursor(),
            forall|j: int|
                old(self).cursor() + 1 <= j < final(self).cursor() ==> !where_stop(
                    #[trigger] old(self).tokens@[j],
                ),
    {
        self.bump();
        loop
            invariant
                extends(old(self), self),
                self.count() == old(self).count(),
                self.arena() == old(self).arena(),
                self.tokens@ == old(self).tokens@,
                old(self).cur_kind() == TokenKind::Eof ==> self.cursor() == old(self).cursor(),
                old(self).cur_kind() != TokenKind::Eof ==> old(self).cursor() + 1 <= self.cursor(),
                forall|j: int|
                    old(self).cursor() + 1 <= j < self.cursor() ==> !where_stop(
                        #[trigger] old(self).tokens@[j],
                    ),
            ensures
                where_stop(self.tokens@[self.pos as int]),
            decreases self.token_count() - self.cursor(),
        {
            let t = self.peek();
            if t.kind == TokenKind::LBrace || t.kind == TokenKind::Eof || t.leading_newline {
                break;
            }
            self.bump();
        }
    }

    /// The written type inside the generic argument clause that runs from
    /// the cursor up to token `end`: the tokens run together, then trimmed of
    /// blanks, of leading `<` and trailing `>`, and of blanks again.
    fn type_argument_text(&self, end: usize) -> (r: String)
        requires
            self.wf(),
            self.cursor() <= end <= self.token_count(),
        ensures
            r@ == type_argument(texts_from(self.tokens@, self.pos as int, end as int)),
    {
        let mut joined_text = String::new();
        let mut k: usize = self.pos;
        while k < end
            invariant
                self.wf(),
                self.pos <= k <= end <= self.tokens@.len(),
                joined_text@ == texts_from(self.tokens@, self.pos as int, k as int),
            decreases end - k,
        {
            joined_text.append(self.tokens[k].text);
            k += 1;
        }
        let cs = crate::text::chars_of(joined_text.as_str());
        let n = cs.len();
        assert(cs@.subrange(0, n as int) =~= cs@);
        let lo = front_strip(&cs, 0, n, true);
        let hi = back_strip(&cs, lo, n, true);
        let lo2 = front_strip(&cs, lo, hi, false);
        let hi2 = back_strip(&cs, lo2, hi, false);
        let lo3 = front_strip(&cs, lo2, hi2, true);
        let hi3 = back_strip(&cs, lo3, hi2, true);
        crate::text::string_from_chars(&cs, lo3, hi3)
    }

    /// A generic parameter clause `<T, U: P>` as a `GenericParam` node whose
    /// text is the clause's tokens run together.
    fn generic_clause(&mut self) -> (r: usize)
        requires
            old(self).wf(),
        ensures
            extends(old(self), final(self)),
            r < final(self).count(),
    {
        let start = self.peek();
        let text = self.consume_angle_group();
        self.add(NodeKind::GenericParam, Some(text), start.line, start.col, Vec::new())
    }

    /// Consume a balanced `< ... >` group, returning its concatenated text
    /// (see [`angle_group`]).
    fn consume_angle_group(&mut self) -> (r: String)
        requires
            old(self).wf(),
        ensures
            extends(old(self), final(self)),
            final(self).count() == old(self).count(),
            final(self).arena() == old(self).arena(),
            final(self).tokens@ == old(self).tokens@,
            (r@, final(self).cursor() as int) == angle_group(old(self).tokens@, old(self).cursor() as int, 0),
    {
        let ghost toks = self.tokens@;
        let ghost whole = angle_group(toks, self.pos as int, 0);
        let mut out = String::new();
        let mut depth: i64 = 0;
        loop
            invariant_except_break
                whole.0 == out@ + angle_group(toks, self.pos as int, depth as int).0,
                whole.1 == angle_group(toks, self.pos as int, depth as int).1,
            invariant
                extends(old(self), self),
                self.count() == old(self).count(),
                self.arena() == old(self).arena(),
                self.tokens@ == toks,
                toks == old(self).tokens@,
                whole == angle_group(toks, old(self).cursor() as int, 0),
            ensures
                whole.0 == out@,
                whole.1 == self.pos,
            decreases self.token_count() - self.cursor(),
        {
            let t = self.peek();
            if t.kind == TokenKind::Eof {
                assert(out@ + Seq::<char>::empty() =~= out@);
                break;
            }
            let ghost before = out@;
            let ghost d0 = depth as int;
            let ghost k = self.pos as int;
            out.append(t.text);
            self.bump();
            if t.kind == TokenKind::Oper {
                let cs = crate::text::chars_of(t.text);
                let mut j: usize = 0;
                assert(cs@.skip(0) =~= cs@);
                while j < cs.len()
                    invariant
                        j <= cs@.len(),
                        cs@ == t.text@,
                        angle_depth(cs@, d0) == angle_depth(cs@.skip(j as int), depth as int),
                    decreases cs@.len() - j,
                {
                    assert(cs@.skip(j as int).drop_first() =~= cs@.skip(j + 1));
                    if cs[j] == '<' {
                        if depth < i64::MAX {
                            depth = depth + 1;
                        }
                    } else if cs[j] == '>' {
                        if depth > i64::MIN {
                            depth = depth - 1;
                        }
                    }
                    j += 1;
                }
                assert(cs@.skip(cs@.len() as int).len() == 0);
                if depth <= 0 {
                    assert(before + t.text@ =~= before + angle_group(toks, k, d0).0);
                    break;
                }
            }
            assert(before + angle_group(toks, k, d0).0 =~= out@ + angle_group(toks, self.pos as int, depth as int).0);
        }
        out
    }

    /// The modifiers and attributes that precede a declaration, consumed and
    /// collected (attributes as built `Attribute` nodes). Nothing is consumed
    /// unless the run ends at a declaration keyword or an attribute; `class`
    /// counts as a modifier only when no name follows it, and `optional` only
    /// after `@objc` and before `func`, `var` or `subscript`.
    fn collect_decl_meta(&mut self) -> (m: DeclMeta)
        requires
            old(self).wf(),
        ensures
            extends(old(self), final(self)),
            ids_below(m.attributes@, final(self).count() as int),
            final(self).tokens@ == old(self).tokens@,
            ({
                let toks = old(self).tokens@;
                let p = old(self).cursor() as int;
                let e = meta_scan(toks, p, false);
                if e != p && (decl_keyword(toks[e].text@) || toks[e].kind == TokenKind::Attribute) {
                    &&& final(self).cursor() == e
                    &&& m.modifiers == meta_bits(toks, p, e, false, 0)
                    &&& m.attributes@.len() == meta_attrs(toks, p, e, false).len()
                    &&& forall|k: int|
                        0 <= k < m.attributes@.len() ==> {
                            &&& final(self).arena()[#[trigger] m.attributes@[k] as int].kind == NodeKind::Attribute
                            &&& final(self).arena()[m.attributes@[k] as int].text == Some(
                                meta_attrs(toks, p, e, false)[k],
                            )
                        }
                } else {
                    &&& final(self).cursor() == old(self).cursor()
                    &&& final(self).arena() == old(self).arena()
                    &&& m.modifiers == 0
                    &&& m.attributes@.len() == 0
                }
            }),
    {
        let ghost toks = self.tokens@;
        let ghost p0 = self.pos as int;
        let n = self.tokens.len();
        let mut i = self.pos;
        let mut saw_objc = false;
        loop
            invariant
                self.wf(),
                self.tokens@ == toks,
                self.pos as int == p0,
                self.arena() == old(self).arena(),
                self.count() == old(self).count(),
                toks == old(self).tokens@,
                p0 == old(self).cursor(),
                n == self.tokens@.len(),
                self.pos <= i < self.tokens@.len(),
                meta_scan(toks, p0, false) == meta_scan(toks, i as int, saw_objc),
            ensures
                meta_scan(toks, p0, false) == i,
                self.pos <= i < self.tokens@.len(),
            decreases self.tokens@.len() - i,
        {
            let t = self.tokens[i];
            if t.kind == TokenKind::Eof {
                break;
            }
            assert(i + 1 < self.tokens@.len());
            let next = self.tokens[i + 1];
            let is_mod = if str_same(t.text, "class") {
                next.kind != TokenKind::Identifier
            } else if str_same(t.text, "optional") {
                saw_objc && (str_same(next.text, "func") || str_same(next.text, "var") || str_same(next.text, "subscript"))
            } else {
                is_modifier_word(t.text)
            };
            if !(t.kind == TokenKind::Attribute || is_mod) {
                break;
            }
            let ghost i0 = i as int;
            if t.kind == TokenKind::Attribute && str_same(t.text, "@objc") {
                saw_objc = true;
            }
            i = i + 1;
            if self.tokens[i].kind == TokenKind::LParen {
                i = self.scan_balanced_parens(i);
            }
            proof {
                lemma_paren_end(toks, i0 + 1, 0);
                assert(meta_step(toks, i0) == i);
            }
        }
        let mut meta = DeclMeta { modifiers: 0, attributes: Vec::new() };
        if i == self.pos || !(is_decl_keyword(self.tokens[i].text) || self.tokens[i].kind == TokenKind::Attribute) {
            return meta;
        }
        let ghost e = i as int;
        let ghost mut objc = false;
        let ghost mut names: Seq<Seq<char>> = Seq::empty();
        while self.pos < i
            invariant
                extends(old(self), self),
                self.tokens@ == toks,
                toks == old(self).tokens@,
                p0 == old(self).cursor(),
                e == i,
                i < self.tokens@.len(),
                self.pos <= e,
                ids_below(meta.attributes@, self.count() as int),
                meta_scan(toks, self.pos as int, objc) == e,
                meta_bits(toks, p0, e, false, 0) == meta_bits(toks, self.pos as int, e, objc, meta.modifiers),
                meta_attrs(toks, p0, e, false) == names + meta_attrs(toks, self.pos as int, e, objc),
                meta.attributes@.len() == names.len(),
                forall|k: int|
                    0 <= k < meta.attributes@.len() ==> {
                        &&& self.arena()[#[trigger] meta.attributes@[k] as int].kind == NodeKind::Attribute
                        &&& self.arena()[meta.attributes@[k] as int].text == Some(names[k])
                    },
            ensures
                self.pos == e,
            decreases self.token_count() - self.cursor(),
        {
            let t = self.peek();
            let ghost q = self.pos as int;
            assert(meta_goes_on(toks, q, objc));
            if t.kind == TokenKind::Eof {
                break;
            }
            let ghost before = self.arena();
            self.bump();
            if t.kind == TokenKind::Attribute {
                let a = self.add(NodeKind::Attribute, Some(drop_sigil(t.text)), t.line, t.col, Vec::new());
                keep(&mut meta.attributes, a, Ghost(self.count() as int));
                proof {
                    names = names.push(sigil_dropped(t.text@));
                    assert forall|k: int| 0 <= k < meta.attributes@.len() implies {
                        &&& self.arena()[#[trigger] meta.attributes@[k] as int].kind == NodeKind::Attribute
                        &&& self.arena()[meta.attributes@[k] as int].text == Some(names[k])
                    } by {
                        if k < meta.attributes@.len() - 1 {
                            assert(self.arena()[meta.attributes@[k] as int] == before[meta.attributes@[k] as int]);
                        }
                    }
                }
            } else {
                meta.modifiers = meta.modifiers | decode::word_modifier_bit(t.text);
            }
            if self.at_kind(TokenKind::LParen) {
                proof {
                    lemma_paren_end(toks, q + 1, 0);
                }
                self.skip_balanced_parens();
            }
            proof {
                assert(self.pos as int == meta_step(toks, q));
                lemma_meta_scan_ge(toks, self.pos as int, objc || (t.kind == TokenKind::Attribute && t.text@ == "@objc"@));
                let rest = meta_attrs(toks, self.pos as int, e, objc || (t.kind == TokenKind::Attribute && t.text@ == "@objc"@));
                if t.kind == TokenKind::Attribute {
                    assert(seq![sigil_dropped(t.text@)] + rest =~= seq![sigil_dropped(t.text@)].add(rest));
                    assert(names.drop_last() + (seq![sigil_dropped(t.text@)] + rest) =~= names + rest);
                }
                objc = objc || (t.kind == TokenKind::Attribute && t.text@ == "@objc"@);
            }
        }
        meta
    }
}

/// A copy of the index list `v`.
fn copy_ids(v: &Vec<usize>) -> (r: Vec<usize>)
    ensures
        r@ == v@,
{
    let mut out: Vec<usize> = Vec::new();
    let mut k: usize = 0;
    while k < v.len()
        invariant
            k <= v@.len(),
            out@ == v@.take(k as int),
        decreases v@.len() - k,
    {
        out.push(v[k]);
        assert(v@.take(k + 1) =~= v@.take(k as int).push(v@[k as int]));
        k += 1;
    }
    assert(v@.take(v@.len() as int) =~= v@);
    out
}

/// Every index held in `ids` is below `n`.
pub open spec fn opt_ids_below(ids: Seq<Option<usize>>, n: int) -> bool {
    forall|i: int| 0 <= i < ids.len() ==> (#[trigger] ids[i] matches Some(x) ==> x < n)
}

/// A blank between tokens: space, tab, newline or carriage return.
fn is_blank(c: char) -> (r: bool)
    ensures
        r == (c == ' ' || c == '\t' || c == '\n' || c == '\r'),
{
    c == ' ' || c == '\t' || c == '\n' || c == '\r'
}

/// Whether `o` holds exactly the text `lit`.
fn opt_is(o: &Option<String>, lit: &str) -> (r: bool)
    ensures
        r == (o matches Some(t) && t@ == lit@),
{
    match o {
        Some(t) => str_same(t.as_str(), lit),
        None => false,
    }
}

fn keep(kids: &mut Vec<usize>, id: usize, Ghost(n): Ghost<int>)
    requires
        ids_below(old(kids)@, n),
        id < n,
    ensures
        ids_below(final(kids)@, n),
        final(kids)@ == old(kids)@.push(id),
{
    kids.push(id);
    assert forall|i: int| 0 <= i < kids@.len() implies #[trigger] kids@[i] < n by {
        if i < kids@.len() - 1 {
            assert(kids@[i] == old(kids)@[i]);
        }
    }
}

/// Append every id of `more` to `kids`.
fn keep_all(kids: &mut Vec<usize>, more: &Vec<usize>, Ghost(n): Ghost<int>)
    requires
        ids_below(old(kids)@, n),
        ids_below(more@, n),
    ensures
        ids_below(final(kids)@, n),
        final(kids)@ == old(kids)@ + more@,
{
    let ghost start = kids@;
    let mut k: usize = 0;
    while k < more.len()
        invariant
            ids_below(kids@, n),
            ids_below(more@, n),
            k <= more@.len(),
            kids@ == start + more@.take(k as int),
        decreases more@.len() - k,
    {
        keep(kids, more[k], Ghost(n));
        assert(more@.take(k + 1) =~= more@.take(k as int).push(more@[k as int]));
        k += 1;
    }
    assert(more@.take(more@.len() as int) =~= more@);
}

/// `s` without its first scalar (an attribute's `@`, a directive's `#`).
fn drop_sigil(s: &str) -> (r: String)
    ensures
        r@ == sigil_dropped(s@),
{
    let v = crate::text::chars_of(s);
    if v.len() == 0 {
        String::new()
    } else {
        let r = crate::text::string_from_chars(&v, 1, v.len());
        assert(v@.subrange(1, v@.len() as int) =~= s@.drop_first());
        r
    }
}

impl<'a> Parser<'a> {
    /// Given an index at a `(`, the index just past the matching `)`, or the
    /// index of the final `Eof` when it is unbalanced.
    fn scan_balanced_parens(&self, i: usize) -> (j: usize)
        requires
            self.wf(),
            i < self.token_count(),
        ensures
            i <= j < self.token_count(),
            j == paren_end(self.tokens@, i as int, 0),
    {
        let mut depth: u64 = 0;
        let mut k = i;
        let n = self.tokens.len();
        loop
            invariant
                self.wf(),
                n == self.tokens@.len(),
                i <= k < self.tokens@.len(),
                paren_end(self.tokens@, i as int, 0) == paren_end(self.tokens@, k as int, depth as int),
            decreases self.tokens@.len() - k,
        {
            let kind = self.tokens[k].kind;
            if kind == TokenKind::Eof {
                return k;
            }
            assert(k + 1 < self.tokens@.len());
            if kind == TokenKind::LParen {
                if depth < u64::MAX {
                    depth = depth + 1;
                }
            } else if kind == TokenKind::RParen {
                if depth > 0 {
                    depth = depth - 1;
                }
                if depth == 0 {
                    return k + 1;
                }
            }
            k = k + 1;
        }
    }

    /// Consume a balanced `( ... )` run starting at the current `(`.
    fn skip_balanced_parens(&mut self)
        requires
            old(self).wf(),
        ensures
            extends(old(self), final(self)),
            final(self).count() == old(self).count(),
            final(self).arena() == old(self).arena(),
            final(self).tokens@ == old(self).tokens@,
            final(self).cursor() == paren_end(old(self).tokens@, old(self).cursor() as int, 0),
    {
        let end = self.scan_balanced_parens(self.pos);
        proof {
            lemma_paren_end(self.tokens@, self.pos as int, 0);
        }
        while self.pos < end
            invariant
                extends(old(self), self),
                self.count() == old(self).count(),
                self.arena() == old(self).arena(),
                self.tokens@ == old(self).tokens@,
                end < self.token_count(),
                self.pos <= end,
                end == paren_end(old(self).tokens@, old(self).cursor() as int, 0),
                forall|j: int| old(self).cursor() <= j < end ==> #[trigger] old(self).tokens@[j].kind != TokenKind::Eof,
            ensures
                self.pos == end,
            decreases end - self.pos,
        {
            if self.at_eof() {
                break;
            }
            self.bump();
        }
    }
}

impl<'a> Parser<'a> {
    fn too_deep(&self) -> (e: ParseError)
        requires
            self.wf(),
        ensures
            e.message@ == "nesting is too deep"@,
            e.line == self.tokens@[self.pos as int].line,
            e.col == self.tokens@[self.pos as int].col,
    {
        self.error_here(String::from_str("nesting is too deep"))
    }

    /// A name alone, or a name with one `?` or `!`, reads as that text.
    proof fn lemma_short_types(p: &Parser, fuel: nat)
        requires
            p.wf(),
            fuel > 0,
        ensures
            p.tok_ahead(0).kind == TokenKind::Identifier && ends_type_name(p.tok_ahead(1)) ==> type_scan(
                p.tokens@,
                p.cursor() as int,
                fuel,
            ) == Some((p.tok_ahead(0).text@, p.cursor() as int + 1)),
            p.tok_ahead(0).kind == TokenKind::Identifier && type_suffix_token(p.tok_ahead(1)) && ends_type_name(
                p.tok_ahead(2),
            ) ==> type_scan(p.tokens@, p.cursor() as int, fuel) == Some(
                (p.tok_ahead(0).text@ + p.tok_ahead(1).text@, p.cursor() as int + 2),
            ),
    {
        let toks = p.tokens@;
        let k = p.pos as int;
        reveal_strlit("!");
        reveal_strlit("<");
        reveal_strlit("&");
        reveal_strlit("->");
        reveal_strlit("~");
        assert("!"@ != "<"@ && "!"@ != "&"@ && "!"@ != "->"@) by {
            assert("!"@[0] != "<"@[0]);
            assert("!"@[0] != "&"@[0]);
            assert("!"@.len() != "->"@.len());
        }
        if p.tok_ahead(0).kind == TokenKind::Identifier {
            assert(tok_at(toks, k) == p.tok_ahead(0));
            assert(tok_at(toks, k + 1) == p.tok_ahead(1));
            assert(tok_at(toks, k + 2) == p.tok_ahead(2));
            assert(k + 1 < toks.len());
            assert(skip_attributes(toks, k) == k);
            let name = toks[k].text@;
            if ends_type_name(p.tok_ahead(1)) {
                assert(dotted_name(toks, k + 1, name) == (name, k + 1));
                assert(type_base(toks, k, fuel) == Some((name, k + 1)));
                assert(type_suffixes(toks, k + 1, name) == (name, k + 1));
                assert(compositions(toks, k + 1, name, fuel) == Some((name, k + 1)));
                assert(effects_at(toks, k + 1).1 == k + 1);
            }
            if type_suffix_token(p.tok_ahead(1)) && ends_type_name(p.tok_ahead(2)) {
                assert(k + 2 < toks.len());
                let n2 = name + toks[k + 1].text@;
                assert(dotted_name(toks, k + 1, name) == (name, k + 1));
                assert(type_base(toks, k, fuel) == Some((name, k + 1)));
                assert(type_suffixes(toks, k + 2, n2) == (n2, k + 2));
                assert(type_suffixes(toks, k + 1, name) == (n2, k + 2));
                assert(compositions(toks, k + 2, n2, fuel) == Some((n2, k + 2)));
                assert(effects_at(toks, k + 2).1 == k + 2);
            }
        }
    }

    /// Parse a type, returning its reconstructed source text: names (dotted,
    /// generic), arrays, dictionaries, tuples, optionals, compositions and
    /// function types (see [`type_scan`]).
    #[verifier::loop_isolation(false)]
    fn parse_type_text(&mut self, fuel: u32) -> (r: Result<String, ParseError>)
        requires
            old(self).wf(),
        ensures
            extends(old(self), final(self)),
            final(self).count() == old(self).count(),
            final(self).tokens@ == old(self).tokens@,
            final(self).arena() == old(self).arena(),
            match type_scan(old(self).tokens@, old(self).cursor() as int, fuel as nat) {
                Some((t, e)) => r matches Ok(s) && s@ == t && final(self).cursor() == e,
                None => r is Err,
            },
            fuel > 0 && old(self).tok_ahead(0).kind == TokenKind::Identifier && ends_type_name(
                old(self).tok_ahead(1),
            ) ==> ({
                &&& r matches Ok(text)
                &&& text@ == old(self).tok_ahead(0).text@
                &&& final(self).cursor() == old(self).cursor() + 1
            }),
            fuel > 0 && !opens_type(old(self).tok_ahead(0)) ==> (r matches Err(e) && e.message@
                == "expected a type"@ + ", found "@ + kind_text(old(self).cur_kind())),
            fuel > 0 && old(self).tok_ahead(0).kind == TokenKind::Identifier && type_suffix_token(
                old(self).tok_ahead(1),
            ) && ends_type_name(old(self).tok_ahead(2)) ==> ({
                &&& r matches Ok(text)
                &&& text@ == old(self).tok_ahead(0).text@ + old(self).tok_ahead(1).text@
                &&& final(self).cursor() == old(self).cursor() + 2
            }),
        decreases fuel, 4int,
    {
        if fuel == 0 {
            return Err(self.too_deep());
        }
        let f = fuel - 1;
        let ghost toks = old(self).tokens@;
        let ghost k0 = old(self).pos as int;
        proof {
            Self::lemma_short_types(old(self), fuel as nat);
        }
        while self.at_kind(TokenKind::Attribute)
            invariant
                extends(old(self), self),
                self.count() == old(self).count(),
                self.tokens@ == toks,
                self.arena() == old(self).arena(),
                old(self).cur_kind() != TokenKind::Attribute ==> self.pos == old(self).pos,
                skip_attributes(toks, self.pos as int) == skip_attributes(toks, k0),
            decreases self.token_count() - self.cursor(),
        {
            self.bump();
        }
        let ghost j = self.pos as int;
        proof {
            assert(j == skip_attributes(toks, k0));
            assert(self.tok_ahead(0) == tok_at(toks, j));
            assert(self.tok_ahead(1) == tok_at(toks, j + 1));
        }
        if self.at_oper("~") {
            self.bump();
            let rest = self.parse_type_text(f)?;
            return Ok(joined("~", rest.as_str()));
        }
        if (self.at_keyword("any") || self.at_keyword("some") || self.at_keyword("inout"))
            && self.ahead(1).kind != TokenKind::Eof {
            let kw = self.bump();
            let rest = self.parse_type_text(f)?;
            let mut t = String::from_str(kw.text);
            t.append(" ");
            t.append(rest.as_str());
            return Ok(t);
        }
        let mut text = self.parse_type_base(fuel)?;
        let ghost e1 = self.pos as int;
        let ghost b = text@;
        while self.at_kind(TokenKind::Question) || self.at_oper("!")
            invariant
                extends(old(self), self),
                self.count() == old(self).count(),
                self.tokens@ == toks,
                self.arena() == old(self).arena(),
                type_suffixes(toks, e1, b) == type_suffixes(toks, self.pos as int, text@),
            decreases self.token_count() - self.cursor(),
        {
            let ghost p0 = self.pos as int;
            let ghost t0 = text@;
            let t = self.bump();
            text.append(t.text);
            proof {
                assert(type_suffixes(toks, p0, t0) == type_suffixes(toks, self.pos as int, text@));
            }
        }
        let ghost sx = type_suffixes(toks, e1, b);
        proof {
            assert(sx == (text@, self.pos as int));
        }
        while self.at_oper("&")
            invariant
                extends(old(self), self),
                self.count() == old(self).count(),
                self.tokens@ == toks,
                self.arena() == old(self).arena(),
                fuel > 0,
                compositions(toks, sx.1, sx.0, fuel as nat) == compositions(
                    toks,
                    self.pos as int,
                    text@,
                    fuel as nat,
                ),
            decreases self.token_count() - self.cursor(),
        {
            let ghost p0 = self.pos as int;
            let ghost t0 = text@;
            self.bump();
            let rhs = self.parse_type_text(f)?;
            text.append(" & ");
            text.append(rhs.as_str());
            proof {
                assert(compositions(toks, p0, t0, fuel as nat) == compositions(
                    toks,
                    self.pos as int,
                    text@,
                    fuel as nat,
                ));
            }
        }
        proof {
            assert(compositions(toks, sx.1, sx.0, fuel as nat) == Some((text@, self.pos as int)));
        }
        self.skip_effects();
        proof {
            assert(self.tok_ahead(0) == tok_at(toks, self.pos as int));
        }
        if self.at_oper("->") {
            self.bump();
            let ret = self.parse_type_text(f)?;
            text.append(" -> ");
            text.append(ret.as_str());
        }
        Ok(text)
    }

    /// The head of a type, after its attributes: an array or dictionary, a
    /// tuple or a named type (see [`type_base`]).
    fn parse_type_base(&mut self, fuel: u32) -> (r: Result<String, ParseError>)
        requires
            old(self).wf(),
        ensures
            extends(old(self), final(self)),
            final(self).count() == old(self).count(),
            final(self).tokens@ == old(self).tokens@,
            final(self).arena() == old(self).arena(),
            match type_base(old(self).tokens@, old(self).cursor() as int, fuel as nat) {
                Some((t, e)) => r matches Ok(s) && s@ == t && final(self).cursor() == e,
                None => r is Err,
            },
            fuel > 0 && !(old(self).cur_kind() == TokenKind::LBracket || old(self).cur_kind() == TokenKind::LParen
                || old(self).cur_kind() == TokenKind::Identifier) ==> (r matches Err(e) && e.message@
                == "expected a type"@ + ", found "@ + kind_text(old(self).cur_kind())),
        decreases fuel, 3int,
    {
        if fuel == 0 {
            return Err(self.too_deep());
        }
        let f = fuel - 1;
        let ghost toks = old(self).tokens@;
        let ghost j = old(self).pos as int;
        proof {
            assert(self.tok_ahead(0) == tok_at(toks, j));
        }
        let k = self.peek_kind();
        if k == TokenKind::LBracket {
            self.bump();
            let key = self.parse_type_text(f)?;
            let mut t = String::from_str("[");
            t.append(key.as_str());
            proof {
                assert(self.tokens@[self.pos as int] == tok_at(toks, self.pos as int));
            }
            if self.at_kind(TokenKind::Colon) {
                self.bump();
                let value = self.parse_type_text(f)?;
                proof {
                    assert(self.tokens@[self.pos as int] == tok_at(toks, self.pos as int));
                }
                self.expect(TokenKind::RBracket)?;
                t.append(": ");
                t.append(value.as_str());
            } else {
                self.expect(TokenKind::RBracket)?;
            }
            t.append("]");
            Ok(t)
        } else if k == TokenKind::LParen {
            self.parse_tuple_type(fuel)
        } else if k == TokenKind::Identifier {
            Ok(self.parse_type_name())
        } else {
            Err(self.error_here(found_message("expected a type", k)))
        }
    }

    /// A tuple type `(a: A, B)` or `()`, with the cursor on its `(` (see
    /// [`tuple_type`]).
    #[verifier::loop_isolation(false)]
    fn parse_tuple_type(&mut self, fuel: u32) -> (r: Result<String, ParseError>)
        requires
            old(self).wf(),
            old(self).cur_kind() == TokenKind::LParen,
        ensures
            extends(old(self), final(self)),
            final(self).count() == old(self).count(),
            final(self).tokens@ == old(self).tokens@,
            final(self).arena() == old(self).arena(),
            match tuple_type(old(self).tokens@, old(self).cursor() as int, fuel as nat) {
                Some((t, e)) => r matches Ok(s) && s@ == t && final(self).cursor() == e,
                None => r is Err,
            },
        decreases fuel, 2int,
    {
        let ghost toks = old(self).tokens@;
        let ghost j = old(self).pos as int;
        self.bump();
        proof {
            assert(self.tokens@[self.pos as int] == tok_at(toks, j + 1));
        }
        let mut t = String::from_str("(");
        if !self.at_kind(TokenKind::RParen) {
            if fuel == 0 {
                return Err(self.too_deep());
            }
            let f = fuel - 1;
            let mut first = true;
            let ghost whole = tuple_items(toks, j + 1, "("@, true, fuel as nat);
            loop
                invariant
                    extends(old(self), self),
                    self.count() == old(self).count(),
                    self.tokens@ == toks,
                    self.arena() == old(self).arena(),
                    fuel > 0,
                    f == fuel - 1,
                    whole == tuple_items(toks, self.pos as int, t@, first, fuel as nat),
                decreases self.token_count() - self.cursor(),
            {
                let ghost p0 = self.pos as int;
                let ghost t0 = t@;
                let ghost first0 = first;
                if !first {
                    t.append(", ");
                }
                first = false;
                proof {
                    assert(self.tokens@[self.pos as int] == tok_at(toks, p0));
                    assert(self.tok_ahead(1) == tok_at(toks, p0 + 1));
                }
                if self.at_kind(TokenKind::Identifier) && self.ahead(1).kind == TokenKind::Colon {
                    let label = self.bump();
                    self.bump();
                    t.append(label.text);
                    t.append(": ");
                }
                let ty = self.parse_type_text(f)?;
                t.append(ty.as_str());
                proof {
                    assert(self.tokens@[self.pos as int] == tok_at(toks, self.pos as int));
                }
                if self.at_kind(TokenKind::Comma) {
                    self.bump();
                    proof {
                        assert(tuple_items(toks, p0, t0, first0, fuel as nat) == tuple_items(
                            toks,
                            self.pos as int,
                            t@,
                            false,
                            fuel as nat,
                        ));
                    }
                    continue;
                }
                proof {
                    assert(whole == Some((t@, self.pos as int)));
                }
                break;
            }
        }
        proof {
            assert(self.tokens@[self.pos as int] == tok_at(toks, self.pos as int));
        }
        self.expect(TokenKind::RParen)?;
        t.append(")");
        Ok(t)
    }

    /// A named type, with the cursor on its first name: the name with its
    /// generic arguments and dotted parts (see [`type_name_at`]).
    fn parse_type_name(&mut self) -> (r: String)
        requires
            old(self).wf(),
            old(self).cur_kind() == TokenKind::Identifier,
        ensures
            extends(old(self), final(self)),
            final(self).count() == old(self).count(),
            final(self).tokens@ == old(self).tokens@,
            final(self).arena() == old(self).arena(),
            (r@, final(self).cursor() as int) == type_name_at(old(self).tokens@, old(self).cursor() as int),
    {
        let ghost toks = old(self).tokens@;
        let ghost j = old(self).pos as int;
        let first = self.bump();
        let mut name = String::from_str(first.text);
        proof {
            assert(first == tok_at(toks, j));
            assert(self.tokens@[self.pos as int] == tok_at(toks, j + 1));
        }
        if self.at_oper("<") {
            let g = self.consume_angle_group();
            name.append(g.as_str());
        }
        proof {
            assert(type_name_at(toks, j) == dotted_name(toks, self.pos as int, name@));
        }
        while self.at_kind(TokenKind::Dot) && self.ahead(1).kind == TokenKind::Identifier
            invariant
                extends(old(self), self),
                self.count() == old(self).count(),
                self.tokens@ == toks,
                self.arena() == old(self).arena(),
                type_name_at(toks, j) == dotted_name(toks, self.pos as int, name@),
            decreases self.token_count() - self.cursor(),
        {
            let ghost p0 = self.pos as int;
            let ghost n0 = name@;
            proof {
                assert(self.tok_ahead(1) == tok_at(toks, p0 + 1));
            }
            self.bump();
            let part = self.bump();
            name.append(".");
            name.append(part.text);
            proof {
                assert(part == tok_at(toks, p0 + 1));
                assert(self.tokens@[self.pos as int] == tok_at(toks, p0 + 2));
            }
            if self.at_oper("<") {
                let g = self.consume_angle_group();
                name.append(g.as_str());
            }
            proof {
                assert(dotted_name(toks, p0, n0) == dotted_name(toks, self.pos as int, name@));
            }
        }
        name
    }

    /// A type reference: a `TypeRef` node holding the type's text, and the
    /// text itself.
    #[verifier::loop_isolation(false)]
    fn parse_type(&mut self, fuel: u32) -> (r: Result<(usize, String), ParseError>)
        requires
            old(self).wf(),
        ensures
            extends(old(self), final(self)),
            r matches Ok((id, _)) ==> is_last(final(self), id),
            fuel > 1 && old(self).tok_ahead(0).kind == TokenKind::Identifier && ends_type_name(
                old(self).tok_ahead(1),
            ) ==> ({
                &&& r matches Ok((id, text))
                &&& text@ == old(self).tok_ahead(0).text@
                &&& final(self).arena() == old(self).arena().push(final(self).arena()[id as int])
                &&& final(self).arena()[id as int].kind == NodeKind::TypeRef
                &&& final(self).arena()[id as int].text == Some(text@)
                &&& final(self).cursor() == old(self).cursor() + 1
                &&& final(self).tokens@ == old(self).tokens@
            }),
            fuel > 1 && !opens_type(old(self).tok_ahead(0)) ==> (r matches Err(e) && e.message@
                == "expected a type"@ + ", found "@ + kind_text(old(self).cur_kind())),
        decreases fuel,
    {
        if fuel == 0 {
            return Err(self.too_deep());
        }
        let start = self.peek();
        let text = self.parse_type_text(fuel - 1)?;
        let id = self.add(NodeKind::TypeRef, Some(text.clone()), start.line, start.col, Vec::new());
        Ok((id, text))
    }

    /// `[attributes] [externalLabel] name: [inout] Type [...] [= default]`.
    #[verifier::loop_isolation(false)]
    fn parse_param(&mut self, fuel: u32) -> (r: Result<usize, ParseError>)
        requires
            old(self).wf(),
        ensures
            extends(old(self), final(self)),
            r matches Ok(id) ==> id < final(self).count(),
        decreases fuel,
    {
        if fuel == 0 {
            return Err(self.too_deep());
        }
        let f = fuel - 1;
        let mut kids: Vec<usize> = Vec::new();
        while self.at_kind(TokenKind::Attribute)
            invariant
                extends(old(self), self),
                ids_below(kids@, self.count() as int),
            decreases self.token_count() - self.cursor(),
        {
            let t = self.bump();
            let name = drop_sigil(t.text);
            let id = self.add(NodeKind::Attribute, Some(name), t.line, t.col, Vec::new());
            keep(&mut kids, id, Ghost(self.count() as int));
        }
        let first = self.peek();
        if first.kind != TokenKind::Identifier {
            return Err(self.error_here(found_message("expected a parameter name", first.kind)));
        }
        self.bump();
        let label: Option<&str>;
        let name: &str;
        if self.at_kind(TokenKind::Identifier) {
            let second = self.bump();
            label = Some(first.text);
            name = second.text;
        } else {
            label = None;
            name = first.text;
        }
        self.expect(TokenKind::Colon)?;
        let mut mods: u32 = 0;
        let mut is_inout = false;
        let mut autoclosure = false;
        if self.at_keyword("inout") {
            self.bump();
            mods = mods | decode::INOUT;
            is_inout = true;
        }
        while self.at_kind(TokenKind::Identifier) && (self.at_text("borrowing") || self.at_text(
            "consuming",
        ) || self.at_text("__shared") || self.at_text("__owned"))
            invariant
                extends(old(self), self),
                ids_below(kids@, self.count() as int),
            decreases self.token_count() - self.cursor(),
        {
            self.bump();
        }
        while self.at_kind(TokenKind::Attribute)
            invariant
                extends(old(self), self),
                ids_below(kids@, self.count() as int),
            decreases self.token_count() - self.cursor(),
        {
            if self.at_text("@autoclosure") {
                mods = mods | decode::AUTOCLOSURE;
                autoclosure = true;
            } else if self.at_text("@escaping") {
                mods = mods | decode::ESCAPING;
            }
            self.bump();
        }
        let (ty, ty_text) = self.parse_type(f)?;
        keep(&mut kids, ty, Ghost(self.count() as int));
        let mut variadic = false;
        if self.at_oper("...") {
            self.bump();
            mods = mods | decode::VARIADIC;
            variadic = true;
        }
        if self.at_oper("=") {
            self.bump();
            let d = self.parse_expr(0, f)?;
            keep(&mut kids, d, Ghost(self.count() as int));
        }
        let (info_label, arg_label) = match label {
            Some(l) => if str_same(l, "_") {
                (None, None)
            } else {
                (Some(String::from_str(l)), Some(String::from_str(l)))
            },
            None => (Some(String::from_str(name)), None),
        };
        let mut n = plain_node(NodeKind::Param, Some(String::from_str(name)), first.line, first.col, kids);
        n.modifiers = mods;
        n.arg_label = arg_label;
        n.type_text = Some(ty_text);
        n.param = ParamInfo {
            label: info_label,
            name: String::from_str(name),
            variadic,
            autoclosure,
            is_inout,
        };
        Ok(self.push(n))
    }

    /// A parenthesised, comma-separated parameter list.
    #[verifier::loop_isolation(false)]
    fn parse_param_list(&mut self, fuel: u32) -> (r: Result<Vec<usize>, ParseError>)
        requires
            old(self).wf(),
        ensures
            extends(old(self), final(self)),
            r matches Ok(ids) ==> ids_below(ids@, final(self).count() as int),
            fuel > 0 && old(self).cur_kind() != TokenKind::LParen ==> (r matches Err(e) && e.message@
                == "expected "@ + kind_text(TokenKind::LParen) + ", found "@ + kind_text(old(self).cur_kind())),
            fuel > 0 && old(self).cur_kind() == TokenKind::LParen && old(self).tok_ahead(1).kind
                == TokenKind::RParen ==> ({
                &&& r matches Ok(ids)
                &&& ids@.len() == 0
                &&& final(self).cursor() == old(self).cursor() + 2
                &&& final(self).arena() == old(self).arena()
                &&& final(self).tokens@ == old(self).tokens@
            }),
        decreases fuel,
    {
        if fuel == 0 {
            return Err(self.too_deep());
        }
        let f = fuel - 1;
        self.expect(TokenKind::LParen)?;
        let mut out: Vec<usize> = Vec::new();
        if !self.at_kind(TokenKind::RParen) {
            loop
                invariant
                    extends(old(self), self),
                    ids_below(out@, self.count() as int),
                decreases self.token_count() - self.cursor(),
            {
                let p = self.parse_param(f)?;
                keep(&mut out, p, Ghost(self.count() as int));
                if self.at_kind(TokenKind::Comma) {
                    self.bump();
                    continue;
                }
                break;
            }
        }
        self.expect(TokenKind::RParen)?;
        Ok(out)
    }

    /// Pratt expression parser: `min_bp` is the least binding power that may
    /// bind on the left, so tighter operators capture their operands first.
    #[verifier::loop_isolation(false)]
    fn parse_expr(&mut self, min_bp: u8, fuel: u32) -> (r: Result<usize, ParseError>)
        requires
            old(self).wf(),
        ensures
            extends(old(self), final(self)),
            r matches Ok(id) ==> is_last(final(self), id),
            fuel > 2 && old(self).at_atom_expr() ==> lone_atom_parsed(old(self), final(self), r),
            fuel > 8 && at_atom_call(old(self)) ==> atom_call_parsed(old(self), final(self), r),
        decreases fuel,
    {
        if fuel == 0 {
            return Err(self.too_deep());
        }
        let f = fuel - 1;
        let ghost premise = fuel > 2 && old(self).at_atom_expr();
        let ghost call = fuel > 8 && at_atom_call(old(self));
        let mut lhs = self.parse_prefix(f)?;
        let ghost mid = *self;
        proof {
            if call {
                let toks = old(self).tokens@;
                let e = atom_call_at(toks, old(self).pos as int).unwrap().1;
                assert(self.pos as int == e + 1);
                assert(self.tokens@[self.pos as int] == tok_at(toks, e + 1));
            }
        }
        loop
            invariant
                extends(old(self), self),
                is_last(self, lhs),
                call ==> atom_call_parsed(old(self), &mid, Ok::<usize, ParseError>(lhs)),
                call ==> self.pos == mid.pos && self.nodes@ == mid.nodes@ && self.tokens@ == mid.tokens@,
                call ==> ends_expr(self.tokens@[self.pos as int]),
                premise ==> lone_atom_parsed(old(self), &mid, Ok::<usize, ParseError>(lhs)),
                premise ==> self.pos == mid.pos && self.nodes@ == mid.nodes@ && self.tokens@ == mid.tokens@
                    && self.no_trailing == mid.no_trailing,
            decreases self.token_count() - self.cursor(),
        {
            if self.at_kind(TokenKind::Question) && TERNARY_BP >= min_bp {
                let q = self.bump();
                let then_branch = self.parse_expr(0, f)?;
                self.expect(TokenKind::Colon)?;
                let else_branch = self.parse_expr(TERNARY_BP, f)?;
                lhs = self.add(
                    NodeKind::TernaryExpr,
                    None,
                    q.line,
                    q.col,
                    vec![lhs, then_branch, else_branch],
                );
                continue;
            }
            if (self.at_keyword("is") || self.at_keyword("as")) && CAST_BP >= min_bp {
                let kw = self.bump();
                let mut op = String::from_str(kw.text);
                if str_same(kw.text, "as") && (self.at_kind(TokenKind::Question) || self.at_oper(
                    "!",
                )) {
                    let t = self.bump();
                    op.append(t.text);
                }
                let (ty, _) = self.parse_type(f)?;
                lhs = self.add(NodeKind::CastExpr, Some(op), kw.line, kw.col, vec![lhs, ty]);
                continue;
            }
            let op = self.peek();
            if op.kind != TokenKind::Oper || is_assignment(op.text) {
                break;
            }
            let (lbp, rbp) = crate::precedence::binding_power(&self.ops, op.text);
            if lbp < min_bp {
                break;
            }
            if str_same(op.text, "...") && self.at_one_sided_range_end() {
                self.bump();
                lhs = self.add(
                    NodeKind::PostfixExpr,
                    Some(String::from_str("...")),
                    op.line,
                    op.col,
                    vec![lhs],
                );
                continue;
            }
            self.bump();
            let rhs = self.parse_expr(rbp, f)?;
            lhs = self.add(
                NodeKind::BinaryExpr,
                Some(String::from_str(op.text)),
                op.line,
                op.col,
                vec![lhs, rhs],
            );
        }
        Ok(lhs)
    }

    /// Whether the `...` at the cursor ends a one-sided range (`lhs...`):
    /// nothing that could start an upper bound follows it.
    fn at_one_sided_range_end(&self) -> (r: bool)
        requires
            self.wf(),
        ensures
            r == {
                let t = self.tok_ahead(1);
                t.leading_newline || t.kind == TokenKind::RParen || t.kind == TokenKind::RBracket
                    || t.kind == TokenKind::RBrace || t.kind == TokenKind::Comma || t.kind
                    == TokenKind::Semicolon || t.kind == TokenKind::Colon || t.kind == TokenKind::Eof
                    || (t.kind == TokenKind::Keyword && t.text@ == "where"@)
            },
    {
        let next = self.ahead(1);
        next.leading_newline || next.kind == TokenKind::RParen || next.kind == TokenKind::RBracket
            || next.kind == TokenKind::RBrace || next.kind == TokenKind::Comma || next.kind
            == TokenKind::Semicolon || next.kind == TokenKind::Colon || next.kind == TokenKind::Eof || (
        next.kind == TokenKind::Keyword && str_same(next.text, "where"))
    }

    /// `await` is a contextual keyword only when an expression follows it.
    fn is_value_ident_context(&self) -> (r: bool)
        requires
            self.wf(),
        ensures
            r == {
                let k = self.tok_ahead(1).kind;
                k == TokenKind::Oper || k == TokenKind::Dot || k == TokenKind::RParen || k
                    == TokenKind::Comma || k == TokenKind::Colon || k == TokenKind::Eof
            },
    {
        let k = self.ahead(1).kind;
        k == TokenKind::Oper || k == TokenKind::Dot || k == TokenKind::RParen || k
            == TokenKind::Comma || k == TokenKind::Colon || k == TokenKind::Eof
    }

    /// A prefix operator or effect marker applied to its operand, else a
    /// primary expression with its postfix suffixes.
    #[verifier::loop_isolation(false)]
    fn parse_prefix(&mut self, fuel: u32) -> (r: Result<usize, ParseError>)
        requires
            old(self).wf(),
        ensures
            extends(old(self), final(self)),
            r matches Ok(id) ==> is_last(final(self), id),
            fuel > 1 && old(self).at_atom_expr() ==> lone_atom_parsed(old(self), final(self), r),
            fuel > 7 && at_atom_call(old(self)) ==> atom_call_parsed(old(self), final(self), r),
        decreases fuel,
    {
        if fuel == 0 {
            return Err(self.too_deep());
        }
        let f = fuel - 1;
        let t = self.peek();
        let next = self.ahead(1);
        let ghost call = fuel > 7 && at_atom_call(old(self));
        proof {
            if call {
                let toks = old(self).tokens@;
                let k = old(self).pos as int;
                assert(t == tok_at(toks, k));
                assert(next == tok_at(toks, k + 1));
                reveal_strlit("await");
                reveal_strlit("try");
                assert(lone_atom(t));
            }
        }
        if t.kind == TokenKind::Oper && str_same(t.text, "\\") {
            return self.parse_keypath();
        }
        if t.kind == TokenKind::Oper && (next.kind == TokenKind::RParen || next.kind
            == TokenKind::Comma) {
            self.bump();
            return Ok(self.add(NodeKind::IdentExpr, Some(String::from_str(t.text)), t.line, t.col, Vec::new()));
        }
        if t.kind == TokenKind::Oper && (str_same(t.text, "..<") || str_same(t.text, "...")) {
            self.bump();
            let operand = self.parse_prefix(f)?;
            return Ok(self.add(NodeKind::PrefixExpr, Some(String::from_str(t.text)), t.line, t.col, vec![operand]));
        }
        if t.kind == TokenKind::Keyword && str_same(t.text, "try") {
            self.bump();
            let op = if self.at_kind(TokenKind::Question) || self.at_oper("!") {
                let m = self.bump();
                String::from_str(m.text)
            } else {
                String::from_str("try")
            };
            let operand = self.parse_prefix(f)?;
            return Ok(self.add(NodeKind::TryExpr, Some(op), t.line, t.col, vec![operand]));
        }
        if t.kind == TokenKind::Identifier && str_same(t.text, "await")
            && !self.is_value_ident_context() {
            self.bump();
            let operand = self.parse_prefix(f)?;
            return Ok(self.add(NodeKind::AwaitExpr, Some(String::from_str("await")), t.line, t.col, vec![operand]));
        }
        if t.kind == TokenKind::Identifier && (str_same(t.text, "consume") || str_same(t.text, "copy")
            || str_same(t.text, "borrow")) && !next.leading_newline && (next.kind
            == TokenKind::Identifier || (next.kind == TokenKind::Keyword && str_same(next.text, "self"))) {
            self.bump();
            let operand = self.parse_prefix(f)?;
            return Ok(self.add(NodeKind::PrefixExpr, Some(String::from_str(t.text)), t.line, t.col, vec![operand]));
        }
        if t.kind == TokenKind::Oper && str_same(t.text, "&") {
            self.bump();
            let operand = self.parse_prefix(f)?;
            return Ok(self.add(NodeKind::InoutExpr, Some(String::from_str("&")), t.line, t.col, vec![operand]));
        }
        if t.kind == TokenKind::Oper && (str_same(t.text, "-") || str_same(t.text, "+") || str_same(t.text, "!")
            || str_same(t.text, "~")) {
            self.bump();
            let operand = self.parse_prefix(f)?;
            return Ok(self.add(NodeKind::PrefixExpr, Some(String::from_str(t.text)), t.line, t.col, vec![operand]));
        }
        let primary = self.parse_primary(f)?;
        let ghost mid = *self;
        proof {
            if call {
                let toks = old(self).tokens@;
                let k = old(self).pos as int;
                assert(self.tokens@ == toks);
                assert(self.pos as int == k + 1);
                assert(self.tok_ahead(0) == tok_at(toks, k + 1));
                assert(self.arena().len() == self.count());
                assert(old(self).arena().len() == old(self).count());
                let ac = atom_call_at(toks, k).unwrap();
                assert(atom_args(toks, k + 2, TokenKind::RParen) == Some(ac));
                assert(close_of(self.tok_ahead(0).kind) == TokenKind::RParen);
                assert(ends_postfix(tok_at(toks, ac.1 + 1)));
            }
        }
        let r = self.parse_postfix(primary, f);
        proof {
            if call {
                let toks = old(self).tokens@;
                let a = old(self).count() as int;
                let items = atom_call_at(toks, old(self).pos as int).unwrap().0;
                let c = a + 1 + items.len();
                let fa = self.arena();
                assert(primary == a);
                assert(fa.subrange(0, c).subrange(0, a + 1) == mid.arena());
                assert(fa.subrange(0, a) =~= old(self).arena()) by {
                    assert forall|j: int| 0 <= j < a implies fa[j] == old(self).arena()[j] by {
                        assert(fa.subrange(0, c).subrange(0, a + 1)[j] == fa[j]);
                        assert(mid.arena()[j] == old(self).arena()[j]);
                    }
                }
                assert(fa[a] == mid.arena()[a]) by {
                    assert(fa.subrange(0, c).subrange(0, a + 1)[a] == fa[a]);
                }
                assert(old(self).arena().push(fa[a]) =~= mid.arena());
                assert(fa[a].kind == atom_node_kind(tok_at(toks, old(self).pos as int)).unwrap());
                assert(fa[a].children.len() == 0);
                assert(fa[c].kind == NodeKind::CallExpr);
                assert(self.tokens@ == toks);
                assert(self.cursor() == atom_call_at(toks, old(self).pos as int).unwrap().1 + 1);
            }
        }
        r
    }

    /// A literal, name, implicit member, parenthesised/tuple expression,
    /// array/dictionary literal, closure, directive expression or `if`
    /// expression.
    #[verifier::loop_isolation(false)]
    fn parse_primary(&mut self, fuel: u32) -> (r: Result<usize, ParseError>)
        requires
            old(self).wf(),
        ensures
            extends(old(self), final(self)),
            r matches Ok(id) ==> is_last(final(self), id),
            fuel > 0 && atom_node_kind(old(self).tok_ahead(0)) is Some ==> ({
                let t = old(self).tok_ahead(0);
                let kind = atom_node_kind(t).unwrap();
                &&& r matches Ok(id)
                &&& final(self).arena() == old(self).arena().push(final(self).arena()[id as int])
                &&& final(self).arena()[id as int].kind == kind
                &&& final(self).arena()[id as int].text == if kind == NodeKind::NilLiteral {
                    None
                } else {
                    Some(t.text@)
                }
                &&& final(self).arena()[id as int].children.len() == 0
                &&& final(self).cursor() == old(self).cursor() + 1
                &&& final(self).tokens@ == old(self).tokens@
                &&& final(self).in_condition() == old(self).in_condition()
            }),
            fuel > 1 && old(self).cur_kind() == TokenKind::LBracket && old(self).tok_ahead(1).kind
                == TokenKind::RBracket ==> ({
                &&& r matches Ok(id)
                &&& final(self).arena()[id as int].kind == NodeKind::ArrayLiteral
                &&& final(self).arena()[id as int].children.len() == 0
                &&& final(self).cursor() == old(self).cursor() + 2
            }),
            fuel > 1 && old(self).cur_kind() == TokenKind::LBracket && old(self).tok_ahead(1).kind
                == TokenKind::Colon && old(self).tok_ahead(2).kind == TokenKind::RBracket ==> ({
                &&& r matches Ok(id)
                &&& final(self).arena()[id as int].kind == NodeKind::DictionaryLiteral
                &&& final(self).arena()[id as int].children.len() == 0
                &&& final(self).cursor() == old(self).cursor() + 3
            }),
            fuel > 4 && old(self).cur_kind() == TokenKind::LBracket && lone_atom(old(self).tok_ahead(1))
                && old(self).tok_ahead(2).kind == TokenKind::RBracket ==> ({
                &&& r matches Ok(id)
                &&& final(self).arena()[id as int].kind == NodeKind::ArrayLiteral
                &&& final(self).arena()[id as int].children.len() == 1
                &&& final(self).arena()[final(self).arena()[id as int].children[0] as int].kind
                    == atom_node_kind(old(self).tok_ahead(1)).unwrap()
                &&& final(self).cursor() == old(self).cursor() + 3
            }),
            fuel > 4 && old(self).cur_kind() == TokenKind::LBracket && lone_atom(old(self).tok_ahead(1))
                && old(self).tok_ahead(2).kind == TokenKind::Comma && lone_atom(old(self).tok_ahead(3)) && old(
                self,
            ).tok_ahead(4).kind == TokenKind::RBracket ==> ({
                &&& r matches Ok(id)
                &&& final(self).arena()[id as int].kind == NodeKind::ArrayLiteral
                &&& final(self).arena()[id as int].children.len() == 2
                &&& final(self).arena()[final(self).arena()[id as int].children[0] as int].kind
                    == atom_node_kind(old(self).tok_ahead(1)).unwrap()
                &&& final(self).arena()[final(self).arena()[id as int].children[1] as int].kind
                    == atom_node_kind(old(self).tok_ahead(3)).unwrap()
                &&& final(self).cursor() == old(self).cursor() + 5
            }),
            fuel > 5 && old(self).cur_kind() == TokenKind::LParen && lone_atom(old(self).tok_ahead(1))
                && old(self).tok_ahead(2).kind == TokenKind::RParen ==> ({
                &&& r matches Ok(id)
                &&& final(self).arena() == old(self).arena().push(final(self).arena()[id as int])
                &&& final(self).arena()[id as int].kind == atom_node_kind(old(self).tok_ahead(1)).unwrap()
                &&& final(self).cursor() == old(self).cursor() + 3
            }),
            fuel > 0 && !opens_primary(old(self).tok_ahead(0)) ==> (r matches Err(e) && e.message@
                == "expected an expression"@ + ", found "@ + kind_text(old(self).cur_kind()) && e.line
                == old(self).tok_ahead(0).line && e.col == old(self).tok_ahead(0).col),
        decreases fuel,
    {
        if fuel == 0 {
            return Err(self.too_deep());
        }
        let f = fuel - 1;
        let t = self.peek();
        if t.kind == TokenKind::IntLiteral {
            self.bump();
            let mut n = plain_node(NodeKind::IntegerLiteral, Some(String::from_str(t.text)), t.line, t.col, Vec::new());
            n.int_value = decode::literal_int_value(t.text);
            return Ok(self.push(n));
        }
        if t.kind == TokenKind::FloatLiteral {
            self.bump();
            return Ok(self.add(NodeKind::FloatLiteral, Some(String::from_str(t.text)), t.line, t.col, Vec::new()));
        }
        if t.kind == TokenKind::StringLiteral {
            self.bump();
            return Ok(self.add(NodeKind::StringLiteral, Some(String::from_str(t.text)), t.line, t.col, Vec::new()));
        }
        if t.kind == TokenKind::RegexLiteral {
            self.bump();
            return Ok(self.add(NodeKind::RegexLiteral, Some(String::from_str(t.text)), t.line, t.col, Vec::new()));
        }
        if t.kind == TokenKind::Keyword && str_same(t.text, "if") {
            return self.parse_if(f);
        }
        if t.kind == TokenKind::Keyword && (str_same(t.text, "true") || str_same(t.text, "false")) {
            self.bump();
            let mut n = plain_node(NodeKind::BoolLiteral, Some(String::from_str(t.text)), t.line, t.col, Vec::new());
            n.bool_value = Some(str_same(t.text, "true"));
            return Ok(self.push(n));
        }
        if t.kind == TokenKind::Keyword && str_same(t.text, "nil") {
            self.bump();
            return Ok(self.add(NodeKind::NilLiteral, None, t.line, t.col, Vec::new()));
        }
        if t.kind == TokenKind::Identifier || (t.kind == TokenKind::Keyword && (str_same(t.text, "self")
            || str_same(t.text, "super"))) {
            self.bump();
            return Ok(self.add(NodeKind::IdentExpr, Some(String::from_str(t.text)), t.line, t.col, Vec::new()));
        }
        if t.kind == TokenKind::LBrace {
            return self.parse_closure(f);
        }
        if t.kind == TokenKind::LParen {
            return self.parse_paren_or_tuple(f);
        }
        if t.kind == TokenKind::LBracket {
            return self.parse_array_or_dict(f);
        }
        if t.kind == TokenKind::Directive {
            self.bump();
            if self.at_kind(TokenKind::LParen) {
                self.skip_balanced_parens();
            }
            return Ok(self.add(NodeKind::MacroExpansion, Some(drop_sigil(t.text)), t.line, t.col, Vec::new()));
        }
        if t.kind == TokenKind::Dot {
            self.bump();
            let name = self.peek();
            if !(name.kind == TokenKind::Identifier || name.kind == TokenKind::Keyword) {
                return Err(self.error_here(found_message("expected a member name after '.'", name.kind)));
            }
            self.bump();
            return Ok(self.add(NodeKind::MemberExpr, Some(String::from_str(name.text)), t.line, t.col, Vec::new()));
        }
        Err(self.error_here(found_message("expected an expression", t.kind)))
    }

    /// An optional `name:` label followed by an expression.
    #[verifier::loop_isolation(false)]
    fn parse_labeled_expr(&mut self, fuel: u32) -> (r: Result<(Option<&'a str>, usize), ParseError>)
        requires
            old(self).wf(),
        ensures
            extends(old(self), final(self)),
            r matches Ok((_, id)) ==> is_last(final(self), id),
            r matches Ok((label, _)) ==> (label is Some <==> ((old(self).tok_ahead(0).kind
                == TokenKind::Identifier || old(self).tok_ahead(0).kind == TokenKind::Keyword)
                && old(self).tok_ahead(1).kind == TokenKind::Colon)),
            r matches Ok((Some(l), _)) ==> l@ == old(self).tok_ahead(0).text@,
            fuel > 3 && old(self).at_atom_expr() && old(self).tok_ahead(1).kind != TokenKind::Colon ==> (
            r matches Ok((label, id)) && label is None && lone_atom_parsed(
                old(self),
                final(self),
                Ok::<usize, ParseError>(id),
            )),
            fuel > 3 && (old(self).tok_ahead(0).kind == TokenKind::Identifier || old(self).tok_ahead(0).kind
                == TokenKind::Keyword) && old(self).tok_ahead(1).kind == TokenKind::Colon && lone_atom(
                old(self).tok_ahead(2),
            ) && ends_expr(old(self).tok_ahead(3)) ==> ({
                &&& r matches Ok((label, id))
                &&& label is Some
                &&& final(self).arena() == old(self).arena().push(final(self).arena()[id as int])
                &&& final(self).arena()[id as int].kind == atom_node_kind(old(self).tok_ahead(2)).unwrap()
                &&& final(self).arena()[id as int].children.len() == 0
                &&& final(self).cursor() == old(self).cursor() + 3
                &&& final(self).tokens@ == old(self).tokens@
            }),
        decreases fuel,
    {
        if fuel == 0 {
            return Err(self.too_deep());
        }
        let t = self.peek();
        let label = if (t.kind == TokenKind::Identifier || t.kind == TokenKind::Keyword) && self.ahead(1).kind
            == TokenKind::Colon {
            self.bump();
            self.bump();
            Some(t.text)
        } else {
            None
        };
        proof {
            if label is Some {
                assert(self.pos == old(self).pos + 2);
                assert(self.tok_ahead(0) == old(self).tok_ahead(2));
                assert(self.tok_ahead(1) == old(self).tok_ahead(3));
            }
        }
        let e = self.parse_expr(0, fuel - 1)?;
        Ok((label, e))
    }

    /// `( expr )` collapses to the inner expression; `( a, b, ... )` is a tuple.
    #[verifier::loop_isolation(false)]
    fn parse_paren_or_tuple(&mut self, fuel: u32) -> (r: Result<usize, ParseError>)
        requires
            old(self).wf(),
        ensures
            extends(old(self), final(self)),
            r matches Ok(id) ==> is_last(final(self), id),
            fuel > 4 && old(self).cur_kind() == TokenKind::LParen && lone_atom(old(self).tok_ahead(1))
                && old(self).tok_ahead(2).kind == TokenKind::RParen ==> ({
                &&& r matches Ok(id)
                &&& final(self).arena() == old(self).arena().push(final(self).arena()[id as int])
                &&& final(self).arena()[id as int].kind == atom_node_kind(old(self).tok_ahead(1)).unwrap()
                &&& final(self).cursor() == old(self).cursor() + 3
            }),
        decreases fuel,
    {
        if fuel == 0 {
            return Err(self.too_deep());
        }
        let f = fuel - 1;
        let open = self.bump();
        let (first_label, first) = self.parse_labeled_expr(f)?;
        if !self.at_kind(TokenKind::Comma) {
            self.expect(TokenKind::RParen)?;
            return Ok(first);
        }
        match first_label {
            Some(l) => self.label_last(String::from_str(l)),
            None => {},
        }
        let mut kids: Vec<usize> = Vec::new();
        keep(&mut kids, first, Ghost(self.count() as int));
        while self.at_kind(TokenKind::Comma)
            invariant
                extends(old(self), self),
                ids_below(kids@, self.count() as int),
            decreases self.token_count() - self.cursor(),
        {
            self.bump();
            if self.at_kind(TokenKind::RParen) {
                break;
            }
            let (label, next) = self.parse_labeled_expr(f)?;
            match label {
                Some(l) => self.label_last(String::from_str(l)),
                None => {},
            }
            keep(&mut kids, next, Ghost(self.count() as int));
        }
        self.expect(TokenKind::RParen)?;
        Ok(self.add(NodeKind::TupleExpr, None, open.line, open.col, kids))
    }

    /// `[a, b, ...]` array literal or `[k: v, ...]` dictionary literal (`[:]`
    /// is the empty dictionary). A dictionary's children alternate key, value.
    #[verifier::loop_isolation(false)]
    fn parse_array_or_dict(&mut self, fuel: u32) -> (r: Result<usize, ParseError>)
        requires
            old(self).wf(),
        ensures
            extends(old(self), final(self)),
            r matches Ok(id) ==> is_last(final(self), id),
            fuel > 0 && old(self).cur_kind() == TokenKind::LBracket && old(self).tok_ahead(1).kind
                == TokenKind::RBracket ==> ({
                &&& r matches Ok(id)
                &&& final(self).arena()[id as int].kind == NodeKind::ArrayLiteral
                &&& final(self).arena()[id as int].children.len() == 0
                &&& final(self).cursor() == old(self).cursor() + 2
            }),
            fuel > 0 && old(self).cur_kind() == TokenKind::LBracket && old(self).tok_ahead(1).kind
                == TokenKind::Colon && old(self).tok_ahead(2).kind == TokenKind::RBracket ==> ({
                &&& r matches Ok(id)
                &&& final(self).arena()[id as int].kind == NodeKind::DictionaryLiteral
                &&& final(self).arena()[id as int].children.len() == 0
                &&& final(self).cursor() == old(self).cursor() + 3
            }),
            fuel > 3 && old(self).cur_kind() == TokenKind::LBracket && lone_atom(old(self).tok_ahead(1))
                && old(self).tok_ahead(2).kind == TokenKind::RBracket ==> ({
                &&& r matches Ok(id)
                &&& final(self).arena()[id as int].kind == NodeKind::ArrayLiteral
                &&& final(self).arena()[id as int].children.len() == 1
                &&& final(self).arena()[final(self).arena()[id as int].children[0] as int].kind
                    == atom_node_kind(old(self).tok_ahead(1)).unwrap()
                &&& final(self).cursor() == old(self).cursor() + 3
            }),
            fuel > 3 && old(self).cur_kind() == TokenKind::LBracket && lone_atom(old(self).tok_ahead(1))
                && old(self).tok_ahead(2).kind == TokenKind::Comma && lone_atom(old(self).tok_ahead(3)) && old(
                self,
            ).tok_ahead(4).kind == TokenKind::RBracket ==> ({
                &&& r matches Ok(id)
                &&& final(self).arena()[id as int].kind == NodeKind::ArrayLiteral
                &&& final(self).arena()[id as int].children.len() == 2
                &&& final(self).arena()[final(self).arena()[id as int].children[0] as int].kind
                    == atom_node_kind(old(self).tok_ahead(1)).unwrap()
                &&& final(self).arena()[final(self).arena()[id as int].children[1] as int].kind
                    == atom_node_kind(old(self).tok_ahead(3)).unwrap()
                &&& final(self).cursor() == old(self).cursor() + 5
            }),
        decreases fuel,
    {
        if fuel == 0 {
            return Err(self.too_deep());
        }
        let f = fuel - 1;
        let open = self.bump();
        if self.at_kind(TokenKind::Colon) && self.ahead(1).kind == TokenKind::RBracket {
            self.bump();
            self.bump();
            return Ok(self.add(NodeKind::DictionaryLiteral, Some(String::from_str("[")), open.line, open.col, Vec::new()));
        }
        if self.at_kind(TokenKind::RBracket) {
            self.bump();
            return Ok(self.add(NodeKind::ArrayLiteral, Some(String::from_str("[")), open.line, open.col, Vec::new()));
        }
        let mut kids: Vec<usize> = Vec::new();
        proof {
            if old(self).cur_kind() == TokenKind::LBracket && lone_atom(old(self).tok_ahead(1)) {
                assert(self.tok_ahead(0) == old(self).tok_ahead(1));
                assert(self.tok_ahead(1) == old(self).tok_ahead(2));
            }
        }
        let first = self.parse_expr(0, f)?;
        keep(&mut kids, first, Ghost(self.count() as int));
        let is_dict = self.at_kind(TokenKind::Colon);
        if is_dict {
            self.bump();
            let v = self.parse_expr(0, f)?;
            keep(&mut kids, v, Ghost(self.count() as int));
        }
        let ghost single = fuel > 3 && old(self).cur_kind() == TokenKind::LBracket && lone_atom(
            old(self).tok_ahead(1),
        ) && old(self).tok_ahead(2).kind == TokenKind::RBracket;
        let ghost snap = *self;
        let ghost snap_kids = kids@;
        let ghost pair = fuel > 3 && old(self).cur_kind() == TokenKind::LBracket && lone_atom(old(self).tok_ahead(1))
            && old(self).tok_ahead(2).kind == TokenKind::Comma && lone_atom(old(self).tok_ahead(3)) && old(
            self,
        ).tok_ahead(4).kind == TokenKind::RBracket;
        let ghost k1 = atom_node_kind(old(self).tok_ahead(1)).unwrap();
        let ghost k3 = atom_node_kind(old(self).tok_ahead(3)).unwrap();
        while self.at_kind(TokenKind::Comma)
            invariant
                extends(old(self), self),
                ids_below(kids@, self.count() as int),
                pair ==> self.tokens@ == old(self).tokens@ && !is_dict && kids@.len() >= 1 && self.arena()[kids@[0] as int].kind
                    == k1 && ((self.pos == old(self).pos + 2 && kids@.len() == 1) || (self.pos == old(self).pos + 4
                    && kids@.len() == 2 && self.arena()[kids@[1] as int].kind == k3)),
                single ==> self.pos == snap.pos && self.nodes@ == snap.nodes@ && self.tokens@
                    == snap.tokens@ && kids@ == snap_kids && snap.cur_kind() == TokenKind::RBracket,
            decreases self.token_count() - self.cursor(),
        {
            self.bump();
            if self.at_kind(TokenKind::RBracket) {
                break;
            }
            let ghost before = self.arena();
            proof {
                if pair {
                    assert(self.tok_ahead(0) == old(self).tok_ahead(3));
                    assert(self.tok_ahead(1) == old(self).tok_ahead(4));
                }
            }
            let key = self.parse_expr(0, f)?;
            proof {
                if pair {
                    assert(self.arena()[kids@[0] as int] == before[kids@[0] as int]);
                }
            }
            keep(&mut kids, key, Ghost(self.count() as int));
            if is_dict {
                self.expect(TokenKind::Colon)?;
                let v = self.parse_expr(0, f)?;
                keep(&mut kids, v, Ghost(self.count() as int));
            }
        }
        self.expect(TokenKind::RBracket)?;
        let kind = if is_dict {
            NodeKind::DictionaryLiteral
        } else {
            NodeKind::ArrayLiteral
        };
        let ghost before_add = self.arena();
        let id = self.add(kind, Some(String::from_str("[")), open.line, open.col, kids);
        proof {
            if pair {
                assert(self.arena()[kids@[0] as int] == before_add[kids@[0] as int]);
                assert(self.arena()[kids@[1] as int] == before_add[kids@[1] as int]);
            }
            if single {
                assert(self.arena()[kids@[0] as int] == before_add[kids@[0] as int]);
            }
        }
        Ok(id)
    }

    /// If the `<` at the cursor opens a generic argument clause of a call or
    /// member access (`Type<Args>(...)`, `Type<Args>.member`), the index just
    /// past its closing `>`.
    fn generic_call_args(&self) -> (r: Option<usize>)
        requires
            self.wf(),
        ensures
            r matches Some(end) ==> self.cursor() < end < self.token_count(),
            match generic_args_end(self.tokens@, self.pos as int) {
                Some(e) => r == Some(e as usize),
                None => r is None,
            },
    {
        let first = self.peek();
        if first.kind != TokenKind::Oper {
            return None;
        }
        let fc = crate::text::chars_of(first.text);
        if fc.len() == 0 || fc[0] != '<' {
            return None;
        }
        let n = self.tokens.len();
        let mut i = self.pos;
        let mut depth: i64 = 0;
        let ghost toks = self.tokens@;
        loop
            invariant_except_break
                generic_clause_end(toks, self.pos as int, 0) == generic_clause_end(toks, i as int, depth as int),
            invariant
                self.wf(),
                toks == self.tokens@,
                n == self.tokens@.len(),
                self.pos <= i < n,
                depth >= 0,
                toks[self.pos as int].kind == TokenKind::Oper,
                toks[self.pos as int].text@.len() > 0,
                toks[self.pos as int].text@[0] == '<',
            ensures
                generic_clause_end(toks, self.pos as int, 0) == Some(i as int),
                self.pos < i < n,
            decreases n - i,
        {
            let t = self.tokens[i];
            if t.kind == TokenKind::Eof {
                return None;
            }
            assert(i + 1 < n);
            if t.kind == TokenKind::Oper && (str_same(t.text, "?") || str_same(t.text, "&")) {
                i = i + 1;
            } else if t.kind == TokenKind::Oper {
                let cs = crate::text::chars_of(t.text);
                let ghost d0 = depth as int;
                let mut k: usize = 0;
                assert(cs@.skip(0) =~= cs@);
                while k < cs.len()
                    invariant
                        k <= cs@.len(),
                        depth >= 0,
                        cs@ == t.text@,
                        oper_depth(cs@, d0) == oper_depth(cs@.skip(k as int), depth as int),
                        self.wf(),
                        toks == self.tokens@,
                        n == toks.len(),
                        self.pos <= i < n,
                        t == toks[i as int],
                        t.kind == TokenKind::Oper,
                        !(t.text@ == "?"@ || t.text@ == "&"@),
                        generic_clause_end(toks, self.pos as int, 0) == generic_clause_end(toks, i as int, d0),
                        toks[self.pos as int].kind == TokenKind::Oper,
                        toks[self.pos as int].text@.len() > 0,
                        toks[self.pos as int].text@[0] == '<',
                    decreases cs@.len() - k,
                {
                    assert(cs@.skip(k as int).drop_first() =~= cs@.skip(k + 1));
                    assert(cs@.skip(k as int)[0] == cs@[k as int]);
                    let ghost dk = depth as int;
                    if cs[k] == '<' {
                        if depth < i64::MAX {
                            depth = depth + 1;
                        }
                    } else if cs[k] == '>' {
                        depth = depth - 1;
                        if depth < 0 {
                            assert(oper_depth(cs@.skip(k as int), dk) is None);
                            return None;
                        }
                    } else {
                        assert(oper_depth(cs@.skip(k as int), dk) is None);
                        return None;
                    }
                    k += 1;
                }
                assert(cs@.skip(cs@.len() as int).len() == 0);
                i = i + 1;
                if depth == 0 {
                    break;
                }
            } else if t.kind == TokenKind::Identifier || t.kind == TokenKind::Question || t.kind
                == TokenKind::Comma || t.kind == TokenKind::Dot || t.kind == TokenKind::LBracket
                || t.kind == TokenKind::RBracket || t.kind == TokenKind::Colon {
                i = i + 1;
            } else if t.kind == TokenKind::Keyword && (str_same(t.text, "some") || str_same(t.text, "any")
                || str_same(t.text, "inout") || str_same(t.text, "protocol") || str_same(t.text, "class")) {
                i = i + 1;
            } else {
                return None;
            }
        }
        let next = self.tokens[i];
        if next.kind == TokenKind::LParen && !next.leading_newline {
            return Some(i);
        }
        if next.kind == TokenKind::LBrace && !next.leading_newline {
            let after = if i + 1 < n {
                self.tokens[i + 1]
            } else {
                next
            };
            if !is_accessor_kw(after.text) {
                return Some(i);
            }
            return None;
        }
        if next.kind == TokenKind::Dot {
            return Some(i);
        }
        None
    }

    /// The callee followed by the comma-separated, optionally labeled
    /// arguments up to and including `close` (the opener is already
    /// consumed).
    #[verifier::loop_isolation(false)]
    #[verifier::spinoff_prover]
    #[verifier::rlimit(40)]
    fn parse_args(&mut self, callee: usize, close: TokenKind, fuel: u32) -> (r: Result<Vec<usize>, ParseError>)
        requires
            old(self).wf(),
            callee < old(self).count(),
        ensures
            extends(old(self), final(self)),
            r matches Ok(ids) ==> ids_below(ids@, final(self).count() as int),
            r matches Ok(ids) ==> ids@.len() > 0 && ids@[0] == callee,
            fuel > 0 && close != TokenKind::Eof && old(self).cur_kind() == close ==> ({
                &&& r matches Ok(ids)
                &&& ids@ == seq![callee]
                &&& final(self).cursor() == old(self).cursor() + 1
                &&& final(self).arena() == old(self).arena()
                &&& final(self).tokens@ == old(self).tokens@
            }),
            fuel > 4 && (close == TokenKind::RParen || close == TokenKind::RBracket) && lone_atom(
                old(self).tok_ahead(0),
            ) && old(self).tok_ahead(1).kind == close ==> ({
                &&& r matches Ok(ids)
                &&& ids@.len() == 2 && ids@[0] == callee
                &&& final(self).arena() == old(self).arena().push(final(self).arena()[ids@[1] as int])
                &&& final(self).arena()[ids@[1] as int].kind == atom_node_kind(old(self).tok_ahead(0)).unwrap()
                &&& ids@[1] == old(self).count()
                &&& final(self).cursor() == old(self).cursor() + 2
                &&& final(self).tokens@ == old(self).tokens@
            }),
            fuel > 4 && (close == TokenKind::RParen || close == TokenKind::RBracket) ==> (atom_args(
                old(self).tokens@,
                old(self).cursor() as int,
                close,
            ) matches Some((items, e)) ==> ({
                &&& r matches Ok(ids)
                &&& atom_args_built(old(self).arena(), final(self).arena(), ids@, callee, items)
                &&& final(self).cursor() == e + 1
                &&& final(self).tokens@ == old(self).tokens@
            })),
        decreases fuel,
    {
        if fuel == 0 {
            return Err(self.too_deep());
        }
        let mut kids: Vec<usize> = Vec::new();
        keep(&mut kids, callee, Ghost(self.count() as int));
        let ghost single = fuel > 4 && (close == TokenKind::RParen || close == TokenKind::RBracket)
            && lone_atom(old(self).tok_ahead(0)) && old(self).tok_ahead(1).kind == close;
        let ghost toks = old(self).tokens@;
        let ghost multi = fuel > 4 && (close == TokenKind::RParen || close == TokenKind::RBracket) && atom_args(
            toks,
            old(self).pos as int,
            close,
        ) is Some;
        let ghost all = atom_args(toks, old(self).pos as int, close).unwrap().0;
        let ghost tot_end = atom_args(toks, old(self).pos as int, close).unwrap().1;
        proof {
            if multi {
                assert(all.subrange(0, 0) =~= Seq::<(NodeKind, Option<Seq<char>>)>::empty());
                assert(old(self).arena().subrange(0, old(self).arena().len() as int) =~= old(self).arena());
                assert(all.subrange(0, all.len() as int) =~= all);
                assert(old(self).tokens@[old(self).pos as int] == tok_at(toks, old(self).pos as int));
            }
        }
        if !self.at_kind(close) {
            loop
                invariant
                    extends(old(self), self),
                    ids_below(kids@, self.count() as int),
                    kids@.len() > 0 && kids@[0] == callee,
                    multi ==> ({
                        &&& atom_args_built(old(self).arena(), self.arena(), kids@, callee, all.subrange(
                            0,
                            kids@.len() - 1,
                        ))
                        &&& kids@.len() - 1 < all.len()
                        &&& atom_args(toks, self.pos as int, close) == Some(
                            (all.subrange(kids@.len() - 1, all.len() as int), tot_end),
                        )
                        &&& self.tokens@ == toks
                    }),
                    single ==> kids@ == seq![callee] && self.pos == old(self).pos && self.tokens@
                        == old(self).tokens@ && self.arena() == old(self).arena(),
                decreases self.token_count() - self.cursor(),
            {
                let ghost m = kids@.len() - 1;
                let ghost p0 = self.pos as int;
                let ghost prev = self.arena();
                proof {
                    if multi {
                        assert(self.tok_ahead(0) == tok_at(toks, p0));
                        assert(self.tok_ahead(1) == tok_at(toks, p0 + 1));
                        assert(self.tok_ahead(2) == tok_at(toks, p0 + 2));
                        assert(self.tok_ahead(3) == tok_at(toks, p0 + 3));
                        assert(prev.len() == self.count());
                    }
                }
                let (label, arg) = self.parse_labeled_expr(fuel - 1)?;
                let ghost pushed = self.arena();
                match label {
                    Some(l) => self.label_last(String::from_str(l)),
                    None => {},
                }
                proof {
                    if multi {
                        let t0 = tok_at(toks, p0);
                        let labeled = (t0.kind == TokenKind::Identifier || t0.kind == TokenKind::Keyword) && tok_at(
                            toks,
                            p0 + 1,
                        ).kind == TokenKind::Colon;
                        let a = if labeled {
                            p0 + 2
                        } else {
                            p0
                        };
                        let item = all[m];
                        let rest = all.subrange(m, all.len() as int);
                        assert(rest[0] == item);
                        assert(item.0 == atom_node_kind(tok_at(toks, a)).unwrap());
                        assert(self.arena().len() == self.count());
                        assert(arg == prev.len());
                        assert(self.arena().subrange(0, prev.len() as int) =~= prev);
                        lemma_args_step(
                            old(self).arena(),
                            prev,
                            self.arena(),
                            kids@,
                            callee,
                            all.subrange(0, m),
                            item,
                            arg,
                        );
                        assert(all.subrange(0, m).push(item) =~= all.subrange(0, m + 1));
                        assert(self.pos as int == a + 1);
                        assert(self.tokens@[self.pos as int] == tok_at(toks, a + 1));
                        if tok_at(toks, a + 1).kind == TokenKind::Comma {
                            assert(rest.subrange(1, rest.len() as int) =~= all.subrange(m + 1, all.len() as int));
                        } else {
                            assert(rest.len() == 1);
                        }
                    }
                }
                proof {
                    if single {
                        assert(self.tokens@ == old(self).tokens@);
                        assert(self.arena().len() == self.count());
                        assert(old(self).arena().len() == old(self).count());
                        assert(arg == old(self).count());
                    }
                }
                keep(&mut kids, arg, Ghost(self.count() as int));
                if self.at_kind(TokenKind::Comma) {
                    self.bump();
                    continue;
                }
                break;
            }
        }
        proof {
            if multi {
                assert(self.tokens@[self.pos as int] == tok_at(toks, self.pos as int));
            }
        }
        self.expect(close)?;
        Ok(kids)
    }

    /// A trailing closure `expr { ... }`: a call with the closure as its
    /// last argument, extending `expr`'s own arguments when `expr` is already
    /// a call (otherwise the new call sits at the closure's line, column 1).
    #[verifier::loop_isolation(false)]
    fn trailing_closure(&mut self, expr: usize, fuel: u32) -> (r: Result<usize, ParseError>)
        requires
            old(self).wf(),
            is_last(old(self), expr),
        ensures
            extends(old(self), final(self)),
            r matches Ok(id) ==> is_last(final(self), id),
            r is Ok ==> old(self).cursor() < final(self).cursor(),
            fuel > 8 && at_atom_closure(old(self)) && old(self).arena()[expr as int].kind != NodeKind::CallExpr
                ==> ({
                &&& r matches Ok(id)
                &&& final(self).arena()[id as int].kind == NodeKind::CallExpr
                &&& final(self).arena()[id as int].children.len() == 2
                &&& final(self).arena()[id as int].children[0] == expr
                &&& final(self).arena()[final(self).arena()[id as int].children[1] as int].kind
                    == NodeKind::ClosureExpr
                &&& final(self).cursor() == atom_stmts_end(old(self).tokens@, old(self).cursor() as int + 1) + 1
                &&& final(self).tokens@ == old(self).tokens@
            }),
        decreases fuel,
    {
        if fuel == 0 {
            return Err(self.too_deep());
        }
        let kind = self.nodes[expr].kind;
        let expr_line = self.nodes[expr].line;
        let expr_col = self.nodes[expr].col;
        assert(kind == self.arena()[expr as int].kind);
        let closure = self.parse_closure(fuel - 1)?;
        let closure_line = self.nodes[closure].line;
        let mut kids: Vec<usize> = Vec::new();
        if kind == NodeKind::CallExpr {
            proof {
                assert(node_wf(self.arena(), expr as int));
            }
            kids = copy_ids(&self.nodes[expr].children);
            assert(ids_below(kids@, self.count() as int)) by {
                assert forall|i: int| 0 <= i < kids@.len() implies #[trigger] kids@[i] < self.count() by {
                    assert(self.arena()[expr as int].children[i] < expr);
                }
            }
        } else {
            keep(&mut kids, expr, Ghost(self.count() as int));
        }
        keep(&mut kids, closure, Ghost(self.count() as int));
        if kind == NodeKind::CallExpr {
            Ok(self.add(NodeKind::CallExpr, None, expr_line, expr_col, kids))
        } else {
            Ok(self.add(NodeKind::CallExpr, None, closure_line, 1, kids))
        }
    }

    /// A closure `{ [captures] signature in statements }`: the captures, the
    /// signature's named parameters, then the body statements as children.
    #[verifier::loop_isolation(false)]
    fn parse_closure(&mut self, fuel: u32) -> (r: Result<usize, ParseError>)
        requires
            old(self).wf(),
        ensures
            extends(old(self), final(self)),
            r matches Ok(id) ==> is_last(final(self), id),
            r is Ok ==> old(self).cursor() < final(self).cursor(),
            fuel > 7 && at_atom_closure(old(self)) ==> ({
                let toks = old(self).tokens@;
                let k = old(self).cursor() as int + 1;
                &&& r matches Ok(id)
                &&& final(self).arena()[id as int].kind == NodeKind::ClosureExpr
                &&& final(self).arena()[id as int].children.len() == atom_stmt_count(toks, k)
                &&& forall|i: int|
                    0 <= i < final(self).arena()[id as int].children.len() ==> final(self).arena()[
                        #[trigger] final(self).arena()[id as int].children[i] as int].kind == NodeKind::ExprStmt
                &&& final(self).cursor() == atom_stmts_end(toks, k) + 1
                &&& final(self).tokens@ == toks
            }),
        decreases fuel,
    {
        if fuel == 0 {
            return Err(self.too_deep());
        }
        let f = fuel - 1;
        let open = self.expect(TokenKind::LBrace)?;
        let mut kids: Vec<usize> = Vec::new();
        if self.at_kind(TokenKind::LBracket) {
            kids = self.parse_capture_list(f)?;
        }
        proof {
            if fuel > 7 && old(self).cur_kind() == TokenKind::LBrace && old(self).tok_ahead(1).kind
                != TokenKind::LBracket {
                assert(self.tok_ahead(0) == old(self).tok_ahead(1));
            }
        }
        let params = self.try_closure_signature();
        keep_all(&mut kids, &params, Ghost(self.count() as int));
        let saved = self.no_trailing;
        self.no_trailing = false;
        let ghost toks = old(self).tokens@;
        let ghost k0 = old(self).cursor() as int + 1;
        let ghost atoms = fuel > 7 && at_atom_closure(old(self));
        loop
            invariant
                extends(old(self), self),
                ids_below(kids@, self.count() as int),
                atoms ==> {
                    &&& self.tokens@ == toks
                    &&& atom_stmts(toks, self.cursor() as int)
                    &&& kids@.len() + atom_stmt_count(toks, self.cursor() as int) == atom_stmt_count(toks, k0)
                    &&& atom_stmts_end(toks, self.cursor() as int) == atom_stmts_end(toks, k0)
                    &&& forall|i: int|
                        0 <= i < kids@.len() ==> self.arena()[#[trigger] kids@[i] as int].kind
                            == NodeKind::ExprStmt
                },
            decreases self.token_count() - self.cursor(),
        {
            let ghost c0 = self.cursor() as int;
            let ghost head = self.arena();
            self.skip_semicolons();
            proof {
                if atoms {
                    lemma_atom_stmts_skip(toks, c0, self.cursor() as int);
                }
            }
            if self.at_kind(TokenKind::RBrace) || self.at_eof() {
                break;
            }
            let before = self.pos;
            let ghost mid = *self;
            let ids = self.append_statement(f)?;
            if self.pos <= before {
                return Err(self.error_here(String::from_str("expected a statement")));
            }
            let ghost prev = kids@;
            keep_all(&mut kids, &ids, Ghost(self.count() as int));
            proof {
                if atoms {
                    let n = mid.count() as int;
                    assert(self.arena().subrange(0, n) == mid.arena());
                    assert forall|i: int| 0 <= i < kids@.len() implies self.arena()[#[trigger] kids@[i] as int].kind
                        == NodeKind::ExprStmt by {
                        if i < prev.len() {
                            assert(kids@[i] == prev[i]);
                            assert(head[prev[i] as int].kind == NodeKind::ExprStmt);
                            assert(mid.arena()[prev[i] as int] == head[prev[i] as int]);
                            assert(prev[i] < n);
                            assert(self.arena()[prev[i] as int] == self.arena().subrange(0, n)[prev[i] as int]);
                        } else {
                            assert(kids@[i] == ids@[i - prev.len()]);
                        }
                    }
                }
            }
        }
        self.no_trailing = saved;
        self.expect(TokenKind::RBrace)?;
        let ghost before_add = self.arena();
        let id = self.add(NodeKind::ClosureExpr, None, open.line, open.col, kids);
        proof {
            if atoms {
                assert forall|i: int| 0 <= i < kids@.len() implies self.arena()[#[trigger] kids@[i] as int]
                    == before_add[kids@[i] as int] by {
                    assert(self.arena()[kids@[i] as int] == before_add.push(self.arena()[id as int])[kids@[i] as int]);
                }
            }
        }
        Ok(id)
    }

    /// A capture list `[weak self, base = 100, x]`: one `ClosureCapture` per
    /// entry (text = name, child = its initializer), `weak`/`unowned`
    /// recorded as modifiers.
    #[verifier::loop_isolation(false)]
    fn parse_capture_list(&mut self, fuel: u32) -> (r: Result<Vec<usize>, ParseError>)
        requires
            old(self).wf(),
        ensures
            extends(old(self), final(self)),
            r matches Ok(ids) ==> ids_below(ids@, final(self).count() as int),
            fuel > 0 && old(self).cur_kind() != TokenKind::LBracket ==> (r matches Err(e) && e.message@
                == "expected "@ + kind_text(TokenKind::LBracket) + ", found "@ + kind_text(old(self).cur_kind())),
            fuel > 0 && old(self).cur_kind() == TokenKind::LBracket && old(self).tok_ahead(1).kind
                == TokenKind::RBracket ==> ({
                &&& r matches Ok(ids)
                &&& ids@.len() == 0
                &&& final(self).cursor() == old(self).cursor() + 2
                &&& final(self).arena() == old(self).arena()
            }),
            fuel > 0 && old(self).cur_kind() == TokenKind::LBracket && old(self).tok_ahead(1).kind
                == TokenKind::Identifier && old(self).tok_ahead(2).kind == TokenKind::RBracket ==> ({
                &&& r matches Ok(ids)
                &&& ids@.len() == 1
                &&& final(self).arena()[ids@[0] as int].kind == NodeKind::ClosureCapture
                &&& final(self).arena()[ids@[0] as int].text == Some(old(self).tok_ahead(1).text@)
                &&& final(self).cursor() == old(self).cursor() + 3
            }),
        decreases fuel,
    {
        if fuel == 0 {
            return Err(self.too_deep());
        }
        let f = fuel - 1;
        self.expect(TokenKind::LBracket)?;
        let mut out: Vec<usize> = Vec::new();
        if self.at_kind(TokenKind::RBracket) {
            self.bump();
            return Ok(out);
        }
        let ghost single = old(self).cur_kind() == TokenKind::LBracket && old(self).tok_ahead(1).kind
            == TokenKind::Identifier && old(self).tok_ahead(2).kind == TokenKind::RBracket;
        loop
            invariant
                extends(old(self), self),
                ids_below(out@, self.count() as int),
                single ==> out@.len() == 0 && self.pos == old(self).pos + 1 && self.tokens@
                    == old(self).tokens@,
            decreases self.token_count() - self.cursor(),
        {
            let ghost start = self.cursor();
            let mut own: u32 = 0;
            if self.at_keyword("weak") || self.at_keyword("unowned") {
                let t = self.bump();
                own = if str_same(t.text, "weak") {
                    decode::WEAK
                } else {
                    decode::UNOWNED
                };
                if self.at_kind(TokenKind::LParen) {
                    self.skip_balanced_parens();
                }
            }
            let name = self.peek();
            if !(name.kind == TokenKind::Identifier || name.kind == TokenKind::Keyword) {
                return Err(self.error_here(found_message("expected a capture name", name.kind)));
            }
            let ghost mid = self.cursor();
            self.bump();
            assert(self.cursor() == mid + 1 && start <= mid);
            let mut ck: Vec<usize> = Vec::new();
            if self.at_oper("=") {
                self.bump();
                let init = self.parse_expr(0, f)?;
                keep(&mut ck, init, Ghost(self.count() as int));
            }
            let mut n = plain_node(NodeKind::ClosureCapture, Some(String::from_str(name.text)), name.line, name.col, ck);
            n.modifiers = own;
            proof {
                if single {
                    assert(name == old(self).tok_ahead(1));
                    assert(self.tok_ahead(0) == old(self).tok_ahead(2));
                }
            }
            let id = self.push(n);
            keep(&mut out, id, Ghost(self.count() as int));
            if self.at_kind(TokenKind::Comma) {
                self.bump();
                continue;
            }
            break;
        }
        self.expect(TokenKind::RBracket)?;
        Ok(out)
    }

    /// Read a closure signature ending in `in`, if the tokens form one: the
    /// names in parameter position become `Param` nodes (marked `inout` when
    /// so declared); types, effects and the return type are skipped. When the
    /// tokens are not a signature the cursor is left where it was and no node
    /// is made.
    #[verifier::loop_isolation(false)]
    fn try_closure_signature(&mut self) -> (r: Vec<usize>)
        requires
            old(self).wf(),
        ensures
            extends(old(self), final(self)),
            ids_below(r@, final(self).count() as int),
            !closure_sig_token(old(self).tok_ahead(0)) && !(old(self).tok_ahead(0).kind == TokenKind::Keyword
                && old(self).tok_ahead(0).text@ == "in"@) ==> ({
                &&& r@.len() == 0
                &&& final(self).cursor() == old(self).cursor()
                &&& final(self).arena() == old(self).arena()
                &&& final(self).tokens@ == old(self).tokens@
            }),
            old(self).tok_ahead(0).kind == TokenKind::Identifier && old(self).tok_ahead(0).text@ != "_"@ && old(
                self,
            ).tok_ahead(1).kind == TokenKind::Keyword && old(self).tok_ahead(1).text@ == "in"@ ==> ({
                &&& r@.len() == 1
                &&& final(self).arena()[r@[0] as int].kind == NodeKind::Param
                &&& final(self).arena()[r@[0] as int].text == Some(old(self).tok_ahead(0).text@)
                &&& final(self).cursor() == old(self).cursor() + 2
            }),
    {
        let save = self.pos;
        let mut names: Vec<(Token<'a>, bool)> = Vec::new();
        let mut expect_name = true;
        let mut in_type = false;
        let mut depth: i64 = 0;
        let ghost mut stage: int = 0;
        let ghost p1 = !closure_sig_token(old(self).tok_ahead(0)) && !(old(self).tok_ahead(0).kind
            == TokenKind::Keyword && old(self).tok_ahead(0).text@ == "in"@);
        let ghost p2 = old(self).tok_ahead(0).kind == TokenKind::Identifier && old(self).tok_ahead(0).text@
            != "_"@ && old(self).tok_ahead(1).kind == TokenKind::Keyword && old(self).tok_ahead(1).text@ == "in"@;
        loop
            invariant
                p1 ==> stage == 0,
                p2 ==> stage == 0 || stage == 1,
                extends(old(self), self),
                self.count() == old(self).count(),
                old(self).cursor() <= save <= self.cursor(),
                save == old(self).pos,
                stage == 0 ==> {
                    &&& self.pos == old(self).pos
                    &&& names@.len() == 0
                    &&& depth == 0
                    &&& expect_name && !in_type
                    &&& self.arena() == old(self).arena()
                    &&& self.tokens@ == old(self).tokens@
                },
                stage == 1 ==> {
                    &&& self.pos == old(self).pos + 1
                    &&& names@.len() == 1
                    &&& names@[0].0 == old(self).tok_ahead(0)
                    &&& depth == 0
                    &&& self.arena() == old(self).arena()
                    &&& self.tokens@ == old(self).tokens@
                },
            decreases self.token_count() - self.cursor(),
        {
            let ghost start = self.cursor();
            let ghost was = stage;
            let t = self.peek();
            if depth == 0 && t.kind == TokenKind::Keyword && str_same(t.text, "in") {
                self.bump();
                let mut out: Vec<usize> = Vec::new();
                let mut k: usize = 0;
                while k < names.len()
                    invariant
                        extends(old(self), self),
                        ids_below(out@, self.count() as int),
                        k <= names@.len(),
                        out@.len() == k,
                        p2 && was == 1 ==> {
                            &&& names@.len() == 1
                            &&& names@[0].0 == old(self).tok_ahead(0)
                            &&& self.pos == old(self).pos + 2
                            &&& k >= 1 ==> self.arena()[out@[0] as int].kind == NodeKind::Param
                                && self.arena()[out@[0] as int].text == Some(old(self).tok_ahead(0).text@)
                        },
                    decreases names@.len() - k,
                {
                    let (nt, is_inout) = names[k];
                    let mut n = plain_node(NodeKind::Param, Some(String::from_str(nt.text)), nt.line, nt.col, Vec::new());
                    if is_inout {
                        n.modifiers = decode::INOUT;
                    }
                    let id = self.push(n);
                    keep(&mut out, id, Ghost(self.count() as int));
                    k += 1;
                }
                return out;
            }
            let signature_like = t.kind == TokenKind::Identifier || t.kind == TokenKind::Comma || t.kind
                == TokenKind::Colon || t.kind == TokenKind::LParen || t.kind == TokenKind::RParen || (t.kind
                == TokenKind::Oper && str_same(t.text, "->")) || (t.kind == TokenKind::Keyword && (str_same(
                t.text,
                "inout",
            ) || str_same(t.text, "throws") || str_same(t.text, "rethrows") || str_same(t.text, "async")));
            if !signature_like {
                self.pos = save;
                return Vec::new();
            }
            proof {
                stage = 2;
            }
            if t.kind == TokenKind::Identifier && expect_name && !in_type && !str_same(t.text, "_") {
                names.push((t, false));
                expect_name = false;
                proof {
                    if was == 0 {
                        stage = 1;
                    }
                }
            } else if t.kind == TokenKind::Keyword && str_same(t.text, "inout") {
                let len = names.len();
                if len > 0 {
                    let (lt, _) = names[len - 1];
                    names.set(len - 1, (lt, true));
                }
            } else if t.kind == TokenKind::Keyword {
                let ghost mid = self.cursor();
                self.bump();
                assert(self.cursor() == mid + 1);
                if self.at_kind(TokenKind::LParen) {
                    let mut d: i64 = 0;
                    loop
                        invariant
                            extends(old(self), self),
                            self.count() == old(self).count(),
                            old(self).cursor() <= save <= self.cursor(),
                            save == old(self).pos,
                            start < self.cursor(),
                        decreases self.token_count() - self.cursor(),
                    {
                        let k = self.peek_kind();
                        if k == TokenKind::LParen {
                            if d < i64::MAX {
                                d += 1;
                            }
                        } else if k == TokenKind::RParen {
                            if d == 1 {
                                self.bump();
                                break;
                            }
                            if d > i64::MIN {
                                d -= 1;
                            }
                        } else if k == TokenKind::Eof {
                            self.pos = save;
                            return Vec::new();
                        }
                        self.bump();
                    }
                }
                continue;
            } else if t.kind == TokenKind::Comma {
                expect_name = true;
                in_type = false;
            } else if t.kind == TokenKind::LParen {
                if depth < i64::MAX {
                    depth += 1;
                }
                expect_name = true;
            } else if t.kind == TokenKind::RParen {
                if depth > i64::MIN {
                    depth -= 1;
                }
                in_type = false;
            } else if t.kind == TokenKind::Colon || t.kind == TokenKind::Oper {
                in_type = true;
            }
            self.bump();
        }
    }

    /// A key path `\Root.a.b` or `\.a.b`: the root as a `TypeRef` child, then
    /// one `IdentExpr` per component (`self` included); an optional-chaining
    /// `?` after a component is dropped.
    #[verifier::loop_isolation(false)]
    fn parse_keypath(&mut self) -> (r: Result<usize, ParseError>)
        requires
            old(self).wf(),
        ensures
            extends(old(self), final(self)),
            r matches Ok(id) ==> is_last(final(self), id),
            old(self).cur_kind() != TokenKind::Eof && old(self).tok_ahead(1).kind == TokenKind::Identifier
                && old(self).tok_ahead(2).kind != TokenKind::Dot ==> ({
                &&& r matches Ok(id)
                &&& final(self).arena()[id as int].kind == NodeKind::KeyPathExpr
                &&& final(self).arena()[id as int].children.len() == 1
                &&& final(self).arena()[final(self).arena()[id as int].children[0] as int].kind
                    == NodeKind::TypeRef
                &&& final(self).arena()[final(self).arena()[id as int].children[0] as int].text == Some(
                    old(self).tok_ahead(1).text@,
                )
                &&& final(self).cursor() == old(self).cursor() + 2
            }),
            old(self).cur_kind() != TokenKind::Eof && old(self).tok_ahead(1).kind == TokenKind::Dot && !(old(
                self,
            ).tok_ahead(2).kind == TokenKind::Identifier || (old(self).tok_ahead(2).kind == TokenKind::Keyword
                && old(self).tok_ahead(2).text@ == "self"@)) ==> (r matches Err(e) && e.message@
                == "expected a key-path component"@ + ", found "@ + kind_text(old(self).tok_ahead(2).kind)),
    {
        let bs = self.bump();
        let mut kids: Vec<usize> = Vec::new();
        if self.at_kind(TokenKind::Identifier) {
            let root = self.bump();
            let r = self.add(NodeKind::TypeRef, Some(String::from_str(root.text)), root.line, root.col, Vec::new());
            keep(&mut kids, r, Ghost(self.count() as int));
        }
        let ghost rooted = old(self).cur_kind() != TokenKind::Eof && old(self).tok_ahead(1).kind
            == TokenKind::Identifier && old(self).tok_ahead(2).kind != TokenKind::Dot;
        let ghost dotted = old(self).cur_kind() != TokenKind::Eof && old(self).tok_ahead(1).kind == TokenKind::Dot
            && !(old(self).tok_ahead(2).kind == TokenKind::Identifier || (old(self).tok_ahead(2).kind
            == TokenKind::Keyword && old(self).tok_ahead(2).text@ == "self"@));
        let ghost snap = *self;
        let ghost snap_kids = kids@;
        while self.at_kind(TokenKind::Dot)
            invariant
                extends(old(self), self),
                ids_below(kids@, self.count() as int),
                rooted || dotted ==> self.pos == snap.pos && self.nodes@ == snap.nodes@ && self.tokens@
                    == snap.tokens@ && kids@ == snap_kids,
                rooted ==> snap.tokens@ == old(self).tokens@ && snap.pos == old(self).pos + 2,
                dotted ==> snap.tokens@ == old(self).tokens@ && snap.pos == old(self).pos + 1,
            decreases self.token_count() - self.cursor(),
        {
            self.bump();
            let comp = self.peek();
            proof {
                if dotted {
                    assert(comp == old(self).tok_ahead(2));
                }
            }
            if !(comp.kind == TokenKind::Identifier || (comp.kind == TokenKind::Keyword && str_same(comp.text, "self"))) {
                return Err(self.error_here(found_message("expected a key-path component", comp.kind)));
            }
            self.bump();
            let c = self.add(NodeKind::IdentExpr, Some(String::from_str(comp.text)), comp.line, comp.col, Vec::new());
            keep(&mut kids, c, Ghost(self.count() as int));
            if self.at_kind(TokenKind::Question) {
                self.bump();
            }
        }
        let ghost before = self.arena();
        let id = self.add(NodeKind::KeyPathExpr, None, bs.line, bs.col, kids);
        proof {
            if rooted {
                assert(snap.tok_ahead(0) == old(self).tok_ahead(2));
                assert(self.arena()[kids@[0] as int] == before[kids@[0] as int]);
            }
        }
        Ok(id)
    }

    /// The argument list of a call `(...)` or of a subscript `[...]` over
    /// `expr`, whose opening bracket `t` is at the cursor: the new call or
    /// subscript node, the last one stored.
    fn arg_suffix(&mut self, expr: usize, t: Token<'a>, fuel: u32) -> (r: Result<usize, ParseError>)
        requires
            old(self).wf(),
            is_last(old(self), expr),
            t == old(self).tok_ahead(0),
            t.kind == TokenKind::LParen || t.kind == TokenKind::LBracket,
        ensures
            extends(old(self), final(self)),
            r matches Ok(id) ==> is_last(final(self), id),
            r is Ok ==> old(self).cursor() < final(self).cursor(),
            fuel > 1 && old(self).tok_ahead(1).kind == close_of(t.kind) ==> ({
                &&& r matches Ok(id)
                &&& final(self).arena() == old(self).arena().push(final(self).arena()[id as int])
                &&& final(self).arena()[id as int].kind == (if t.kind == TokenKind::LParen {
                    NodeKind::CallExpr
                } else {
                    NodeKind::SubscriptExpr
                })
                &&& final(self).arena()[id as int].children == seq![expr]
                &&& final(self).cursor() == old(self).cursor() + 2
                &&& final(self).tokens@ == old(self).tokens@
            }),
            fuel > 5 && lone_atom(old(self).tok_ahead(1)) && old(self).tok_ahead(2).kind == close_of(t.kind) ==> ({
                let a = old(self).count() as int;
                &&& r matches Ok(id)
                &&& id == a + 1
                &&& final(self).arena() == old(self).arena().push(final(self).arena()[a]).push(
                    final(self).arena()[a + 1],
                )
                &&& final(self).arena()[a].kind == atom_node_kind(old(self).tok_ahead(1)).unwrap()
                &&& final(self).arena()[a + 1].kind == (if t.kind == TokenKind::LParen {
                    NodeKind::CallExpr
                } else {
                    NodeKind::SubscriptExpr
                })
                &&& final(self).arena()[a + 1].children == seq![expr, a as usize]
                &&& final(self).cursor() == old(self).cursor() + 3
                &&& final(self).tokens@ == old(self).tokens@
            }),
            fuel > 5 ==> (atom_args(old(self).tokens@, old(self).cursor() as int + 1, close_of(t.kind)) matches Some(
                (items, e),
            ) ==> ({
                let a = old(self).count() + items.len();
                &&& r matches Ok(id) && id == a
                &&& final(self).arena().len() == a + 1
                &&& atom_args_built(
                    old(self).arena(),
                    final(self).arena().subrange(0, a as int),
                    final(self).arena()[a as int].children,
                    expr,
                    items,
                )
                &&& final(self).arena()[a as int].kind == (if t.kind == TokenKind::LParen {
                    NodeKind::CallExpr
                } else {
                    NodeKind::SubscriptExpr
                })
                &&& final(self).cursor() == e + 1
                &&& final(self).tokens@ == old(self).tokens@
            })),
        decreases fuel,
    {
        if fuel == 0 {
            return Err(self.too_deep());
        }
        self.bump();
        proof {
            assert(self.pos == old(self).pos + 1);
            assert(self.tok_ahead(0) == old(self).tok_ahead(1));
            assert(self.tok_ahead(1) == old(self).tok_ahead(2));
        }
        let close = if t.kind == TokenKind::LParen {
            TokenKind::RParen
        } else {
            TokenKind::RBracket
        };
        let kids = self.parse_args(expr, close, fuel - 1)?;
        let ghost mid = self.arena();
        let ghost kv = kids@;
        let id = if t.kind == TokenKind::LParen {
            self.add(NodeKind::CallExpr, None, t.line, t.col, kids)
        } else {
            self.add(NodeKind::SubscriptExpr, Some(String::from_str("[")), t.line, t.col, kids)
        };
        proof {
            assert(self.arena().subrange(0, mid.len() as int) =~= mid);
            assert(self.arena()[id as int].children == kv);
        }
        Ok(id)
    }

    /// Trailing generic clause, `!`, `?.`, trailing closure, call `(...)`,
    /// subscript `[...]` and member `.x` suffixes.
    #[verifier::loop_isolation(false)]
    #[verifier::rlimit(100)]
    #[verifier::spinoff_prover]
    fn parse_postfix(&mut self, start: usize, fuel: u32) -> (r: Result<usize, ParseError>)
        requires
            old(self).wf(),
            is_last(old(self), start),
        ensures
            extends(old(self), final(self)),
            r matches Ok(id) ==> is_last(final(self), id),
            fuel > 0 && (ends_postfix(old(self).tok_ahead(0)) || (old(self).tok_ahead(0).kind
                == TokenKind::LBrace && old(self).in_condition())) ==> ({
                &&& r matches Ok(id) && id == start
                &&& final(self).cursor() == old(self).cursor()
                &&& final(self).arena() == old(self).arena()
                &&& final(self).tokens@ == old(self).tokens@
                &&& final(self).in_condition() == old(self).in_condition()
            }),
            fuel > 2 && old(self).tok_ahead(0).kind == TokenKind::LParen && !old(self).tok_ahead(0).leading_newline
                && old(self).tok_ahead(1).kind == TokenKind::RParen && ends_postfix(old(self).tok_ahead(2)) ==> ({
                &&& r matches Ok(id)
                &&& final(self).arena() == old(self).arena().push(final(self).arena()[id as int])
                &&& final(self).arena()[id as int].kind == NodeKind::CallExpr
                &&& final(self).arena()[id as int].children == seq![start]
                &&& final(self).cursor() == old(self).cursor() + 2
            }),
            fuel > 0 && old(self).tok_ahead(0).kind == TokenKind::Dot && old(self).tok_ahead(1).kind
                == TokenKind::Identifier && ends_postfix(old(self).tok_ahead(2)) ==> ({
                &&& r matches Ok(id)
                &&& final(self).arena() == old(self).arena().push(final(self).arena()[id as int])
                &&& final(self).arena()[id as int].kind == NodeKind::MemberExpr
                &&& final(self).arena()[id as int].text == Some(old(self).tok_ahead(1).text@)
                &&& final(self).arena()[id as int].children == seq![start]
                &&& final(self).cursor() == old(self).cursor() + 2
            }),
            fuel > 0 && old(self).tok_ahead(0).kind == TokenKind::Oper && old(self).tok_ahead(0).text@ == "!"@
                && ends_postfix(old(self).tok_ahead(1)) ==> ({
                &&& r matches Ok(id)
                &&& final(self).arena() == old(self).arena().push(final(self).arena()[id as int])
                &&& final(self).arena()[id as int].kind == NodeKind::PostfixExpr
                &&& final(self).arena()[id as int].text == Some("!"@)
                &&& final(self).arena()[id as int].children == seq![start]
                &&& final(self).cursor() == old(self).cursor() + 1
            }),
            fuel > 6 && (old(self).tok_ahead(0).kind == TokenKind::LParen || old(self).tok_ahead(0).kind
                == TokenKind::LBracket) && !old(self).tok_ahead(0).leading_newline && lone_atom(old(self).tok_ahead(1))
                && old(self).tok_ahead(2).kind == close_of(old(self).tok_ahead(0).kind) && ends_postfix(
                old(self).tok_ahead(3),
            ) ==> ({
                let a = old(self).count() as int;
                &&& r matches Ok(id)
                &&& id == a + 1
                &&& final(self).arena() == old(self).arena().push(final(self).arena()[a]).push(
                    final(self).arena()[a + 1],
                )
                &&& final(self).arena()[a].kind == atom_node_kind(old(self).tok_ahead(1)).unwrap()
                &&& final(self).arena()[a + 1].kind == (if old(self).tok_ahead(0).kind == TokenKind::LParen {
                    NodeKind::CallExpr
                } else {
                    NodeKind::SubscriptExpr
                })
                &&& final(self).arena()[a + 1].children == seq![start, a as usize]
                &&& final(self).cursor() == old(self).cursor() + 3
            }),
            fuel > 0 && old(self).tok_ahead(0).kind == TokenKind::Question && old(self).tok_ahead(1).kind
                == TokenKind::Dot && old(self).tok_ahead(2).kind == TokenKind::Identifier && ends_postfix(
                old(self).tok_ahead(3),
            ) ==> ({
                &&& r matches Ok(id)
                &&& final(self).arena() == old(self).arena().push(final(self).arena()[id as int])
                &&& final(self).arena()[id as int].kind == NodeKind::MemberExpr
                &&& final(self).arena()[id as int].text == Some(old(self).tok_ahead(2).text@)
                &&& final(self).arena()[id as int].children == seq![start]
                &&& final(self).arena()[id as int].modifiers == decode::OPTIONAL_CHAIN
                &&& final(self).cursor() == old(self).cursor() + 3
            }),
            fuel > 6 && (old(self).tok_ahead(0).kind == TokenKind::LParen || old(self).tok_ahead(0).kind
                == TokenKind::LBracket) && !old(self).tok_ahead(0).leading_newline ==> (atom_args(
                old(self).tokens@,
                old(self).cursor() as int + 1,
                close_of(old(self).tok_ahead(0).kind),
            ) matches Some((items, e)) ==> (ends_postfix(tok_at(old(self).tokens@, e + 1)) ==> ({
                let a = old(self).count() + items.len();
                &&& r matches Ok(id) && id == a
                &&& final(self).arena().len() == a + 1
                &&& atom_args_built(
                    old(self).arena(),
                    final(self).arena().subrange(0, a as int),
                    final(self).arena()[a as int].children,
                    start,
                    items,
                )
                &&& final(self).arena()[a as int].kind == (if old(self).tok_ahead(0).kind == TokenKind::LParen {
                    NodeKind::CallExpr
                } else {
                    NodeKind::SubscriptExpr
                })
                &&& final(self).cursor() == e + 1
                &&& final(self).tokens@ == old(self).tokens@
            }))),
            fuel > 9 && trailing_atom_closure(old(self), start) ==> ({
                let e = atom_stmts_end(old(self).tokens@, old(self).cursor() as int + 1);
                &&& r matches Ok(id)
                &&& final(self).arena()[id as int].kind == NodeKind::CallExpr
                &&& final(self).arena()[id as int].children.len() == 2
                &&& final(self).arena()[id as int].children[0] == start
                &&& final(self).arena()[final(self).arena()[id as int].children[1] as int].kind
                    == NodeKind::ClosureExpr
                &&& final(self).cursor() == e + 1
            }),
        decreases fuel,
    {
        if fuel == 0 {
            return Err(self.too_deep());
        }
        let f = fuel - 1;
        let mut expr = start;
        let mut chained = false;
        let ghost premise = ends_postfix(old(self).tok_ahead(0)) || (old(self).tok_ahead(0).kind
            == TokenKind::LBrace && old(self).in_condition());
        let ghost form_call = fuel > 2 && old(self).tok_ahead(0).kind == TokenKind::LParen && !old(self).tok_ahead(
            0,
        ).leading_newline && old(self).tok_ahead(1).kind == TokenKind::RParen && ends_postfix(old(self).tok_ahead(2));
        let ghost form_member = old(self).tok_ahead(0).kind == TokenKind::Dot && old(self).tok_ahead(1).kind
            == TokenKind::Identifier && ends_postfix(old(self).tok_ahead(2));
        let ghost form_bang = old(self).tok_ahead(0).kind == TokenKind::Oper && old(self).tok_ahead(0).text@
            == "!"@ && ends_postfix(old(self).tok_ahead(1));
        let ghost n0 = old(self).count() as int;
        let ghost form_opt = old(self).tok_ahead(0).kind == TokenKind::Question && old(self).tok_ahead(1).kind
            == TokenKind::Dot && old(self).tok_ahead(2).kind == TokenKind::Identifier && ends_postfix(
            old(self).tok_ahead(3),
        );
        let ghost aa = atom_args(old(self).tokens@, old(self).pos as int + 1, close_of(old(self).tok_ahead(0).kind));
        let ghost aitems = aa.unwrap().0;
        let ghost aend = aa.unwrap().1;
        let ghost form_args = fuel > 6 && (old(self).tok_ahead(0).kind == TokenKind::LParen || old(self).tok_ahead(
            0,
        ).kind == TokenKind::LBracket) && !old(self).tok_ahead(0).leading_newline && aa is Some && ends_postfix(
            tok_at(old(self).tokens@, aend + 1),
        );
        let ghost form_tc = fuel > 9 && trailing_atom_closure(old(self), start);
        let ghost close_end = atom_stmts_end(old(self).tokens@, old(self).cursor() as int + 1);
        let ghost form_arg = fuel > 6 && (old(self).tok_ahead(0).kind == TokenKind::LParen || old(self).tok_ahead(
            0,
        ).kind == TokenKind::LBracket) && !old(self).tok_ahead(0).leading_newline && lone_atom(old(self).tok_ahead(1))
            && old(self).tok_ahead(2).kind == close_of(old(self).tok_ahead(0).kind) && ends_postfix(
            old(self).tok_ahead(3),
        );
        proof {
            reveal_strlit("!");
            assert("!"@[0] == '!');
        }
        loop
            invariant
                extends(old(self), self),
                is_last(self, expr),
                form_call || form_member || form_bang ==> ({
                    ||| expr == start && self.pos == old(self).pos && self.arena() == old(self).arena()
                        && !chained
                    ||| expr == n0 && self.arena() == old(self).arena().push(self.arena()[n0]) && self.arena()[n0].children
                        == seq![start] && (form_call ==> self.pos == old(self).pos + 2 && self.arena()[n0].kind
                        == NodeKind::CallExpr) && (form_member ==> self.pos == old(self).pos + 2
                        && self.arena()[n0].kind == NodeKind::MemberExpr && self.arena()[n0].text == Some(
                        old(self).tok_ahead(1).text@,
                    )) && (form_bang ==> self.pos == old(self).pos + 1 && self.arena()[n0].kind
                        == NodeKind::PostfixExpr && self.arena()[n0].text == Some("!"@))
                }) && self.tokens@ == old(self).tokens@,
                form_args ==> ({
                    ||| expr == start && self.pos == old(self).pos && self.arena() == old(self).arena()
                    ||| expr == n0 + aitems.len() && self.arena().len() == expr + 1 && atom_args_built(
                        old(self).arena(),
                        self.arena().subrange(0, expr as int),
                        self.arena()[expr as int].children,
                        start,
                        aitems,
                    ) && self.arena()[expr as int].kind == (if old(self).tok_ahead(0).kind == TokenKind::LParen {
                        NodeKind::CallExpr
                    } else {
                        NodeKind::SubscriptExpr
                    }) && self.pos == aend + 1
                }) && self.tokens@ == old(self).tokens@,
                form_args == (fuel > 6 && (old(self).tok_ahead(0).kind == TokenKind::LParen || old(self).tok_ahead(
                    0,
                ).kind == TokenKind::LBracket) && !old(self).tok_ahead(0).leading_newline && aa is Some
                    && ends_postfix(tok_at(old(self).tokens@, aend + 1))),
                aa == atom_args(old(self).tokens@, old(self).pos as int + 1, close_of(old(self).tok_ahead(0).kind)),
                aitems == aa.unwrap().0,
                aend == aa.unwrap().1,
                form_tc ==> ({
                    ||| expr == start && self.pos == old(self).pos && self.arena() == old(self).arena()
                        && self.no_trailing == old(self).no_trailing
                    ||| self.arena()[expr as int].kind == NodeKind::CallExpr && self.arena()[expr as int].children.len()
                        == 2 && self.arena()[expr as int].children[0] == start && self.arena()[self.arena()[
                        expr as int].children[1] as int].kind == NodeKind::ClosureExpr && self.pos == close_end + 1
                }) && self.tokens@ == old(self).tokens@,
                form_tc == (fuel > 9 && trailing_atom_closure(old(self), start)),
                close_end == atom_stmts_end(old(self).tokens@, old(self).cursor() as int + 1),
                form_opt ==> ({
                    ||| expr == start && self.pos == old(self).pos && self.arena() == old(self).arena() && !chained
                    ||| expr == start && self.pos == old(self).pos + 1 && self.arena() == old(self).arena() && chained
                    ||| expr == n0 && self.arena() == old(self).arena().push(self.arena()[n0]) && self.arena()[n0].kind
                        == NodeKind::MemberExpr && self.arena()[n0].text == Some(old(self).tok_ahead(2).text@)
                        && self.arena()[n0].children == seq![start] && self.arena()[n0].modifiers
                        == decode::OPTIONAL_CHAIN && self.pos == old(self).pos + 3
                }) && self.tokens@ == old(self).tokens@,
                form_opt == (old(self).tok_ahead(0).kind == TokenKind::Question && old(self).tok_ahead(1).kind
                    == TokenKind::Dot && old(self).tok_ahead(2).kind == TokenKind::Identifier && ends_postfix(
                    old(self).tok_ahead(3),
                )),
                form_arg ==> ({
                    ||| expr == start && self.pos == old(self).pos && self.arena() == old(self).arena()
                    ||| expr == n0 + 1 && self.arena() == old(self).arena().push(self.arena()[n0]).push(
                        self.arena()[n0 + 1],
                    ) && self.arena()[n0].kind == atom_node_kind(old(self).tok_ahead(1)).unwrap()
                        && self.arena()[n0 + 1].kind == (if old(self).tok_ahead(0).kind == TokenKind::LParen {
                        NodeKind::CallExpr
                    } else {
                        NodeKind::SubscriptExpr
                    }) && self.arena()[n0 + 1].children == seq![start, n0 as usize] && self.pos == old(self).pos + 3
                }) && self.tokens@ == old(self).tokens@,
                form_arg == (fuel > 6 && (old(self).tok_ahead(0).kind == TokenKind::LParen || old(self).tok_ahead(
                    0,
                ).kind == TokenKind::LBracket) && !old(self).tok_ahead(0).leading_newline && lone_atom(
                    old(self).tok_ahead(1),
                ) && old(self).tok_ahead(2).kind == close_of(old(self).tok_ahead(0).kind) && ends_postfix(
                    old(self).tok_ahead(3),
                )),
                n0 == old(self).count() as int,
                form_call == (fuel > 2 && old(self).tok_ahead(0).kind == TokenKind::LParen && !old(self).tok_ahead(
                    0,
                ).leading_newline && old(self).tok_ahead(1).kind == TokenKind::RParen && ends_postfix(
                    old(self).tok_ahead(2),
                )),
                form_member == (old(self).tok_ahead(0).kind == TokenKind::Dot && old(self).tok_ahead(1).kind
                    == TokenKind::Identifier && ends_postfix(old(self).tok_ahead(2))),
                form_bang == (old(self).tok_ahead(0).kind == TokenKind::Oper && old(self).tok_ahead(0).text@
                    == "!"@ && ends_postfix(old(self).tok_ahead(1))),
                "!"@[0] == '!',
                premise == (ends_postfix(old(self).tok_ahead(0)) || (old(self).tok_ahead(0).kind
                    == TokenKind::LBrace && old(self).in_condition())),
                premise ==> {
                    &&& expr == start
                    &&& self.pos == old(self).pos
                    &&& self.arena() == old(self).arena()
                    &&& self.tokens@ == old(self).tokens@
                    &&& self.no_trailing == old(self).no_trailing
                },
            decreases self.token_count() - self.cursor(),
        {
            let t = self.peek();
            let kind = self.nodes[expr].kind;
            if t.kind == TokenKind::Oper && (kind == NodeKind::IdentExpr || kind == NodeKind::MemberExpr)
                && self.generic_call_args().is_some() {
                match self.generic_call_args() {
                    Some(end) => {
                        if kind == NodeKind::IdentExpr && opt_is(&self.nodes[expr].text, "MemoryLayout") {
                            let inner = self.type_argument_text(end);
                            let line = self.nodes[expr].line;
                            let col = self.nodes[expr].col;
                            let ty = self.add(NodeKind::TypeRef, Some(inner), t.line, t.col, Vec::new());
                            expr = self.add(
                                NodeKind::IdentExpr,
                                Some(String::from_str("MemoryLayout")),
                                line,
                                col,
                                vec![ty],
                            );
                        }
                        self.pos = end;
                    },
                    None => {
                        break;
                    },
                }
                continue;
            }
            if t.kind == TokenKind::Oper && str_same(t.text, "!") {
                self.bump();
                expr = self.add(NodeKind::PostfixExpr, Some(String::from_str("!")), t.line, t.col, vec![expr]);
                continue;
            }
            if t.kind == TokenKind::Question && self.ahead(1).kind == TokenKind::Dot {
                self.bump();
                chained = true;
                proof {
                    if form_opt {
                        assert(self.pos == old(self).pos + 1);
                        assert(self.tok_ahead(0) == old(self).tok_ahead(1));
                        assert(self.tok_ahead(1) == old(self).tok_ahead(2));
                        assert(self.tok_ahead(2) == old(self).tok_ahead(3));
                    }
                }
                continue;
            }
            if t.kind == TokenKind::LBrace && !t.leading_newline && !self.no_trailing && !is_accessor_kw(
                self.ahead(1).text,
            ) {
                proof {
                    assert(t == self.tok_ahead(0));
                    assert(!(form_call || form_member || form_bang || form_arg || form_opt));
                    if form_tc {
                        assert(self.pos == old(self).pos);
                        assert(at_atom_closure(self));
                    }
                }
                expr = self.trailing_closure(expr, f)?;
                continue;
            }
            if (t.kind == TokenKind::LParen || t.kind == TokenKind::LBracket) && !t.leading_newline {
                proof {
                    assert(t == self.tok_ahead(0));
                    if form_call || form_arg || form_args {
                        assert(self.pos == old(self).pos);
                        assert(expr == start);
                        assert(self.arena() == old(self).arena());
                        assert(self.tok_ahead(1) == old(self).tok_ahead(1));
                    }
                }
                expr = self.arg_suffix(expr, t, f)?;
                proof {
                    assert(!(form_member || form_bang || form_opt || form_tc));
                    if form_call || form_arg || form_args {
                        assert(is_last(self, expr));
                    }
                    if form_call {
                        assert(self.arena().len() == self.count());
                        assert(old(self).arena().len() == old(self).count());
                        assert(expr == n0);
                        assert(self.arena() == old(self).arena().push(self.arena()[n0]));
                        assert(self.arena()[n0].children == seq![start]);
                        assert(self.pos == old(self).pos + 2);
                        assert(self.arena()[n0].kind == NodeKind::CallExpr);
                    }
                    if form_args {
                        assert(self.tok_ahead(0) == tok_at(old(self).tokens@, aend + 1));
                    }
                }
                continue;
            }
            if t.kind == TokenKind::Dot {
                self.bump();
                let name = self.peek();
                proof {
                    if form_opt && chained {
                        assert(self.pos == old(self).pos + 2);
                        assert(name == old(self).tok_ahead(2));
                    }
                }
                if !(name.kind == TokenKind::Identifier || name.kind == TokenKind::IntLiteral
                    || name.kind == TokenKind::Keyword) {
                    return Err(self.error_here(found_message(
                        "expected a member name or tuple index after '.'",
                        name.kind,
                    )));
                }
                self.bump();
                let mut n = plain_node(NodeKind::MemberExpr, Some(String::from_str(name.text)), t.line, t.col, vec![expr]);
                if chained {
                    n.modifiers = decode::OPTIONAL_CHAIN;
                }
                chained = false;
                expr = self.push(n);
                continue;
            }
            break;
        }
        Ok(expr)
    }
}

/// Nesting budget of a whole source file: deeper nesting is a syntax error.
const PARSE_FUEL: u32 = 600;

/// A declaration modifier run with no modifiers and no attributes.
fn no_meta() -> (m: DeclMeta)
    ensures
        m.attributes@.len() == 0,
{
    DeclMeta { modifiers: 0, attributes: Vec::new() }
}

impl<'a> Parser<'a> {
    /// Store a declaration node: `kids`, then the run's attribute nodes, as
    /// children; the run's modifiers plus `extra_mods` as its modifier mask.
    fn add_decl(
        &mut self,
        kind: NodeKind,
        text: Option<String>,
        line: u32,
        col: u32,
        meta: DeclMeta,
        kids: Vec<usize>,
        extra_mods: u32,
        type_text: Option<String>,
    ) -> (id: usize)
        requires
            old(self).wf(),
            ids_below(meta.attributes@, old(self).count() as int),
            ids_below(kids@, old(self).count() as int),
        ensures
            final(self).wf(),
            final(self).cursor() == old(self).cursor(),
            final(self).token_count() == old(self).token_count(),
            final(self).count() == old(self).count() + 1,
            id == old(self).count(),
            final(self).arena() == old(self).arena().push(final(self).arena()[id as int]),
            final(self).arena()[id as int].kind == kind,
            final(self).arena()[id as int].text == opt_view(text),
            final(self).arena()[id as int].children == kids@ + meta.attributes@,
            final(self).tokens@ == old(self).tokens@,
    {
        let mut all = kids;
        keep_all(&mut all, &meta.attributes, Ghost(self.count() as int));
        let mut n = plain_node(kind, text, line, col, all);
        n.modifiers = meta.modifiers | extra_mods;
        n.type_text = type_text;
        self.push(n)
    }

    /// Statements up to the closing `}` (not consumed), with `case` lines
    /// read as enum cases when `cases`.
    #[verifier::loop_isolation(false)]
    fn parse_body(&mut self, cases: bool, fuel: u32) -> (r: Result<Vec<usize>, ParseError>)
        requires
            old(self).wf(),
        ensures
            extends(old(self), final(self)),
            r matches Ok(ids) ==> ids_below(ids@, final(self).count() as int),
            r is Ok ==> final(self).cur_kind() == TokenKind::RBrace || final(self).cur_kind() == TokenKind::Eof,
            fuel == 0 ==> r is Err,
            fuel > 0 && empty_body_at(old(self).tokens@, old(self).cursor() as int) ==> {
                &&& r matches Ok(ids) && ids@.len() == 0
                &&& final(self).cursor() == after_semicolons(old(self).tokens@, old(self).cursor() as int)
                &&& final(self).arena() == old(self).arena()
                &&& final(self).tokens@ == old(self).tokens@
            },
            fuel > 7 && atom_stmts(old(self).tokens@, old(self).cursor() as int) ==> ({
                let toks = old(self).tokens@;
                let k = old(self).cursor() as int;
                &&& r matches Ok(ids)
                &&& ids@.len() == atom_stmt_count(toks, k)
                &&& forall|i: int|
                    0 <= i < ids@.len() ==> final(self).arena()[#[trigger] ids@[i] as int].kind
                        == NodeKind::ExprStmt
                &&& final(self).cursor() == atom_stmts_end(toks, k)
                &&& final(self).tokens@ == toks
                &&& final(self).arena().subrange(0, old(self).count() as int) == old(self).arena()
            }),
        decreases fuel,
    {
        if fuel == 0 {
            return Err(self.too_deep());
        }
        let f = fuel - 1;
        let mut out: Vec<usize> = Vec::new();
        let ghost toks = old(self).tokens@;
        let ghost k0 = old(self).cursor() as int;
        let ghost premise = empty_body_at(old(self).tokens@, old(self).cursor() as int);
        let ghost atoms = fuel > 7 && atom_stmts(toks, k0);
        let ghost mut first = true;
        loop
            invariant
                extends(old(self), self),
                ids_below(out@, self.count() as int),
                premise == empty_body_at(old(self).tokens@, old(self).cursor() as int),
                first ==> {
                    &&& self.tokens@ == old(self).tokens@
                    &&& self.pos == old(self).pos
                    &&& self.arena() == old(self).arena()
                    &&& out@.len() == 0
                },
                !first ==> !premise,
                atoms ==> {
                    &&& self.tokens@ == toks
                    &&& atom_stmts(toks, self.cursor() as int)
                    &&& out@.len() + atom_stmt_count(toks, self.cursor() as int) == atom_stmt_count(toks, k0)
                    &&& atom_stmts_end(toks, self.cursor() as int) == atom_stmts_end(toks, k0)
                    &&& forall|i: int|
                        0 <= i < out@.len() ==> self.arena()[#[trigger] out@[i] as int].kind
                            == NodeKind::ExprStmt
                    &&& self.arena().subrange(0, old(self).count() as int) == old(self).arena()
                },
            decreases self.token_count() - self.cursor(),
        {
            let ghost c0 = self.cursor() as int;
            let ghost head = self.arena();
            self.skip_semicolons();
            proof {
                if first {
                    lemma_after_semicolons(old(self).tokens@, old(self).cursor() as int, self.cursor() as int);
                }
                if atoms {
                    lemma_atom_stmts_skip(toks, c0, self.cursor() as int);
                }
            }
            if self.at_kind(TokenKind::RBrace) || self.at_eof() {
                break;
            }
            proof {
                first = false;
            }
            let before = self.pos;
            let ghost mid = *self;
            proof {
                if atoms {
                    let c = self.cursor() as int;
                    assert(self.at_lone_atom());
                }
            }
            let ids = if cases && self.at_keyword("case") {
                self.parse_enum_cases(f)?
            } else {
                self.append_statement(f)?
            };
            if self.pos <= before {
                return Err(self.error_here(String::from_str("expected a statement")));
            }
            let ghost prev = out@;
            keep_all(&mut out, &ids, Ghost(self.count() as int));
            proof {
                if atoms {
                    let n = mid.count() as int;
                    assert(self.arena().subrange(0, n) == mid.arena());
                    assert(self.arena().subrange(0, old(self).count() as int) =~= mid.arena().subrange(
                        0,
                        old(self).count() as int,
                    ));
                    assert forall|i: int| 0 <= i < out@.len() implies self.arena()[#[trigger] out@[i] as int].kind
                        == NodeKind::ExprStmt by {
                        if i < prev.len() {
                            assert(out@[i] == prev[i]);
                            assert(head[prev[i] as int].kind == NodeKind::ExprStmt);
                            assert(mid.arena()[prev[i] as int] == head[prev[i] as int]);
                            assert(prev[i] < n);
                            assert(self.arena()[prev[i] as int] == self.arena().subrange(0, n)[prev[i] as int]);
                        } else {
                            assert(out@[i] == ids@[i - prev.len()]);
                            assert(ids@[i - prev.len()] == n + 1);
                        }
                    }
                }
            }
        }
        Ok(out)
    }

    /// A braced `{ statements }` block.
    #[verifier::loop_isolation(false)]
    fn parse_block(&mut self, fuel: u32) -> (r: Result<usize, ParseError>)
        requires
            old(self).wf(),
        ensures
            extends(old(self), final(self)),
            r matches Ok(id) ==> is_last(final(self), id),
            r matches Ok(id) ==> final(self).arena()[id as int].kind == NodeKind::Block,
            r is Ok ==> old(self).cur_kind() == TokenKind::LBrace,
            old(self).cur_kind() != TokenKind::LBrace ==> r is Err,
            fuel > 1 && old(self).cur_kind() == TokenKind::LBrace && empty_body_at(
                old(self).tokens@,
                old(self).cursor() as int + 1,
            ) && old(self).tokens@[after_semicolons(old(self).tokens@, old(self).cursor() as int + 1)].kind
                == TokenKind::RBrace ==> {
                &&& r matches Ok(id) && final(self).arena()[id as int].children.len() == 0
                &&& final(self).cursor() == after_semicolons(old(self).tokens@, old(self).cursor() as int + 1) + 1
                &&& final(self).count() == old(self).count() + 1
            },
            fuel > 8 && old(self).cur_kind() == TokenKind::LBrace && atom_stmts(
                old(self).tokens@,
                old(self).cursor() as int + 1,
            ) && old(self).tokens@[atom_stmts_end(old(self).tokens@, old(self).cursor() as int + 1)].kind
                == TokenKind::RBrace ==> ({
                let toks = old(self).tokens@;
                let k = old(self).cursor() as int + 1;
                &&& r matches Ok(id)
                &&& final(self).arena()[id as int].children.len() == atom_stmt_count(toks, k)
                &&& forall|i: int|
                    0 <= i < final(self).arena()[id as int].children.len() ==> final(self).arena()[
                        #[trigger] final(self).arena()[id as int].children[i] as int].kind == NodeKind::ExprStmt
                &&& final(self).cursor() == atom_stmts_end(toks, k) + 1
                &&& final(self).tokens@ == toks
                &&& final(self).arena().subrange(0, old(self).count() as int) == old(self).arena()
            }),
        decreases fuel,
    {
        if fuel == 0 {
            return Err(self.too_deep());
        }
        let open = self.expect(TokenKind::LBrace)?;
        let kids = self.parse_body(false, fuel - 1)?;
        self.expect(TokenKind::RBrace)?;
        let ghost before = self.arena();
        let id = self.add(NodeKind::Block, Some(String::from_str("{")), open.line, open.col, kids);
        proof {
            assert forall|i: int| 0 <= i < kids@.len() implies self.arena()[#[trigger] kids@[i] as int]
                == before[kids@[i] as int] by {
                assert(self.arena()[kids@[i] as int] == before.push(self.arena()[id as int])[kids@[i] as int]);
            }
        }
        Ok(id)
    }

    /// Parse one statement and require a statement separator after it (a
    /// newline, `;`, `}`, a directive or the end), so that `let x = 1 let y
    /// = 2` on one line is rejected.
    #[verifier::loop_isolation(false)]
    fn append_statement(&mut self, fuel: u32) -> (r: Result<Vec<usize>, ParseError>)
        requires
            old(self).wf(),
        ensures
            extends(old(self), final(self)),
            r matches Ok(ids) ==> ids_below(ids@, final(self).count() as int),
            fuel > 4 && old(self).tok_ahead(0).kind == TokenKind::Keyword && (old(self).tok_ahead(0).text@
                == "let"@ || old(self).tok_ahead(0).text@ == "var"@) && bad_pattern_start(old(self).tok_ahead(1)) ==> (
            r matches Err(e) && e.message@ == "expected a binding pattern"@ + ", found "@ + kind_text(
                old(self).tok_ahead(1).kind,
            )),
            fuel > 6 && old(self).at_lone_atom() ==> lone_stmt_parsed(old(self), final(self), r),
            fuel > 12 && at_call_stmt(old(self)) ==> call_stmt_parsed(old(self), final(self), r),
        decreases fuel,
    {
        if fuel == 0 {
            return Err(self.too_deep());
        }
        let ids = self.parse_statement(fuel - 1)?;
        let t = self.peek();
        let separated = t.kind == TokenKind::RBrace || t.kind == TokenKind::Eof || t.kind
            == TokenKind::Semicolon || t.leading_newline || t.kind == TokenKind::Directive;
        if !separated {
            return Err(self.error_here(String::from_str("consecutive statements on a line must be separated by ';'")));
        }
        Ok(ids)
    }

    /// One statement: a labeled loop, or a (possibly modified) declaration,
    /// control-flow statement or expression.
    #[verifier::loop_isolation(false)]
    fn parse_statement(&mut self, fuel: u32) -> (r: Result<Vec<usize>, ParseError>)
        requires
            old(self).wf(),
        ensures
            extends(old(self), final(self)),
            r matches Ok(ids) ==> ids_below(ids@, final(self).count() as int),
            fuel > 3 && old(self).tok_ahead(0).kind == TokenKind::Keyword && (old(self).tok_ahead(0).text@
                == "let"@ || old(self).tok_ahead(0).text@ == "var"@) && bad_pattern_start(old(self).tok_ahead(1)) ==> (
            r matches Err(e) && e.message@ == "expected a binding pattern"@ + ", found "@ + kind_text(
                old(self).tok_ahead(1).kind,
            )),
            fuel > 5 && old(self).at_lone_atom() ==> lone_stmt_parsed(old(self), final(self), r),
            fuel > 11 && at_call_stmt(old(self)) ==> call_stmt_parsed(old(self), final(self), r),
        decreases fuel,
    {
        if fuel == 0 {
            return Err(self.too_deep());
        }
        let f = fuel - 1;
        if self.at_kind(TokenKind::Identifier) && self.ahead(1).kind == TokenKind::Colon
            && is_labelable(self.ahead(2).text) {
            let label = self.bump();
            self.bump();
            let id = self.parse_labeled(label.text, f)?;
            let mut out: Vec<usize> = Vec::new();
            keep(&mut out, id, Ghost(self.count() as int));
            return Ok(out);
        }
        proof {
            if old(self).tok_ahead(0).kind == TokenKind::Keyword && (old(self).tok_ahead(0).text@ == "let"@
                || old(self).tok_ahead(0).text@ == "var"@) {
                lemma_binding_keyword(old(self).tok_ahead(0).text@);
            }
        }
        let meta = self.collect_decl_meta();
        self.parse_statement_body(meta, f)
    }

    #[verifier::loop_isolation(false)]
    fn parse_labeled(&mut self, label: &str, fuel: u32) -> (r: Result<usize, ParseError>)
        requires
            old(self).wf(),
        ensures
            extends(old(self), final(self)),
            r matches Ok(id) ==> id < final(self).count(),
            fuel > 0 && !({
                let w = old(self).tok_ahead(0).text@;
                w == "while"@ || w == "repeat"@ || w == "for"@ || w == "switch"@
            }) ==> (r matches Err(e) && e.message@ == "expected a loop or switch after a statement label"@),
            fuel > 10 && at_simple_while(old(self)) ==> simple_while_parsed(old(self), final(self), Some(label@), r),
        decreases fuel,
    {
        if fuel == 0 {
            return Err(self.too_deep());
        }
        if self.at_text("while") || self.at_text("repeat") || self.at_text("for") || self.at_text(
            "switch",
        ) {
            self.parse_loop(Some(label), fuel - 1)
        } else {
            Err(self.error_here(String::from_str("expected a loop or switch after a statement label")))
        }
    }

    #[verifier::loop_isolation(false)]
    fn parse_statement_body(&mut self, meta: DeclMeta, fuel: u32) -> (r: Result<Vec<usize>, ParseError>)
        requires
            old(self).wf(),
            ids_below(meta.attributes@, old(self).count() as int),
        ensures
            extends(old(self), final(self)),
            r matches Ok(ids) ==> ids_below(ids@, final(self).count() as int),
            fuel > 2 && old(self).tok_ahead(0).kind == TokenKind::Keyword && (old(self).tok_ahead(0).text@
                == "let"@ || old(self).tok_ahead(0).text@ == "var"@) && bad_pattern_start(old(self).tok_ahead(1)) ==> (
            r matches Err(e) && e.message@ == "expected a binding pattern"@ + ", found "@ + kind_text(
                old(self).tok_ahead(1).kind,
            )),
            fuel > 4 && old(self).at_lone_atom() ==> lone_stmt_parsed(old(self), final(self), r),
            fuel > 10 && at_call_stmt(old(self)) ==> call_stmt_parsed(old(self), final(self), r),
        decreases fuel,
    {
        if fuel == 0 {
            return Err(self.too_deep());
        }
        let f = fuel - 1;
        let t = self.peek();
        let mut one: Vec<usize> = Vec::new();
        if t.kind == TokenKind::Directive {
            let id = self.parse_directive_stmt(f)?;
            keep(&mut one, id, Ghost(self.count() as int));
            return Ok(one);
        }
        if t.kind == TokenKind::Identifier && (str_same(t.text, "operator") || str_same(t.text, "precedencegroup")
            || ((str_same(t.text, "infix") || str_same(t.text, "prefix") || str_same(t.text, "postfix"))
            && str_same(self.ahead(1).text, "operator"))) {
            let id = self.parse_operator_or_precedence(meta)?;
            keep(&mut one, id, Ghost(self.count() as int));
            return Ok(one);
        }
        if t.kind == TokenKind::Identifier && str_same(t.text, "actor") && self.ahead(1).kind
            == TokenKind::Identifier {
            let id = self.parse_nominal(NodeKind::ActorDecl, meta, f)?;
            keep(&mut one, id, Ghost(self.count() as int));
            return Ok(one);
        }
        if t.kind == TokenKind::Keyword {
            let w = t.text;
            if str_same(w, "let") || str_same(w, "var") {
                return self.parse_binding(meta, f);
            }
            let id = if str_same(w, "import") {
                self.parse_import(meta)
            } else if str_same(w, "func") {
                self.parse_func(meta, f)?
            } else if str_same(w, "struct") {
                self.parse_nominal(NodeKind::StructDecl, meta, f)?
            } else if str_same(w, "enum") {
                self.parse_nominal(NodeKind::EnumDecl, meta, f)?
            } else if str_same(w, "class") {
                self.parse_nominal(NodeKind::ClassDecl, meta, f)?
            } else if str_same(w, "protocol") {
                self.parse_nominal(NodeKind::ProtocolDecl, meta, f)?
            } else if str_same(w, "extension") {
                self.parse_extension(meta, f)?
            } else if str_same(w, "associatedtype") || str_same(w, "typealias") {
                self.parse_type_decl(meta, f)?
            } else if str_same(w, "deinit") {
                let kw = self.bump();
                let body = self.parse_block(f)?;
                let mut kids: Vec<usize> = Vec::new();
                keep(&mut kids, body, Ghost(self.count() as int));
                self.add_decl(NodeKind::DeinitDecl, None, kw.line, kw.col, meta, kids, 0, None)
            } else if str_same(w, "init") {
                self.parse_init(meta, f)?
            } else if str_same(w, "subscript") {
                self.parse_subscript(meta, f)?
            } else if str_same(w, "return") {
                self.parse_return(f)?
            } else if str_same(w, "if") {
                self.parse_if(f)?
            } else if str_same(w, "guard") {
                self.parse_guard(f)?
            } else if str_same(w, "while") || str_same(w, "repeat") || str_same(w, "for")
                || str_same(w, "switch") {
                self.parse_loop(None, f)?
            } else if str_same(w, "do") {
                self.parse_do(f)?
            } else if str_same(w, "throw") {
                let kw = self.bump();
                let e = self.parse_expr(0, f)?;
                self.add(NodeKind::ThrowStmt, None, kw.line, kw.col, vec![e])
            } else if str_same(w, "defer") {
                let kw = self.bump();
                let body = self.parse_block(f)?;
                self.add(NodeKind::DeferStmt, None, kw.line, kw.col, vec![body])
            } else if str_same(w, "break") || str_same(w, "continue") {
                let kw = self.bump();
                let label = if self.at_kind(TokenKind::Identifier) && !self.peek().leading_newline {
                    let l = self.bump();
                    Some(String::from_str(l.text))
                } else {
                    None
                };
                let kind = if str_same(w, "break") {
                    NodeKind::BreakStmt
                } else {
                    NodeKind::ContinueStmt
                };
                self.add(kind, label, kw.line, kw.col, Vec::new())
            } else if str_same(w, "fallthrough") {
                let kw = self.bump();
                self.add(NodeKind::FallthroughStmt, None, kw.line, kw.col, Vec::new())
            } else {
                return self.parse_expr_statement(f);
            };
            keep(&mut one, id, Ghost(self.count() as int));
            return Ok(one);
        }
        self.parse_expr_statement(f)
    }

    /// An expression statement, or an assignment `lhs op= rhs`.
    #[verifier::loop_isolation(false)]
    fn parse_expr_statement(&mut self, fuel: u32) -> (r: Result<Vec<usize>, ParseError>)
        requires
            old(self).wf(),
        ensures
            extends(old(self), final(self)),
            r matches Ok(ids) ==> ids_below(ids@, final(self).count() as int),
            fuel > 3 && old(self).at_lone_atom() ==> lone_stmt_parsed(old(self), final(self), r),
            fuel > 9 && at_call_stmt(old(self)) ==> call_stmt_parsed(old(self), final(self), r),
        decreases fuel,
    {
        if fuel == 0 {
            return Err(self.too_deep());
        }
        let f = fuel - 1;
        let expr = self.parse_expr(0, f)?;
        let ghost after = *self;
        let mut one: Vec<usize> = Vec::new();
        let t = self.peek();
        proof {
            if fuel > 9 && at_call_stmt(old(self)) {
                let toks = old(self).tokens@;
                let e = atom_call_at(toks, old(self).pos as int).unwrap().1;
                assert(self.pos as int == e + 1);
                assert(t == tok_at(toks, e + 1));
                assert(self.arena().len() == self.count());
            }
        }
        if t.kind == TokenKind::Oper && is_assignment(t.text) {
            self.bump();
            let rhs = self.parse_expr(0, f)?;
            let id = self.add(NodeKind::AssignExpr, Some(String::from_str(t.text)), t.line, t.col, vec![expr, rhs]);
            keep(&mut one, id, Ghost(self.count() as int));
            return Ok(one);
        }
        let line = self.nodes[expr].line;
        let col = self.nodes[expr].col;
        let ghost mid = self.arena();
        let id = self.add(NodeKind::ExprStmt, None, line, col, vec![expr]);
        keep(&mut one, id, Ghost(self.count() as int));
        proof {
            if fuel > 9 && at_call_stmt(old(self)) {
                let toks = old(self).tokens@;
                let items = atom_call_at(toks, old(self).pos as int).unwrap().0;
                let a = old(self).count() as int;
                let c = a + 1 + items.len();
                let fa = self.arena();
                assert(mid == after.arena());
                assert(expr == c);
                assert(fa.subrange(0, c + 1) =~= mid);
                assert(fa.subrange(0, a) =~= mid.subrange(0, a));
                assert(fa.subrange(0, c) =~= mid.subrange(0, c));
                assert(fa[a] == mid[a]);
                assert(fa[c] == mid[c]);
                assert(one@ =~= seq![id]);
                assert(id == c + 1);
                assert(fa.len() == c + 2);
                assert(fa[c + 1].kind == NodeKind::ExprStmt);
                assert(fa[c + 1].children =~= seq![c as usize]);
                assert(fa.subrange(0, a) == old(self).arena());
                assert(fa[a].kind == atom_node_kind(tok_at(toks, old(self).pos as int)).unwrap());
                assert(atom_args_built(
                    old(self).arena().push(fa[a]),
                    fa.subrange(0, c),
                    fa[c].children,
                    a as usize,
                    items,
                ));
                assert(fa[c].kind == NodeKind::CallExpr);
                assert(self.cursor() == atom_call_at(toks, old(self).pos as int).unwrap().1 + 1);
                assert(self.tokens@ == toks);
            }
            if fuel > 3 && old(self).at_lone_atom() {
                let n = old(self).count() as int;
                assert(mid.len() == n + 1);
                assert(self.arena().subrange(0, n) =~= old(self).arena()) by {
                    assert(mid.subrange(0, n) =~= old(self).arena());
                }
                assert(self.arena()[n] == mid[n]);
                assert(one@ =~= seq![id]);
            }
        }
        Ok(one)
    }

    /// A binding pattern: a name, `_`, or a parenthesised tuple of patterns.
    #[verifier::loop_isolation(false)]
    fn parse_pattern(&mut self, fuel: u32) -> (r: Result<usize, ParseError>)
        requires
            old(self).wf(),
        ensures
            extends(old(self), final(self)),
            r matches Ok(id) ==> id < final(self).count(),
            fuel > 0 && (old(self).tok_ahead(0).kind == TokenKind::Identifier || (old(self).tok_ahead(0).kind
                == TokenKind::Keyword && contextual_word(old(self).tok_ahead(0).text@))) ==> ({
                let t = old(self).tok_ahead(0);
                &&& r matches Ok(id)
                &&& final(self).arena() == old(self).arena().push(final(self).arena()[id as int])
                &&& final(self).arena()[id as int].kind == if t.text@ == "_"@ {
                    NodeKind::PatternWildcard
                } else {
                    NodeKind::PatternValueBinding
                }
                &&& t.text@ != "_"@ ==> final(self).arena()[id as int].text == Some(t.text@)
                &&& final(self).arena()[id as int].children.len() == 0
                &&& final(self).cursor() == old(self).cursor() + 1
                &&& final(self).tokens@ == old(self).tokens@
                &&& final(self).in_condition() == old(self).in_condition()
            }),
            fuel > 0 && !(old(self).tok_ahead(0).kind == TokenKind::Identifier || old(self).tok_ahead(0).kind
                == TokenKind::Keyword && contextual_word(old(self).tok_ahead(0).text@) || old(self).tok_ahead(
                0,
            ).kind == TokenKind::LParen) ==> (r matches Err(e) && e.message@ == "expected a binding pattern"@
                + ", found "@ + kind_text(old(self).cur_kind())),
        decreases fuel,
    {
        if fuel == 0 {
            return Err(self.too_deep());
        }
        let t = self.peek();
        if t.kind == TokenKind::Identifier || (t.kind == TokenKind::Keyword && is_contextual_word(
            t.text,
        )) {
            self.bump();
            if str_same(t.text, "_") {
                return Ok(self.add(NodeKind::PatternWildcard, None, t.line, t.col, Vec::new()));
            }
            return Ok(self.add(NodeKind::PatternValueBinding, Some(String::from_str(t.text)), t.line, t.col, Vec::new()));
        }
        if t.kind == TokenKind::LParen {
            self.bump();
            let mut kids: Vec<usize> = Vec::new();
            if !self.at_kind(TokenKind::RParen) {
                loop
                    invariant
                        extends(old(self), self),
                        ids_below(kids@, self.count() as int),
                    decreases self.token_count() - self.cursor(),
                {
                    let sub = self.parse_pattern(fuel - 1)?;
                    keep(&mut kids, sub, Ghost(self.count() as int));
                    if self.at_kind(TokenKind::Comma) {
                        self.bump();
                        continue;
                    }
                    break;
                }
            }
            self.expect(TokenKind::RParen)?;
            return Ok(self.add(NodeKind::PatternTuple, None, t.line, t.col, kids));
        }
        Err(self.error_here(found_message("expected a binding pattern", t.kind)))
    }

    /// `let`/`var` pattern [`:` type] [`=` initializer], possibly several
    /// comma-separated bindings (`var a, b: Int`): a binding with neither an
    /// annotation nor an initializer takes the next later annotation. A
    /// same-line `{` adds accessors or observers to the first binding.
    #[verifier::loop_isolation(false)]
    fn parse_binding(&mut self, meta: DeclMeta, fuel: u32) -> (r: Result<Vec<usize>, ParseError>)
        requires
            old(self).wf(),
            ids_below(meta.attributes@, old(self).count() as int),
        ensures
            extends(old(self), final(self)),
            r matches Ok(ids) ==> ids_below(ids@, final(self).count() as int),
            fuel > 1 && old(self).cur_kind() != TokenKind::Eof && bad_pattern_start(old(self).tok_ahead(1)) ==> (
            r matches Err(e) && e.message@ == "expected a binding pattern"@ + ", found "@ + kind_text(
                old(self).tok_ahead(1).kind,
            )),
            fuel > 3 && old(self).cur_kind() != TokenKind::Eof && old(self).tok_ahead(1).kind
                == TokenKind::Identifier && old(self).tok_ahead(2).kind == TokenKind::Oper && old(
                self,
            ).tok_ahead(2).text@ == "="@ && lone_atom(old(self).tok_ahead(3)) && ends_expr(
                old(self).tok_ahead(4),
            ) && old(self).tok_ahead(4).kind != TokenKind::Comma ==> ({
                let decl = if old(self).tok_ahead(0).text@ == "let"@ {
                    NodeKind::LetDecl
                } else {
                    NodeKind::VarDecl
                };
                &&& r matches Ok(ids)
                &&& ids@.len() == 1
                &&& final(self).arena()[ids@[0] as int].kind == decl
                &&& final(self).arena()[ids@[0] as int].children.len() == 2 + meta.attributes@.len()
                &&& final(self).arena()[final(self).arena()[ids@[0] as int].children[1] as int].kind
                    == atom_node_kind(old(self).tok_ahead(3)).unwrap()
                &&& final(self).cursor() == old(self).cursor() + 4
            }),
        decreases fuel,
    {
        if fuel == 0 {
            return Err(self.too_deep());
        }
        let f = fuel - 1;
        let kw = self.bump();
        let kind = if str_same(kw.text, "let") {
            NodeKind::LetDecl
        } else {
            NodeKind::VarDecl
        };
        let mut pats: Vec<usize> = Vec::new();
        let mut tys: Vec<Option<String>> = Vec::new();
        let mut ty_pos: Vec<(u32, u32)> = Vec::new();
        let mut inits: Vec<Option<usize>> = Vec::new();
        let ghost simple = fuel > 3 && old(self).cur_kind() != TokenKind::Eof && old(self).tok_ahead(1).kind
            == TokenKind::Identifier && old(self).tok_ahead(2).kind == TokenKind::Oper && old(self).tok_ahead(
            2,
        ).text@ == "="@ && lone_atom(old(self).tok_ahead(3)) && ends_expr(old(self).tok_ahead(4))
            && old(self).tok_ahead(4).kind != TokenKind::Comma;
        let ghost badpat = fuel > 1 && old(self).cur_kind() != TokenKind::Eof && bad_pattern_start(old(self).tok_ahead(1));
        loop
            invariant
                badpat ==> pats@.len() == 0 && self.pos == old(self).pos + 1 && self.tokens@
                    == old(self).tokens@,
                extends(old(self), self),
                ids_below(meta.attributes@, self.count() as int),
                ids_below(pats@, self.count() as int),
                opt_ids_below(inits@, self.count() as int),
                pats@.len() == tys@.len(),
                pats@.len() == ty_pos@.len(),
                pats@.len() == inits@.len(),
                simple ==> pats@.len() == 0 && self.pos == old(self).pos + 1 && self.tokens@
                    == old(self).tokens@,
            decreases self.token_count() - self.cursor(),
        {
            proof {
                if simple || badpat {
                    assert(self.tok_ahead(0) == old(self).tok_ahead(1));
                }
            }
            let p = self.parse_pattern(f)?;
            proof {
                if simple {
                    assert(self.tok_ahead(0) == old(self).tok_ahead(2));
                    assert(self.tok_ahead(1) == old(self).tok_ahead(3));
                    assert(self.tok_ahead(2) == old(self).tok_ahead(4));
                }
            }
            let mut ty: Option<String> = None;
            let mut tpos: (u32, u32) = (0, 0);
            if self.at_kind(TokenKind::Colon) {
                self.bump();
                let start = self.peek();
                tpos = (start.line, start.col);
                ty = Some(self.parse_type_text(f)?);
            }
            let mut init: Option<usize> = None;
            if self.at_oper("=") {
                self.bump();
                init = Some(self.parse_expr(0, f)?);
            }
            keep(&mut pats, p, Ghost(self.count() as int));
            tys.push(ty);
            ty_pos.push(tpos);
            let ghost before = inits@;
            inits.push(init);
            assert(opt_ids_below(inits@, self.count() as int)) by {
                assert forall|i: int| 0 <= i < inits@.len() implies (#[trigger] inits@[i] matches Some(x)
                    ==> x < self.count()) by {
                    if i < before.len() {
                        assert(inits@[i] == before[i]);
                    }
                }
            }
            if self.at_kind(TokenKind::Comma) {
                self.bump();
                continue;
            }
            break;
        }
        let mut accessors: Vec<usize> = Vec::new();
        if self.at_kind(TokenKind::LBrace) && !self.peek().leading_newline {
            accessors = self.parse_accessor_block(f)?;
        }
        let mut out: Vec<usize> = Vec::new();
        let mut k: usize = 0;
        let ghost attrs = meta.attributes@;
        let ghost atom = atom_node_kind(old(self).tok_ahead(3)).unwrap();
        let mut first_meta = Some(meta);
        while k < pats.len()
            invariant
                extends(old(self), self),
                first_meta matches Some(m) ==> ids_below(m.attributes@, self.count() as int),
                ids_below(pats@, self.count() as int),
                opt_ids_below(inits@, self.count() as int),
                ids_below(accessors@, self.count() as int),
                ids_below(out@, self.count() as int),
                pats@.len() == tys@.len(),
                pats@.len() == ty_pos@.len(),
                pats@.len() == inits@.len(),
                k <= pats@.len(),
                simple ==> {
                    &&& pats@.len() == 1
                    &&& tys@[0] is None
                    &&& inits@[0] is Some
                    &&& self.arena()[inits@[0].unwrap() as int].kind == atom
                    &&& accessors@.len() == 0
                    &&& self.pos == old(self).pos + 4
                    &&& k == 0 ==> (first_meta matches Some(m) && m.attributes@ == attrs && out@.len() == 0)
                    &&& k == 1 ==> {
                        &&& out@.len() == 1
                        &&& self.arena()[out@[0] as int].kind == kind
                        &&& self.arena()[out@[0] as int].children.len() == 2 + attrs.len()
                        &&& self.arena()[self.arena()[out@[0] as int].children[1] as int].kind == atom
                    }
                },
            decreases pats@.len() - k,
        {
            let ghost head = self.arena();
            let mut kids: Vec<usize> = Vec::new();
            keep(&mut kids, pats[k], Ghost(self.count() as int));
            let mut j = k;
            if tys[k].is_none() && inits[k].is_none() {
                while j < tys.len() && tys[j].is_none()
                    invariant
                        k <= j <= tys@.len(),
                    decreases tys@.len() - j,
                {
                    j += 1;
                }
            }
            if j < tys.len() {
                match &tys[j] {
                    Some(text) => {
                        let (line, col) = ty_pos[j];
                        let ty = self.add(NodeKind::TypeRef, Some(text.clone()), line, col, Vec::new());
                        keep(&mut kids, ty, Ghost(self.count() as int));
                    },
                    None => {},
                }
            }
            match inits[k] {
                Some(e) => {
                    assert(inits@[k as int] matches Some(x) ==> x < self.count());
                    keep(&mut kids, e, Ghost(self.count() as int));
                },
                None => {},
            }
            let ghost kids_before = kids@;
            let pat_line = self.nodes[pats[k]].line;
            let pat_col = self.nodes[pats[k]].col;
            let id = match first_meta.take() {
                Some(m) => {
                    keep_all(&mut kids, &accessors, Ghost(self.count() as int));
                    self.add_decl(kind, None, kw.line, kw.col, m, kids, 0, None)
                },
                None => self.add_decl(kind, None, pat_line, pat_col, no_meta(), kids, 0, None),
            };
            keep(&mut out, id, Ghost(self.count() as int));
            proof {
                if simple {
                    let e = inits@[0].unwrap() as int;
                    assert(kids_before[1] == e);
                    assert(self.arena()[e] == head[e]);
                }
            }
            k += 1;
        }
        Ok(out)
    }

    /// A `{ ... }` accessor block: explicit `get`/`set`/`willSet`/`didSet`
    /// accessors, or a read-only getter written as a bare statement block.
    #[verifier::loop_isolation(false)]
    fn parse_accessor_block(&mut self, fuel: u32) -> (r: Result<Vec<usize>, ParseError>)
        requires
            old(self).wf(),
        ensures
            extends(old(self), final(self)),
            r matches Ok(ids) ==> ids_below(ids@, final(self).count() as int),
        decreases fuel,
    {
        if fuel == 0 {
            return Err(self.too_deep());
        }
        let f = fuel - 1;
        let open = self.expect(TokenKind::LBrace)?;
        let mut out: Vec<usize> = Vec::new();
        if is_accessor_start(self.peek().text) {
            while is_accessor_start(self.peek().text)
                invariant
                    extends(old(self), self),
                    ids_below(out@, self.count() as int),
                decreases self.token_count() - self.cursor(),
            {
                let before = self.pos;
                let mut mutation: u32 = 0;
                if self.at_text("mutating") {
                    mutation = decode::MUTATING;
                    self.bump();
                } else if self.at_text("nonmutating") {
                    mutation = decode::NONMUTATING;
                    self.bump();
                }
                let kw = self.bump();
                if self.pos <= before {
                    return Err(self.error_here(String::from_str("expected an accessor")));
                }
                let mut kids: Vec<usize> = Vec::new();
                if self.at_kind(TokenKind::LParen) {
                    self.bump();
                    let pname = self.expect(TokenKind::Identifier)?;
                    let pid = self.add(NodeKind::Param, Some(String::from_str(pname.text)), pname.line, pname.col, Vec::new());
                    keep(&mut kids, pid, Ghost(self.count() as int));
                    self.expect(TokenKind::RParen)?;
                }
                self.skip_effects();
                if self.at_kind(TokenKind::LBrace) {
                    let body = self.parse_block(f)?;
                    keep(&mut kids, body, Ghost(self.count() as int));
                }
                let mut n = plain_node(NodeKind::AccessorDecl, Some(String::from_str(kw.text)), kw.line, kw.col, kids);
                n.modifiers = mutation;
                let id = self.push(n);
                keep(&mut out, id, Ghost(self.count() as int));
            }
            self.expect(TokenKind::RBrace)?;
        } else {
            let stmts = self.parse_body(false, f)?;
            self.expect(TokenKind::RBrace)?;
            let block = self.add(NodeKind::Block, Some(String::from_str("{")), open.line, open.col, stmts);
            let getter = self.add(NodeKind::AccessorDecl, Some(String::from_str("get")), open.line, open.col, vec![block]);
            keep(&mut out, getter, Ghost(self.count() as int));
        }
        Ok(out)
    }

    /// `func name[<...>](params) [effects] [-> Ret] [where ...] [{ body }]`:
    /// the parameters, the return `TypeRef` and the body `Block` as children.
    #[verifier::loop_isolation(false)]
    fn parse_func(&mut self, meta: DeclMeta, fuel: u32) -> (r: Result<usize, ParseError>)
        requires
            old(self).wf(),
            ids_below(meta.attributes@, old(self).count() as int),
        ensures
            extends(old(self), final(self)),
            r matches Ok(id) ==> id < final(self).count(),
            fuel > 0 && old(self).cur_kind() != TokenKind::Eof && old(self).tok_ahead(1).kind
                != TokenKind::Identifier && old(self).tok_ahead(1).kind != TokenKind::Oper ==> (r matches Err(e)
                && e.message@ == "expected a function name"@ + ", found "@ + kind_text(old(self).tok_ahead(1).kind)),
            fuel > 9 && old(self).cur_kind() != TokenKind::Eof && old(self).tok_ahead(1).kind == TokenKind::Identifier
                && old(self).tok_ahead(2).kind == TokenKind::LParen && old(self).tok_ahead(3).kind
                == TokenKind::RParen && old(self).tok_ahead(4).kind == TokenKind::LBrace && atom_stmts(
                old(self).tokens@,
                old(self).cursor() as int + 5,
            ) && old(self).tokens@[atom_stmts_end(old(self).tokens@, old(self).cursor() as int + 5)].kind
                == TokenKind::RBrace ==> ({
                &&& r matches Ok(id)
                &&& final(self).arena()[id as int].kind == NodeKind::FuncDecl
                &&& final(self).arena()[id as int].text == Some(old(self).tok_ahead(1).text@)
                &&& final(self).arena()[id as int].children.len() == 1 + meta.attributes@.len()
                &&& final(self).arena()[final(self).arena()[id as int].children[0] as int].kind
                    == NodeKind::Block
                &&& final(self).cursor() == atom_stmts_end(old(self).tokens@, old(self).cursor() as int + 5) + 1
            }),
        decreases fuel,
    {
        if fuel == 0 {
            return Err(self.too_deep());
        }
        let f = fuel - 1;
        let kw = self.bump();
        let name_tok = self.peek();
        let name = if name_tok.kind == TokenKind::Identifier {
            self.bump();
            String::from_str(name_tok.text)
        } else if name_tok.kind == TokenKind::Oper {
            self.bump();
            let mut s = String::from_str(name_tok.text);
            while self.at_kind(TokenKind::Oper) && !self.peek().leading_newline
                invariant
                    extends(old(self), self),
                    ids_below(meta.attributes@, self.count() as int),
                decreases self.token_count() - self.cursor(),
            {
                let t = self.bump();
                s.append(t.text);
            }
            s
        } else {
            return Err(self.error_here(found_message("expected a function name", name_tok.kind)));
        };
        let mut kids: Vec<usize> = Vec::new();
        proof {
            if old(self).cur_kind() != TokenKind::Eof && old(self).tok_ahead(1).kind == TokenKind::Identifier {
                assert(self.tok_ahead(0) == old(self).tok_ahead(2));
            }
        }
        if self.at_oper("<") {
            let g = self.generic_clause();
            keep(&mut kids, g, Ghost(self.count() as int));
        }
        proof {
            if old(self).cur_kind() != TokenKind::Eof && old(self).tok_ahead(1).kind == TokenKind::Identifier
                && old(self).tok_ahead(2).kind == TokenKind::LParen {
                assert(self.tok_ahead(0) == old(self).tok_ahead(2));
                assert(self.tok_ahead(1) == old(self).tok_ahead(3));
            }
        }
        let params = self.parse_param_list(f)?;
        keep_all(&mut kids, &params, Ghost(self.count() as int));
        let effects = self.skip_effects();
        proof {
            if fuel > 9 && old(self).cur_kind() != TokenKind::Eof && old(self).tok_ahead(1).kind == TokenKind::Identifier
                && old(self).tok_ahead(2).kind == TokenKind::LParen && old(self).tok_ahead(3).kind
                == TokenKind::RParen && old(self).tok_ahead(4).kind == TokenKind::LBrace {
                assert(self.cursor() == old(self).cursor() + 4);
                assert(self.tok_ahead(0) == old(self).tok_ahead(4));
            }
        }
        let mut ret: Option<String> = None;
        if self.at_oper("->") {
            self.bump();
            let (ty, text) = self.parse_type(f)?;
            keep(&mut kids, ty, Ghost(self.count() as int));
            ret = Some(text);
        }
        if self.at_keyword("where") {
            self.skip_where_clause();
        }
        if self.at_kind(TokenKind::LBrace) {
            let body = self.parse_block(f)?;
            keep(&mut kids, body, Ghost(self.count() as int));
        }
        let ghost before = self.arena();
        let ghost kids_v = kids@;
        let id = self.add_decl(NodeKind::FuncDecl, Some(name), kw.line, kw.col, meta, kids, effects, ret);
        proof {
            if kids_v.len() > 0 {
                assert(self.arena()[kids_v[0] as int] == before[kids_v[0] as int]);
            }
        }
        Ok(id)
    }

    /// `init[?|!]([params]) [effects] [{ body }]`.
    #[verifier::loop_isolation(false)]
    fn parse_init(&mut self, meta: DeclMeta, fuel: u32) -> (r: Result<usize, ParseError>)
        requires
            old(self).wf(),
            ids_below(meta.attributes@, old(self).count() as int),
        ensures
            extends(old(self), final(self)),
            r matches Ok(id) ==> id < final(self).count(),
            fuel > 9 && old(self).cur_kind() != TokenKind::Eof && old(self).tok_ahead(1).kind == TokenKind::LParen
                && old(self).tok_ahead(2).kind == TokenKind::RParen && old(self).tok_ahead(3).kind
                == TokenKind::LBrace && atom_stmts(old(self).tokens@, old(self).cursor() as int + 4) && old(
                self,
            ).tokens@[atom_stmts_end(old(self).tokens@, old(self).cursor() as int + 4)].kind == TokenKind::RBrace
                ==> ({
                &&& r matches Ok(id)
                &&& final(self).arena()[id as int].kind == NodeKind::InitDecl
                &&& final(self).arena()[id as int].children.len() == 1 + meta.attributes@.len()
                &&& final(self).arena()[final(self).arena()[id as int].children[0] as int].kind
                    == NodeKind::Block
                &&& final(self).cursor() == atom_stmts_end(old(self).tokens@, old(self).cursor() as int + 4) + 1
            }),
        decreases fuel,
    {
        if fuel == 0 {
            return Err(self.too_deep());
        }
        let f = fuel - 1;
        let kw = self.bump();
        let mut extra: u32 = 0;
        if self.at_kind(TokenKind::Question) || self.at_oper("!") {
            self.bump();
            extra = decode::FAILABLE;
        }
        let ghost simple = fuel > 9 && old(self).cur_kind() != TokenKind::Eof && old(self).tok_ahead(1).kind
            == TokenKind::LParen && old(self).tok_ahead(2).kind == TokenKind::RParen && old(self).tok_ahead(3).kind
            == TokenKind::LBrace;
        proof {
            if simple {
                assert(self.tok_ahead(0) == old(self).tok_ahead(1));
                assert(self.tok_ahead(1) == old(self).tok_ahead(2));
            }
        }
        let mut kids = self.parse_param_list(f)?;
        extra = extra | self.skip_effects();
        proof {
            if simple {
                assert(self.cursor() == old(self).cursor() + 3);
                assert(self.tok_ahead(0) == old(self).tok_ahead(3));
            }
        }
        if self.at_kind(TokenKind::LBrace) {
            let body = self.parse_block(f)?;
            keep(&mut kids, body, Ghost(self.count() as int));
        }
        let ghost before = self.arena();
        let ghost kids_v = kids@;
        let id = self.add_decl(NodeKind::InitDecl, None, kw.line, kw.col, meta, kids, extra, None);
        proof {
            if kids_v.len() > 0 {
                assert(self.arena()[kids_v[0] as int] == before[kids_v[0] as int]);
            }
        }
        Ok(id)
    }

    /// `subscript[<...>]([params]) -> Type [where ...] { accessors }`.
    #[verifier::loop_isolation(false)]
    fn parse_subscript(&mut self, meta: DeclMeta, fuel: u32) -> (r: Result<usize, ParseError>)
        requires
            old(self).wf(),
            ids_below(meta.attributes@, old(self).count() as int),
        ensures
            extends(old(self), final(self)),
            r matches Ok(id) ==> id < final(self).count(),
        decreases fuel,
    {
        if fuel == 0 {
            return Err(self.too_deep());
        }
        let f = fuel - 1;
        let kw = self.bump();
        let mut kids: Vec<usize> = Vec::new();
        if self.at_oper("<") {
            let g = self.generic_clause();
            keep(&mut kids, g, Ghost(self.count() as int));
        }
        let params = self.parse_param_list(f)?;
        keep_all(&mut kids, &params, Ghost(self.count() as int));
        let mut ret: Option<String> = None;
        if self.at_oper("->") {
            self.bump();
            let (ty, text) = self.parse_type(f)?;
            keep(&mut kids, ty, Ghost(self.count() as int));
            ret = Some(text);
        }
        if self.at_keyword("where") {
            self.skip_where_clause();
        }
        let accessors = self.parse_accessor_block(f)?;
        keep_all(&mut kids, &accessors, Ghost(self.count() as int));
        Ok(self.add_decl(NodeKind::SubscriptDecl, None, kw.line, kw.col, meta, kids, 0, ret))
    }

    /// An inheritance or conformance clause `: A, B`, as `TypeRef` nodes.
    #[verifier::loop_isolation(false)]
    fn parse_inheritance(&mut self, fuel: u32) -> (r: Result<Vec<usize>, ParseError>)
        requires
            old(self).wf(),
        ensures
            extends(old(self), final(self)),
            r matches Ok(ids) ==> ids_below(ids@, final(self).count() as int),
            fuel > 0 && old(self).cur_kind() != TokenKind::Colon && !(old(self).cur_kind() == TokenKind::Keyword
                && old(self).tok_ahead(0).text@ == "where"@) ==> ({
                &&& r matches Ok(ids)
                &&& ids@.len() == 0
                &&& final(self).cursor() == old(self).cursor()
                &&& final(self).arena() == old(self).arena()
                &&& final(self).tokens@ == old(self).tokens@
            }),
            fuel > 2 && old(self).cur_kind() == TokenKind::Colon && old(self).tok_ahead(1).kind
                == TokenKind::Identifier && ends_type_name(old(self).tok_ahead(2)) && old(self).tok_ahead(2).kind
                != TokenKind::Comma && !(old(self).tok_ahead(2).kind == TokenKind::Keyword && old(self).tok_ahead(
                2,
            ).text@ == "where"@) ==> ({
                &&& r matches Ok(ids)
                &&& ids@.len() == 1
                &&& final(self).arena()[ids@[0] as int].kind == NodeKind::TypeRef
                &&& final(self).arena()[ids@[0] as int].text == Some(old(self).tok_ahead(1).text@)
                &&& final(self).cursor() == old(self).cursor() + 2
            }),
        decreases fuel,
    {
        if fuel == 0 {
            return Err(self.too_deep());
        }
        let mut out: Vec<usize> = Vec::new();
        let ghost single = fuel > 2 && old(self).cur_kind() == TokenKind::Colon && old(self).tok_ahead(1).kind
            == TokenKind::Identifier && ends_type_name(old(self).tok_ahead(2)) && old(self).tok_ahead(2).kind
            != TokenKind::Comma;
        if self.at_kind(TokenKind::Colon) {
            self.bump();
            loop
                invariant
                    extends(old(self), self),
                    ids_below(out@, self.count() as int),
                    single ==> out@.len() == 0 && self.pos == old(self).pos + 1 && self.tokens@
                        == old(self).tokens@,
                decreases self.token_count() - self.cursor(),
            {
                proof {
                    if single {
                        assert(self.tok_ahead(0) == old(self).tok_ahead(1));
                        assert(self.tok_ahead(1) == old(self).tok_ahead(2));
                    }
                }
                let (ty, _) = self.parse_type(fuel - 1)?;
                proof {
                    if single {
                        assert(self.tok_ahead(0) == old(self).tok_ahead(2));
                    }
                }
                keep(&mut out, ty, Ghost(self.count() as int));
                if self.at_kind(TokenKind::Comma) {
                    self.bump();
                    continue;
                }
                break;
            }
        }
        if self.at_keyword("where") {
            self.skip_where_clause();
        }
        Ok(out)
    }

    /// `struct`/`enum`/`class`/`protocol`/`actor` `Name[<...>] [: A, B]
    /// { members }`: the conformances, then the members, as children.
    #[verifier::loop_isolation(false)]
    fn parse_nominal(&mut self, kind: NodeKind, meta: DeclMeta, fuel: u32) -> (r: Result<usize, ParseError>)
        requires
            old(self).wf(),
            ids_below(meta.attributes@, old(self).count() as int),
        ensures
            extends(old(self), final(self)),
            r matches Ok(id) ==> id < final(self).count(),
            fuel > 1 && at_empty_decl(old(self)) ==> ({
                &&& r matches Ok(id)
                &&& final(self).arena()[id as int].kind == kind
                &&& final(self).arena()[id as int].text == Some(old(self).tok_ahead(1).text@)
                &&& final(self).arena()[id as int].children == meta.attributes@
                &&& final(self).cursor() == after_semicolons(old(self).tokens@, old(self).cursor() as int + 3) + 1
            }),
        decreases fuel,
    {
        if fuel == 0 {
            return Err(self.too_deep());
        }
        let f = fuel - 1;
        let kw = self.bump();
        let name = self.expect(TokenKind::Identifier)?;
        proof {
            if at_empty_decl(old(self)) {
                assert(self.tok_ahead(0) == old(self).tok_ahead(2));
            }
        }
        let mut kids: Vec<usize> = Vec::new();
        if self.at_oper("<") {
            let g = self.generic_clause();
            keep(&mut kids, g, Ghost(self.count() as int));
        }
        let inherited = self.parse_inheritance(f)?;
        keep_all(&mut kids, &inherited, Ghost(self.count() as int));
        self.expect(TokenKind::LBrace)?;
        let members = self.parse_body(true, f)?;
        self.expect(TokenKind::RBrace)?;
        keep_all(&mut kids, &members, Ghost(self.count() as int));
        Ok(self.add_decl(kind, Some(String::from_str(name.text)), kw.line, kw.col, meta, kids, 0, None))
    }

    /// `extension Type [: P, Q] [where ...] { members }`.
    #[verifier::loop_isolation(false)]
    fn parse_extension(&mut self, meta: DeclMeta, fuel: u32) -> (r: Result<usize, ParseError>)
        requires
            old(self).wf(),
            ids_below(meta.attributes@, old(self).count() as int),
        ensures
            extends(old(self), final(self)),
            r matches Ok(id) ==> id < final(self).count(),
            fuel > 1 && at_empty_decl(old(self)) ==> ({
                &&& r matches Ok(id)
                &&& final(self).arena()[id as int].kind == NodeKind::ExtensionDecl
                &&& final(self).arena()[id as int].text == Some(old(self).tok_ahead(1).text@)
                &&& final(self).arena()[id as int].children == meta.attributes@
                &&& final(self).cursor() == after_semicolons(old(self).tokens@, old(self).cursor() as int + 3) + 1
            }),
        decreases fuel,
    {
        if fuel == 0 {
            return Err(self.too_deep());
        }
        let f = fuel - 1;
        let kw = self.bump();
        proof {
            if at_empty_decl(old(self)) {
                assert(self.tok_ahead(0) == old(self).tok_ahead(1));
                assert(self.tok_ahead(1) == old(self).tok_ahead(2));
            }
        }
        let name = self.parse_type_text(f)?;
        let mut kids = self.parse_inheritance(f)?;
        self.expect(TokenKind::LBrace)?;
        let members = self.parse_body(true, f)?;
        self.expect(TokenKind::RBrace)?;
        keep_all(&mut kids, &members, Ghost(self.count() as int));
        Ok(self.add_decl(NodeKind::ExtensionDecl, Some(name), kw.line, kw.col, meta, kids, 0, None))
    }

    /// One `case a, b(Int), c = 1` line: an `EnumCaseDecl` per element, with
    /// its associated types (labels dropped) or raw value as children.
    #[verifier::loop_isolation(false)]
    fn parse_enum_cases(&mut self, fuel: u32) -> (r: Result<Vec<usize>, ParseError>)
        requires
            old(self).wf(),
        ensures
            extends(old(self), final(self)),
            r matches Ok(ids) ==> ids_below(ids@, final(self).count() as int),
            fuel > 0 && old(self).cur_kind() != TokenKind::Eof && !(old(self).tok_ahead(1).kind
                == TokenKind::Identifier || (old(self).tok_ahead(1).kind == TokenKind::Keyword && (old(
                self,
            ).tok_ahead(1).text@ == "some"@ || old(self).tok_ahead(1).text@ == "any"@))) ==> (r matches Err(e)
                && e.message@ == "expected enum case name"@ + ", found "@ + kind_text(old(self).tok_ahead(1).kind)),
            fuel > 0 && old(self).cur_kind() != TokenKind::Eof && old(self).tok_ahead(1).kind == TokenKind::Identifier
                && old(self).tok_ahead(2).kind != TokenKind::LParen && old(self).tok_ahead(2).kind
                != TokenKind::Oper && old(self).tok_ahead(2).kind != TokenKind::Comma ==> ({
                &&& r matches Ok(ids)
                &&& ids@.len() == 1
                &&& final(self).arena()[ids@[0] as int].kind == NodeKind::EnumCaseDecl
                &&& final(self).arena()[ids@[0] as int].text == Some(old(self).tok_ahead(1).text@)
                &&& final(self).arena()[ids@[0] as int].children.len() == 0
                &&& final(self).cursor() == old(self).cursor() + 2
            }),
        decreases fuel,
    {
        if fuel == 0 {
            return Err(self.too_deep());
        }
        let f = fuel - 1;
        self.bump();
        let mut out: Vec<usize> = Vec::new();
        let ghost first_case = old(self).cur_kind() != TokenKind::Eof && (old(self).tok_ahead(1).kind
            == TokenKind::Identifier && old(self).tok_ahead(2).kind != TokenKind::LParen && old(self).tok_ahead(
            2,
        ).kind != TokenKind::Oper && old(self).tok_ahead(2).kind != TokenKind::Comma || !(old(self).tok_ahead(
            1,
        ).kind == TokenKind::Identifier || (old(self).tok_ahead(1).kind == TokenKind::Keyword && (old(
            self,
        ).tok_ahead(1).text@ == "some"@ || old(self).tok_ahead(1).text@ == "any"@))));
        loop
            invariant
                extends(old(self), self),
                ids_below(out@, self.count() as int),
                first_case ==> out@.len() == 0 && self.pos == old(self).pos + 1 && self.tokens@
                    == old(self).tokens@,
            decreases self.token_count() - self.cursor(),
        {
            let name = self.peek();
            proof {
                if first_case {
                    assert(name == old(self).tok_ahead(1));
                }
            }
            if !(name.kind == TokenKind::Identifier || (name.kind == TokenKind::Keyword && (str_same(
                name.text,
                "some",
            ) || str_same(name.text, "any")))) {
                return Err(self.error_here(found_message("expected enum case name", name.kind)));
            }
            self.bump();
            proof {
                if first_case {
                    assert(self.tok_ahead(0) == old(self).tok_ahead(2));
                }
            }
            let mut kids: Vec<usize> = Vec::new();
            if self.at_kind(TokenKind::LParen) {
                self.bump();
                let ghost mid = self.cursor();
                if !self.at_kind(TokenKind::RParen) {
                    loop
                        invariant
                            extends(old(self), self),
                            mid <= self.cursor(),
                            ids_below(out@, self.count() as int),
                            ids_below(kids@, self.count() as int),
                        decreases self.token_count() - self.cursor(),
                    {
                        if self.at_kind(TokenKind::Identifier) && self.ahead(1).kind == TokenKind::Colon {
                            self.bump();
                            self.bump();
                        }
                        let (ty, _) = self.parse_type(f)?;
                        keep(&mut kids, ty, Ghost(self.count() as int));
                        if self.at_kind(TokenKind::Comma) {
                            self.bump();
                            continue;
                        }
                        break;
                    }
                }
                self.expect(TokenKind::RParen)?;
            } else if self.at_oper("=") {
                self.bump();
                let raw = self.parse_expr(0, f)?;
                keep(&mut kids, raw, Ghost(self.count() as int));
            }
            let id = self.add(NodeKind::EnumCaseDecl, Some(String::from_str(name.text)), name.line, name.col, kids);
            keep(&mut out, id, Ghost(self.count() as int));
            if self.at_kind(TokenKind::Comma) {
                self.bump();
                continue;
            }
            break;
        }
        Ok(out)
    }

    /// `associatedtype Name [: Constraint] [= Default] [where ...]` or
    /// `typealias Name[<...>] = Type`.
    #[verifier::loop_isolation(false)]
    fn parse_type_decl(&mut self, meta: DeclMeta, fuel: u32) -> (r: Result<usize, ParseError>)
        requires
            old(self).wf(),
            ids_below(meta.attributes@, old(self).count() as int),
        ensures
            extends(old(self), final(self)),
            r matches Ok(id) ==> id < final(self).count(),
            fuel > 2 && old(self).cur_kind() == TokenKind::Keyword && old(self).tok_ahead(0).text@
                == "typealias"@ && old(self).tok_ahead(1).kind == TokenKind::Identifier && old(self).tok_ahead(
                2,
            ).kind == TokenKind::Oper && old(self).tok_ahead(2).text@ == "="@ && old(self).tok_ahead(3).kind
                == TokenKind::Identifier && ends_type_name(old(self).tok_ahead(4)) ==> ({
                &&& r matches Ok(id)
                &&& final(self).arena()[id as int].kind == NodeKind::TypeAliasDecl
                &&& final(self).arena()[id as int].text == Some(old(self).tok_ahead(1).text@)
                &&& final(self).arena()[id as int].children.len() == 1 + meta.attributes@.len()
                &&& final(self).arena()[final(self).arena()[id as int].children[0] as int].kind
                    == NodeKind::TypeRef
                &&& final(self).arena()[final(self).arena()[id as int].children[0] as int].text == Some(
                    old(self).tok_ahead(3).text@,
                )
                &&& final(self).cursor() == old(self).cursor() + 4
            }),
        decreases fuel,
    {
        if fuel == 0 {
            return Err(self.too_deep());
        }
        let f = fuel - 1;
        let kw = self.bump();
        let is_alias = str_same(kw.text, "typealias");
        let name = self.expect(TokenKind::Identifier)?;
        let ghost simple = fuel > 2 && old(self).cur_kind() == TokenKind::Keyword && old(self).tok_ahead(0).text@
            == "typealias"@ && old(self).tok_ahead(1).kind == TokenKind::Identifier && old(self).tok_ahead(2).kind
            == TokenKind::Oper && old(self).tok_ahead(2).text@ == "="@ && old(self).tok_ahead(3).kind
            == TokenKind::Identifier && ends_type_name(old(self).tok_ahead(4));
        proof {
            reveal_strlit("=");
            reveal_strlit("<");
            if simple {
                assert("="@[0] != "<"@[0]);
                assert(self.tok_ahead(0) == old(self).tok_ahead(2));
                assert(self.tok_ahead(1) == old(self).tok_ahead(3));
                assert(self.tok_ahead(2) == old(self).tok_ahead(4));
            }
        }
        let mut kids: Vec<usize> = Vec::new();
        if is_alias && self.at_oper("<") {
            let g = self.generic_clause();
            keep(&mut kids, g, Ghost(self.count() as int));
        }
        if !is_alias && self.at_kind(TokenKind::Colon) {
            self.bump();
            let (ty, _) = self.parse_type(f)?;
            keep(&mut kids, ty, Ghost(self.count() as int));
        }
        if self.at_oper("=") {
            self.bump();
            let (ty, _) = self.parse_type(f)?;
            keep(&mut kids, ty, Ghost(self.count() as int));
        }
        if !is_alias && self.at_keyword("where") {
            self.skip_where_clause();
        }
        let kind = if is_alias {
            NodeKind::TypeAliasDecl
        } else {
            NodeKind::AssociatedTypeDecl
        };
        let ghost before = self.arena();
        let ghost kids_v = kids@;
        let id = self.add_decl(kind, Some(String::from_str(name.text)), kw.line, kw.col, meta, kids, 0, None);
        proof {
            if simple {
                assert(kids_v.len() == 1);
                assert(self.arena()[kids_v[0] as int] == before[kids_v[0] as int]);
            }
        }
        Ok(id)
    }

    /// `import [kind] A.B.C`: an `ImportDecl` whose text is the module path.
    fn parse_import(&mut self, meta: DeclMeta) -> (id: usize)
        requires
            old(self).wf(),
            ids_below(meta.attributes@, old(self).count() as int),
        ensures
            extends(old(self), final(self)),
            id < final(self).count(),
    {
        let kw = self.bump();
        if self.at_kind(TokenKind::Keyword) && is_import_kind(self.peek().text) && self.ahead(1).kind
            == TokenKind::Identifier {
            self.bump();
        }
        let mut path = String::new();
        while self.at_kind(TokenKind::Identifier)
            invariant
                extends(old(self), self),
                ids_below(meta.attributes@, self.count() as int),
            decreases self.token_count() - self.cursor(),
        {
            let t = self.bump();
            path.append(t.text);
            if self.at_kind(TokenKind::Dot) {
                self.bump();
                path.append(".");
            } else {
                break;
            }
        }
        self.add_decl(NodeKind::ImportDecl, Some(path), kw.line, kw.col, meta, Vec::new(), 0, None)
    }

    /// `return [expr]`; the value, when present, is on the same line.
    #[verifier::loop_isolation(false)]
    fn parse_return(&mut self, fuel: u32) -> (r: Result<usize, ParseError>)
        requires
            old(self).wf(),
        ensures
            extends(old(self), final(self)),
            r matches Ok(id) ==> id < final(self).count(),
            fuel > 0 && old(self).cur_kind() != TokenKind::Eof && (old(self).tok_ahead(1).kind
                == TokenKind::RBrace || old(self).tok_ahead(1).kind == TokenKind::Eof || old(
                self,
            ).tok_ahead(1).leading_newline) ==> ({
                &&& r matches Ok(id)
                &&& final(self).arena()[id as int].kind == NodeKind::ReturnStmt
                &&& final(self).arena()[id as int].children.len() == 0
                &&& final(self).cursor() == old(self).cursor() + 1
            }),
            fuel > 3 && old(self).cur_kind() != TokenKind::Eof && !old(self).tok_ahead(1).leading_newline
                && lone_atom(old(self).tok_ahead(1)) && ends_expr(old(self).tok_ahead(2)) ==> ({
                &&& r matches Ok(id)
                &&& final(self).arena()[id as int].kind == NodeKind::ReturnStmt
                &&& final(self).arena()[id as int].children.len() == 1
                &&& final(self).arena()[final(self).arena()[id as int].children[0] as int].kind
                    == atom_node_kind(old(self).tok_ahead(1)).unwrap()
                &&& final(self).cursor() == old(self).cursor() + 2
            }),
        decreases fuel,
    {
        if fuel == 0 {
            return Err(self.too_deep());
        }
        let kw = self.bump();
        let next = self.peek();
        let mut kids: Vec<usize> = Vec::new();
        if !(next.kind == TokenKind::RBrace || next.kind == TokenKind::Eof) && !next.leading_newline {
            let e = self.parse_expr(0, fuel - 1)?;
            keep(&mut kids, e, Ghost(self.count() as int));
        }
        Ok(self.add(NodeKind::ReturnStmt, None, kw.line, kw.col, kids))
    }

    /// `if cond { } [else (if ... | { })]`, as a statement or an expression:
    /// the then-block and the else branch as children.
    #[verifier::loop_isolation(false)]
    fn parse_if(&mut self, fuel: u32) -> (r: Result<usize, ParseError>)
        requires
            old(self).wf(),
        ensures
            extends(old(self), final(self)),
            r matches Ok(id) ==> is_last(final(self), id),
            fuel > 9 && old(self).cur_kind() != TokenKind::Eof && lone_atom(old(self).tok_ahead(1)) && old(
                self,
            ).tok_ahead(2).kind == TokenKind::LBrace && atom_stmts(old(self).tokens@, old(self).cursor() as int + 3)
                && ({
                let toks = old(self).tokens@;
                let end = atom_stmts_end(toks, old(self).cursor() as int + 3);
                toks[end].kind == TokenKind::RBrace && !(toks[end + 1].kind == TokenKind::Keyword
                    && toks[end + 1].text@ == "else"@)
            }) ==> ({
                let end = atom_stmts_end(old(self).tokens@, old(self).cursor() as int + 3);
                &&& r matches Ok(id)
                &&& final(self).arena()[id as int].kind == NodeKind::IfStmt
                &&& final(self).arena()[id as int].children.len() == 2
                &&& final(self).arena()[final(self).arena()[id as int].children[0] as int].kind
                    == atom_node_kind(old(self).tok_ahead(1)).unwrap()
                &&& final(self).arena()[final(self).arena()[id as int].children[1] as int].kind
                    == NodeKind::Block
                &&& final(self).cursor() == end + 1
            }),
        decreases fuel,
    {
        if fuel == 0 {
            return Err(self.too_deep());
        }
        let f = fuel - 1;
        let kw = self.bump();
        proof {
            if fuel > 9 && old(self).cur_kind() != TokenKind::Eof && lone_atom(old(self).tok_ahead(1)) {
                assert(self.tok_ahead(0) == old(self).tok_ahead(1));
                assert(self.tok_ahead(1) == old(self).tok_ahead(2));
            }
        }
        let mut kids = self.parse_conditions(f)?;
        let ghost mid = self.arena();
        let then_branch = self.parse_block(f)?;
        proof {
            if kids@.len() == 1 && kids@[0] < mid.len() && self.arena().subrange(0, mid.len() as int) == mid {
                assert(self.arena()[kids@[0] as int] == mid[kids@[0] as int]);
            }
        }
        keep(&mut kids, then_branch, Ghost(self.count() as int));
        if self.at_keyword("else") {
            self.bump();
            let e = if self.at_keyword("if") {
                self.parse_if(f)?
            } else {
                self.parse_block(f)?
            };
            keep(&mut kids, e, Ghost(self.count() as int));
        }
        Ok(self.add(NodeKind::IfStmt, None, kw.line, kw.col, kids))
    }

    /// `guard cond else { }`.
    #[verifier::loop_isolation(false)]
    fn parse_guard(&mut self, fuel: u32) -> (r: Result<usize, ParseError>)
        requires
            old(self).wf(),
        ensures
            extends(old(self), final(self)),
            r matches Ok(id) ==> id < final(self).count(),
            fuel > 9 && old(self).cur_kind() != TokenKind::Eof && lone_atom(old(self).tok_ahead(1)) && old(
                self,
            ).tok_ahead(2).kind == TokenKind::Keyword && old(self).tok_ahead(2).text@ == "else"@ && old(
                self,
            ).tok_ahead(3).kind == TokenKind::LBrace && atom_stmts(old(self).tokens@, old(self).cursor() as int + 4)
                && old(self).tokens@[atom_stmts_end(old(self).tokens@, old(self).cursor() as int + 4)].kind
                == TokenKind::RBrace ==> ({
                let end = atom_stmts_end(old(self).tokens@, old(self).cursor() as int + 4);
                &&& r matches Ok(id)
                &&& final(self).arena()[id as int].kind == NodeKind::GuardStmt
                &&& final(self).arena()[id as int].children.len() == 2
                &&& final(self).arena()[final(self).arena()[id as int].children[0] as int].kind
                    == atom_node_kind(old(self).tok_ahead(1)).unwrap()
                &&& final(self).arena()[final(self).arena()[id as int].children[1] as int].kind
                    == NodeKind::Block
                &&& final(self).cursor() == end + 1
            }),
        decreases fuel,
    {
        if fuel == 0 {
            return Err(self.too_deep());
        }
        let kw = self.bump();
        proof {
            reveal_strlit("else");
            reveal_strlit("is");
            reveal_strlit("as");
            if fuel > 9 && old(self).cur_kind() != TokenKind::Eof && lone_atom(old(self).tok_ahead(1)) {
                assert(self.tok_ahead(0) == old(self).tok_ahead(1));
                assert(self.tok_ahead(1) == old(self).tok_ahead(2));
                if old(self).tok_ahead(2).text@ == "else"@ {
                    assert("else"@.len() == 4);
                    assert("is"@.len() == 2);
                    assert("as"@.len() == 2);
                    assert(old(self).tok_ahead(2).text@ != "is"@);
                    assert(old(self).tok_ahead(2).text@ != "as"@);
                }
            }
        }
        let mut kids = self.parse_conditions(fuel - 1)?;
        if !self.at_keyword("else") {
            return Err(self.error_here(String::from_str("expected 'else' after guard condition")));
        }
        self.bump();
        proof {
            if fuel > 9 && old(self).cur_kind() != TokenKind::Eof && lone_atom(old(self).tok_ahead(1)) && old(
                self,
            ).tok_ahead(2).kind == TokenKind::Keyword && old(self).tok_ahead(2).text@ == "else"@ {
                assert(self.cursor() == old(self).cursor() + 3);
                assert(self.tok_ahead(0) == old(self).tok_ahead(3));
            }
        }
        let ghost mid = self.arena();
        let body = self.parse_block(fuel - 1)?;
        proof {
            if kids@.len() == 1 && kids@[0] < mid.len() && self.arena().subrange(0, mid.len() as int) == mid {
                assert(self.arena()[kids@[0] as int] == mid[kids@[0] as int]);
            }
        }
        keep(&mut kids, body, Ghost(self.count() as int));
        Ok(self.add(NodeKind::GuardStmt, None, kw.line, kw.col, kids))
    }

    /// `while`/`for`/`repeat`/`switch`, possibly labeled. A loop keeps its
    /// body block; a `switch` keeps its subject and clauses.
    #[verifier::loop_isolation(false)]
    fn parse_loop(&mut self, label: Option<&str>, fuel: u32) -> (r: Result<usize, ParseError>)
        requires
            old(self).wf(),
        ensures
            extends(old(self), final(self)),
            r matches Ok(id) ==> id < final(self).count(),
            fuel > 9 && at_simple_while(old(self)) ==> simple_while_parsed(
                old(self),
                final(self),
                match label {
                    Some(l) => Some(l@),
                    None => None,
                },
                r,
            ),
        decreases fuel,
    {
        if fuel == 0 {
            return Err(self.too_deep());
        }
        let f = fuel - 1;
        proof {
            reveal_strlit("while");
            reveal_strlit("switch");
            reveal_strlit("repeat");
            reveal_strlit("for");
            assert("while"@.len() == 5 && "switch"@.len() == 6 && "repeat"@.len() == 6 && "for"@.len() == 3);
            if fuel > 9 && at_simple_while(old(self)) {
                assert(old(self).tok_ahead(0) == old(self).tokens@[old(self).pos as int]);
            }
        }
        if self.at_keyword("switch") {
            return self.parse_switch(label, f);
        }
        let kw = self.bump();
        proof {
            if fuel > 9 && at_simple_while(old(self)) {
                assert(self.tok_ahead(0) == old(self).tok_ahead(1));
                assert(self.tok_ahead(1) == old(self).tok_ahead(2));
            }
        }
        let mut kids: Vec<usize> = Vec::new();
        let mut mods: u32 = 0;
        let kind = if str_same(kw.text, "repeat") {
            let body = self.parse_block(f)?;
            keep(&mut kids, body, Ghost(self.count() as int));
            if !self.at_keyword("while") {
                return Err(self.error_here(String::from_str("expected 'while' after repeat body")));
            }
            self.bump();
            let cond = self.parse_expr(0, f)?;
            keep(&mut kids, cond, Ghost(self.count() as int));
            NodeKind::RepeatStmt
        } else if str_same(kw.text, "for") {
            loop
                invariant
                    extends(old(self), self),
                    ids_below(kids@, self.count() as int),
                decreases self.token_count() - self.cursor(),
            {
                if self.at_kind(TokenKind::Identifier) && self.at_text("await") {
                    self.bump();
                    mods = mods | decode::ASYNC;
                } else if self.at_keyword("try") {
                    self.bump();
                    mods = mods | decode::THROWS;
                } else {
                    break;
                }
            }
            let pattern = if self.at_keyword("case") {
                self.bump();
                self.parse_case_pattern(false, f)?
            } else {
                self.parse_pattern(f)?
            };
            keep(&mut kids, pattern, Ghost(self.count() as int));
            if !self.at_keyword("in") {
                return Err(self.error_here(String::from_str("expected 'in' in a for-loop")));
            }
            self.bump();
            let saved = self.no_trailing;
            self.no_trailing = true;
            let iterable = self.parse_expr(0, f)?;
            keep(&mut kids, iterable, Ghost(self.count() as int));
            if self.at_keyword("where") {
                self.bump();
                let cond = self.parse_expr(0, f)?;
                keep(&mut kids, cond, Ghost(self.count() as int));
            }
            self.no_trailing = saved;
            let body = self.parse_block(f)?;
            keep(&mut kids, body, Ghost(self.count() as int));
            NodeKind::ForStmt
        } else {
            kids = self.parse_conditions(f)?;
            let ghost mid = self.arena();
            let body = self.parse_block(f)?;
            proof {
                if kids@.len() == 1 && kids@[0] < mid.len() && self.arena().subrange(0, mid.len() as int) == mid {
                    assert(self.arena()[kids@[0] as int] == mid[kids@[0] as int]);
                }
            }
            keep(&mut kids, body, Ghost(self.count() as int));
            NodeKind::WhileStmt
        };
        let mut n = plain_node(kind, None, kw.line, kw.col, kids);
        n.modifiers = mods;
        n.loop_label = match label {
            Some(l) => Some(String::from_str(l)),
            None => None,
        };
        Ok(self.push(n))
    }

    /// A `precedencegroup Name { ... }` declaration (its body skipped), or an
    /// `[infix|prefix|postfix] operator op [: Group]` declaration whose group
    /// becomes an `IdentExpr` child. The precedences themselves were read by
    /// the pre-scan ([`crate::precedence`]).
    fn parse_operator_or_precedence(&mut self, meta: DeclMeta) -> (r: Result<usize, ParseError>)
        requires
            old(self).wf(),
            ids_below(meta.attributes@, old(self).count() as int),
        ensures
            extends(old(self), final(self)),
            r matches Ok(id) ==> id < final(self).count(),
    {
        if self.at_text("precedencegroup") {
            let kw = self.bump();
            let name = self.expect(TokenKind::Identifier)?;
            self.expect(TokenKind::LBrace)?;
            while !self.at_kind(TokenKind::RBrace) && !self.at_eof()
                invariant
                    extends(old(self), self),
                    self.count() == old(self).count(),
                decreases self.token_count() - self.cursor(),
            {
                self.bump();
            }
            self.expect(TokenKind::RBrace)?;
            return Ok(self.add_decl(
                NodeKind::PrecedenceGroupDecl,
                Some(String::from_str(name.text)),
                kw.line,
                kw.col,
                meta,
                Vec::new(),
                0,
                None,
            ));
        }
        if self.at_text("infix") || self.at_text("prefix") || self.at_text("postfix") {
            self.bump();
        }
        self.bump();
        let first = self.peek();
        let mut name = String::new();
        while self.at_kind(TokenKind::Oper) && !self.peek().leading_newline
            invariant
                extends(old(self), self),
                self.count() == old(self).count(),
            decreases self.token_count() - self.cursor(),
        {
            let t = self.bump();
            name.append(t.text);
        }
        if name.as_str().unicode_len() == 0 {
            let t = self.bump();
            name.append(t.text);
        }
        let mut kids: Vec<usize> = Vec::new();
        if self.at_kind(TokenKind::Colon) {
            self.bump();
            let g = self.expect(TokenKind::Identifier)?;
            let gid = self.add(NodeKind::IdentExpr, Some(String::from_str(g.text)), g.line, g.col, Vec::new());
            keep(&mut kids, gid, Ghost(self.count() as int));
        }
        Ok(self.add_decl(NodeKind::OperatorDecl, Some(name), first.line, first.col, meta, kids, 0, None))
    }

    /// A comma-separated condition list of `if`/`guard`/`while`: optional
    /// bindings (`let x = e`), `case` patterns, and boolean expressions. A
    /// `{` inside it opens the statement's body, not a trailing closure.
    #[verifier::loop_isolation(false)]
    fn parse_conditions(&mut self, fuel: u32) -> (r: Result<Vec<usize>, ParseError>)
        requires
            old(self).wf(),
        ensures
            extends(old(self), final(self)),
            r matches Ok(ids) ==> ids_below(ids@, final(self).count() as int),
            fuel > 3 && lone_atom(old(self).tok_ahead(0)) && ((ends_expr(old(self).tok_ahead(1)) && old(
                self,
            ).tok_ahead(1).kind != TokenKind::Comma) || old(self).tok_ahead(1).kind == TokenKind::LBrace) ==> ({
                &&& r matches Ok(ids)
                &&& ids@.len() == 1
                &&& final(self).arena() == old(self).arena().push(final(self).arena()[ids@[0] as int])
                &&& final(self).arena()[ids@[0] as int].kind == atom_node_kind(old(self).tok_ahead(0)).unwrap()
                &&& final(self).cursor() == old(self).cursor() + 1
                &&& final(self).tokens@ == old(self).tokens@
                &&& final(self).in_condition() == old(self).in_condition()
            }),
        decreases fuel,
    {
        if fuel == 0 {
            return Err(self.too_deep());
        }
        let f = fuel - 1;
        let saved = self.no_trailing;
        self.no_trailing = true;
        let mut conds: Vec<usize> = Vec::new();
        let ghost single = fuel > 3 && lone_atom(old(self).tok_ahead(0)) && ((ends_expr(old(self).tok_ahead(1))
            && old(self).tok_ahead(1).kind != TokenKind::Comma) || old(self).tok_ahead(1).kind
            == TokenKind::LBrace);
        loop
            invariant
                extends(old(self), self),
                ids_below(conds@, self.count() as int),
                single ==> conds@.len() == 0 && self.pos == old(self).pos && self.tokens@ == old(self).tokens@
                    && self.arena() == old(self).arena() && self.no_trailing,
            decreases self.token_count() - self.cursor(),
        {
            let c = if self.at_keyword("let") || self.at_keyword("var") {
                self.parse_condition_binding(f)?
            } else if self.at_keyword("case") {
                self.parse_case_condition(f)?
            } else {
                self.parse_expr(0, f)?
            };
            keep(&mut conds, c, Ghost(self.count() as int));
            if self.at_kind(TokenKind::Comma) {
                self.bump();
                continue;
            }
            break;
        }
        self.no_trailing = saved;
        Ok(conds)
    }

    /// One optional-binding condition (`let x`, `let x: T = e`, `var y = e`):
    /// a single binding, so that a comma separates conditions.
    #[verifier::loop_isolation(false)]
    fn parse_condition_binding(&mut self, fuel: u32) -> (r: Result<usize, ParseError>)
        requires
            old(self).wf(),
        ensures
            extends(old(self), final(self)),
            r matches Ok(id) ==> id < final(self).count(),
            fuel > 1 && old(self).cur_kind() != TokenKind::Eof && old(self).tok_ahead(1).kind == TokenKind::Identifier
                && old(self).tok_ahead(2).kind != TokenKind::Colon && old(self).tok_ahead(2).kind != TokenKind::Oper
                ==> ({
                &&& r matches Ok(id)
                &&& final(self).arena()[id as int].kind == if old(self).tok_ahead(0).text@ == "let"@ {
                    NodeKind::LetDecl
                } else {
                    NodeKind::VarDecl
                }
                &&& final(self).arena()[id as int].children.len() == 1
                &&& final(self).cursor() == old(self).cursor() + 2
            }),
            fuel > 3 && old(self).cur_kind() != TokenKind::Eof && old(self).tok_ahead(1).kind == TokenKind::Identifier
                && old(self).tok_ahead(2).kind == TokenKind::Oper && old(self).tok_ahead(2).text@ == "="@
                && lone_atom(old(self).tok_ahead(3)) && (ends_expr(old(self).tok_ahead(4)) || (old(self).tok_ahead(
                4,
            ).kind == TokenKind::LBrace && old(self).in_condition())) ==> ({
                &&& r matches Ok(id)
                &&& final(self).arena()[id as int].kind == if old(self).tok_ahead(0).text@ == "let"@ {
                    NodeKind::LetDecl
                } else {
                    NodeKind::VarDecl
                }
                &&& final(self).arena()[id as int].children.len() == 2
                &&& final(self).arena()[final(self).arena()[id as int].children[1] as int].kind
                    == atom_node_kind(old(self).tok_ahead(3)).unwrap()
                &&& final(self).cursor() == old(self).cursor() + 4
            }),
        decreases fuel,
    {
        if fuel == 0 {
            return Err(self.too_deep());
        }
        let f = fuel - 1;
        let kw = self.bump();
        let kind = if str_same(kw.text, "let") {
            NodeKind::LetDecl
        } else {
            NodeKind::VarDecl
        };
        let mut kids: Vec<usize> = Vec::new();
        proof {
            if old(self).cur_kind() != TokenKind::Eof {
                assert(self.tok_ahead(0) == old(self).tok_ahead(1));
            }
        }
        let pattern = self.parse_pattern(f)?;
        keep(&mut kids, pattern, Ghost(self.count() as int));
        proof {
            if fuel > 1 && old(self).cur_kind() != TokenKind::Eof && old(self).tok_ahead(1).kind
                == TokenKind::Identifier {
                assert(self.tok_ahead(0) == old(self).tok_ahead(2));
                assert(self.tok_ahead(1) == old(self).tok_ahead(3));
                assert(self.tok_ahead(2) == old(self).tok_ahead(4));
            }
        }
        if self.at_kind(TokenKind::Colon) {
            self.bump();
            let (ty, _) = self.parse_type(f)?;
            keep(&mut kids, ty, Ghost(self.count() as int));
        }
        if self.at_oper("=") {
            self.bump();
            let init = self.parse_expr(0, f)?;
            keep(&mut kids, init, Ghost(self.count() as int));
        }
        let ghost before = self.arena();
        let id = self.add(kind, None, kw.line, kw.col, kids);
        proof {
            if kids@.len() == 2 {
                assert(self.arena()[kids@[1] as int] == before[kids@[1] as int]);
            }
        }
        Ok(id)
    }

    /// A `case pattern = expr` condition, read as a binding: `case let v? = e`
    /// binds `v` as `let v = e` would.
    #[verifier::loop_isolation(false)]
    fn parse_case_condition(&mut self, fuel: u32) -> (r: Result<usize, ParseError>)
        requires
            old(self).wf(),
        ensures
            extends(old(self), final(self)),
            r matches Ok(id) ==> id < final(self).count(),
        decreases fuel,
    {
        if fuel == 0 {
            return Err(self.too_deep());
        }
        let f = fuel - 1;
        let kw = self.bump();
        let pat = self.parse_case_pattern(false, f)?;
        let pattern = self.unwrap_some_name_pattern(pat);
        if !self.at_oper("=") {
            return Err(self.error_here(String::from_str("expected '=' after a 'case' condition pattern")));
        }
        self.bump();
        let expr = self.parse_expr(0, f)?;
        let mut kids: Vec<usize> = Vec::new();
        keep(&mut kids, pattern, Ghost(self.count() as int));
        keep(&mut kids, expr, Ghost(self.count() as int));
        Ok(self.add(NodeKind::LetDecl, None, kw.line, kw.col, kids))
    }

    /// The bound name of a `name?` pattern (a `some` case over a single
    /// bound name); any other pattern unchanged.
    fn unwrap_some_name_pattern(&self, id: usize) -> (r: usize)
        requires
            self.wf(),
            id < self.count(),
        ensures
            r < self.count(),
            r == ({
                let n = self.arena()[id as int];
                if n.kind == NodeKind::EnumCasePattern && n.children.len() == 1 && n.text == Some("some"@)
                    && self.arena()[n.children[0] as int].kind == NodeKind::PatternValueBinding {
                    n.children[0]
                } else {
                    id
                }
            }),
    {
        let n = &self.nodes[id];
        if n.kind == NodeKind::EnumCasePattern && n.children.len() == 1 {
            let is_some = match &n.text {
                Some(t) => str_same(t.as_str(), "some"),
                None => false,
            };
            let c = n.children[0];
            proof {
                assert(node_wf(self.arena(), id as int));
                assert(self.arena()[id as int].children[0] == c);
            }
            if is_some && self.nodes[c].kind == NodeKind::PatternValueBinding {
                return c;
            }
        }
        id
    }

    /// The cursor is an `@unknown` attribute before a `default`/`case` clause.
    fn at_unknown_clause(&self) -> (r: bool)
        requires
            self.wf(),
        ensures
            r == {
                let t = self.tokens@[self.pos as int];
                let next = self.tok_ahead(1);
                &&& t.kind == TokenKind::Attribute
                &&& t.text@ == "@unknown"@
                &&& next.kind == TokenKind::Keyword
                &&& (next.text@ == "default"@ || next.text@ == "case"@)
            },
    {
        let t = self.peek();
        if t.kind != TokenKind::Attribute || !str_same(t.text, "@unknown") {
            return false;
        }
        let next = self.ahead(1);
        next.kind == TokenKind::Keyword && (str_same(next.text, "default") || str_same(next.text, "case"))
    }

    /// `switch subject { clauses }`: the subject expression, then one
    /// `CaseClause` per `case`/`default` clause.
    #[verifier::loop_isolation(false)]
    fn parse_switch(&mut self, label: Option<&str>, fuel: u32) -> (r: Result<usize, ParseError>)
        requires
            old(self).wf(),
        ensures
            extends(old(self), final(self)),
            r matches Ok(id) ==> id < final(self).count(),
        decreases fuel,
    {
        if fuel == 0 {
            return Err(self.too_deep());
        }
        let f = fuel - 1;
        let kw = self.bump();
        let mut kids: Vec<usize> = Vec::new();
        let saved = self.no_trailing;
        self.no_trailing = true;
        let subject = self.parse_expr(0, f)?;
        self.no_trailing = saved;
        keep(&mut kids, subject, Ghost(self.count() as int));
        self.expect(TokenKind::LBrace)?;
        while self.at_keyword("case") || self.at_keyword("default") || self.at_unknown_clause()
            invariant
                extends(old(self), self),
                ids_below(kids@, self.count() as int),
            decreases self.token_count() - self.cursor(),
        {
            let before = self.pos;
            let clause = self.parse_case_clause(f)?;
            if self.pos <= before {
                return Err(self.error_here(String::from_str("expected a case clause")));
            }
            keep(&mut kids, clause, Ghost(self.count() as int));
        }
        self.expect(TokenKind::RBrace)?;
        let mut n = plain_node(NodeKind::SwitchStmt, None, kw.line, kw.col, kids);
        n.loop_label = match label {
            Some(l) => Some(String::from_str(l)),
            None => None,
        };
        Ok(self.push(n))
    }

    /// One `case items [where guard]:` or `default:` clause (an `@unknown`
    /// before it is dropped). Children: the case items, a `WhereClause`
    /// holding the guard, then the clause body as a `Block`; a `default`
    /// clause carries the text `default`.
    #[verifier::loop_isolation(false)]
    fn parse_case_clause(&mut self, fuel: u32) -> (r: Result<usize, ParseError>)
        requires
            old(self).wf(),
        ensures
            extends(old(self), final(self)),
            r matches Ok(id) ==> id < final(self).count(),
        decreases fuel,
    {
        if fuel == 0 {
            return Err(self.too_deep());
        }
        let f = fuel - 1;
        while self.at_unknown_clause()
            invariant
                extends(old(self), self),
                self.count() == old(self).count(),
            decreases self.token_count() - self.cursor(),
        {
            self.bump();
        }
        let kw = self.bump();
        let is_default = str_same(kw.text, "default");
        let mut kids: Vec<usize> = Vec::new();
        if !is_default {
            loop
                invariant
                    extends(old(self), self),
                    ids_below(kids@, self.count() as int),
                decreases self.token_count() - self.cursor(),
            {
                let item = self.parse_case_pattern(false, f)?;
                keep(&mut kids, item, Ghost(self.count() as int));
                if self.at_kind(TokenKind::Comma) {
                    self.bump();
                    continue;
                }
                break;
            }
            if self.at_keyword("where") {
                let w = self.bump();
                let cond = self.parse_expr(0, f)?;
                let wn = self.add(NodeKind::WhereClause, None, w.line, w.col, vec![cond]);
                keep(&mut kids, wn, Ghost(self.count() as int));
            }
        }
        self.expect(TokenKind::Colon)?;
        let mut body: Vec<usize> = Vec::new();
        loop
            invariant
                extends(old(self), self),
                ids_below(kids@, self.count() as int),
                ids_below(body@, self.count() as int),
            decreases self.token_count() - self.cursor(),
        {
            self.skip_semicolons();
            if self.at_keyword("case") || self.at_keyword("default") || self.at_kind(TokenKind::RBrace)
                || self.at_eof() || self.at_unknown_clause() {
                break;
            }
            let before = self.pos;
            let ids = self.append_statement(f)?;
            if self.pos <= before {
                return Err(self.error_here(String::from_str("expected a statement")));
            }
            keep_all(&mut body, &ids, Ghost(self.count() as int));
        }
        let b = self.add(NodeKind::Block, None, kw.line, kw.col, body);
        keep(&mut kids, b, Ghost(self.count() as int));
        let label = if is_default {
            Some(String::from_str("default"))
        } else {
            None
        };
        Ok(self.add(NodeKind::CaseClause, label, kw.line, kw.col, kids))
    }

    /// One `case` item pattern, with an optional `as Type` cast. `binding`
    /// is set under an enclosing `let`/`var`, where a bare name binds the
    /// value instead of matching against it.
    #[verifier::loop_isolation(false)]
    fn parse_case_pattern(&mut self, binding: bool, fuel: u32) -> (r: Result<usize, ParseError>)
        requires
            old(self).wf(),
        ensures
            extends(old(self), final(self)),
            r matches Ok(id) ==> id < final(self).count(),
        decreases fuel,
    {
        if fuel == 0 {
            return Err(self.too_deep());
        }
        let f = fuel - 1;
        let pat = self.parse_case_pattern_inner(binding, f)?;
        if self.at_keyword("as") {
            let kw = self.bump();
            let mut op = String::from_str("as");
            if self.at_kind(TokenKind::Question) || self.at_oper("!") {
                let t = self.bump();
                op.append(t.text);
            }
            let (ty, _) = self.parse_type(f)?;
            let mut kids: Vec<usize> = Vec::new();
            keep(&mut kids, pat, Ghost(self.count() as int));
            keep(&mut kids, ty, Ghost(self.count() as int));
            return Ok(self.add(NodeKind::CastExpr, Some(op), kw.line, kw.col, kids));
        }
        Ok(pat)
    }

    /// A pattern without its cast suffix: `let`/`var` (entering a binding
    /// context), `_`, `is Type`, an enum case `.name(...)` / `Type.name(...)`,
    /// a tuple, a bound name (`name?` matching only a present value), or a
    /// value expression.
    #[verifier::loop_isolation(false)]
    fn parse_case_pattern_inner(&mut self, binding: bool, fuel: u32) -> (r: Result<usize, ParseError>)
        requires
            old(self).wf(),
        ensures
            extends(old(self), final(self)),
            r matches Ok(id) ==> id < final(self).count(),
        decreases fuel,
    {
        if fuel == 0 {
            return Err(self.too_deep());
        }
        let f = fuel - 1;
        if self.at_keyword("let") || self.at_keyword("var") {
            self.bump();
            return self.parse_case_pattern(true, f);
        }
        let t = self.peek();
        if t.kind == TokenKind::Identifier && str_same(t.text, "_") {
            self.bump();
            return Ok(self.add(NodeKind::PatternWildcard, None, t.line, t.col, Vec::new()));
        }
        if self.at_keyword("is") {
            let kw = self.bump();
            let (ty, _) = self.parse_type(f)?;
            let wild = self.add(NodeKind::PatternWildcard, None, kw.line, kw.col, Vec::new());
            let mut kids: Vec<usize> = Vec::new();
            keep(&mut kids, wild, Ghost(self.count() as int));
            keep(&mut kids, ty, Ghost(self.count() as int));
            return Ok(self.add(NodeKind::CastExpr, Some(String::from_str("is")), kw.line, kw.col, kids));
        }
        if t.kind == TokenKind::Dot || (t.kind == TokenKind::Identifier && self.ahead(1).kind == TokenKind::Dot) {
            return self.parse_enum_case_pattern(binding, f);
        }
        if t.kind == TokenKind::LParen {
            self.bump();
            let mut kids: Vec<usize> = Vec::new();
            if !self.at_kind(TokenKind::RParen) {
                loop
                    invariant
                        extends(old(self), self),
                        ids_below(kids@, self.count() as int),
                    decreases self.token_count() - self.cursor(),
                {
                    let sub = self.parse_case_pattern(binding, f)?;
                    keep(&mut kids, sub, Ghost(self.count() as int));
                    if self.at_kind(TokenKind::Comma) {
                        self.bump();
                        continue;
                    }
                    break;
                }
            }
            self.expect(TokenKind::RParen)?;
            return Ok(self.add(NodeKind::PatternTuple, None, t.line, t.col, kids));
        }
        if binding && t.kind == TokenKind::Identifier {
            self.bump();
            let name = self.add(NodeKind::PatternValueBinding, Some(String::from_str(t.text)), t.line, t.col, Vec::new());
            if self.at_kind(TokenKind::Question) {
                self.bump();
                return Ok(self.add(NodeKind::EnumCasePattern, Some(String::from_str("some")), t.line, t.col, vec![name]));
            }
            return Ok(name);
        }
        if self.at_oper("..<") || self.at_oper("...") {
            let op = self.bump();
            let bound = self.parse_expr(14, f)?;
            let marker = if str_same(op.text, "..<") {
                "upTo"
            } else {
                "through"
            };
            return Ok(self.add(NodeKind::RangePattern, Some(String::from_str(marker)), op.line, op.col, vec![bound]));
        }
        let lhs = self.parse_expr(14, f)?;
        if self.at_oper("...") && self.at_one_sided_range_end() {
            let op = self.bump();
            return Ok(self.add(NodeKind::RangePattern, Some(String::from_str("from")), op.line, op.col, vec![lhs]));
        }
        if self.at_oper("...") || self.at_oper("..<") {
            let op = self.bump();
            let hi = self.parse_expr(14, f)?;
            let mut kids: Vec<usize> = Vec::new();
            keep(&mut kids, lhs, Ghost(self.count() as int));
            keep(&mut kids, hi, Ghost(self.count() as int));
            return Ok(self.add(NodeKind::RangePattern, Some(String::from_str(op.text)), op.line, op.col, kids));
        }
        Ok(lhs)
    }

    /// `.name` or `Type.name`, with optional payload sub-patterns in
    /// parentheses (a `label:` before a sub-pattern is dropped).
    #[verifier::loop_isolation(false)]
    fn parse_enum_case_pattern(&mut self, binding: bool, fuel: u32) -> (r: Result<usize, ParseError>)
        requires
            old(self).wf(),
        ensures
            extends(old(self), final(self)),
            r matches Ok(id) ==> id < final(self).count(),
        decreases fuel,
    {
        if fuel == 0 {
            return Err(self.too_deep());
        }
        let f = fuel - 1;
        let start = self.peek();
        if self.at_kind(TokenKind::Identifier) {
            self.bump();
        }
        self.expect(TokenKind::Dot)?;
        let case = self.peek();
        if !(case.kind == TokenKind::Identifier || case.kind == TokenKind::Keyword) {
            return Err(self.error_here(found_message("expected a case name", case.kind)));
        }
        self.bump();
        let mut kids: Vec<usize> = Vec::new();
        if self.at_kind(TokenKind::LParen) {
            self.bump();
            if !self.at_kind(TokenKind::RParen) {
                loop
                    invariant
                        extends(old(self), self),
                        ids_below(kids@, self.count() as int),
                    decreases self.token_count() - self.cursor(),
                {
                    if self.at_kind(TokenKind::Identifier) && self.ahead(1).kind == TokenKind::Colon {
                        self.bump();
                        self.bump();
                    }
                    let sub = self.parse_case_pattern(binding, f)?;
                    keep(&mut kids, sub, Ghost(self.count() as int));
                    if self.at_kind(TokenKind::Comma) {
                        self.bump();
                        continue;
                    }
                    break;
                }
            }
            self.expect(TokenKind::RParen)?;
        }
        Ok(self.add(NodeKind::EnumCasePattern, Some(String::from_str(case.text)), start.line, start.col, kids))
    }

    /// `do { } [catch ... { }]*`.
    #[verifier::loop_isolation(false)]
    fn parse_do(&mut self, fuel: u32) -> (r: Result<usize, ParseError>)
        requires
            old(self).wf(),
        ensures
            extends(old(self), final(self)),
            r matches Ok(id) ==> id < final(self).count(),
            fuel > 9 && old(self).cur_kind() != TokenKind::Eof && old(self).tok_ahead(1).kind
                == TokenKind::LBrace && atom_stmts(old(self).tokens@, old(self).cursor() as int + 2) && ({
                let toks = old(self).tokens@;
                let end = atom_stmts_end(toks, old(self).cursor() as int + 2);
                toks[end].kind == TokenKind::RBrace && !(toks[end + 1].kind == TokenKind::Keyword
                    && toks[end + 1].text@ == "catch"@)
            }) ==> ({
                &&& r matches Ok(id)
                &&& final(self).arena()[id as int].kind == NodeKind::DoStmt
                &&& final(self).arena()[id as int].children.len() == 1
                &&& final(self).arena()[final(self).arena()[id as int].children[0] as int].kind
                    == NodeKind::Block
                &&& final(self).cursor() == atom_stmts_end(old(self).tokens@, old(self).cursor() as int + 2) + 1
            }),
        decreases fuel,
    {
        if fuel == 0 {
            return Err(self.too_deep());
        }
        let f = fuel - 1;
        let kw = self.bump();
        self.skip_effects();
        proof {
            if fuel > 9 && old(self).cur_kind() != TokenKind::Eof && old(self).tok_ahead(1).kind
                == TokenKind::LBrace {
                assert(old(self).tok_ahead(1) == old(self).tokens@[old(self).cursor() as int + 1]);
                assert(self.cursor() == old(self).cursor() + 1);
                assert(self.cur_kind() == TokenKind::LBrace);
            }
        }
        let body = self.parse_block(f)?;
        let mut kids: Vec<usize> = Vec::new();
        keep(&mut kids, body, Ghost(self.count() as int));
        let ghost single = fuel > 9 && old(self).cur_kind() != TokenKind::Eof && old(self).tok_ahead(1).kind
            == TokenKind::LBrace && atom_stmts(old(self).tokens@, old(self).cursor() as int + 2) && ({
            let toks = old(self).tokens@;
            let end = atom_stmts_end(toks, old(self).cursor() as int + 2);
            toks[end].kind == TokenKind::RBrace && !(toks[end + 1].kind == TokenKind::Keyword && toks[end
                + 1].text@ == "catch"@)
        });
        let ghost snap = *self;
        let ghost snap_kids = kids@;
        while self.at_keyword("catch")
            invariant
                extends(old(self), self),
                ids_below(kids@, self.count() as int),
                single ==> self.pos == snap.pos && self.nodes@ == snap.nodes@ && self.tokens@
                    == snap.tokens@ && kids@ == snap_kids && snap.tokens@ == old(self).tokens@
                    && snap.pos == atom_stmts_end(old(self).tokens@, old(self).cursor() as int + 2) + 1,
            decreases self.token_count() - self.cursor(),
        {
            let ckw = self.bump();
            let ghost mid = self.cursor();
            let mut ckids: Vec<usize> = Vec::new();
            if !self.at_kind(TokenKind::LBrace) {
                let saved = self.no_trailing;
                self.no_trailing = true;
                loop
                    invariant
                        extends(old(self), self),
                        mid <= self.cursor(),
                        ids_below(kids@, self.count() as int),
                        ids_below(ckids@, self.count() as int),
                    decreases self.token_count() - self.cursor(),
                {
                    let pat = self.parse_case_pattern(false, f)?;
                    keep(&mut ckids, pat, Ghost(self.count() as int));
                    if self.at_kind(TokenKind::Comma) {
                        self.bump();
                        continue;
                    }
                    break;
                }
                if self.at_keyword("where") {
                    self.skip_where_clause();
                }
                self.no_trailing = saved;
            }
            let b = self.parse_block(f)?;
            keep(&mut ckids, b, Ghost(self.count() as int));
            let clause = self.add(NodeKind::CatchClause, None, ckw.line, ckw.col, ckids);
            keep(&mut kids, clause, Ghost(self.count() as int));
        }
        Ok(self.add(NodeKind::DoStmt, None, kw.line, kw.col, kids))
    }

    /// A directive statement: `#if` conditional compilation, or `#warning`
    /// / `#error` / another directive with an optional argument.
    #[verifier::loop_isolation(false)]
    fn parse_directive_stmt(&mut self, fuel: u32) -> (r: Result<usize, ParseError>)
        requires
            old(self).wf(),
        ensures
            extends(old(self), final(self)),
            r matches Ok(id) ==> id < final(self).count(),
            fuel > 0 && old(self).cur_kind() == TokenKind::Directive && old(self).tok_ahead(0).text@ != "#if"@
                && old(self).tok_ahead(1).kind != TokenKind::LParen ==> ({
                &&& r matches Ok(id)
                &&& final(self).arena()[id as int].kind == NodeKind::CompilerDirective
                &&& final(self).arena()[id as int].text == Some(old(self).tok_ahead(0).text@)
                &&& final(self).arena()[id as int].children.len() == 0
                &&& final(self).cursor() == old(self).cursor() + 1
            }),
        decreases fuel,
    {
        if fuel == 0 {
            return Err(self.too_deep());
        }
        let f = fuel - 1;
        if self.at_text("#if") {
            return self.parse_conditional_compilation(f);
        }
        let dir = self.bump();
        let mut kids: Vec<usize> = Vec::new();
        if str_same(dir.text, "#sourceLocation") {
            if self.at_kind(TokenKind::LParen) {
                self.skip_balanced_parens();
            }
        } else if self.at_kind(TokenKind::LParen) {
            self.bump();
            if !self.at_kind(TokenKind::RParen) {
                let arg = self.parse_expr(0, f)?;
                keep(&mut kids, arg, Ghost(self.count() as int));
            }
            self.expect(TokenKind::RParen)?;
        }
        Ok(self.add(NodeKind::CompilerDirective, Some(String::from_str(dir.text)), dir.line, dir.col, kids))
    }

    /// Whether the cursor is at `#elseif`/`#else`/`#endif` or the end.
    fn at_directive_boundary(&self) -> (r: bool)
        requires
            self.wf(),
        ensures
            r == directive_boundary(self.tokens@[self.pos as int]),
    {
        self.at_eof() || (self.at_kind(TokenKind::Directive) && (self.at_text("#elseif")
            || self.at_text("#else") || self.at_text("#endif")))
    }

    /// Skip an inactive conditional-compilation branch, honouring nesting.
    fn skip_to_directive_boundary(&mut self)
        requires
            old(self).wf(),
        ensures
            extends(old(self), final(self)),
            final(self).count() == old(self).count(),
            final(self).arena() == old(self).arena(),
            final(self).tokens@ == old(self).tokens@,
            final(self).cursor() == directive_skip_end(old(self).tokens@, old(self).cursor() as int, 0),
    {
        let mut depth: u64 = 0;
        loop
            invariant
                extends(old(self), self),
                self.count() == old(self).count(),
                self.arena() == old(self).arena(),
                self.tokens@ == old(self).tokens@,
                directive_skip_end(old(self).tokens@, old(self).cursor() as int, 0) == directive_skip_end(
                    self.tokens@,
                    self.cursor() as int,
                    depth as int,
                ),
            decreases self.token_count() - self.cursor(),
        {
            if self.at_eof() {
                return;
            }
            let is_dir = self.at_kind(TokenKind::Directive);
            if is_dir && self.at_text("#if") {
                if depth < u64::MAX {
                    depth = depth + 1;
                }
            } else if is_dir && depth == 0 && (self.at_text("#elseif") || self.at_text("#else")
                || self.at_text("#endif")) {
                return;
            } else if is_dir && self.at_text("#endif") {
                depth = depth - 1;
            }
            self.bump();
        }
    }

    /// Evaluate a conditional-compilation condition (the rest of the
    /// directive line): `DEBUG`, `true` and the platform checks `os()`,
    /// `canImport()`, `arch()`, `swift()`, `compiler()`,
    /// `targetEnvironment()` hold; any other flag does not.
    fn eval_directive_condition(&mut self) -> (b: bool)
        requires
            old(self).wf(),
        ensures
            extends(old(self), final(self)),
            final(self).count() == old(self).count(),
            final(self).arena() == old(self).arena(),
            final(self).tokens@ == old(self).tokens@,
            (b, final(self).cursor() as int) == condition_value(
                old(self).tokens@,
                old(self).cursor() as int,
                false,
                false,
                false,
                false,
            ),
    {
        let ghost toks = self.tokens@;
        let ghost whole = condition_value(toks, self.pos as int, false, false, false, false);
        let mut value = false;
        let mut negate = false;
        let mut saw_and_false = false;
        let mut any = false;
        loop
            invariant
                extends(old(self), self),
                self.count() == old(self).count(),
                self.arena() == old(self).arena(),
                self.tokens@ == toks,
                toks == old(self).tokens@,
                whole == condition_value(toks, old(self).cursor() as int, false, false, false, false),
                whole == condition_value(toks, self.pos as int, value, negate, saw_and_false, any),
            ensures
                whole == (value && !saw_and_false, self.pos as int),
            decreases self.token_count() - self.cursor(),
        {
            let t = self.peek();
            let ghost k = self.pos as int;
            if t.leading_newline || t.kind == TokenKind::Eof {
                assert(whole == (value && !saw_and_false, k));
                break;
            }
            assert(k + 1 < toks.len());
            if t.kind == TokenKind::Identifier {
                let avail = str_same(t.text, "os") || str_same(t.text, "canImport") || str_same(
                    t.text,
                    "arch",
                ) || str_same(t.text, "swift") || str_same(t.text, "compiler") || str_same(
                    t.text,
                    "targetEnvironment",
                );
                self.bump();
                let mut flag = avail || str_same(t.text, "DEBUG") || str_same(t.text, "true");
                if self.at_kind(TokenKind::LParen) {
                    proof {
                        lemma_paren_end(toks, k + 1, 0);
                    }
                    self.skip_balanced_parens();
                }
                if negate {
                    flag = !flag;
                    negate = false;
                }
                if !saw_and_false && !any {
                    value = flag;
                }
                any = true;
            } else if t.kind == TokenKind::Keyword && str_same(t.text, "true") {
                self.bump();
                if !any {
                    value = !negate;
                }
                negate = false;
                any = true;
            } else if t.kind == TokenKind::Keyword && str_same(t.text, "false") {
                self.bump();
                if !any {
                    value = negate;
                }
                negate = false;
                any = true;
            } else if t.kind == TokenKind::Oper && str_same(t.text, "!") {
                negate = !negate;
                self.bump();
            } else if t.kind == TokenKind::Oper && str_same(t.text, "&&") {
                self.bump();
                if !value {
                    saw_and_false = true;
                }
                any = false;
            } else if t.kind == TokenKind::Oper && str_same(t.text, "||") {
                self.bump();
                if value {
                    self.skip_line();
                    proof {
                        lemma_line_end(toks, k + 1, self.pos as int);
                    }
                    return true;
                }
                any = false;
            } else {
                self.bump();
            }
        }
        value && !saw_and_false
    }

    /// Consume tokens up to the next line break.
    fn skip_line(&mut self)
        requires
            old(self).wf(),
        ensures
            extends(old(self), final(self)),
            final(self).count() == old(self).count(),
            final(self).arena() == old(self).arena(),
            final(self).tokens@ == old(self).tokens@,
            line_stop(final(self).tokens@[final(self).pos as int]),
            forall|j: int|
                old(self).cursor() <= j < final(self).cursor() ==> !line_stop(#[trigger] old(self).tokens@[j]),
    {
        while !self.peek().leading_newline && !self.at_eof()
            invariant
                extends(old(self), self),
                self.count() == old(self).count(),
                self.arena() == old(self).arena(),
                self.tokens@ == old(self).tokens@,
                forall|j: int|
                    old(self).cursor() <= j < self.cursor() ==> !line_stop(#[trigger] old(self).tokens@[j]),
            decreases self.token_count() - self.cursor(),
        {
            self.bump();
        }
    }

    /// `#if cond ... [#elseif cond ...] [#else ...] #endif`: only the first
    /// active branch's statements are parsed, as the directive's children;
    /// inactive branches are skipped.
    #[verifier::loop_isolation(false)]
    fn parse_conditional_compilation(&mut self, fuel: u32) -> (r: Result<usize, ParseError>)
        requires
            old(self).wf(),
        ensures
            extends(old(self), final(self)),
            r matches Ok(id) ==> id < final(self).count(),
        decreases fuel,
    {
        if fuel == 0 {
            return Err(self.too_deep());
        }
        let f = fuel - 1;
        let start = self.bump();
        let mut kids: Vec<usize> = Vec::new();
        let mut taken = false;
        let mut active = self.eval_directive_condition();
        loop
            invariant
                extends(old(self), self),
                ids_below(kids@, self.count() as int),
            decreases self.token_count() - self.cursor(),
        {
            if active && !taken {
                taken = true;
                let ghost mid = self.cursor();
                while !self.at_directive_boundary()
                    invariant
                        extends(old(self), self),
                        mid <= self.cursor(),
                        ids_below(kids@, self.count() as int),
                    decreases self.token_count() - self.cursor(),
                {
                    let before = self.pos;
                    let ids = self.append_statement(f)?;
                    if self.pos <= before {
                        return Err(self.error_here(String::from_str("expected a statement")));
                    }
                    keep_all(&mut kids, &ids, Ghost(self.count() as int));
                }
            } else {
                self.skip_to_directive_boundary();
            }
            if self.at_kind(TokenKind::Directive) && self.at_text("#elseif") {
                self.bump();
                active = self.eval_directive_condition();
            } else if self.at_kind(TokenKind::Directive) && self.at_text("#else") {
                self.bump();
                active = true;
            } else if self.at_kind(TokenKind::Directive) && self.at_text("#endif") {
                self.bump();
                break;
            } else {
                break;
            }
        }
        Ok(self.add(NodeKind::CompilerDirective, Some(String::from_str("#if")), start.line, start.col, kids))
    }
}

/// Parse a token stream ending in `Eof` into an arena whose last node is the
/// `SourceFile` root, or return the first syntax error.
#[verifier::loop_isolation(false)]
pub fn parse_tokens<'a>(tokens: Vec<Token<'a>>) -> (r: Result<(Vec<SyntaxNode>, usize), ParseError>)
    requires
        tokens@.len() > 0,
        tokens@.last().kind == TokenKind::Eof,
    ensures
        r matches Ok((nodes, root)) ==> {
            &&& root + 1 == nodes@.len()
            &&& tree_wf(nodes_view(nodes@))
            &&& nodes@[root as int].kind == NodeKind::SourceFile
        },
        tokens@[after_semicolons(tokens@, 0)].kind == TokenKind::Eof ==> (r matches Ok((nodes, root))
            && root == 0 && nodes@.len() == 1 && nodes@[0].children@.len() == 0),
        atom_stmts(tokens@, 0) && tokens@[atom_stmts_end(tokens@, 0)].kind == TokenKind::Eof ==> ({
            &&& r matches Ok((nodes, root))
            &&& nodes@[root as int].children@.len() == atom_stmt_count(tokens@, 0)
            &&& forall|i: int|
                0 <= i < nodes@[root as int].children@.len() ==> nodes@[#[trigger] nodes@[
                    root as int].children@[i] as int].kind == NodeKind::ExprStmt
        }),
        bad_binding_first(tokens_view(tokens@)) ==> r is Err,
        call_program(tokens@) ==> ({
            let k = after_semicolons(tokens@, 0);
            let c = 1 + atom_call_at(tokens@, k).unwrap().0.len() as int;
            &&& r matches Ok((nodes, root))
            &&& root == c + 2
            &&& call_stmt_nodes(nodes_view(nodes@), tokens@, k)
            &&& nodes_view(nodes@)[root as int].children == seq![(c + 1) as usize]
        }),
{
    let ops = if tokens.len() < usize::MAX {
        crate::precedence::collect_operator_precedence(&tokens)
    } else {
        Vec::new()
    };
    let mut p = Parser { tokens, pos: 0, nodes: Vec::new(), no_trailing: false, ops };
    assert(tree_wf(nodes_view(p.nodes@))) by {
        assert(nodes_view(p.nodes@).len() == 0);
    }
    let mut kids: Vec<usize> = Vec::new();
    let ghost toks = p.tokens@;
    let ghost premise = toks[after_semicolons(toks, 0)].kind == TokenKind::Eof;
    let ghost atoms = atom_stmts(toks, 0) && toks[atom_stmts_end(toks, 0)].kind == TokenKind::Eof;
    let ghost bad = bad_binding_first(tokens_view(toks));
    let ghost single = call_program(toks);
    let ghost k1 = after_semicolons(toks, 0);
    let ghost c1: int = 1 + atom_call_at(toks, k1).unwrap().0.len() as int;
    let ghost e1 = atom_call_at(toks, k1).unwrap().1;
    let ghost mut first = true;
    loop
        invariant
            p.wf(),
            single ==> p.tokens@ == toks,
            single == call_program(toks),
            k1 == after_semicolons(toks, 0),
            c1 == 1 + atom_call_at(toks, k1).unwrap().0.len() as int,
            e1 == atom_call_at(toks, k1).unwrap().1,
            single && !first ==> ({
                &&& kids@ == seq![(c1 + 1) as usize]
                &&& p.cursor() == e1 + 1
                &&& p.arena().len() == c1 + 2
                &&& call_stmt_nodes(p.arena(), toks, k1)
            }),
            ids_below(kids@, p.count() as int),
            first ==> p.tokens@ == toks && p.pos == 0 && p.count() == 0 && kids@.len() == 0,
            !first ==> !premise,
            !first ==> !bad,
            toks.len() > 0,
            atoms ==> {
                &&& p.tokens@ == toks
                &&& atom_stmts(toks, p.cursor() as int)
                &&& kids@.len() + atom_stmt_count(toks, p.cursor() as int) == atom_stmt_count(toks, 0)
                &&& atom_stmts_end(toks, p.cursor() as int) == atom_stmts_end(toks, 0)
                &&& forall|i: int|
                    0 <= i < kids@.len() ==> p.arena()[#[trigger] kids@[i] as int].kind == NodeKind::ExprStmt
            },
        decreases p.token_count() - p.cursor(),
    {
        let ghost c0 = p.cursor() as int;
        let ghost head = p.arena();
        p.skip_semicolons();
        proof {
            if first {
                lemma_after_semicolons(toks, 0, p.cursor() as int);
                lemma_view_after_semicolons(toks, 0);
                if bad {
                    let c = p.cursor() as int;
                    assert(tokens_view(toks)[c] == toks[c]@);
                    assert(tokens_view(toks)[c + 1] == toks[c + 1]@);
                    assert(p.tok_ahead(0) == toks[c]);
                    assert(p.tok_ahead(1) == toks[c + 1]);
                }
            }
            if atoms {
                lemma_atom_stmts_skip(toks, c0, p.cursor() as int);
            }
            if single && !first {
                lemma_after_semicolons(toks, c0, p.cursor() as int);
            }
            if single && first {
                let k = p.cursor() as int;
                assert(p.tok_ahead(0) == tok_at(toks, k));
                if toks[e1 + 1].kind != TokenKind::Semicolon {
                    assert(after_semicolons(toks, e1 + 1) == e1 + 1);
                }
                assert(at_call_stmt(&p));
            }
        }
        if p.at_eof() {
            break;
        }
        proof {
            first = false;
        }
        let before = p.pos;
        let ghost mid = p;
        let ids = p.append_statement(PARSE_FUEL)?;
        if p.pos <= before {
            return Err(p.error_here(String::from_str("expected a statement")));
        }
        let ghost prev = kids@;
        keep_all(&mut kids, &ids, Ghost(p.count() as int));
        proof {
            if single {
                assert(mid.count() == 0);
                let fa = p.arena();
                assert(mid.arena().push(fa[0]) =~= seq![fa[0]]);
                assert(kids@ =~= ids@);
            }
            if atoms {
                let n = mid.count() as int;
                assert(p.arena().subrange(0, n) == mid.arena());
                assert forall|i: int| 0 <= i < kids@.len() implies p.arena()[#[trigger] kids@[i] as int].kind
                    == NodeKind::ExprStmt by {
                    if i < prev.len() {
                        assert(kids@[i] == prev[i]);
                        assert(head[prev[i] as int].kind == NodeKind::ExprStmt);
                        assert(mid.arena()[prev[i] as int] == head[prev[i] as int]);
                        assert(prev[i] < n);
                        assert(p.arena()[prev[i] as int] == p.arena().subrange(0, n)[prev[i] as int]);
                    } else {
                        assert(kids@[i] == ids@[i - prev.len()]);
                    }
                }
            }
        }
    }
    let ghost before_root = p.arena();
    let root = p.add(NodeKind::SourceFile, None, 1, 1, kids);
    proof {
        if single {
            let t = nodes_view(p.nodes@);
            assert(t == p.arena());
            assert(t.subrange(0, c1) =~= before_root.subrange(0, c1));
            assert(t[0] == before_root[0]);
            assert(t[c1] == before_root[c1]);
            assert(t[c1 + 1] == before_root[c1 + 1]);
            assert(seq![t[0]] =~= seq![before_root[0]]);
        }
        assert(nodes_view(p.nodes@)[root as int].kind == p.nodes@[root as int].kind);
        assert(nodes_view(p.nodes@)[root as int].children == p.nodes@[root as int].children@);
        if atoms {
            assert forall|i: int| 0 <= i < kids@.len() implies p.nodes@[#[trigger] kids@[i] as int].kind
                == NodeKind::ExprStmt by {
                assert(p.arena()[kids@[i] as int] == before_root.push(p.arena()[root as int])[kids@[i] as int]);
                assert(nodes_view(p.nodes@)[kids@[i] as int].kind == p.nodes@[kids@[i] as int].kind);
            }
        }
    }
    Ok((p.nodes, root))
}

/// Lex and parse `source` into its syntax tree (with no diagnostics), or
/// return the first lexical or syntax error.
pub fn parse(source: &str) -> (r: Result<Analysis, ParseError>)
    ensures
        r matches Ok(a) ==> {
            &&& a.wf()
            &&& a.diagnostics_view().len() == 0
            &&& a.root_id() + 1 == a.tree().len()
            &&& a.tree()[a.root_id() as int].kind == NodeKind::SourceFile
        },
        !lexable(source@) ==> r is Err,
        lexable(source@) ==> (spec_tokenize(source@) matches Err(e) ==> (r matches Err(pe)
            && pe.message@ == e.message && pe.line == e.line && pe.col == e.col)),
        lexable(source@) ==> (spec_tokenize(source@) matches Ok(ts) ==> (bad_binding_first(ts) ==> r is Err)),
        lexable(source@) ==> (spec_tokenize(source@) matches Ok(ts) ==> (blank_program(ts) ==> (r matches Ok(a)
            && a.tree().len() == 1 && a.tree()[0].children.len() == 0))),
        lexable(source@) ==> (spec_tokenize(source@) matches Ok(ts) ==> (atom_program_from(ts, 0) ==> ({
            &&& r matches Ok(a)
            &&& a.tree()[a.root_id() as int].children.len() == atom_program_count(ts, 0)
            &&& forall|i: int|
                0 <= i < atom_program_count(ts, 0) ==> a.tree()[#[trigger] a.tree()[a.root_id() as int].children[i] as int].kind
                    == NodeKind::ExprStmt
        }))),
        lexable(source@) ==> (spec_tokenize(source@) matches Ok(ts) ==> (lexed_call_program(ts) ==> ({
            let c = 1 + lexed_atom_call_at(ts, view_after_semicolons(ts, 0)).unwrap().0.len() as int;
            &&& r matches Ok(a)
            &&& a.root_id() == c + 2
            &&& lexed_call_tree(a.tree(), ts)
            &&& a.tree()[a.root_id() as int].children == seq![(c + 1) as usize]
        }))),
{
    let n = source.unicode_len();
    if n > 0xFFFF_FFF7 {
        return Err(ParseError { message: String::from_str("source file is too large"), line: 1, col: 1 });
    }
    match tokenize(source) {
        Err(e) => Err(ParseError { message: e.message, line: e.line, col: e.col }),
        Ok(tokens) => {
            proof {
                lemma_view_after_semicolons(tokens@, 0);
                let j = after_semicolons(tokens@, 0);
                if 0 <= j < tokens@.len() {
                    assert(tokens_view(tokens@)[j] == tokens@[j]@);
                }
            }
            let ghost tv = tokens@;
            proof {
                if atom_program_from(tokens_view(tv), 0) {
                    lemma_atom_program(tv, 0);
                }
                lemma_lexed_call_program(tv);
            }
            let (nodes, root) = parse_tokens(tokens)?;
            proof {
                if call_program(tv) {
                    let k = after_semicolons(tv, 0);
                    lemma_view_after_semicolons(tv, 0);
                    let t = nodes_view(nodes@);
                    assert(t[0].kind == atom_kind_of(lexed_at(tokens_view(tv), k).kind, lexed_at(
                        tokens_view(tv),
                        k,
                    ).text).unwrap());
                    assert(lexed_call_tree(t, tokens_view(tv)));
                }
                if atom_program_from(tokens_view(tv), 0) {
                    let t = nodes_view(nodes@);
                    assert(t[root as int].children == nodes@[root as int].children@);
                    assert forall|i: int| 0 <= i < t[root as int].children.len() implies t[#[trigger] t[
                        root as int].children[i] as int].kind == NodeKind::ExprStmt by {
                        assert(node_wf(t, root as int));
                        assert(t[root as int].children[i] < root);
                        assert(t[nodes@[root as int].children@[i] as int].kind == nodes@[nodes@[
                            root as int].children@[i] as int].kind);
                    }
                }
            }
            Ok(Analysis::from_parts(nodes, root, Vec::new()))
        },
    }
}

} // verus!
