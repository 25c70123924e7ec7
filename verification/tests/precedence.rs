use tswift::lexer::tokenize;
use tswift::precedence::{
    binding_power, builtin_group_precedence, collect_operator_precedence, resolve_group_precedence, RawGroup,
};
use tswift::syntax::{Analysis, Node, NodeKind};

fn init_of<'a>(decl: Node<'a>) -> Node<'a> {
    *decl.children().into_vec().last().unwrap()
}

fn kids<'a>(n: Node<'a>) -> Vec<Node<'a>> {
    n.children().into_vec()
}

fn group(higher: Option<&str>, lower: Option<&str>, right: bool) -> RawGroup {
    RawGroup {
        higher_than: higher.map(|s| s.to_string()),
        lower_than: lower.map(|s| s.to_string()),
        right_associative: right,
    }
}

#[test]
fn builtin_groups_have_their_precedence() {
    assert_eq!(builtin_group_precedence("AdditionPrecedence"), Some((14, false)));
    assert_eq!(builtin_group_precedence("NilCoalescingPrecedence"), Some((12, true)));
    assert_eq!(builtin_group_precedence("AssignmentPrecedence"), Some((5, true)));
    assert_eq!(builtin_group_precedence("Nope"), None);
}

#[test]
fn custom_groups_resolve_relative_to_their_anchor() {
    let groups = vec![
        ("Above".to_string(), group(Some("MultiplicationPrecedence"), None, false)),
        ("Below".to_string(), group(None, Some("ComparisonPrecedence"), true)),
        ("Plain".to_string(), group(None, None, true)),
    ];
    let mut memo = Vec::new();
    assert_eq!(resolve_group_precedence("Above", &groups, &mut memo), (16, false));
    assert_eq!(resolve_group_precedence("Below", &groups, &mut memo), (8, true));
    assert_eq!(resolve_group_precedence("Plain", &groups, &mut memo), (14, true));
    assert_eq!(resolve_group_precedence("Undeclared", &groups, &mut memo), (14, false));
}

#[test]
fn cyclic_groups_terminate_at_the_default() {
    let groups = vec![
        ("A".to_string(), group(Some("B"), None, false)),
        ("B".to_string(), group(Some("A"), None, false)),
    ];
    let mut memo = Vec::new();
    assert_eq!(resolve_group_precedence("A", &groups, &mut memo), (16, false));
    assert_eq!(resolve_group_precedence("B", &groups, &mut memo), (15, false));
}

#[test]
fn declared_operators_get_their_group_precedence() {
    let src = "precedencegroup P { higherThan: MultiplicationPrecedence }\ninfix operator ** : P\nprefix operator !!\ninfix operator <>\n";
    let toks = tokenize(src).unwrap();
    let table = collect_operator_precedence(&toks);
    assert_eq!(table.len(), 2);
    assert_eq!(table[0].0, "**");
    assert_eq!(table[0].1, (16, false));
    assert_eq!(table[1].0, "<>");
    assert_eq!(table[1].1, (14, false));
    assert_eq!(binding_power(&table, "**"), (16, 17));
    assert_eq!(binding_power(&table, "+"), (14, 15));
    assert_eq!(binding_power(&table, "??"), (12, 11));
}

#[test]
fn higher_custom_operator_binds_tighter_than_multiplication() {
    let a = Analysis::analyze(
        "precedencegroup P { higherThan: MultiplicationPrecedence }\ninfix operator ** : P\nlet y = 2 * 3 ** 4\n",
        "main.swift",
    )
    .unwrap();
    assert!(a.is_ok(), "{:?}", a.diagnostics());
    let decls = kids(a.root());
    assert_eq!(decls[0].kind(), NodeKind::PrecedenceGroupDecl);
    assert_eq!(decls[0].text().as_deref(), Some("P"));
    assert_eq!(decls[1].kind(), NodeKind::OperatorDecl);
    assert_eq!(decls[1].text().as_deref(), Some("**"));
    let e = init_of(decls[2]);
    assert_eq!(e.text().as_deref(), Some("*"));
    assert_eq!(kids(e)[1].text().as_deref(), Some("**"));
}

#[test]
fn right_associative_custom_operator_nests_to_the_right() {
    let a = Analysis::analyze(
        "precedencegroup R { associativity: right }\ninfix operator ^^ : R\nlet z = 1 ^^ 2 ^^ 3\n",
        "main.swift",
    )
    .unwrap();
    let decls = kids(a.root());
    let e = init_of(decls[2]);
    assert_eq!(e.text().as_deref(), Some("^^"));
    assert_eq!(kids(e)[0].kind(), NodeKind::IntegerLiteral);
    assert_eq!(kids(e)[1].text().as_deref(), Some("^^"));
}

#[test]
fn operator_used_before_its_declaration_still_nests() {
    let a = Analysis::analyze(
        "let y = 1 + 2 <+> 3\ninfix operator <+> : MultiplicationPrecedence\n",
        "main.swift",
    )
    .unwrap();
    let e = init_of(kids(a.root())[0]);
    assert_eq!(e.text().as_deref(), Some("+"));
    assert_eq!(kids(e)[1].text().as_deref(), Some("<+>"));
}
