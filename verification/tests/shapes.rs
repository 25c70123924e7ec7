use tswift::parser::parse;
use tswift::syntax::{Analysis, NodeKind};

fn first_expr(src: &str) -> (NodeKind, Vec<(NodeKind, Option<String>)>) {
    let a = parse(src).expect("parse ok");
    let stmt = a.root().children().next().expect("a statement");
    assert_eq!(stmt.kind(), NodeKind::ExprStmt);
    let e = stmt.children().next().expect("an expression");
    let kids = e.children().into_vec().iter().map(|c| (c.kind(), c.text())).collect();
    (e.kind(), kids)
}

#[test]
fn a_let_without_a_pattern_is_one_diagnostic_and_a_bare_root() {
    assert!(parse("let = =\n").is_err());
    assert!(parse(";;\nvar ) = 1\n").is_err());
    let a = Analysis::analyze("let = =\n", "bad.swift").unwrap();
    assert_eq!(a.diagnostics().len(), 1);
    assert_eq!(a.diagnostics()[0].message, "expected a binding pattern, found Oper");
    assert_eq!(a.root().children().into_vec().len(), 0);
}

#[test]
fn empty_call_is_a_call_over_its_callee() {
    let (k, kids) = first_expr("f()\n");
    assert_eq!(k, NodeKind::CallExpr);
    assert_eq!(kids, vec![(NodeKind::IdentExpr, Some("f".to_string()))]);
}

#[test]
fn one_argument_call_and_subscript_hold_callee_then_argument() {
    let (k, kids) = first_expr("print(42)\n");
    assert_eq!(k, NodeKind::CallExpr);
    assert_eq!(
        kids,
        vec![(NodeKind::IdentExpr, Some("print".to_string())), (NodeKind::IntegerLiteral, Some("42".to_string()))]
    );
    let (k, kids) = first_expr("xs[0]\n");
    assert_eq!(k, NodeKind::SubscriptExpr);
    assert_eq!(
        kids,
        vec![(NodeKind::IdentExpr, Some("xs".to_string())), (NodeKind::IntegerLiteral, Some("0".to_string()))]
    );
}

#[test]
fn member_access_names_the_member() {
    let a = parse("a.b\n").unwrap();
    let e = a.root().children().next().unwrap().children().next().unwrap();
    assert_eq!(e.kind(), NodeKind::MemberExpr);
    assert_eq!(e.text().as_deref(), Some("b"));
    assert_eq!(e.children().next().unwrap().text().as_deref(), Some("a"));
}

#[test]
fn force_unwrap_wraps_its_operand() {
    let (k, kids) = first_expr("x!\n");
    assert_eq!(k, NodeKind::PostfixExpr);
    assert_eq!(kids, vec![(NodeKind::IdentExpr, Some("x".to_string()))]);
}

#[test]
fn two_element_array_is_an_array() {
    let (k, kids) = first_expr("[1, 2]\n");
    assert_eq!(k, NodeKind::ArrayLiteral);
    assert_eq!(
        kids,
        vec![
            (NodeKind::IntegerLiteral, Some("1".to_string())),
            (NodeKind::IntegerLiteral, Some("2".to_string()))
        ]
    );
    let (d, dk) = first_expr("[:]\n");
    assert_eq!(d, NodeKind::DictionaryLiteral);
    assert!(dk.is_empty());
}

#[test]
fn optional_type_keeps_its_suffix() {
    let a = parse("let x: Int? = nil\nlet y: Int! = nil\n").unwrap();
    let texts: Vec<Option<String>> = a
        .root()
        .children()
        .into_vec()
        .iter()
        .map(|d| d.children().into_vec().iter().find(|c| c.kind() == NodeKind::TypeRef).and_then(|c| c.text()))
        .collect();
    assert_eq!(texts, vec![Some("Int?".to_string()), Some("Int!".to_string())]);
}

#[test]
fn objc_optional_requirement_is_named_optional() {
    let a = parse("@objc protocol D {\n  @objc optional func willLoad()\n}").unwrap();
    let proto = a.root().children().next().unwrap();
    let f = proto
        .children()
        .into_vec()
        .into_iter()
        .find(|c| c.kind() == NodeKind::FuncDecl)
        .unwrap();
    assert!(f.modifier_names().contains(&"optional"));
}

#[test]
fn a_file_of_semicolons_is_a_bare_root_with_no_diagnostics() {
    let a = parse(";;\n;\n").unwrap();
    assert_eq!(a.root().children().into_vec().len(), 0);
    let b = Analysis::analyze("", "empty.swift").unwrap();
    assert!(b.is_ok());
    assert!(b.diagnostics().is_empty());
    assert_eq!(b.root().children().into_vec().len(), 0);
}

#[test]
fn a_program_of_lone_atoms_is_one_statement_each() {
    let a = Analysis::analyze("x\n42\n;true\n", "atoms.swift").unwrap();
    let stmts = a.root().children().into_vec();
    assert_eq!(stmts.len(), 3);
    assert!(stmts.iter().all(|s| s.kind() == NodeKind::ExprStmt));
    let p = parse("\"s\"; nil\n").unwrap();
    let stmts = p.root().children().into_vec();
    assert_eq!(stmts.len(), 2);
    assert!(stmts.iter().all(|s| s.kind() == NodeKind::ExprStmt));
}

#[test]
fn optional_chained_member_is_marked_as_chained() {
    let a = parse("a?.b\n").unwrap();
    let e = a.root().children().next().unwrap().children().next().unwrap();
    assert_eq!(e.kind(), NodeKind::MemberExpr);
    assert_eq!(e.text().as_deref(), Some("b"));
    assert_eq!(e.modifiers(), tswift::decode::OPTIONAL_CHAIN);
    assert_eq!(e.children().next().unwrap().text().as_deref(), Some("a"));
}

#[test]
fn trailing_closure_is_a_call_with_the_closure_last() {
    let (k, kids) = first_expr("f { 1 }\n");
    assert_eq!(k, NodeKind::CallExpr);
    assert_eq!(kids.len(), 2);
    assert_eq!(kids[0], (NodeKind::IdentExpr, Some("f".to_string())));
    assert_eq!(kids[1].0, NodeKind::ClosureExpr);
}

fn first_type_text(src: &str) -> Option<String> {
    fn walk(n: tswift::syntax::Node<'_>) -> Option<String> {
        if n.kind() == NodeKind::TypeRef {
            return n.text();
        }
        n.children().into_vec().into_iter().find_map(walk)
    }
    let a = parse(src).expect("parse ok");
    walk(a.root())
}

#[test]
fn type_texts_are_rebuilt_from_their_tokens() {
    assert_eq!(first_type_text("let d: [String: Int] = x\n").as_deref(), Some("[String: Int]"));
    assert_eq!(first_type_text("let a: Array<Int> = x\n").as_deref(), Some("Array<Int>"));
    assert_eq!(first_type_text("let c: ~Copyable = x\n").as_deref(), Some("~Copyable"));
    assert_eq!(first_type_text("let t: (a: Int, String) = x\n").as_deref(), Some("(a: Int, String)"));
    assert_eq!(first_type_text("let f: (Int) -> Void = x\n").as_deref(), Some("(Int) -> Void"));
    assert_eq!(first_type_text("let p: any P & Q = x\n").as_deref(), Some("any P & Q"));
    assert_eq!(first_type_text("let o: Swift.Int? = x\n").as_deref(), Some("Swift.Int?"));
}

#[test]
fn calls_over_atom_arguments_keep_each_argument_and_label() {
    let (k, kids) = first_expr("f(a, 2, \"s\")\n");
    assert_eq!(k, NodeKind::CallExpr);
    assert_eq!(
        kids,
        vec![
            (NodeKind::IdentExpr, Some("f".to_string())),
            (NodeKind::IdentExpr, Some("a".to_string())),
            (NodeKind::IntegerLiteral, Some("2".to_string())),
            (NodeKind::StringLiteral, Some("\"s\"".to_string())),
        ]
    );
    let a = parse("Package(name: \"Foo\", 1)\n").unwrap();
    let call = a.root().children().next().unwrap().children().next().unwrap();
    let args = call.children().into_vec();
    assert_eq!(args.len(), 3);
    assert_eq!(args[1].arg_label().as_deref(), Some("name"));
    assert_eq!(args[2].arg_label(), None);
    let (k, kids) = first_expr("m[1, 2]\n");
    assert_eq!(k, NodeKind::SubscriptExpr);
    assert_eq!(kids.len(), 3);
}

#[test]
fn a_one_call_program_is_one_statement_over_the_call() {
    let a = Analysis::analyze(";print(1, x: 2);\n", "call.swift").unwrap();
    let stmts = a.root().children().into_vec();
    assert_eq!(stmts.len(), 1);
    assert_eq!(stmts[0].kind(), NodeKind::ExprStmt);
    let call = stmts[0].children().next().unwrap();
    assert_eq!(call.kind(), NodeKind::CallExpr);
    let kids = call.children().into_vec();
    assert_eq!(kids.len(), 3);
    assert_eq!(kids[0].text().as_deref(), Some("print"));
    assert_eq!(kids[1].kind(), NodeKind::IntegerLiteral);
    assert_eq!(kids[2].arg_label().as_deref(), Some("x"));
}
