use tswift::decode::{INOUT, OPTIONAL_REQ};
use tswift::parser::parse;
use tswift::syntax::{Analysis, Node, NodeKind};

fn ast_of(src: &str) -> Analysis {
    parse(src).expect("parse ok")
}

/// The error that parsing `src` reports.
fn parse_err(src: &str) -> tswift::parser::ParseError {
    match parse(src) {
        Err(e) => e,
        Ok(_) => panic!("expected a parse error"),
    }
}

/// The first statement under the source file.
fn first_stmt(ast: &Analysis) -> Node<'_> {
    ast.root().children().next().unwrap()
}

/// The children of `n`, as an iterator.
fn ch<'a>(n: &Node<'a>) -> std::vec::IntoIter<Node<'a>> {
    n.children().into_vec().into_iter()
}

/// The text of `n`.
fn txt(n: &Node<'_>) -> Option<String> {
    n.text()
}

/// An outline of the tree: one line per node with its kind name, quoted
/// text and line, children indented two spaces deeper.
fn outline(src: &str) -> String {
    fn walk(n: &Node<'_>, depth: usize, out: &mut String) {
        out.push_str(&"  ".repeat(depth));
        out.push_str(n.kind().name());
        if let Some(t) = n.text() {
            out.push_str(&format!(" {:?}", t));
        }
        out.push_str(&format!(" L{}\n", n.line()));
        for c in n.children().into_vec() {
            walk(&c, depth + 1, out);
        }
    }
    let ast = ast_of(src);
    let mut out = String::new();
    walk(&ast.root(), 0, &mut out);
    out
}

#[test]
fn closure_in_label_is_not_mistaken_for_the_in_separator() {
    ast_of("f { Slider(value: x, in: 0...1) }");
    ast_of("let c = { x, y in x + y }");
    ast_of("let c = { (a: Int) in a }");
}

#[test]
fn parses_nonmutating_accessor_modifier() {
    let ast = ast_of(
        "struct B { let box: Box \n var v: Int { get { box.value } nonmutating set { box.value = newValue } } }",
    );
    fn has_nonmutating_setter(node: Node<'_>) -> bool {
        if node.kind() == NodeKind::AccessorDecl
            && txt(&node).as_deref() == Some("set")
            && node.modifier_names().iter().any(|m| *m == "nonmutating")
        {
            return true;
        }
        ch(&node).any(has_nonmutating_setter)
    }
    assert!(
        has_nonmutating_setter(ast.root()),
        "set accessor should record the nonmutating modifier"
    );
}

#[test]
fn parses_mutating_accessor_modifier() {
    ast_of("struct B { var v: Int { get { 0 } mutating set { } } }");
}

#[test]
fn parses_print_string_call() {
    assert_eq!(
        outline(r#"print("hi")"#),
        "source_file L1\n  \
         expr_stmt L1\n    \
         call_expr L1\n      \
         ident_expr \"print\" L1\n      \
         string_literal \"\\\"hi\\\"\" L1\n"
    );
}

#[test]
fn parses_regex_literal() {
    assert_eq!(
        outline("let r = /\\d+/"),
        "source_file L1\n  \
         let_decl L1\n    \
         pattern_value_binding \"r\" L1\n    \
         regex_literal \"/\\\\d+/\" L1\n"
    );
}

#[test]
fn parses_arithmetic_with_precedence() {
    assert_eq!(
        outline("1 + 2 * 3"),
        "source_file L1\n  \
         expr_stmt L1\n    \
         binary_expr \"+\" L1\n      \
         integer_literal \"1\" L1\n      \
         binary_expr \"*\" L1\n        \
         integer_literal \"2\" L1\n        \
         integer_literal \"3\" L1\n"
    );
}

#[test]
fn parens_override_precedence() {
    assert_eq!(
        outline("(1 + 2) * 3"),
        "source_file L1\n  \
         expr_stmt L1\n    \
         binary_expr \"*\" L1\n      \
         binary_expr \"+\" L1\n        \
         integer_literal \"1\" L1\n        \
         integer_literal \"2\" L1\n      \
         integer_literal \"3\" L1\n"
    );
}

#[test]
fn logical_binds_looser_than_comparison() {
    let ast = ast_of("a == b && c");
    let top = ch(&first_stmt(&ast)).next().unwrap();
    assert_eq!(top.kind(), NodeKind::BinaryExpr);
    assert_eq!(txt(&top).as_deref(), Some("&&"));
    assert_eq!(txt(&ch(&top).next().unwrap()).as_deref(), Some("=="));
}

#[test]
fn simple_let_binding() {
    let ast = ast_of("let x = 42");
    let decl = first_stmt(&ast);
    assert_eq!(decl.kind(), NodeKind::LetDecl);
    let kids: Vec<_> = ch(&decl).map(|c| (c.kind(), txt(&c))).collect();
    assert_eq!(
        kids,
        vec![
            (NodeKind::PatternValueBinding, Some("x".to_string())),
            (NodeKind::IntegerLiteral, Some("42".to_string())),
        ]
    );
}

#[test]
fn var_with_type_annotation() {
    let ast = ast_of("var ratio: Double = 1.5");
    let decl = first_stmt(&ast);
    assert_eq!(decl.kind(), NodeKind::VarDecl);
    let kids: Vec<_> = ch(&decl).map(|c| (c.kind(), txt(&c))).collect();
    assert_eq!(
        kids,
        vec![
            (NodeKind::PatternValueBinding, Some("ratio".to_string())),
            (NodeKind::TypeRef, Some("Double".to_string())),
            (NodeKind::FloatLiteral, Some("1.5".to_string())),
        ]
    );
}

#[test]
fn typed_binding_without_initializer() {
    let ast = ast_of("var maybe: [Int: String]");
    let decl = first_stmt(&ast);
    let ty = ch(&decl).nth(1).unwrap();
    assert_eq!(ty.kind(), NodeKind::TypeRef);
    assert_eq!(txt(&ty).as_deref(), Some("[Int: String]"));
}

#[test]
fn tuple_decomposition_pattern() {
    let ast = ast_of("let (a, b) = (1, 2)");
    let decl = first_stmt(&ast);
    let pattern = ch(&decl).next().unwrap();
    assert_eq!(pattern.kind(), NodeKind::PatternTuple);
    let names: Vec<_> = ch(&pattern).map(|c| txt(&c)).collect();
    assert_eq!(names, vec![Some("a".to_string()), Some("b".to_string())]);
    let init = ch(&decl).nth(1).unwrap();
    assert_eq!(init.kind(), NodeKind::TupleExpr);
}

#[test]
fn labeled_tuple_literal_keeps_element_labels() {
    let ast = ast_of("let p = (min: 1, max: 9)");
    let init = ch(&first_stmt(&ast)).nth(1).unwrap();
    assert_eq!(init.kind(), NodeKind::TupleExpr);
    let labels: Vec<_> = ch(&init).map(|c| c.arg_label()).collect();
    assert_eq!(labels, vec![Some("min".to_string()), Some("max".to_string())]);
}

#[test]
fn single_labeled_paren_collapses_to_inner_expr() {
    let ast = ast_of("let x = (min: 1)");
    let init = ch(&first_stmt(&ast)).nth(1).unwrap();
    assert_eq!(init.kind(), NodeKind::IntegerLiteral);
}

#[test]
fn wildcard_pattern() {
    let ast = ast_of("let _ = 5");
    let pattern = ch(&first_stmt(&ast)).next().unwrap();
    assert_eq!(pattern.kind(), NodeKind::PatternWildcard);
}

#[test]
fn compound_assignment_statement() {
    let ast = ast_of("total += 3");
    let assign = first_stmt(&ast);
    assert_eq!(assign.kind(), NodeKind::AssignExpr);
    assert_eq!(txt(&assign).as_deref(), Some("+="));
    assert_eq!(ch(&assign).next().unwrap().kind(), NodeKind::IdentExpr);
}

#[test]
fn ternary_is_right_associative() {
    let ast = ast_of("a ? b : c ? d : e");
    let tern = ch(&first_stmt(&ast)).next().unwrap();
    assert_eq!(tern.kind(), NodeKind::TernaryExpr);
    let else_branch = ch(&tern).nth(2).unwrap();
    assert_eq!(else_branch.kind(), NodeKind::TernaryExpr);
}

#[test]
fn binary_condition_binds_before_ternary() {
    let ast = ast_of("n == 0 ? 1 : 2");
    let tern = ch(&first_stmt(&ast)).next().unwrap();
    assert_eq!(tern.kind(), NodeKind::TernaryExpr);
    assert_eq!(ch(&tern).next().unwrap().kind(), NodeKind::BinaryExpr);
}

#[test]
fn prefix_operators() {
    let ast = ast_of("let n = -x");
    let init = ch(&first_stmt(&ast)).nth(1).unwrap();
    assert_eq!(init.kind(), NodeKind::PrefixExpr);
    assert_eq!(txt(&init).as_deref(), Some("-"));
    assert_eq!(ch(&init).next().unwrap().kind(), NodeKind::IdentExpr);
}

#[test]
fn member_and_tuple_index_access() {
    let ast = ast_of("let v = pair.0");
    let init = ch(&first_stmt(&ast)).nth(1).unwrap();
    assert_eq!(init.kind(), NodeKind::MemberExpr);
    assert_eq!(txt(&init).as_deref(), Some("0"));
    assert_eq!(txt(&ch(&init).next().unwrap()).as_deref(), Some("pair"));
}

#[test]
fn bool_and_nil_literals() {
    let ast = ast_of("let a = true");
    assert_eq!(ch(&first_stmt(&ast)).nth(1).unwrap().kind(), NodeKind::BoolLiteral);
    let ast = ast_of("let b: Int? = nil");
    assert_eq!(ch(&first_stmt(&ast)).nth(2).unwrap().kind(), NodeKind::NilLiteral);
}

#[test]
fn parses_multiple_statements() {
    let ast = ast_of("let x = 1\nprint(x)");
    let stmts: Vec<_> = ch(&ast.root()).collect();
    assert_eq!(stmts.len(), 2);
    assert_eq!(stmts[0].kind(), NodeKind::LetDecl);
    assert_eq!(stmts[1].kind(), NodeKind::ExprStmt);
}

#[test]
fn missing_close_paren_is_an_error() {
    let err = parse_err("print(1");
    assert!(err.message.contains("RParen"), "{}", err.message);
}

#[test]
fn trailing_operator_is_an_error() {
    let err = parse_err("1 +");
    assert!(err.message.contains("expression"), "{}", err.message);
}

#[test]
fn function_declaration() {
    let ast = ast_of("func add(_ a: Int, b: Int = 0) -> Int { return a + b }");
    let func = first_stmt(&ast);
    assert_eq!(func.kind(), NodeKind::FuncDecl);
    assert_eq!(txt(&func).as_deref(), Some("add"));
    let kinds: Vec<_> = ch(&func).map(|c| c.kind()).collect();
    assert_eq!(
        kinds,
        vec![NodeKind::Param, NodeKind::Param, NodeKind::TypeRef, NodeKind::Block]
    );
    let p2 = ch(&func).nth(1).unwrap();
    assert_eq!(txt(&p2).as_deref(), Some("b"));
    assert_eq!(ch(&p2).nth(1).unwrap().kind(), NodeKind::IntegerLiteral);
    let body = ch(&func).nth(3).unwrap();
    let ret = ch(&body).next().unwrap();
    assert_eq!(ret.kind(), NodeKind::ReturnStmt);
    assert_eq!(ch(&ret).next().unwrap().kind(), NodeKind::BinaryExpr);
}

#[test]
fn variadic_and_inout_params_parse() {
    let ast = ast_of("func f(_ xs: Int..., flag: inout Bool) { }");
    let func = first_stmt(&ast);
    let params: Vec<_> = ch(&func)
        .filter(|c| c.kind() == NodeKind::Param)
        .map(|c| txt(&c))
        .collect();
    assert_eq!(params, vec![Some("xs".to_string()), Some("flag".to_string())]);
}

#[test]
fn if_else_if_chain() {
    let ast = ast_of("if a { } else if b { } else { }");
    let iff = first_stmt(&ast);
    assert_eq!(iff.kind(), NodeKind::IfStmt);
    let else_branch = ch(&iff).nth(2).unwrap();
    assert_eq!(else_branch.kind(), NodeKind::IfStmt);
}

#[test]
fn if_as_expression_in_binding() {
    let ast = ast_of("let g = if c { 1 } else { 2 }");
    let init = ch(&first_stmt(&ast)).nth(1).unwrap();
    assert_eq!(init.kind(), NodeKind::IfStmt);
}

#[test]
fn guard_statement() {
    let ast = ast_of("guard x > 0 else { return }");
    let g = first_stmt(&ast);
    assert_eq!(g.kind(), NodeKind::GuardStmt);
    assert_eq!(ch(&g).next().unwrap().kind(), NodeKind::BinaryExpr);
    assert_eq!(ch(&g).nth(1).unwrap().kind(), NodeKind::Block);
}

#[test]
fn while_and_repeat_loops() {
    assert_eq!(first_stmt(&ast_of("while n > 0 { }")).kind(), NodeKind::WhileStmt);
    let r = ast_of("repeat { } while n < 3");
    let node = first_stmt(&r);
    assert_eq!(node.kind(), NodeKind::RepeatStmt);
    assert_eq!(ch(&node).next().unwrap().kind(), NodeKind::Block);
    assert_eq!(ch(&node).nth(1).unwrap().kind(), NodeKind::BinaryExpr);
}

#[test]
fn for_in_with_where_clause() {
    let ast = ast_of("for x in 0 ..< 5 where x > 1 { }");
    let f = first_stmt(&ast);
    assert_eq!(f.kind(), NodeKind::ForStmt);
    let kinds: Vec<_> = ch(&f).map(|c| c.kind()).collect();
    assert_eq!(
        kinds,
        vec![
            NodeKind::PatternValueBinding,
            NodeKind::BinaryExpr,
            NodeKind::BinaryExpr,
            NodeKind::Block,
        ]
    );
}

#[test]
fn switch_with_cases_and_default() {
    let src = "switch n {\n\
               case 0: return\n\
               case 1, 2: break\n\
               case let x where x < 0: return\n\
               default: break\n\
               }";
    let ast = ast_of(src);
    let sw = first_stmt(&ast);
    assert_eq!(sw.kind(), NodeKind::SwitchStmt);
    let clauses: Vec<_> = ch(&sw).filter(|c| c.kind() == NodeKind::CaseClause).collect();
    assert_eq!(clauses.len(), 4);
    let multi = &clauses[1];
    let items = ch(multi).filter(|c| c.kind() != NodeKind::Block).count();
    assert_eq!(items, 2);
    assert_eq!(txt(&clauses[3]).as_deref(), Some("default"));
}

#[test]
fn unknown_default_parses_as_clause() {
    let src = "switch s {\n\
               case .ok: break\n\
               @unknown default: break\n\
               }";
    let ast = ast_of(src);
    let sw = first_stmt(&ast);
    let clauses: Vec<_> = ch(&sw).filter(|c| c.kind() == NodeKind::CaseClause).collect();
    assert_eq!(clauses.len(), 2);
    assert_eq!(txt(&clauses[1]).as_deref(), Some("default"));
}

#[test]
fn attribute_in_case_body_is_not_a_clause_boundary() {
    let src = "switch n {\n\
               case 0:\n\
               @discardableResult func f() -> Int { return 1 }\n\
               f()\n\
               default: break\n\
               }";
    let ast = ast_of(src);
    let sw = first_stmt(&ast);
    let clauses: Vec<_> = ch(&sw).filter(|c| c.kind() == NodeKind::CaseClause).collect();
    assert_eq!(clauses.len(), 2);
    let body = ch(&clauses[0]).last().unwrap();
    assert_eq!(body.kind(), NodeKind::Block);
    assert!(ch(&body).any(|c| c.kind() == NodeKind::FuncDecl));
}

#[test]
fn labeled_loop_with_break_label() {
    let src = "outer: for i in xs {\n\
               for j in ys {\n\
               break outer\n\
               }\n\
               }";
    let ast = ast_of(src);
    let outer = first_stmt(&ast);
    assert_eq!(outer.kind(), NodeKind::ForStmt);
    assert_eq!(outer.loop_label().as_deref(), Some("outer"));
    let inner_body = ch(&outer).last().unwrap();
    let inner_for = ch(&inner_body).next().unwrap();
    let inner_block = ch(&inner_for).last().unwrap();
    let brk = ch(&inner_block).next().unwrap();
    assert_eq!(brk.kind(), NodeKind::BreakStmt);
    assert_eq!(txt(&brk).as_deref(), Some("outer"));
}

#[test]
fn bare_break_has_no_label() {
    let ast = ast_of("while c { break\nfoo() }");
    let body = ch(&first_stmt(&ast)).nth(1).unwrap();
    let brk = ch(&body).next().unwrap();
    assert_eq!(brk.kind(), NodeKind::BreakStmt);
    assert_eq!(txt(&brk), None);
}

#[test]
fn objc_optional_protocol_requirements_parse() {
    let src = "@objc protocol Delegate {\n  @objc optional func willLoad()\n  @objc optional var badge: Int { get }\n  @objc optional subscript(i: Int) -> Int { get }\n}";
    let ast = ast_of(src);
    let proto = first_stmt(&ast);
    assert_eq!(proto.kind(), NodeKind::ProtocolDecl);
    let members: Vec<_> = ch(&proto)
        .filter(|node| {
            matches!(
                node.kind(),
                NodeKind::FuncDecl | NodeKind::VarDecl | NodeKind::SubscriptDecl
            )
        })
        .collect();
    assert_eq!(members[0].kind(), NodeKind::FuncDecl);
    assert!(members[0].modifiers() & OPTIONAL_REQ != 0);
    assert_eq!(members[1].kind(), NodeKind::VarDecl);
    assert!(members[1].modifiers() & OPTIONAL_REQ != 0);
    assert_eq!(members[2].kind(), NodeKind::SubscriptDecl);
    assert!(members[2].modifiers() & OPTIONAL_REQ != 0);
}

#[test]
fn optional_without_objc_stays_an_identifier() {
    assert!(parse("optional func f() {}").is_err());
    assert!(parse("protocol P { optional func f() }").is_err());
    assert!(parse("@objc optional let x = 1").is_err());
    let ast = ast_of("func optional() {}\nvar optional = 1");
    let stmts: Vec<_> = ch(&ast.root()).collect();
    assert_eq!(txt(&stmts[0]).as_deref(), Some("optional"));
    assert_eq!(txt(&ch(&stmts[1]).next().unwrap()).as_deref(), Some("optional"));
}

#[test]
fn struct_with_members() {
    let src = "struct Point {\n\
               var x: Int\n\
               var y: Int\n\
               func sum() -> Int { return x + y }\n\
               mutating func move() { x += 1 }\n\
               }";
    let ast = ast_of(src);
    let s = first_stmt(&ast);
    assert_eq!(s.kind(), NodeKind::StructDecl);
    assert_eq!(txt(&s).as_deref(), Some("Point"));
    let members: Vec<_> = ch(&s).map(|c| c.kind()).collect();
    assert_eq!(
        members,
        vec![NodeKind::VarDecl, NodeKind::VarDecl, NodeKind::FuncDecl, NodeKind::FuncDecl]
    );
}

#[test]
fn enum_cases_simple_associated_and_raw() {
    let src = "enum Token: Int {\n\
               case comma, dot\n\
               case number(Int)\n\
               case eof = 0\n\
               }";
    let ast = ast_of(src);
    let e = first_stmt(&ast);
    assert_eq!(e.kind(), NodeKind::EnumDecl);
    let cases: Vec<_> = ch(&e)
        .filter(|c| c.kind() == NodeKind::EnumCaseDecl)
        .map(|c| txt(&c))
        .collect();
    assert_eq!(
        cases,
        vec![
            Some("comma".to_string()),
            Some("dot".to_string()),
            Some("number".to_string()),
            Some("eof".to_string())
        ]
    );
    let number = ch(&e).find(|c| txt(c).as_deref() == Some("number")).unwrap();
    assert_eq!(ch(&number).next().unwrap().kind(), NodeKind::TypeRef);
}

#[test]
fn computed_property_with_get_set() {
    let src = "struct T {\n\
               var v: Int { get { return 1 } set { } }\n\
               var ro: Int { 42 }\n\
               }";
    let ast = ast_of(src);
    let s = first_stmt(&ast);
    let computed = ch(&s).next().unwrap();
    let accessors: Vec<_> = ch(&computed)
        .filter(|c| c.kind() == NodeKind::AccessorDecl)
        .map(|c| txt(&c))
        .collect();
    assert_eq!(accessors, vec![Some("get".to_string()), Some("set".to_string())]);
    let ro = ch(&s).nth(1).unwrap();
    assert_eq!(ch(&ro).last().unwrap().kind(), NodeKind::AccessorDecl);
}

#[test]
fn property_observers() {
    let src = "struct T { var n: Int { willSet { } didSet { } } }";
    let ast = ast_of(src);
    let prop = ch(&first_stmt(&ast)).next().unwrap();
    let accessors: Vec<_> = ch(&prop)
        .filter(|c| c.kind() == NodeKind::AccessorDecl)
        .map(|c| txt(&c))
        .collect();
    assert_eq!(accessors, vec![Some("willSet".to_string()), Some("didSet".to_string())]);
}

#[test]
fn init_and_subscript() {
    let src = "struct Grid {\n\
               init?(n: Int) { }\n\
               subscript(i: Int) -> Int { return i }\n\
               }";
    let ast = ast_of(src);
    let s = first_stmt(&ast);
    let kinds: Vec<_> = ch(&s).map(|c| c.kind()).collect();
    assert_eq!(kinds, vec![NodeKind::InitDecl, NodeKind::SubscriptDecl]);
}

#[test]
fn generic_subscript() {
    let src = "struct Box {\n\
               var items: [Int]\n\
               subscript<T>(map f: (Int) -> T) -> [T] where T: P { return items.map(f) }\n\
               }";
    let ast = ast_of(src);
    let s = first_stmt(&ast);
    let sub = ch(&s)
        .find(|c| c.kind() == NodeKind::SubscriptDecl)
        .expect("subscript decl");
    assert_eq!(ch(&sub).next().unwrap().kind(), NodeKind::GenericParam);
    let kinds: Vec<_> = ch(&sub).map(|c| c.kind()).collect();
    assert!(kinds.contains(&NodeKind::Param));
}

#[test]
fn key_path_expression() {
    let ast = ast_of("let k = \\Person.address.city");
    let decl = first_stmt(&ast);
    let kp = ch(&decl)
        .find(|c| c.kind() == NodeKind::KeyPathExpr)
        .expect("key-path expr");
    let kinds: Vec<_> = ch(&kp).map(|c| c.kind()).collect();
    assert_eq!(kinds, vec![NodeKind::TypeRef, NodeKind::IdentExpr, NodeKind::IdentExpr]);
    let comps: Vec<_> = ch(&kp)
        .filter(|c| c.kind() == NodeKind::IdentExpr)
        .filter_map(|c| txt(&c))
        .collect();
    assert_eq!(comps, vec!["address", "city"]);
}

#[test]
fn inferred_root_key_path() {
    let ast = ast_of("let k = \\.count");
    let decl = first_stmt(&ast);
    let kp = ch(&decl)
        .find(|c| c.kind() == NodeKind::KeyPathExpr)
        .expect("key-path expr");
    let kinds: Vec<_> = ch(&kp).map(|c| c.kind()).collect();
    assert_eq!(kinds, vec![NodeKind::IdentExpr]);
}

#[test]
fn memory_layout_records_type_argument() {
    let ast = ast_of("let s = MemoryLayout<Int>.size");
    let decl = first_stmt(&ast);
    let init = ch(&decl)
        .find(|c| c.kind() == NodeKind::MemberExpr)
        .expect("member expr initializer");
    let base = ch(&init).next().expect("member base");
    assert_eq!(base.kind(), NodeKind::IdentExpr);
    assert_eq!(txt(&base).as_deref(), Some("MemoryLayout"));
    let ty = ch(&base).next().expect("recorded type argument");
    assert_eq!(ty.kind(), NodeKind::TypeRef);
    assert_eq!(txt(&ty).as_deref(), Some("Int"));
}

#[test]
fn if_let_optional_binding() {
    let ast = ast_of("if let x = maybe { print(x) }");
    let iff = first_stmt(&ast);
    assert_eq!(iff.kind(), NodeKind::IfStmt);
    assert_eq!(ch(&iff).next().unwrap().kind(), NodeKind::LetDecl);
}

#[test]
fn forced_unwrap_and_optional_chaining() {
    let ast = ast_of("let v = maybe!");
    let init = ch(&first_stmt(&ast)).nth(1).unwrap();
    assert_eq!(init.kind(), NodeKind::PostfixExpr);
    assert_eq!(txt(&init).as_deref(), Some("!"));
    let ast = ast_of("let w = a?.b");
    let chain = ch(&first_stmt(&ast)).nth(1).unwrap();
    assert_eq!(chain.kind(), NodeKind::MemberExpr);
    assert_eq!(txt(&chain).as_deref(), Some("b"));
}

#[test]
fn implicit_member_expression() {
    let ast = ast_of("let d = .north");
    let init = ch(&first_stmt(&ast)).nth(1).unwrap();
    assert_eq!(init.kind(), NodeKind::MemberExpr);
    assert_eq!(txt(&init).as_deref(), Some("north"));
    assert_eq!(ch(&init).count(), 0);
}

#[test]
fn modifiers_before_declarations_are_accepted() {
    let ast = ast_of("static let shared = 1");
    assert_eq!(first_stmt(&ast).kind(), NodeKind::LetDecl);
}

#[test]
fn class_with_superclass_and_members() {
    let src = "class Dog: Animal {\n\
               override func sound() -> String { return \"woof\" }\n\
               deinit { }\n\
               }";
    let ast = ast_of(src);
    let c = first_stmt(&ast);
    assert_eq!(c.kind(), NodeKind::ClassDecl);
    assert_eq!(txt(&c).as_deref(), Some("Dog"));
    assert_eq!(ch(&c).next().unwrap().kind(), NodeKind::TypeRef);
    let kinds: Vec<_> = ch(&c)
        .map(|m| m.kind())
        .filter(|k| *k != NodeKind::TypeRef)
        .collect();
    assert_eq!(kinds, vec![NodeKind::FuncDecl, NodeKind::DeinitDecl]);
}

#[test]
fn cast_expressions() {
    let ast = ast_of("let a = shape as? Circle");
    let init = ch(&first_stmt(&ast)).nth(1).unwrap();
    assert_eq!(init.kind(), NodeKind::CastExpr);
    assert_eq!(txt(&init).as_deref(), Some("as?"));
    assert_eq!(
        txt(&ch(&first_stmt(&ast_of("let b = x is Int"))).nth(1).unwrap()).as_deref(),
        Some("is")
    );
    assert_eq!(
        txt(&ch(&first_stmt(&ast_of("let c = x as! String"))).nth(1).unwrap()).as_deref(),
        Some("as!")
    );
}

#[test]
fn closure_shorthand_and_signature() {
    let ast = ast_of("let f = { $0 * 2 }");
    assert_eq!(ch(&first_stmt(&ast)).nth(1).unwrap().kind(), NodeKind::ClosureExpr);
    let ast = ast_of("let g = { x in x + 1 }");
    let clo = ch(&first_stmt(&ast)).nth(1).unwrap();
    assert_eq!(clo.kind(), NodeKind::ClosureExpr);
    assert!(ch(&clo).count() >= 1);
}

#[test]
fn closure_signature_accepts_inout_and_throws() {
    let ast = ast_of("let g = { (n: inout Int) throws in n += 1 }");
    let clo = ch(&first_stmt(&ast)).nth(1).unwrap();
    assert_eq!(clo.kind(), NodeKind::ClosureExpr);
    let param = ch(&clo)
        .find(|c| c.kind() == NodeKind::Param)
        .expect("closure has a Param");
    assert_eq!(txt(&param).as_deref(), Some("n"));
}

#[test]
fn trailing_closure_becomes_a_call() {
    let ast = ast_of("let doubled = numbers.map { $0 * 2 }");
    let init = ch(&first_stmt(&ast)).nth(1).unwrap();
    assert_eq!(init.kind(), NodeKind::CallExpr);
    assert_eq!(ch(&init).last().unwrap().kind(), NodeKind::ClosureExpr);
}

#[test]
fn capture_list_is_accepted() {
    let ast = ast_of("let h = { [weak self] in self }");
    assert_eq!(ch(&first_stmt(&ast)).nth(1).unwrap().kind(), NodeKind::ClosureExpr);
}

#[test]
fn for_body_brace_is_not_a_trailing_closure() {
    let ast = ast_of("for x in items { print(x) }");
    let f = first_stmt(&ast);
    assert_eq!(f.kind(), NodeKind::ForStmt);
    assert_eq!(ch(&f).last().unwrap().kind(), NodeKind::Block);
}

#[test]
fn super_and_self_are_expressions() {
    let ast = ast_of("let s = self");
    assert_eq!(txt(&ch(&first_stmt(&ast)).nth(1).unwrap()).as_deref(), Some("self"));
    let ast = ast_of("func f() { super.init() }");
    let body = ch(&first_stmt(&ast)).last().unwrap();
    let call = ch(&ch(&body).next().unwrap()).next().unwrap();
    assert_eq!(call.kind(), NodeKind::CallExpr);
}

#[test]
fn protocol_with_requirements() {
    let src = "protocol Shape {\n\
               var area: Double { get }\n\
               func draw()\n\
               associatedtype Point\n\
               }";
    let ast = ast_of(src);
    let p = first_stmt(&ast);
    assert_eq!(p.kind(), NodeKind::ProtocolDecl);
    let kinds: Vec<_> = ch(&p).map(|m| m.kind()).collect();
    assert_eq!(
        kinds,
        vec![NodeKind::VarDecl, NodeKind::FuncDecl, NodeKind::AssociatedTypeDecl]
    );
    let draw = ch(&p).nth(1).unwrap();
    assert!(ch(&draw).all(|c| c.kind() != NodeKind::Block));
}

#[test]
fn generic_function_and_struct() {
    let ast = ast_of("func pick<T>(a: T, b: T) -> T { return a }");
    let f = first_stmt(&ast);
    assert_eq!(f.kind(), NodeKind::FuncDecl);
    assert_eq!(ch(&f).next().unwrap().kind(), NodeKind::GenericParam);
    assert_eq!(txt(&ch(&f).next().unwrap()).as_deref(), Some("<T>"));

    let ast = ast_of("struct Stack<Element> { var items: [Element] }");
    let s = first_stmt(&ast);
    assert_eq!(s.kind(), NodeKind::StructDecl);
    assert_eq!(ch(&s).next().unwrap().kind(), NodeKind::GenericParam);
}

#[test]
fn constrained_generics_and_where_clause() {
    let ast = ast_of("func sorted<T: Comparable>(xs: T) -> T where T: Equatable { return xs }");
    let f = first_stmt(&ast);
    assert_eq!(f.kind(), NodeKind::FuncDecl);
    assert_eq!(txt(&ch(&f).next().unwrap()).as_deref(), Some("<T:Comparable>"));
    assert_eq!(ch(&f).last().unwrap().kind(), NodeKind::Block);
}

#[test]
fn generic_specialization_rejects_expression_keywords() {
    let ast = ast_of(
        "struct S { var x: Int\n func f(_ a: Int, _ c: Int) { let y = a < self.x > (c) } }",
    );
    assert_eq!(first_stmt(&ast).kind(), NodeKind::StructDecl);
}

#[test]
fn extension_with_conformance() {
    let ast = ast_of("extension Int: Comparable { func double() -> Int { return self * 2 } }");
    let e = first_stmt(&ast);
    assert_eq!(e.kind(), NodeKind::ExtensionDecl);
    assert_eq!(txt(&e).as_deref(), Some("Int"));
    let kinds: Vec<_> = ch(&e).map(|c| c.kind()).collect();
    assert_eq!(kinds, vec![NodeKind::TypeRef, NodeKind::FuncDecl]);
}

#[test]
fn typealias_declaration() {
    let ast = ast_of("typealias Pair = (Int, Int)");
    let t = first_stmt(&ast);
    assert_eq!(t.kind(), NodeKind::TypeAliasDecl);
    assert_eq!(txt(&t).as_deref(), Some("Pair"));
    assert_eq!(txt(&ch(&t).next().unwrap()).as_deref(), Some("(Int, Int)"));
}

#[test]
fn existential_composition_and_function_types() {
    let ty = |src: &str| {
        let ast = ast_of(src);
        let text = txt(&ch(&first_stmt(&ast)).nth(1).unwrap()).unwrap();
        text
    };
    assert_eq!(ty("let a: any Shape = s"), "any Shape");
    assert_eq!(ty("let b: Codable & Equatable = z"), "Codable & Equatable");
    assert_eq!(ty("let c: (Int) -> Int = g"), "(Int) -> Int");
    assert_eq!(ty("let d: Array<Int> = e"), "Array<Int>");
}

#[test]
fn operator_requirement_in_type() {
    let ast = ast_of("struct V { static func == (a: V, b: V) -> Bool { return true } }");
    let func = ch(&first_stmt(&ast)).next().unwrap();
    assert_eq!(func.kind(), NodeKind::FuncDecl);
    assert_eq!(txt(&func).as_deref(), Some("=="));
}

#[test]
fn do_catch_with_pattern() {
    let src = "do {\n\
               try risky()\n\
               } catch let error {\n\
               recover()\n\
               } catch {\n\
               fail()\n\
               }";
    let ast = ast_of(src);
    let d = first_stmt(&ast);
    assert_eq!(d.kind(), NodeKind::DoStmt);
    let kinds: Vec<_> = ch(&d).map(|c| c.kind()).collect();
    assert_eq!(
        kinds,
        vec![NodeKind::Block, NodeKind::CatchClause, NodeKind::CatchClause]
    );
}

#[test]
fn throw_try_and_defer() {
    let ast = ast_of("func f() { defer { cleanup() }\n throw Err.bad }");
    let body = ch(&first_stmt(&ast)).last().unwrap();
    let kinds: Vec<_> = ch(&body).map(|c| c.kind()).collect();
    assert_eq!(kinds, vec![NodeKind::DeferStmt, NodeKind::ThrowStmt]);

    let ast = ast_of("let v = try? parse()");
    let init = ch(&first_stmt(&ast)).nth(1).unwrap();
    assert_eq!(init.kind(), NodeKind::TryExpr);
    assert_eq!(txt(&init).as_deref(), Some("?"));
}

#[test]
fn attributes_and_private_set_before_declarations() {
    let ast = ast_of("@main struct App { }");
    assert_eq!(first_stmt(&ast).kind(), NodeKind::StructDecl);
    let ast = ast_of("@available(macOS 10.15, *) func feature() { }");
    assert_eq!(first_stmt(&ast).kind(), NodeKind::FuncDecl);
    let ast = ast_of("private(set) var count = 0");
    assert_eq!(first_stmt(&ast).kind(), NodeKind::VarDecl);
}

#[test]
fn custom_operator_and_precedencegroup() {
    let ast = ast_of("infix operator <> : AdditionPrecedence");
    let op = first_stmt(&ast);
    assert_eq!(op.kind(), NodeKind::OperatorDecl);
    assert_eq!(txt(&op).as_deref(), Some("<>"));

    let ast = ast_of("precedencegroup MyPrecedence { higherThan: AdditionPrecedence }");
    let pg = first_stmt(&ast);
    assert_eq!(pg.kind(), NodeKind::PrecedenceGroupDecl);
    assert_eq!(txt(&pg).as_deref(), Some("MyPrecedence"));
}

#[test]
fn pound_directives() {
    let ast = ast_of("#warning(\"todo\")");
    assert_eq!(first_stmt(&ast).kind(), NodeKind::CompilerDirective);
    assert_eq!(txt(&first_stmt(&ast)).as_deref(), Some("#warning"));
    // An expression directive lowers to a macro expansion named without `#`.
    let ast = ast_of("let here = #file");
    let init = ch(&first_stmt(&ast)).nth(1).unwrap();
    assert_eq!(init.kind(), NodeKind::MacroExpansion);
    assert_eq!(txt(&init).as_deref(), Some("file"));
}

#[test]
fn conditional_compilation_selects_active_branch() {
    let ast = ast_of("#if DEBUG\n let mode = 1\n #else\n let mode = 2\n #endif");
    let dir = first_stmt(&ast);
    assert_eq!(dir.kind(), NodeKind::CompilerDirective);
    let active: Vec<_> = ch(&dir).collect();
    assert_eq!(active.len(), 1);
    assert_eq!(active[0].kind(), NodeKind::LetDecl);
    assert_eq!(txt(&ch(&active[0]).nth(1).unwrap()).as_deref(), Some("1"));
}

#[test]
fn conditional_compilation_false_flag_takes_else() {
    let ast = ast_of("#if UNDEFINED_FLAG\n let x = 1\n #else\n let x = 2\n #endif");
    let dir = first_stmt(&ast);
    let active: Vec<_> = ch(&dir).collect();
    assert_eq!(active.len(), 1);
    assert_eq!(txt(&ch(&active[0]).nth(1).unwrap()).as_deref(), Some("2"));
}

#[test]
fn semicolons_separate_statements_and_members() {
    let ast = ast_of("let a = 1; let b = 2;\nstruct P { var x: Int; var y: Int }");
    let top: Vec<_> = ch(&ast.root()).collect();
    assert_eq!(top.len(), 3);
    assert_eq!(top[0].kind(), NodeKind::LetDecl);
    assert_eq!(top[1].kind(), NodeKind::LetDecl);
    let strukt = top[2];
    assert_eq!(strukt.kind(), NodeKind::StructDecl);
    let members: Vec<_> = ch(&strukt).filter(|c| c.kind() == NodeKind::VarDecl).collect();
    assert_eq!(members.len(), 2);
}

#[test]
fn enum_cases_separated_by_semicolons() {
    let ast = ast_of("enum E { case a; case b }");
    let e = first_stmt(&ast);
    assert_eq!(e.kind(), NodeKind::EnumDecl);
    let cases: Vec<_> = ch(&e).filter(|c| c.kind() == NodeKind::EnumCaseDecl).collect();
    assert_eq!(cases.len(), 2);
}

#[test]
fn modifiers_are_recorded_on_declarations() {
    let ast = ast_of("struct S {\n  static let n = 1\n  mutating func go() {}\n}");
    let s = first_stmt(&ast);
    let members: Vec<_> = ch(&s).collect();
    let n = members.iter().find(|c| c.kind() == NodeKind::LetDecl).unwrap();
    assert_eq!(n.modifier_names(), vec!["static"]);
    let go = members.iter().find(|c| c.kind() == NodeKind::FuncDecl).unwrap();
    assert_eq!(go.modifier_names(), vec!["mutating"]);
}

#[test]
fn attributes_become_child_nodes() {
    let ast = ast_of("@main\nstruct App { }");
    let app = first_stmt(&ast);
    assert_eq!(app.kind(), NodeKind::StructDecl);
    let attr = ch(&app)
        .find(|c| c.kind() == NodeKind::Attribute)
        .expect("@main attribute child");
    assert_eq!(txt(&attr).as_deref(), Some("main"));
}

#[test]
fn calls_subscripts_inout_variadic_operators_parse() {
    let ast = ast_of(
        "let a = [1, 2, 3]\n\
         let x = a[0]\n\
         func sum(_ xs: Int...) -> Int { return xs.count }\n\
         func bump(_ n: inout Int) { n += 1 }\n\
         bump(&count)\n\
         func ^^ (l: Int, r: Int) -> Int { return l }\n\
         let y = 2 ^^ 8",
    );
    let top: Vec<_> = ch(&ast.root()).collect();
    assert_eq!(ch(&top[0]).last().unwrap().kind(), NodeKind::ArrayLiteral);
    assert_eq!(ch(&top[1]).last().unwrap().kind(), NodeKind::SubscriptExpr);
    let xs = ch(&top[2]).next().unwrap();
    assert!(xs.modifier_names().contains(&"variadic"));
    let n = ch(&top[3]).next().unwrap();
    assert!(n.modifiers() & INOUT != 0);
    let call = ch(&top[4]).next().unwrap();
    assert_eq!(ch(&call).nth(1).unwrap().kind(), NodeKind::InoutExpr);
    assert_eq!(txt(&top[5]).as_deref(), Some("^^"));
    let bin = ch(&top[6]).last().unwrap();
    assert_eq!(bin.kind(), NodeKind::BinaryExpr);
    assert_eq!(txt(&bin).as_deref(), Some("^^"));
}

#[test]
fn computed_property_and_observers_parse_accessors() {
    let ast = ast_of(
        "struct S {\n\
         var stored: Int = 0\n\
         var computed: Int { return stored * 2 }\n\
         var watched: Int = 0 { willSet { } didSet { } }\n\
         }",
    );
    let binding_name = |v: &Node<'_>| -> Option<String> {
        ch(v)
            .find(|c| c.kind() == NodeKind::PatternValueBinding)
            .and_then(|c| txt(&c))
    };
    let members: Vec<_> = ch(&first_stmt(&ast)).collect();
    let computed = members
        .iter()
        .find(|c| binding_name(c).as_deref() == Some("computed"))
        .unwrap();
    assert!(ch(computed)
        .any(|c| c.kind() == NodeKind::AccessorDecl && txt(&c).as_deref() == Some("get")));
    let watched = members
        .iter()
        .find(|c| binding_name(c).as_deref() == Some("watched"))
        .unwrap();
    let accs: Vec<_> = ch(watched)
        .filter(|c| c.kind() == NodeKind::AccessorDecl)
        .filter_map(|c| txt(&c))
        .collect();
    assert!(accs.contains(&"willSet".to_string()));
    assert!(accs.contains(&"didSet".to_string()));
}

#[test]
fn concurrency_syntax_parses() {
    let ast = ast_of(
        "actor Counter { var n = 0 }\n\
         func run() async {\n\
         async let a = fetch()\n\
         let v = await a\n\
         for await x in stream { use(x) }\n\
         }",
    );
    let top: Vec<_> = ch(&ast.root()).collect();
    assert_eq!(top[0].kind(), NodeKind::ActorDecl);
    let body = ch(&top[1]).find(|c| c.kind() == NodeKind::Block).unwrap();
    let stmts: Vec<_> = ch(&body).collect();
    assert_eq!(stmts[0].modifier_names(), vec!["async"]);
    let v_init = ch(&stmts[1]).last().unwrap();
    assert_eq!(v_init.kind(), NodeKind::AwaitExpr);
    let for_stmt = stmts[2];
    assert_eq!(for_stmt.kind(), NodeKind::ForStmt);
    assert_eq!(for_stmt.modifier_names(), vec!["async"]);
}

#[test]
fn generic_type_with_trailing_closure_is_a_call() {
    let ast = ast_of("let s = AsyncStream<Int> { c in c.finish() }");
    let init = ch(&ch(&ast.root()).next().unwrap()).last().unwrap();
    assert_eq!(init.kind(), NodeKind::CallExpr);
    let callee = ch(&init).next().unwrap();
    assert_eq!(callee.kind(), NodeKind::IdentExpr);
    assert_eq!(txt(&callee).as_deref(), Some("AsyncStream"));
}

#[test]
fn for_try_await_carries_async_and_throws() {
    let ast = ast_of(
        "func run() async {\n\
         for try await x in stream { use(x) }\n\
         }",
    );
    let body = ch(&ch(&ast.root()).next().unwrap())
        .find(|c| c.kind() == NodeKind::Block)
        .unwrap();
    let for_stmt = ch(&body).next().unwrap();
    assert_eq!(for_stmt.kind(), NodeKind::ForStmt);
    // Both effects are recorded; the flag names come out in table order.
    let mut names = for_stmt.modifier_names();
    names.sort();
    assert_eq!(names, vec!["async", "throws"]);
}

#[test]
fn switch_case_patterns_lower_to_pattern_nodes() {
    let ast = ast_of(
        "switch s {\n\
         case .circle(let r): break\n\
         case (let x, 0): break\n\
         case .none: break\n\
         case 0...9 where x > 1: break\n\
         default: break\n\
         }",
    );
    let sw = first_stmt(&ast);
    let clauses: Vec<_> = ch(&sw).filter(|c| c.kind() == NodeKind::CaseClause).collect();
    let enum_pat = ch(&clauses[0]).next().unwrap();
    assert_eq!(enum_pat.kind(), NodeKind::EnumCasePattern);
    assert_eq!(txt(&enum_pat).as_deref(), Some("circle"));
    assert_eq!(ch(&enum_pat).next().unwrap().kind(), NodeKind::PatternValueBinding);
    let tuple_pat = ch(&clauses[1]).next().unwrap();
    assert_eq!(tuple_pat.kind(), NodeKind::PatternTuple);
    let subs: Vec<_> = ch(&tuple_pat).map(|c| c.kind()).collect();
    assert_eq!(subs[0], NodeKind::PatternValueBinding);
    assert_eq!(subs[1], NodeKind::IntegerLiteral);
    let none_pat = ch(&clauses[2]).next().unwrap();
    assert_eq!(none_pat.kind(), NodeKind::EnumCasePattern);
    assert_eq!(txt(&none_pat).as_deref(), Some("none"));
    assert_eq!(ch(&clauses[3]).next().unwrap().kind(), NodeKind::RangePattern);
    assert!(ch(&clauses[3]).any(|c| c.kind() == NodeKind::WhereClause));
    assert_eq!(txt(&clauses[4]).as_deref(), Some("default"));
}

#[test]
fn async_let_records_async_modifier() {
    let ast = ast_of("func f() {\n  async let a = g()\n  let b = 1\n}");
    let body = ch(&first_stmt(&ast)).find(|c| c.kind() == NodeKind::Block).unwrap();
    let lets: Vec<_> = ch(&body).filter(|c| c.kind() == NodeKind::LetDecl).collect();
    assert_eq!(lets[0].modifier_names(), vec!["async"]);
    assert!(lets[1].modifier_names().is_empty());
}

#[test]
fn call_argument_labels_are_recorded() {
    let ast = ast_of("f(x: 1, 2, y: 3)");
    let call = ch(&first_stmt(&ast)).next().unwrap();
    assert_eq!(call.kind(), NodeKind::CallExpr);
    let args: Vec<_> = ch(&call).skip(1).collect();
    assert_eq!(args[0].arg_label().as_deref(), Some("x"));
    assert_eq!(args[1].arg_label(), None);
    assert_eq!(args[2].arg_label().as_deref(), Some("y"));
}

#[test]
fn consecutive_statements_on_one_line_are_rejected() {
    let err = parse_err("let x = 1 let y = 2");
    assert!(err.message.contains("separated by ';'"), "{}", err.message);
    assert!(parse("let x = 1\nlet y = 2").is_ok());
    assert!(parse("let x = 1; let y = 2").is_ok());
}

#[test]
fn custom_operator_uses_its_precedence_group() {
    let src = "precedencegroup ExpPrec { higherThan: MultiplicationPrecedence }\n\
               infix operator ** : ExpPrec\n\
               let r = 2 * 3 ** 2";
    let ast = ast_of(src);
    let decl = ch(&ast.root()).last().unwrap();
    let top = ch(&decl).last().unwrap();
    assert_eq!(txt(&top).as_deref(), Some("*"));
    assert_eq!(txt(&ch(&top).nth(1).unwrap()).as_deref(), Some("**"));
}

#[test]
fn one_sided_range_prefix_parses() {
    let ast = ast_of("let r = ..<5");
    let expr = ch(&first_stmt(&ast)).last().unwrap();
    assert_eq!(expr.kind(), NodeKind::PrefixExpr);
    assert_eq!(txt(&expr).as_deref(), Some("..<"));
}

#[test]
fn one_sided_range_patterns_in_switch() {
    let ast = ast_of(
        "switch x {\ncase 90...: break\ncase ..<60: break\ncase ...0: break\ndefault: break\n}",
    );
    let switch_stmt = first_stmt(&ast);
    let clauses: Vec<_> = ch(&switch_stmt).filter(|c| c.kind() == NodeKind::CaseClause).collect();
    let from = ch(&clauses[0]).next().unwrap();
    assert_eq!(from.kind(), NodeKind::RangePattern);
    assert_eq!(txt(&from).as_deref(), Some("from"));
    assert_eq!(ch(&from).count(), 1);
    let upto = ch(&clauses[1]).next().unwrap();
    assert_eq!(txt(&upto).as_deref(), Some("upTo"));
    assert_eq!(ch(&upto).count(), 1);
    let through = ch(&clauses[2]).next().unwrap();
    assert_eq!(txt(&through).as_deref(), Some("through"));
    assert_eq!(ch(&through).count(), 1);
}

#[test]
fn two_sided_range_pattern_keeps_two_bounds() {
    let ast = ast_of("switch x {\ncase 80..<90: break\ndefault: break\n}");
    let clause = ch(&first_stmt(&ast)).find(|c| c.kind() == NodeKind::CaseClause).unwrap();
    let pat = ch(&clause).next().unwrap();
    assert_eq!(pat.kind(), NodeKind::RangePattern);
    assert_eq!(txt(&pat).as_deref(), Some("..<"));
    assert_eq!(ch(&pat).count(), 2);
}

#[test]
fn multi_name_binding_shares_type_annotation() {
    let ast = ast_of("var a, b, c: Double");
    let decls: Vec<_> = ch(&ast.root()).filter(|c| c.kind() == NodeKind::VarDecl).collect();
    assert_eq!(decls.len(), 3);
    for decl in &decls {
        let kids: Vec<_> = ch(decl).collect();
        assert_eq!(kids[0].kind(), NodeKind::PatternValueBinding);
        assert_eq!(kids[1].kind(), NodeKind::TypeRef);
        assert_eq!(txt(&kids[1]).as_deref(), Some("Double"));
    }
}

#[test]
fn multi_name_binding_with_initializers() {
    let ast = ast_of("var x = 1, y = 2");
    let decls: Vec<_> = ch(&ast.root()).filter(|c| c.kind() == NodeKind::VarDecl).collect();
    assert_eq!(decls.len(), 2);
    assert_eq!(txt(&ch(&decls[0]).next().unwrap()).as_deref(), Some("x"));
    assert_eq!(txt(&ch(&decls[1]).next().unwrap()).as_deref(), Some("y"));
}

#[test]
fn single_binding_keeps_original_shape() {
    let ast = ast_of("let x: Int = 1");
    let decls: Vec<_> = ch(&ast.root()).filter(|c| c.kind() == NodeKind::LetDecl).collect();
    assert_eq!(decls.len(), 1);
    let kids: Vec<_> = ch(&decls[0]).collect();
    assert_eq!(kids.len(), 3);
    assert_eq!(kids[0].kind(), NodeKind::PatternValueBinding);
    assert_eq!(kids[1].kind(), NodeKind::TypeRef);
}

#[test]
fn paren_on_next_line_is_not_a_call() {
    let ast = ast_of("var b = 1\n(a, b) = (b, b + 1)");
    let stmts: Vec<_> = ch(&ast.root()).collect();
    assert_eq!(stmts.len(), 2);
    assert_eq!(stmts[0].kind(), NodeKind::VarDecl);
    assert_eq!(stmts[1].kind(), NodeKind::AssignExpr);
    assert_eq!(ch(&stmts[1]).next().unwrap().kind(), NodeKind::TupleExpr);
}

#[test]
fn same_line_paren_is_still_a_call() {
    let ast = ast_of("f(1, 2)");
    let call = ch(&first_stmt(&ast)).next().unwrap();
    assert_eq!(call.kind(), NodeKind::CallExpr);
}

#[test]
fn bare_operator_is_an_argument_reference() {
    let ast = ast_of("xs.reduce(0, +)");
    let call = ch(&first_stmt(&ast)).next().unwrap();
    let last = ch(&call).last().unwrap();
    assert_eq!(last.kind(), NodeKind::IdentExpr);
    assert_eq!(txt(&last).as_deref(), Some("+"));
}

#[test]
fn tuple_return_type_keeps_element_labels() {
    let ast = ast_of("func f() -> (min: Int, max: Int) { (0, 0) }");
    let ret = ch(&first_stmt(&ast)).find(|c| c.kind() == NodeKind::TypeRef).unwrap();
    assert_eq!(txt(&ret).as_deref(), Some("(min: Int, max: Int)"));
}

#[test]
fn subscript_argument_label_is_recorded() {
    let ast = ast_of(r#"Lookup[tag: "x"]"#);
    let sub = ch(&first_stmt(&ast)).next().unwrap();
    assert_eq!(sub.kind(), NodeKind::SubscriptExpr);
    assert_eq!(ch(&sub).nth(1).unwrap().arg_label().as_deref(), Some("tag"));
}

#[test]
fn condition_list_parses_multiple_optional_bindings() {
    let ast = ast_of("if let a = a, let b = b, a < b { print(a) }");
    let if_stmt = first_stmt(&ast);
    let conds: Vec<_> = ch(&if_stmt).take_while(|c| c.kind() != NodeKind::Block).collect();
    assert_eq!(conds.len(), 3);
    assert_eq!(conds[0].kind(), NodeKind::LetDecl);
    assert_eq!(conds[1].kind(), NodeKind::LetDecl);
    assert_eq!(conds[2].kind(), NodeKind::BinaryExpr);
}

#[test]
fn guard_condition_mixes_binding_and_boolean() {
    let ast = ast_of("func f() { guard let x = x, x > 0 else { return } }");
    let body = ch(&first_stmt(&ast)).find(|c| c.kind() == NodeKind::Block).unwrap();
    let guard = ch(&body).find(|c| c.kind() == NodeKind::GuardStmt).unwrap();
    let conds: Vec<_> = ch(&guard).take_while(|c| c.kind() != NodeKind::Block).collect();
    assert_eq!(conds.len(), 2);
    assert_eq!(conds[0].kind(), NodeKind::LetDecl);
    assert_eq!(conds[1].kind(), NodeKind::BinaryExpr);
}

#[test]
fn catch_binding_with_as_cast_is_a_cast_pattern() {
    let ast = ast_of("do { } catch let e as MyError { }");
    let do_stmt = first_stmt(&ast);
    let clause = ch(&do_stmt).find(|c| c.kind() == NodeKind::CatchClause).unwrap();
    let pat = ch(&clause).next().unwrap();
    assert_eq!(pat.kind(), NodeKind::CastExpr);
    assert_eq!(txt(&pat).as_deref(), Some("as"));
    let inner = ch(&pat).next().unwrap();
    assert_eq!(inner.kind(), NodeKind::PatternValueBinding);
    assert_eq!(txt(&inner).as_deref(), Some("e"));
}

#[test]
fn switch_is_pattern_is_a_cast_pattern() {
    let ast = ast_of("switch v { case is String: break; default: break }");
    let case = ch(&first_stmt(&ast)).find(|c| c.kind() == NodeKind::CaseClause).unwrap();
    let pat = ch(&case).next().unwrap();
    assert_eq!(pat.kind(), NodeKind::CastExpr);
    assert_eq!(txt(&pat).as_deref(), Some("is"));
}

#[test]
fn switch_optional_shorthand_is_a_some_pattern() {
    let ast = ast_of("switch v { case let x?: print(x); default: break }");
    let case = ch(&first_stmt(&ast)).find(|c| c.kind() == NodeKind::CaseClause).unwrap();
    let pat = ch(&case).next().unwrap();
    assert_eq!(pat.kind(), NodeKind::EnumCasePattern);
    assert_eq!(txt(&pat).as_deref(), Some("some"));
    assert_eq!(txt(&ch(&pat).next().unwrap()).as_deref(), Some("x"));
}

#[test]
fn for_case_optional_shorthand_is_a_some_pattern() {
    let ast = ast_of("for case let x? in xs { print(x) }");
    let pat = ch(&first_stmt(&ast))
        .find(|c| c.kind() == NodeKind::EnumCasePattern)
        .unwrap();
    assert_eq!(txt(&pat).as_deref(), Some("some"));
    assert_eq!(txt(&ch(&pat).next().unwrap()).as_deref(), Some("x"));
}

#[test]
fn if_case_optional_binding_lowers_to_a_let() {
    let ast = ast_of("if case let v? = maybe { }");
    let if_stmt = first_stmt(&ast);
    let cond = ch(&if_stmt).next().unwrap();
    assert_eq!(cond.kind(), NodeKind::LetDecl);
    assert_eq!(txt(&ch(&cond).next().unwrap()).as_deref(), Some("v"));
}

#[test]
fn import_declaration_records_module_path() {
    let ast = ast_of("import Foundation");
    let decl = first_stmt(&ast);
    assert_eq!(decl.kind(), NodeKind::ImportDecl);
    assert_eq!(txt(&decl).as_deref(), Some("Foundation"));
}

#[test]
fn open_class_is_a_class_declaration() {
    let ast = ast_of("open class Service { }");
    let decl = first_stmt(&ast);
    assert_eq!(decl.kind(), NodeKind::ClassDecl);
    assert_eq!(txt(&decl).as_deref(), Some("Service"));
    assert_eq!(decl.modifier_names(), vec!["open"]);
}

#[test]
fn type_attribute_prefixing_a_function_type() {
    let ast = ast_of("func run(_ work: @escaping () -> Void) { }");
    let param = ch(&first_stmt(&ast)).find(|c| c.kind() == NodeKind::Param).unwrap();
    let ty = ch(&param).next().unwrap();
    assert_eq!(txt(&ty).as_deref(), Some("() -> Void"));
}

#[test]
fn autoclosure_attribute_is_recorded_on_the_parameter() {
    let ast = ast_of("func f(_ p: @autoclosure () -> Bool) { }");
    let param = ch(&first_stmt(&ast)).find(|c| c.kind() == NodeKind::Param).unwrap();
    assert!(param.modifier_names().iter().any(|m| *m == "autoclosure"));
    let ty = ch(&param).next().unwrap();
    assert_eq!(txt(&ty).as_deref(), Some("() -> Bool"));
}

#[test]
fn result_builder_attribute_is_recorded_on_parameter() {
    let ast = ast_of("func wrap(@StringBuilder _ content: () -> String) { }");
    let param = ch(&first_stmt(&ast)).find(|c| c.kind() == NodeKind::Param).unwrap();
    assert_eq!(txt(&param).as_deref(), Some("content"));
    let attr = ch(&param).find(|c| c.kind() == NodeKind::Attribute).unwrap();
    assert_eq!(txt(&attr).as_deref(), Some("StringBuilder"));
}
