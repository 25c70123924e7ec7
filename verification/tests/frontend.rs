use tswift::dump::json_string;
use tswift::syntax::{Analysis, AnalyzeError, NodeKind};

/// The pipeline round-trips: analyze `print(42)`, walk the tree, read payloads.
#[test]
fn walks_print_42() {
    let a = Analysis::analyze("print(42)\n", "main.swift").unwrap();
    assert!(a.is_ok(), "unexpected diagnostics: {:?}", a.diagnostics());

    let root = a.root();
    assert_eq!(root.kind(), NodeKind::SourceFile);

    let stmt = root.children().next().expect("a statement");
    assert_eq!(stmt.kind(), NodeKind::ExprStmt);
    let call = stmt.children().next().expect("a call");
    assert_eq!(call.kind(), NodeKind::CallExpr);

    let mut kids = call.children();
    let callee = kids.next().expect("callee");
    assert_eq!(callee.kind(), NodeKind::IdentExpr);
    assert_eq!(callee.text().as_deref(), Some("print"));

    let arg = kids.next().expect("argument");
    assert_eq!(arg.kind(), NodeKind::IntegerLiteral);
    assert_eq!(arg.int_value(), Some(42));
}

/// A syntax error surfaces as a diagnostic, not a panic.
#[test]
fn reports_diagnostics() {
    let a = Analysis::analyze("let = =\n", "bad.swift").unwrap();
    assert!(!a.is_ok());
    assert!(!a.diagnostics().is_empty());
}

#[test]
fn interior_nul_is_refused() {
    assert_eq!(Analysis::analyze("let x = 1\0", "m.swift").err(), Some(AnalyzeError::InteriorNul));
    assert_eq!(Analysis::analyze("let x = 1", "m\0.swift").err(), Some(AnalyzeError::InteriorNul));
    assert_eq!(AnalyzeError::InteriorNul.message(), "source contained an interior NUL byte");
}

#[test]
fn lexical_error_becomes_the_only_diagnostic() {
    let a = Analysis::analyze("let s = \"open\n", "m.swift").unwrap();
    let d = a.diagnostics();
    assert_eq!(d.len(), 1);
    assert_eq!(d[0].line, 1);
    assert_eq!(a.root().children().into_vec().len(), 0);
}

#[test]
fn kind_names() {
    assert_eq!(NodeKind::StructDecl.name(), "struct_decl");
    assert_eq!(NodeKind::SourceFile.debug_name(), "SourceFile");
    assert_eq!(NodeKind::Other(7).debug_name(), "Other(7)");
}

#[test]
fn modifiers_and_ownership_read_through_the_helpers() {
    let a = Analysis::analyze(
        "@main\nstruct App {\n    @State var count = 0\n    static let shared = 1\n    lazy var cache = 2\n    weak var owner = 3\n    func main() {\n        async let job = run()\n        let plain = 1\n    }\n}\n",
        "main.swift",
    )
    .unwrap();
    assert!(a.is_ok(), "{:?}", a.diagnostics());
    let app = a
        .root()
        .children()
        .into_vec()
        .into_iter()
        .find(|c| c.kind() == NodeKind::StructDecl)
        .unwrap();
    let members = app.children().into_vec();
    assert!(members
        .iter()
        .any(|c| c.kind() == NodeKind::Attribute && c.text().as_deref() == Some("main")));
    let member = |name: &str| {
        members
            .iter()
            .find(|c| c.decl_name().as_deref() == Some(name))
            .copied()
            .unwrap_or_else(|| panic!("member {name}"))
    };
    assert!(member("count")
        .children()
        .into_vec()
        .iter()
        .any(|c| c.kind() == NodeKind::Attribute && c.text().as_deref() == Some("State")));
    assert!(member("shared").modifier_names().contains(&"static"));
    assert!(member("cache").modifier_names().contains(&"lazy"));
    assert_eq!(member("owner").ownership().as_deref(), Some("weak"));

    let body = members
        .iter()
        .find(|c| c.kind() == NodeKind::FuncDecl)
        .unwrap()
        .children()
        .into_vec()
        .into_iter()
        .find(|c| c.kind() == NodeKind::Block)
        .unwrap();
    let lets: Vec<_> = body
        .children()
        .into_vec()
        .into_iter()
        .filter(|c| c.kind() == NodeKind::LetDecl)
        .collect();
    assert!(lets[0].is_async_let());
    assert!(!lets[1].is_async_let());
}

#[test]
fn accessors_parameters_and_call_labels() {
    let a = Analysis::analyze(
        "struct Box {\n    var items: [Int]\n    var first: Int { return items[0] }\n    var n: Int = 0 { didSet { } }\n    subscript(i: Int) -> Int { return items[i] }\n    mutating func add(_ xs: Int..., at j: Int) { }\n}\nfn(label: 1, &place)\n",
        "main.swift",
    )
    .unwrap();
    assert!(a.is_ok(), "{:?}", a.diagnostics());
    let root = a.root();
    let body = root
        .children()
        .into_vec()
        .into_iter()
        .find(|c| c.kind() == NodeKind::StructDecl)
        .unwrap()
        .children()
        .into_vec();
    let first = body.iter().find(|c| c.decl_name().as_deref() == Some("first")).unwrap();
    assert!(first.var_accessors().is_computed);
    let n = body.iter().find(|c| c.decl_name().as_deref() == Some("n")).unwrap();
    assert!(n.var_accessors().did_set_body.is_some());
    assert!(!n.var_accessors().is_computed);
    let sub = body.iter().find(|c| c.kind() == NodeKind::SubscriptDecl).unwrap();
    assert!(sub.var_accessors().getter_body.is_some());
    let add = body
        .iter()
        .find(|c| c.kind() == NodeKind::FuncDecl && c.text().as_deref() == Some("add"))
        .unwrap();
    let params: Vec<_> = add
        .children()
        .into_vec()
        .into_iter()
        .filter(|c| c.kind() == NodeKind::Param)
        .collect();
    assert!(params.iter().any(|p| p.param_info().variadic));
    assert_eq!(params[0].param_info().label, None);
    assert_eq!(params[1].param_info().label.as_deref(), Some("at"));
    assert_eq!(params[1].param_info().name, "j");
    assert!(add.modifier_names().contains(&"mutating"));

    let call = root
        .children()
        .into_vec()
        .into_iter()
        .find(|c| c.kind() == NodeKind::ExprStmt)
        .unwrap()
        .children()
        .next()
        .unwrap();
    let args: Vec<_> = call.children().into_vec().into_iter().skip(1).collect();
    assert_eq!(args[0].arg_label().as_deref(), Some("label"));
    assert_eq!(args[1].kind(), NodeKind::InoutExpr);
}

#[test]
fn operators_nest_by_precedence() {
    let a = Analysis::analyze("let x = 1 + 2 * 3\n", "m.swift").unwrap();
    let decl = a.root().children().next().unwrap();
    let init = decl.children().into_vec().into_iter().last().unwrap();
    assert_eq!(init.kind(), NodeKind::BinaryExpr);
    assert_eq!(init.op_text().as_deref(), Some("+"));
    let rhs = init.children().into_vec()[1];
    assert_eq!(rhs.op_text().as_deref(), Some("*"));
}

#[test]
fn consecutive_statements_need_a_separator() {
    let a = Analysis::analyze("let x = 1 let y = 2\n", "m.swift").unwrap();
    assert!(!a.is_ok());
    let b = Analysis::analyze("let x = 1; let y = 2\n", "m.swift").unwrap();
    assert!(b.is_ok());
}

#[test]
fn dump_outlines_the_tree() {
    let a = Analysis::analyze("let x = 1\n", "main.swift").unwrap();
    assert_eq!(
        a.root().dump(),
        "SourceFile L1\n  LetDecl L1 :Int\n    PatternValueBinding \"x\" L1 :Int\n    IntegerLiteral \"1\" L1 :Int\n"
    );
}

#[test]
fn dump_json_renders_the_tree() {
    let a = Analysis::analyze("let x = 1\n", "main.swift").unwrap();
    assert_eq!(
        a.root().dump_json(),
        "{\"kind\":\"source_file\",\"line\":1,\"children\":[{\"kind\":\"let_decl\",\"line\":1,\"type\":\"Int\",\"children\":[{\"kind\":\"pattern_value_binding\",\"text\":\"x\",\"line\":1,\"type\":\"Int\"},{\"kind\":\"integer_literal\",\"text\":\"1\",\"line\":1,\"type\":\"Int\"}]}]}"
    );
}

#[test]
fn json_string_escapes_quotes_backslashes_and_controls() {
    assert_eq!(json_string("a\"b\\c\nd\te\rf"), "\"a\\\"b\\\\c\\nd\\te\\rf\"");
    assert_eq!(json_string(""), "\"\"");
}

#[test]
fn dump_quotes_text_with_debug_escapes() {
    let a = Analysis::analyze("let s = \"hi\"\n", "main.swift").unwrap();
    let d = a.root().dump();
    assert!(d.contains("StringLiteral \"\\\"hi\\\"\" L1"), "{d}");
}

#[test]
fn pins_minimal_runtime_dump_shape() {
    let a = Analysis::analyze("print(42)\n", "main.swift").unwrap();
    assert_eq!(
        a.root().dump(),
        "SourceFile L1\n  ExprStmt L1\n    CallExpr L1 :Void\n      IdentExpr \"print\" L1\n      IntegerLiteral \"42\" L1 :Int\n"
    );
}
