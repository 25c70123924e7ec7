use tswift::parser::parse;
use tswift::resolve::Type;
use tswift::sema::{analyze, annotate, fresh_name, is_comparison, is_logical, is_range, Diagnostic, Symbols, SYNTH_PREFIX};
use tswift::syntax::Analysis;

fn resolved(src: &str) -> Vec<Diagnostic> {
    let mut a = parse(src).expect("parse ok");
    analyze(&mut a)
}

fn exhaustiveness_diag(src: &str) -> Option<String> {
    resolved(src)
        .into_iter()
        .find(|d| d.message.contains("switch must be exhaustive"))
        .map(|d| d.message)
}

#[test]
fn fresh_names_use_the_reserved_prefix() {
    assert_eq!(fresh_name(0), "$build0");
    assert_eq!(fresh_name(7), "$build7");
    assert!(fresh_name(0).starts_with(SYNTH_PREFIX));
}

#[test]
fn fresh_name_writes_every_digit() {
    assert_eq!(fresh_name(1203), "$build1203");
}

#[test]
fn operator_classes() {
    assert!(is_comparison("==="));
    assert!(is_comparison("<="));
    assert!(!is_comparison("+"));
    assert!(is_logical("&&"));
    assert!(!is_logical("&"));
    assert!(is_range("..<"));
    assert!(is_range("..."));
    assert!(!is_range(".."));
}

#[test]
fn non_exhaustive_enum_switch_is_diagnosed() {
    let src = "enum D { case north, south, east, west }\n\
               let d = D.north\n\
               switch d { case .north: break }";
    let msg = exhaustiveness_diag(src).expect("expected a diagnostic");
    assert!(msg.contains("'.south'"), "{msg}");
    assert!(msg.contains("'.east'"), "{msg}");
    assert!(msg.contains("'.west'"), "{msg}");
}

#[test]
fn exhaustive_enum_switch_has_no_diagnostic() {
    let src = "enum D { case north, south }\n\
               let d = D.north\n\
               switch d { case .north: break\ncase .south: break }";
    assert_eq!(exhaustiveness_diag(src), None);
}

#[test]
fn comma_separated_cases_count_as_covered() {
    let src = "enum D { case a, b, c }\n\
               switch D.a { case .a, .b, .c: break }";
    assert_eq!(exhaustiveness_diag(src), None);
}

#[test]
fn default_clause_makes_switch_exhaustive() {
    let src = "enum D { case a, b, c }\n\
               switch D.a { case .a: break\ndefault: break }";
    assert_eq!(exhaustiveness_diag(src), None);
}

#[test]
fn unknown_default_makes_switch_exhaustive() {
    let src = "enum D { case a, b, c }\n\
               switch D.a { case .a: break\n@unknown default: break }";
    assert_eq!(exhaustiveness_diag(src), None);
}

#[test]
fn catch_all_binding_makes_switch_exhaustive() {
    let src = "enum D { case a, b, c }\n\
               switch D.a { case .a: break\ncase let other: _ = other }";
    assert_eq!(exhaustiveness_diag(src), None);
}

#[test]
fn where_guarded_case_does_not_cover() {
    let src = "enum D { case a, b }\n\
               let n = 1\n\
               switch D.a { case .a where n > 0: break\ncase .b: break }";
    let msg = exhaustiveness_diag(src).expect("expected a diagnostic");
    assert!(msg.contains("'.a'"), "{msg}");
}

#[test]
fn irrefutable_payload_binding_covers_case() {
    let src = "enum D { case a(Int), b }\n\
               switch D.b { case .a(let x): _ = x\ncase .b: break }";
    assert_eq!(exhaustiveness_diag(src), None);
}

#[test]
fn refutable_payload_does_not_cover_case() {
    let src = "enum D { case a(Int), b }\n\
               switch D.b { case .a(0): break\ncase .b: break }";
    let msg = exhaustiveness_diag(src).expect("expected a diagnostic");
    assert!(msg.contains("'.a'"), "{msg}");
}

#[test]
fn integer_switch_is_not_treated_as_enum() {
    let src = "let n = 3\nswitch n { case 0: break\ncase 1: break }";
    assert_eq!(exhaustiveness_diag(src), None);
}

#[test]
fn exhaustiveness_message_is_exact_and_located_at_the_switch() {
    let src = "enum D { case north, south, east }\nswitch D.north { case .north: break }";
    let diags = resolved(src);
    assert_eq!(diags.len(), 1);
    assert_eq!(
        diags[0].message,
        "switch must be exhaustive: add missing case(s) '.south', '.east' for enum 'D' or a 'default' clause"
    );
    assert_eq!(diags[0].line, 2);
    assert_eq!(diags[0].col, 1);
}

#[test]
fn ambiguous_enum_is_not_diagnosed() {
    let src = "enum A { case x, y }\nenum B { case x, z }\nswitch A.x { case .x: break }";
    assert_eq!(exhaustiveness_diag(src), None);
}

#[test]
fn unguarded_wildcard_makes_switch_exhaustive() {
    let src = "enum D { case a, b }\nswitch D.a { case .a: break\ncase _: break }";
    assert_eq!(exhaustiveness_diag(src), None);
}

#[test]
fn guarded_catch_all_does_not_cover() {
    let src = "enum D { case a, b }\nlet n = 1\nswitch D.a { case .a: break\ncase let v where n > 0: _ = v }";
    let msg = exhaustiveness_diag(src).expect("expected a diagnostic");
    assert!(msg.contains("'.b'"), "{msg}");
}

#[test]
fn nested_switch_is_reported_before_the_enclosing_one() {
    let src = "enum D { case a, b }\nenum E { case p, q }\n\
               switch D.a {\ncase .a:\n    switch E.p { case .p: break }\n}";
    let diags = resolved(src);
    assert_eq!(diags.len(), 2);
    assert!(diags[0].message.contains("'.q'"));
    assert!(diags[1].message.contains("'.b'"));
}

#[test]
fn tuple_payload_of_bindings_covers_case() {
    let src = "enum D { case a((Int, Int)), b }\nswitch D.b { case .a((let x, _)): _ = x\ncase .b: break }";
    assert_eq!(exhaustiveness_diag(src), None);
}

#[test]
fn nested_enum_cases_are_collected() {
    let src = "struct Outer { enum Inner { case a, b } }\nswitch Outer.Inner.a { case .a: break }";
    let msg = exhaustiveness_diag(src).expect("expected a diagnostic");
    assert!(msg.contains("enum 'Inner'"), "{msg}");
}

#[test]
fn analysis_reports_exhaustiveness_diagnostics() {
    let a = Analysis::analyze("enum D { case a, b }\nswitch D.a { case .a: break }", "main.swift").unwrap();
    let diags = a.diagnostics();
    assert_eq!(diags.len(), 1);
    assert!(diags[0].message.contains("'.b'"));
    assert!(!a.is_ok());
}

fn symbols_of(src: &str) -> Symbols {
    let a = parse(src).expect("parse ok");
    Symbols::collect(&a)
}

#[test]
fn enums_iterates_every_enum_in_source_order() {
    let symbols = symbols_of("enum A { case x\n case y }\nenum B { case z }");
    let mut found: Vec<(&String, &Vec<String>)> = symbols.enums.iter().map(|e| (&e.name, &e.cases)).collect();
    found.sort_by(|a, b| a.0.cmp(b.0));
    assert_eq!(found[0].0, "A");
    assert_eq!(found[0].1, &vec!["x".to_string(), "y".to_string()]);
    assert_eq!(found[1].0, "B");
    assert_eq!(found[1].1, &vec!["z".to_string()]);
}

#[test]
fn collects_nested_enums() {
    let symbols = symbols_of("struct Outer { enum Inner { case a\n case b } }");
    let inner: Vec<(&String, &Vec<String>)> = symbols.enums.iter().map(|e| (&e.name, &e.cases)).collect();
    assert_eq!(inner.len(), 1);
    assert_eq!(inner[0].0, "Inner");
    assert_eq!(inner[0].1, &vec!["a".to_string(), "b".to_string()]);
}

#[test]
fn records_declared_func_return_type() {
    let symbols = symbols_of("func answer() -> Int { return 42 }");
    assert_eq!(symbols.func_return("answer"), Some(Type::Int));
}

#[test]
fn func_without_return_type_is_void() {
    let symbols = symbols_of("func greet() { }");
    assert_eq!(symbols.func_return("greet"), Some(Type::Void));
}

#[test]
fn unknown_func_has_no_return_type() {
    let symbols = symbols_of("func greet() { }");
    assert_eq!(symbols.func_return("missing"), None);
}

/// A later enum of the same name replaces the earlier one in place.
#[test]
fn redeclared_enum_replaces_its_cases() {
    let symbols = symbols_of("enum A { case x }\nenum B { case z }\nenum A { case y }");
    let names: Vec<&str> = symbols.enums.iter().map(|e| e.name.as_str()).collect();
    assert_eq!(names, vec!["A", "B"]);
    assert_eq!(symbols.enums[0].cases, vec!["y".to_string()]);
}

#[test]
fn annotate_pass_runs_through_the_interface() {
    let mut ast = parse("let x = 1 + 2").expect("parse ok");
    let symbols = Symbols::collect(&ast);
    let diags = annotate(&mut ast, &symbols);
    assert!(diags.is_empty(), "{diags:?}");
    let decl = ast.root().children().next().unwrap();
    assert_eq!(decl.children().into_vec().last().unwrap().type_text().as_deref(), Some("Int"));
}

#[test]
fn analyze_drives_the_pipeline_and_surfaces_diagnostics() {
    let mut ast = parse(r#"let x: Int = "oops""#).expect("parse ok");
    let diags = analyze(&mut ast);
    assert_eq!(diags.len(), 1);
    assert!(diags[0].message.contains("cannot convert"), "{diags:?}");
}
