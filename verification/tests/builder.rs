use tswift::builder::{check_builder_bodies, BuilderMethods};
use tswift::parser::parse;
use tswift::sema::{analyze, Diagnostic};

fn diags_of(src: &str) -> Vec<Diagnostic> {
    let mut a = parse(src).expect("parse ok");
    analyze(&mut a)
}

const SB: &str = "@resultBuilder\nstruct SB {\n static func buildBlock(_ p: String...) -> String { \"\" } }\n";

#[test]
fn while_loop_in_builder_body_is_diagnosed() {
    let diags = diags_of(&format!("{SB}@SB\nfunc g() -> String {{\n while true {{ \"x\" }}\n }}"));
    assert!(diags.iter().any(|d| d.message.contains("'while'/'repeat'")), "{diags:?}");
}

#[test]
fn return_mixed_with_components_is_diagnosed() {
    let diags = diags_of(&format!("{SB}@SB\nfunc g() -> String {{\n \"a\"\n return \"b\"\n }}"));
    assert!(diags.iter().any(|d| d.message.contains("explicit 'return'")), "{diags:?}");
}

#[test]
fn sole_return_in_builder_body_is_allowed() {
    let diags = diags_of(&format!("{SB}@SB\nfunc g() -> String {{\n return \"b\"\n }}"));
    assert!(!diags.iter().any(|d| d.message.contains("explicit 'return'")), "{diags:?}");
}

#[test]
fn for_without_build_array_is_diagnosed() {
    let src = "@resultBuilder\nstruct B {\n\
        static func buildExpression(_ v: String) -> String { v }\n\
        static func buildBlock(_ parts: String...) -> String { \"\" }\n}\n\
        @B\nfunc g() -> String {\n for x in [\"a\"] { x }\n}";
    let diags = diags_of(src);
    assert!(
        diags.iter().any(|d| d.message.contains("'for'") && d.message.contains("buildArray")),
        "{diags:?}"
    );
}

#[test]
fn builder_diagnostic_is_at_the_statement_and_comes_first() {
    let a = parse(&format!("{SB}@SB\nfunc g() -> String {{\n while true {{ \"x\" }}\n }}")).unwrap();
    let diags = check_builder_bodies(&a);
    assert_eq!(diags.len(), 1);
    assert_eq!(
        diags[0].message,
        "'while'/'repeat' loops are not supported in a result-builder body"
    );
    assert_eq!(diags[0].line, 6);
    let mut b = parse(&format!("{SB}@SB\nfunc g() -> String {{\n while true {{ \"x\" }}\n }}")).unwrap();
    let all = analyze(&mut b);
    assert_eq!(all[0], diags[0]);
}

#[test]
fn if_without_else_needs_build_optional() {
    let diags = diags_of(&format!("{SB}@SB\nfunc g() -> String {{\n if true {{ \"x\" }}\n }}"));
    assert!(
        diags.iter().any(|d| d.message
            == "'if' without 'else' in a result-builder body requires the builder to declare 'buildOptional'"),
        "{diags:?}"
    );
}

#[test]
fn unsupported_statement_names_its_kind() {
    let diags = diags_of(&format!("{SB}@SB\nfunc g() -> String {{\n \"a\"\n do {{ \"b\" }}\n }}"));
    assert!(
        diags.iter().any(|d| d.message == "'do_stmt' is not supported in a result-builder body"),
        "{diags:?}"
    );
}

#[test]
fn builder_without_fold_is_not_checked() {
    let src = "@resultBuilder\nstruct NB {\n static func buildExpression(_ v: String) -> String { v } }\n\
               @NB\nfunc g() -> String {\n while true { \"x\" }\n }";
    let a = parse(src).unwrap();
    assert!(check_builder_bodies(&a).is_empty());
}

#[test]
fn plain_functions_are_not_checked() {
    let a = parse("func g() -> Int {\n while true { }\n return 1\n}").unwrap();
    assert!(check_builder_bodies(&a).is_empty());
}

#[test]
fn builder_methods_lookup() {
    let m = BuilderMethods {
        methods: vec![("buildBlock".to_string(), 1), ("buildPartialBlock".to_string(), 2)],
    };
    assert!(m.has("buildBlock"));
    assert!(!m.has("buildArray"));
    assert!(m.has_arity("buildPartialBlock", 2));
    assert!(!m.has_arity("buildPartialBlock", 1));
    assert!(m.has_fold());
}
