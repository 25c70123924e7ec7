use tswift::parser::parse;
use tswift::resolve::{parse_type_name, Type};
use tswift::sema::{analyze, Diagnostic};
use tswift::syntax::{Analysis, NodeKind};

fn resolved(src: &str) -> (Analysis, Vec<Diagnostic>) {
    let mut a = parse(src).expect("parse ok");
    let diags = analyze(&mut a);
    (a, diags)
}

fn first_binding_init_type(a: &Analysis) -> Option<String> {
    let decl = a.root().children().next().unwrap();
    decl.children().into_vec().last().unwrap().type_text()
}

#[test]
fn type_names_parse_only_modelled_scalars() {
    assert_eq!(parse_type_name("Int"), Some(Type::Int));
    assert_eq!(parse_type_name("Regex"), Some(Type::Regex));
    assert_eq!(parse_type_name("[Int]"), None);
    assert_eq!(Type::Double.name(), "Double");
}

#[test]
fn types_integer_arithmetic_as_int() {
    let (a, diags) = resolved("let x = 1 + 2");
    assert!(diags.is_empty(), "{diags:?}");
    assert_eq!(first_binding_init_type(&a).as_deref(), Some("Int"));
}

#[test]
fn literal_types_cover_each_scalar() {
    assert_eq!(first_binding_init_type(&resolved("let a = 3.14").0).as_deref(), Some("Double"));
    assert_eq!(first_binding_init_type(&resolved("let a = true").0).as_deref(), Some("Bool"));
    assert_eq!(first_binding_init_type(&resolved(r#"let a = "hi""#).0).as_deref(), Some("String"));
}

#[test]
fn comparison_and_logical_are_bool() {
    assert_eq!(first_binding_init_type(&resolved("let a = 1 < 2").0).as_deref(), Some("Bool"));
    assert_eq!(first_binding_init_type(&resolved("let a = true && false").0).as_deref(), Some("Bool"));
}

#[test]
fn identifiers_resolve_against_bindings() {
    let (a, diags) = resolved("let x = 10\nlet y = x + 5");
    assert!(diags.is_empty(), "{diags:?}");
    let second = a.root().children().into_vec()[1];
    assert_eq!(second.children().into_vec().last().unwrap().type_text().as_deref(), Some("Int"));
}

#[test]
fn annotation_is_recorded_and_checked() {
    let (a, diags) = resolved("let x: Double = 2.5");
    assert!(diags.is_empty(), "{diags:?}");
    let decl = a.root().children().next().unwrap();
    assert_eq!(decl.type_text().as_deref(), Some("Double"));
}

#[test]
fn annotation_mismatch_diagnoses() {
    let (_a, diags) = resolved(r#"let x: Int = "oops""#);
    assert_eq!(diags.len(), 1);
    assert!(diags[0].message.contains("cannot convert"), "{diags:?}");
}

#[test]
fn annotation_mismatch_message_is_exact() {
    let (_a, diags) = resolved(r#"let x: Int = "oops""#);
    assert_eq!(diags[0].message, "cannot convert value of type 'String' to specified type 'Int'");
    assert_eq!((diags[0].line, diags[0].col), (1, 1));
}

#[test]
fn integer_literal_coerces_to_double_without_diagnostic() {
    let (a, diags) = resolved("let r: Double = 5");
    assert!(diags.is_empty(), "{diags:?}");
    let decl = a.root().children().next().unwrap();
    assert_eq!(decl.type_text().as_deref(), Some("Double"));
}

#[test]
fn mixed_int_double_arithmetic_is_double() {
    let (_a, diags) = resolved("let d: Double = 10\nlet half = d / 4");
    assert!(diags.is_empty(), "{diags:?}");
}

#[test]
fn print_call_is_void_and_clean() {
    let (a, diags) = resolved(r#"print("hi")"#);
    assert!(diags.is_empty(), "{diags:?}");
    let call = a.root().children().next().unwrap().children().next().unwrap();
    assert_eq!(call.kind(), NodeKind::CallExpr);
    assert_eq!(call.type_text().as_deref(), Some("Void"));
}

#[test]
fn mixed_operand_types_diagnose() {
    let (_a, diags) = resolved(r#"let a = 1 + "x""#);
    assert_eq!(diags.len(), 1);
    assert!(diags[0].message.contains("cannot combine"), "{diags:?}");
    assert_eq!(diags[0].message, "binary operator '+' cannot combine Int and String");
}

#[test]
fn prefix_not_is_bool() {
    let (a, _diags) = resolved("let a = !true");
    assert_eq!(first_binding_init_type(&a).as_deref(), Some("Bool"));
}

#[test]
fn recursive_function_calls_use_declared_return_type() {
    let (_a, diags) = resolved("func factorial(_ n: Int) -> Int { return n == 0 ? 1 : n * factorial(n - 1) }");
    assert!(diags.is_empty(), "{diags:?}");
}

#[test]
fn function_params_are_in_scope_in_the_body() {
    let (a, diags) = resolved("func add(a: Int, b: Int) -> Int { return a + b }");
    assert!(diags.is_empty(), "{diags:?}");
    let func = a.root().children().next().unwrap();
    assert_eq!(func.type_text().as_deref(), Some("Int"));
    let body = *func.children().into_vec().last().unwrap();
    let ret = body.children().next().unwrap();
    assert_eq!(ret.children().next().unwrap().type_text().as_deref(), Some("Int"));
}

#[test]
fn locals_do_not_leak_out_of_function_scope() {
    let (a, diags) = resolved("func f() { let inner = 1 }\nlet x = 2");
    assert!(diags.is_empty(), "{diags:?}");
    let x = a.root().children().into_vec()[1];
    assert_eq!(x.type_text().as_deref(), Some("Int"));
}

#[test]
fn binding_inside_block_is_scoped() {
    let (_a, diags) = resolved("if true { let a = 1\nlet b = a + 1 }");
    assert!(diags.is_empty(), "{diags:?}");
}

#[test]
fn method_params_and_body_resolve() {
    let (_a, diags) = resolved("struct Calc { func add(a: Int, b: Int) -> Int { return a + b } }");
    assert!(diags.is_empty(), "{diags:?}");
}

#[test]
fn is_cast_is_bool() {
    let (a, _diags) = resolved("let flag = value is Int");
    assert_eq!(first_binding_init_type(&a).as_deref(), Some("Bool"));
}

#[test]
fn conditional_compilation_binding_is_visible() {
    let src = "#if DEBUG\n let level = 1\n #else\n let level = 0\n #endif\nlet next = level + 1";
    let (_a, diags) = resolved(src);
    assert!(diags.is_empty(), "{diags:?}");
}

#[test]
fn assigning_to_a_let_constant_is_diagnosed() {
    let (_a, diags) = resolved("let limit = 10\nlimit = 20");
    assert_eq!(diags.len(), 1);
    assert!(diags[0].message.contains("'let' constant"), "{diags:?}");
    assert_eq!(diags[0].line, 2);
    assert_eq!(diags[0].message, "cannot assign to value: 'limit' is a 'let' constant");
}

#[test]
fn assigning_to_a_var_is_allowed() {
    let (_a, diags) = resolved("var total = 0\ntotal = 5");
    assert!(diags.is_empty(), "{diags:?}");
}

#[test]
fn initializer_may_assign_to_a_let_stored_property() {
    let src = "struct R {\nlet id: Int\ninit(_ i: Int) { id = i }\n}";
    let (_a, diags) = resolved(src);
    assert!(diags.is_empty(), "{diags:?}");
}

#[test]
fn extension_stored_property_is_diagnosed() {
    let src = "struct A { var x: Int }\nextension A { var pending: Int = 0 }";
    let (_a, diags) = resolved(src);
    assert!(
        diags.iter().any(|d| d.message.contains("extensions must not contain stored properties")),
        "{diags:?}"
    );
}

#[test]
fn extension_computed_property_is_allowed() {
    let src = "struct A { var x: Int }\nextension A { var doubled: Int { x } }";
    let (_a, diags) = resolved(src);
    assert!(diags.is_empty(), "{diags:?}");
}

#[test]
fn static_property_in_extension_is_allowed() {
    let src = "struct A { var x: Int }\nextension A { static let zero = 0 }";
    let (_a, diags) = resolved(src);
    assert!(diags.is_empty(), "{diags:?}");
}

#[test]
fn function_declared_later_in_a_block_is_callable() {
    let (a, diags) = resolved("func outer() {\nlet n = twice()\nfunc twice() -> Int { return 2 }\n}");
    assert!(diags.is_empty(), "{diags:?}");
    let outer = a.root().children().next().unwrap();
    let body = *outer.children().into_vec().last().unwrap();
    let n = body.children().next().unwrap();
    assert_eq!(n.type_text().as_deref(), Some("Int"));
}

#[test]
fn optional_cast_has_no_type_and_forced_cast_takes_the_target() {
    assert_eq!(first_binding_init_type(&resolved("let a = v as? Int").0), None);
    assert_eq!(first_binding_init_type(&resolved("let a = v as! Int").0).as_deref(), Some("Int"));
}

#[test]
fn nil_coalescing_takes_the_right_operand_type() {
    assert_eq!(first_binding_init_type(&resolved("let a = v ?? 3").0).as_deref(), Some("Int"));
}

#[test]
fn range_has_no_type() {
    assert_eq!(first_binding_init_type(&resolved("let r = 0 ..< 3").0), None);
}

#[test]
fn ternary_takes_the_then_branch_type() {
    assert_eq!(first_binding_init_type(&resolved("let t = true ? 1 : 2").0).as_deref(), Some("Int"));
}

#[test]
fn frontend_dump_shows_resolved_types() {
    let a = Analysis::analyze("let x = 1 + 2\n", "main.swift").unwrap();
    assert!(a.is_ok());
    let d = a.root().dump();
    assert!(d.contains("LetDecl L1 :Int"), "{d}");
    assert!(d.contains("BinaryExpr \"+\" L1 :Int"), "{d}");
}

#[test]
fn control_flow_resolves_without_diagnostics() {
    let src = "let xs = 0\n\
               if xs > 0 { let a = xs + 1 } else { let b = xs - 1 }\n\
               while xs < 10 { let c = xs }\n\
               for i in 0 ..< 3 where i > 0 { let d = i }\n\
               switch xs { case 0: break\ndefault: break }";
    let (_ast, diags) = resolved(src);
    assert!(diags.is_empty(), "{diags:?}");
}

#[test]
fn value_types_resolve_without_diagnostics() {
    let src = "struct Point {\n\
               var x: Int\n\
               var y: Int\n\
               func sumSquares() -> Int { return x * x + y * y }\n\
               var magnitudeHint: Int { return x + y }\n\
               }\n\
               enum Suit: Int {\n\
               case hearts = 1, spades\n\
               }";
    let (_ast, diags) = resolved(src);
    assert!(diags.is_empty(), "{diags:?}");
}

#[test]
fn if_let_binding_resolves() {
    let (_ast, diags) = resolved("var maybe = 1\nif let value = maybe { let doubled = value }");
    assert!(diags.is_empty(), "{diags:?}");
}

#[test]
fn classes_and_closures_resolve() {
    let src = "class Animal {\n\
               let name: String\n\
               init(name: String) { self.name = name }\n\
               deinit { }\n\
               }\n\
               let twice = numbers.map { x in x + x }";
    let (_ast, diags) = resolved(src);
    assert!(diags.is_empty(), "{diags:?}");
}

#[test]
fn errors_and_directives_resolve() {
    let src = "func load() {\n\
               defer { close() }\n\
               do {\n\
               let data = try read()\n\
               process(data)\n\
               } catch let error {\n\
               report(error)\n\
               }\n\
               }";
    let (_ast, diags) = resolved(src);
    assert!(diags.is_empty(), "{diags:?}");
}

#[test]
fn protocols_generics_extensions_resolve() {
    let src = "protocol Shape {\n\
               var area: Double { get }\n\
               func scaled(by factor: Double) -> Double\n\
               }\n\
               struct Square: Shape {\n\
               let side: Double\n\
               var area: Double { return side * side }\n\
               func scaled(by factor: Double) -> Double { return side * factor }\n\
               }\n\
               extension Square {\n\
               func describe() -> Double { return area }\n\
               }\n\
               func maxOf<T>(a: T, b: T, pick: T) -> T { return pick }";
    let (_ast, diags) = resolved(src);
    assert!(diags.is_empty(), "{diags:?}");
}

/// A `for` loop binds nothing from its pattern, infers its iterable and its
/// guard, and resolves its body; a `catch` clause scopes its bindings.
#[test]
fn for_and_catch_scopes_end_with_their_bodies() {
    let (a, diags) = resolved("for i in 0 ..< 3 { let inner = 1 }\nlet after = 2");
    assert!(diags.is_empty(), "{diags:?}");
    let after = a.root().children().into_vec()[1];
    assert_eq!(after.type_text().as_deref(), Some("Int"));
    let (_a, diags) = resolved("do { } catch let e { let k = 1\nk = 2 }");
    assert_eq!(diags.len(), 1, "{diags:?}");
    assert_eq!(diags[0].line, 2);
}
