use tswift::project::SourceFile;
use tswift::symbols::{list_symbols, SymbolKind};

#[test]
fn lists_top_level_and_nested_symbols_with_containers() {
    let src = "struct Box {\n    var items: [Int]\n    func add(_ x: Int, label y: String) -> Bool { return true }\n    init(x: Int) {}\n}\nenum E { case a(Int) }\nprotocol P { func f() }\n";
    let files = [SourceFile::new("main.swift", src)];
    let syms = list_symbols(&files);

    let by_name = |n: &str| syms.iter().find(|s| s.name == n).unwrap();

    let boxs = by_name("Box");
    assert_eq!(boxs.kind, SymbolKind::Struct);
    assert_eq!(boxs.container, None);
    assert_eq!(boxs.line, 1);

    let items = by_name("items");
    assert_eq!(items.kind, SymbolKind::Var);
    assert_eq!(items.container.as_deref(), Some("Box"));
    assert_eq!(items.signature.as_deref(), Some("items: [Int]"));

    let add = by_name("add");
    assert_eq!(add.kind, SymbolKind::Func);
    assert_eq!(add.container.as_deref(), Some("Box"));
    assert_eq!(
        add.signature.as_deref(),
        Some("func add(x: Int, label y: String) -> Bool")
    );

    let init = syms
        .iter()
        .find(|s| s.kind == SymbolKind::Init)
        .expect("an init symbol");
    assert_eq!(init.container.as_deref(), Some("Box"));
    assert_eq!(init.signature.as_deref(), Some("init(x: Int)"));

    let a = by_name("a");
    assert_eq!(a.kind, SymbolKind::Case);
    assert_eq!(a.container.as_deref(), Some("E"));
    assert_eq!(a.signature.as_deref(), Some("case a(Int)"));

    let f = by_name("f");
    assert_eq!(f.container.as_deref(), Some("P"));
}

/// Local declarations inside a function body are not listed — only the
/// outline of declarations, not statement-level locals.
#[test]
fn does_not_descend_into_function_bodies() {
    let src = "func outer() {\n    let local = 1\n    func inner() {}\n}\n";
    let files = [SourceFile::new("main.swift", src)];
    let syms = list_symbols(&files);
    assert_eq!(syms.len(), 1);
    assert_eq!(syms[0].name, "outer");
}

/// Symbols across two files carry their own file path and file-local line.
#[test]
fn symbols_across_two_files_carry_their_own_file_and_line() {
    let files = [
        SourceFile::new("Models.swift", "struct Point {\n    let x: Int\n}\n"),
        SourceFile::new("main.swift", "func run() {}\n"),
    ];
    let syms = list_symbols(&files);
    let point = syms.iter().find(|s| s.name == "Point").unwrap();
    assert_eq!(point.file, "Models.swift");
    assert_eq!(point.line, 1);
    let x = syms.iter().find(|s| s.name == "x").unwrap();
    assert_eq!(x.file, "Models.swift");
    assert_eq!(x.line, 2);
    let run = syms.iter().find(|s| s.name == "run").unwrap();
    assert_eq!(run.file, "main.swift");
    assert_eq!(run.line, 1);
}

/// A struct's inherited-protocol list renders into the cheap signature.
#[test]
fn container_signature_includes_conformances() {
    let files = [SourceFile::new(
        "main.swift",
        "struct User: Codable, Equatable {\n    let name: String\n}\n",
    )];
    let syms = list_symbols(&files);
    let user = syms.iter().find(|s| s.name == "User").unwrap();
    assert_eq!(user.signature.as_deref(), Some("User: Codable, Equatable"));
}

/// A file with a syntax error contributes no symbols, but sibling files
/// still do.
#[test]
fn a_broken_file_does_not_block_symbols_from_other_files() {
    let files = [
        SourceFile::new("bad.swift", "let = =\n"),
        SourceFile::new("good.swift", "struct Ok {}\n"),
    ];
    let syms = list_symbols(&files);
    assert_eq!(syms.len(), 1);
    assert_eq!(syms[0].name, "Ok");
}

#[test]
fn symbol_kind_names_are_swift_keywords() {
    assert_eq!(SymbolKind::TypeAlias.name(), "typealias");
    assert_eq!(SymbolKind::AssociatedType.name(), "associatedtype");
    assert_eq!(SymbolKind::Func.name(), "func");
}

#[test]
fn directives_are_descended_and_members_of_extensions_listed() {
    let files = [SourceFile::new(
        "main.swift",
        "#if DEBUG\nlet mode = 1\n#endif\nextension Int: P {\n    var twice: Int { return self * 2 }\n}\n",
    )];
    let syms = list_symbols(&files);
    let mode = syms.iter().find(|s| s.name == "mode").unwrap();
    assert_eq!(mode.kind, SymbolKind::Let);
    assert_eq!(mode.signature.as_deref(), Some("mode: Int"));
    let ext = syms.iter().find(|s| s.kind == SymbolKind::Extension).unwrap();
    assert_eq!(ext.name, "Int");
    assert_eq!(ext.signature.as_deref(), Some("Int: P"));
    let twice = syms.iter().find(|s| s.name == "twice").unwrap();
    assert_eq!(twice.container.as_deref(), Some("Int"));
    assert_eq!(twice.signature.as_deref(), Some("twice: Int"));
}

#[test]
fn a_blank_file_adds_no_symbols_to_its_neighbours() {
    let files = [SourceFile::new("blank.swift", ";\n"), SourceFile::new("a.swift", "func f() {}\n")];
    let syms = list_symbols(&files);
    assert_eq!(syms.len(), 1);
    assert_eq!(syms[0].name, "f");
    assert_eq!(syms[0].file, "a.swift");
}
