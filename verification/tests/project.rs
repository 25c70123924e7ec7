use tswift::project::{
    load_program, load_test_program, parse_manifest, ManifestError, ProjectError, SourceFile,
    TargetKind,
};

const MINIMAL: &str = "let package = Package(\n    name: \"Foo\",\n    targets: [\n        .executableTarget(name: \"App\"),\n    ]\n)\n";

#[test]
fn parses_minimal_manifest() {
    let m = parse_manifest(MINIMAL).unwrap();
    assert_eq!(m.name, "Foo");
    assert_eq!(m.targets.len(), 1);
    assert_eq!(m.targets[0].name, "App");
    assert_eq!(m.targets[0].kind, TargetKind::Executable);
    assert_eq!(m.targets[0].path, None);
}

#[test]
fn parses_explicit_path() {
    let src = "let package = Package(\n    name: \"Foo\",\n    targets: [\n        .executableTarget(name: \"App\", path: \"Src/App\"),\n    ]\n)\n";
    let m = parse_manifest(src).unwrap();
    assert_eq!(m.targets[0].path.as_deref(), Some("Src/App"));
}

#[test]
fn parses_multiple_targets_mixed_kinds() {
    let src = "let package = Package(\n    name: \"Foo\",\n    targets: [\n        .executableTarget(name: \"App\"),\n        .target(name: \"Core\"),\n        .testTarget(name: \"AppTests\"),\n    ]\n)\n";
    let m = parse_manifest(src).unwrap();
    assert_eq!(m.targets.len(), 3);
    assert_eq!(m.targets[0].kind, TargetKind::Executable);
    assert_eq!(m.targets[1].kind, TargetKind::Library);
    assert_eq!(
        m.targets[2].kind,
        TargetKind::Other("testTarget".to_string())
    );
    assert_eq!(m.first_executable().unwrap().name, "App");
}

#[test]
fn ignores_platforms_products_and_dependencies() {
    let src = "let package = Package(\n    name: \"Foo\",\n    platforms: [.iOS(.v13)],\n    products: [.library(name: \"Foo\", targets: [\"Core\"])],\n    dependencies: [.package(url: \"https://example.com/x\", from: \"1.0.0\")],\n    targets: [\n        .executableTarget(name: \"App\", dependencies: [\"Core\"]),\n        .target(name: \"Core\"),\n    ]\n)\n";
    let m = parse_manifest(src).unwrap();
    assert_eq!(m.name, "Foo");
    assert_eq!(m.targets.len(), 2);
}

/// A manifest that doesn't build `Package` via a literal `let package =
/// Package(...)` call is a load-bearing unsupported construct: it can't
/// be pattern-matched without executing the manifest, so it's a clear
/// error rather than a silent empty result.
#[test]
fn dynamic_manifest_is_a_clear_diagnostic() {
    let src = "func makePackage() -> Package {\n    Package(name: \"Foo\", targets: [])\n}\nlet package = makePackage()\n";
    let err = parse_manifest(src).unwrap_err();
    assert_eq!(err, ManifestError::NotAManifest);
}

#[test]
fn missing_name_is_a_clear_diagnostic() {
    let src = "let package = Package(targets: [.executableTarget(name: \"App\")])\n";
    let err = parse_manifest(src).unwrap_err();
    assert_eq!(err, ManifestError::MissingName);
}

fn sf(path: &str, source: &str) -> SourceFile {
    SourceFile::new(path, source)
}

#[test]
fn loader_derives_convention_sources_for_executable_target() {
    let files = [
        sf("Package.swift", MINIMAL),
        sf("Sources/App/main.swift", "print(1)\n"),
        sf("Sources/App/Helper.swift", "func h() {}\n"),
        sf("README.md", "# Foo\n"),
    ];
    let out = load_program(&files, None).unwrap();
    assert_eq!(
        out.iter().map(|f| f.path.as_str()).collect::<Vec<_>>(),
        vec!["Sources/App/Helper.swift", "Sources/App/main.swift"]
    );
}

#[test]
fn loader_honours_explicit_path() {
    let src = "let package = Package(\n    name: \"Foo\",\n    targets: [\n        .executableTarget(name: \"App\", path: \"Src/App\"),\n    ]\n)\n";
    let files = [
        sf("Package.swift", src),
        sf("Src/App/main.swift", "print(1)\n"),
        sf("Sources/App/main.swift", "print(2)\n"), // convention dir, should be ignored
    ];
    let out = load_program(&files, None).unwrap();
    assert_eq!(out.len(), 1);
    assert_eq!(out[0].path, "Src/App/main.swift");
}

#[test]
fn loader_selects_named_target() {
    let src = "let package = Package(\n    name: \"Foo\",\n    targets: [\n        .executableTarget(name: \"App\"),\n        .executableTarget(name: \"Tool\"),\n    ]\n)\n";
    let files = [
        sf("Package.swift", src),
        sf("Sources/App/main.swift", "print(1)\n"),
        sf("Sources/Tool/main.swift", "print(2)\n"),
    ];
    let out = load_program(&files, Some("Tool")).unwrap();
    assert_eq!(out[0].path, "Sources/Tool/main.swift");
}

#[test]
fn loader_reports_missing_target() {
    let files = [
        sf("Package.swift", MINIMAL),
        sf("Sources/App/main.swift", "print(1)\n"),
    ];
    let err = load_program(&files, Some("Nope")).unwrap_err();
    assert_eq!(err, ProjectError::TargetNotFound("Nope".to_string()));
}

#[test]
fn loader_reports_no_executable_target() {
    let src = "let package = Package(name: \"Foo\", targets: [.target(name: \"Core\")])\n";
    let files = [
        sf("Package.swift", src),
        sf("Sources/Core/lib.swift", "func f(){}\n"),
    ];
    let err = load_program(&files, None).unwrap_err();
    assert_eq!(err, ProjectError::NoExecutableTarget);
}

#[test]
fn loader_reports_unsupported_target_kind_when_requested() {
    let src =
        "let package = Package(name: \"Foo\", targets: [.testTarget(name: \"AppTests\")])\n";
    let files = [
        sf("Package.swift", src),
        sf("Tests/AppTests/T.swift", "func t(){}\n"),
    ];
    let err = load_program(&files, Some("AppTests")).unwrap_err();
    assert_eq!(
        err,
        ProjectError::UnsupportedTargetKind {
            name: "AppTests".to_string(),
            ctor: "testTarget".to_string()
        }
    );
}

#[test]
fn falls_back_to_flat_directory_mode_without_manifest() {
    let files = [
        sf("main.swift", "print(1)\n"),
        sf("Helper.swift", "func h() {}\n"),
        sf("notes.txt", "hi\n"),
    ];
    let out = load_program(&files, None).unwrap();
    assert_eq!(
        out.iter().map(|f| f.path.as_str()).collect::<Vec<_>>(),
        vec!["Helper.swift", "main.swift"]
    );
}

/// A `targets:` array element that isn't a literal `.xTarget(...)` call
/// (here a bare identifier, as a conditional/dynamic entry would also
/// desugar to something non-call-shaped) must be a hard error, never a
/// silent drop — dropping it could silently select the wrong executable
/// target.
#[test]
fn malformed_target_entry_is_a_clear_diagnostic_not_silently_dropped() {
    let src = "let package = Package(\n    name: \"Foo\",\n    targets: [\n        someTargetVar,\n    ]\n)\n";
    let err = parse_manifest(src).unwrap_err();
    assert!(matches!(err, ManifestError::MalformedTarget(_)), "{err:?}");
}

/// An unrecognized target constructor name is malformed, not silently
/// skipped.
#[test]
fn unrecognized_target_constructor_is_a_clear_diagnostic() {
    let src = "let package = Package(\n    name: \"Foo\",\n    targets: [\n        .customTarget(name: \"X\"),\n    ]\n)\n";
    let err = parse_manifest(src).unwrap_err();
    assert!(matches!(err, ManifestError::MalformedTarget(_)), "{err:?}");
}

/// A target entry missing a literal `name:` is malformed, not silently
/// skipped.
#[test]
fn target_entry_missing_name_is_a_clear_diagnostic() {
    let src = "let package = Package(\n    name: \"Foo\",\n    targets: [\n        .executableTarget(path: \"Foo\"),\n    ]\n)\n";
    let err = parse_manifest(src).unwrap_err();
    assert!(matches!(err, ManifestError::MalformedTarget(_)), "{err:?}");
}

#[test]
fn loader_honours_explicit_sources_list() {
    let src = "let package = Package(\n    name: \"Foo\",\n    targets: [\n        .executableTarget(name: \"App\", sources: [\"main.swift\"]),\n    ]\n)\n";
    let files = [
        sf("Package.swift", src),
        sf("Sources/App/main.swift", "print(1)\n"),
        // Present on disk but NOT named in `sources:` — must be excluded.
        sf("Sources/App/Helper.swift", "func h() {}\n"),
    ];
    let out = load_program(&files, None).unwrap();
    assert_eq!(
        out.iter().map(|f| f.path.as_str()).collect::<Vec<_>>(),
        vec!["Sources/App/main.swift"]
    );
}

#[test]
fn loader_reports_missing_explicit_source_file() {
    let src = "let package = Package(\n    name: \"Foo\",\n    targets: [\n        .executableTarget(name: \"App\", sources: [\"main.swift\", \"Missing.swift\"]),\n    ]\n)\n";
    let files = [
        sf("Package.swift", src),
        sf("Sources/App/main.swift", "print(1)\n"),
    ];
    let err = load_program(&files, None).unwrap_err();
    assert_eq!(
        err,
        ProjectError::MissingSourceFile {
            target: "App".to_string(),
            path: "Sources/App/Missing.swift".to_string()
        }
    );
}

#[test]
fn parses_target_dependencies() {
    let src = "let package = Package(\n    name: \"Foo\",\n    targets: [\n        .executableTarget(name: \"App\", dependencies: [\"Core\", .target(name: \"Utils\")]),\n    ]\n)\n";
    let m = parse_manifest(src).unwrap();
    assert_eq!(
        m.targets[0].dependencies,
        vec!["Core".to_string(), "Utils".to_string()]
    );
}

fn test_project() -> Vec<SourceFile> {
    let src = "let package = Package(\n    name: \"Foo\",\n    targets: [\n        .executableTarget(name: \"App\", dependencies: [\"Core\"]),\n        .target(name: \"Core\"),\n        .testTarget(name: \"AppTests\", dependencies: [\"Core\"]),\n    ]\n)\n";
    vec![
        sf("Package.swift", src),
        sf("Sources/App/main.swift", "print(1)\n"),
        sf("Sources/Core/lib.swift", "func h() -> Int { 1 }\n"),
        sf(
            "Tests/AppTests/T.swift",
            "@Test func t() { #expect(h() == 1) }\n",
        ),
    ]
}

#[test]
fn load_test_program_selects_all_test_targets_by_default() {
    let files = test_project();
    let programs = load_test_program(&files, None).unwrap();
    assert_eq!(programs.len(), 1);
    assert_eq!(programs[0].target, "AppTests");
}

#[test]
fn load_test_program_concatenates_dependency_sources() {
    let files = test_project();
    let programs = load_test_program(&files, None).unwrap();
    let paths: Vec<&str> = programs[0].files.iter().map(|f| f.path.as_str()).collect();
    assert_eq!(
        paths,
        vec!["Sources/Core/lib.swift", "Tests/AppTests/T.swift"]
    );
}

#[test]
fn load_test_program_selects_named_target() {
    let files = test_project();
    let programs = load_test_program(&files, Some("AppTests")).unwrap();
    assert_eq!(programs.len(), 1);
    assert_eq!(programs[0].target, "AppTests");
}

#[test]
fn load_test_program_rejects_non_test_target_by_name() {
    let files = test_project();
    let err = load_test_program(&files, Some("App")).unwrap_err();
    assert_eq!(
        err,
        ProjectError::UnsupportedTargetKind {
            name: "App".to_string(),
            ctor: "executableTarget".to_string()
        }
    );
}

#[test]
fn load_test_program_reports_no_test_targets() {
    let src =
        "let package = Package(name: \"Foo\", targets: [.executableTarget(name: \"App\")])\n";
    let files = [
        sf("Package.swift", src),
        sf("Sources/App/main.swift", "print(1)\n"),
    ];
    let err = load_test_program(&files, None).unwrap_err();
    assert_eq!(err, ProjectError::NoExecutableTarget);
}

/// A test target's dependency chain is resolved transitively: `AppTests`
/// depends on `Core`, `Core` depends on `Base` (not on `AppTests`
/// directly) — `Base`'s sources must still land in the test unit (BFS/DFS
/// over the dependency graph, not a single hop).
#[test]
fn load_test_program_resolves_transitive_dependencies() {
    let src = "let package = Package(\n    name: \"Foo\",\n    targets: [\n        .target(name: \"Base\"),\n        .target(name: \"Core\", dependencies: [\"Base\"]),\n        .testTarget(name: \"AppTests\", dependencies: [\"Core\"]),\n    ]\n)\n";
    let files = [
        sf("Package.swift", src),
        sf("Sources/Base/base.swift", "func base() -> Int { 1 }\n"),
        sf("Sources/Core/core.swift", "func core() -> Int { base() }\n"),
        sf(
            "Tests/AppTests/T.swift",
            "@Test func t() { #expect(core() == 1) }\n",
        ),
    ];
    let programs = load_test_program(&files, None).unwrap();
    assert_eq!(programs.len(), 1);
    let paths: Vec<&str> = programs[0].files.iter().map(|f| f.path.as_str()).collect();
    assert_eq!(
        paths,
        vec![
            "Sources/Base/base.swift",
            "Sources/Core/core.swift",
            "Tests/AppTests/T.swift"
        ]
    );
}

/// A dependency cycle (`A -> B -> A`) must not hang or blow the stack —
/// each target's sources are still included exactly once.
#[test]
fn load_test_program_tolerates_dependency_cycle() {
    let src = "let package = Package(\n    name: \"Foo\",\n    targets: [\n        .target(name: \"A\", dependencies: [\"B\"]),\n        .target(name: \"B\", dependencies: [\"A\"]),\n        .testTarget(name: \"AppTests\", dependencies: [\"A\"]),\n    ]\n)\n";
    let files = [
        sf("Package.swift", src),
        sf("Sources/A/a.swift", "func a() {}\n"),
        sf("Sources/B/b.swift", "func b() {}\n"),
        sf("Tests/AppTests/T.swift", "@Test func t() { a() }\n"),
    ];
    let programs = load_test_program(&files, None).unwrap();
    let paths: Vec<&str> = programs[0].files.iter().map(|f| f.path.as_str()).collect();
    assert_eq!(
        paths,
        vec![
            "Sources/A/a.swift",
            "Sources/B/b.swift",
            "Tests/AppTests/T.swift"
        ]
    );
}

#[test]
fn loader_honours_exclude_list() {
    let src = "let package = Package(\n    name: \"Foo\",\n    targets: [\n        .executableTarget(name: \"App\", exclude: [\"Extra\", \"Skip.swift\"]),\n    ]\n)\n";
    let files = [
        sf("Package.swift", src),
        sf("Sources/App/main.swift", "print(1)\n"),
        sf("Sources/App/Skip.swift", "func skip() {}\n"),
        sf("Sources/App/Extra/Nested.swift", "func n() {}\n"),
        // Must NOT be excluded by a prefix-match on "Extra" as a
        // substring — exclude entries are path-segment-bounded.
        sf("Sources/App/ExtraFile.swift", "func e() {}\n"),
    ];
    let out = load_program(&files, None).unwrap();
    assert_eq!(
        out.iter().map(|f| f.path.as_str()).collect::<Vec<_>>(),
        vec!["Sources/App/ExtraFile.swift", "Sources/App/main.swift"]
    );
}

#[test]
fn error_messages_read_as_the_cli_prints_them() {
    assert_eq!(
        ManifestError::MissingName.message(),
        "Package.swift: `Package(...)` is missing a literal `name:` argument"
    );
    assert_eq!(
        ManifestError::MalformedTarget("is odd".to_string()).message(),
        "Package.swift: `targets:` entry is odd"
    );
    assert_eq!(
        ProjectError::TargetNotFound("Nope".to_string()).message(),
        "Package.swift declares no target named `Nope`"
    );
    assert_eq!(
        ProjectError::UnsupportedTargetKind { name: "T".to_string(), ctor: "testTarget".to_string() }.message(),
        "target `T` is a `.testTarget`, which tswift cannot run"
    );
    assert_eq!(
        ProjectError::Manifest(ManifestError::SyntaxError("bad".to_string())).message(),
        "Package.swift: bad"
    );
    assert_eq!(ProjectError::NoSwiftFiles.message(), "no `.swift` files found");
}

#[test]
fn an_empty_or_atom_only_file_is_not_a_manifest() {
    assert_eq!(parse_manifest(""), Err(ManifestError::NotAManifest));
    assert_eq!(parse_manifest(";\n;\n"), Err(ManifestError::NotAManifest));
    assert!(parse_manifest("package\n42\n").is_err());
    assert!(parse_manifest("Package(name: \"Foo\")\n").is_err());
}

#[test]
fn a_blank_package_manifest_is_reported_as_not_a_manifest() {
    let files = [SourceFile::new("Package.swift", ";\n"), SourceFile::new("Sources/App/main.swift", "print(1)\n")];
    assert!(matches!(load_program(&files, None), Err(ProjectError::Manifest(ManifestError::NotAManifest))));
    assert!(matches!(load_test_program(&files, None), Err(ProjectError::Manifest(ManifestError::NotAManifest))));
}
