//! Lexer behaviour on concrete sources.
use tswift::lexer::{tokenize, TokenKind};
use tswift::lexer::TokenKind::{
    Colon, Comma, Dot, FloatLiteral, Identifier, IntLiteral, Keyword, LParen, Oper, Question,
    RParen, RegexLiteral, StringLiteral,
};

/// Collect (kind, text) pairs, dropping the trailing Eof, for terse asserts.
fn lex(src: &str) -> Vec<(TokenKind, &str)> {
    let toks = tokenize(src).expect("lex ok");
    assert_eq!(toks.last().unwrap().kind, TokenKind::Eof);
    toks[..toks.len() - 1]
        .iter()
        .map(|t| (t.kind, t.text))
        .collect()
}

fn kinds(src: &str) -> Vec<TokenKind> {
    lex(src).into_iter().map(|(k, _)| k).collect()
}

#[test]
fn lexes_print_string_call() {
    assert_eq!(
        lex(r#"print("hi")"#),
        vec![
            (Identifier, "print"),
            (LParen, "("),
            (StringLiteral, r#""hi""#),
            (RParen, ")"),
        ]
    );
}

#[test]
fn lexes_comma_separated_args() {
    assert_eq!(
        lex("f(a, b)"),
        vec![
            (Identifier, "f"),
            (LParen, "("),
            (Identifier, "a"),
            (Comma, ","),
            (Identifier, "b"),
            (RParen, ")"),
        ]
    );
}

#[test]
fn lexes_integer_arithmetic() {
    assert_eq!(
        lex("1 + 2"),
        vec![(IntLiteral, "1"), (Oper, "+"), (IntLiteral, "2")]
    );
}

#[test]
fn integer_radices_and_separators() {
    assert_eq!(
        lex("1_000 0xFF 0o755 0b1010_1010"),
        vec![
            (IntLiteral, "1_000"),
            (IntLiteral, "0xFF"),
            (IntLiteral, "0o755"),
            (IntLiteral, "0b1010_1010"),
        ]
    );
}

#[test]
fn float_forms() {
    assert_eq!(
        lex("3.14 1.5e3 0x1.8p1 1_000.5"),
        vec![
            (FloatLiteral, "3.14"),
            (FloatLiteral, "1.5e3"),
            (FloatLiteral, "0x1.8p1"),
            (FloatLiteral, "1_000.5"),
        ]
    );
}

#[test]
fn integer_dot_member_is_not_a_float() {
    // `1.description` and `pair.0` keep the dot as member/index access.
    assert_eq!(kinds("pair.0"), vec![Identifier, Dot, IntLiteral]);
}

#[test]
fn keywords_are_classified() {
    assert_eq!(
        lex("let x = nil"),
        vec![
            (Keyword, "let"),
            (Identifier, "x"),
            (Oper, "="),
            (Keyword, "nil"),
        ]
    );
}

#[test]
fn multi_char_operators_munch_longest() {
    assert_eq!(
        kinds("a == b && c <= d"),
        vec![Identifier, Oper, Identifier, Oper, Identifier, Oper, Identifier]
    );
    assert_eq!(lex("a..<b")[1], (Oper, "..<"));
    assert_eq!(lex("a...b")[1], (Oper, "..."));
    assert_eq!(lex("x ?? y")[1], (Oper, "??"));
    assert_eq!(lex("a === b")[1], (Oper, "==="));
    assert_eq!(lex("m &+ n")[1], (Oper, "&+"));
}

#[test]
fn ternary_question_and_colon_are_structural() {
    assert_eq!(
        kinds("a ? b : c"),
        vec![Identifier, Question, Identifier, Colon, Identifier]
    );
}

#[test]
fn line_and_block_comments_are_skipped() {
    let src = "let a = 1 // trailing\n/* block /* nested */ */ let b = 2";
    assert_eq!(
        lex(src),
        vec![
            (Keyword, "let"),
            (Identifier, "a"),
            (Oper, "="),
            (IntLiteral, "1"),
            (Keyword, "let"),
            (Identifier, "b"),
            (Oper, "="),
            (IntLiteral, "2"),
        ]
    );
}

#[test]
fn unterminated_block_comment_errors() {
    let err = tokenize("/* never closed").unwrap_err();
    assert!(err.message.contains("block comment"), "{}", err.message);
}

#[test]
fn unicode_identifiers() {
    assert_eq!(
        lex("café + 数値"),
        vec![(Identifier, "café"), (Oper, "+"), (Identifier, "数値")]
    );
}

#[test]
fn leading_newline_is_recorded() {
    let toks = tokenize("break\nfoo break outer").unwrap();
    assert!(!toks[0].leading_newline); // break
    assert!(toks[1].leading_newline); // foo, after newline
    assert!(!toks[2].leading_newline); // break, same line as foo
    assert!(!toks[3].leading_newline); // outer, same line
}

#[test]
fn empty_input_is_just_eof() {
    let toks = tokenize("").unwrap();
    assert_eq!(toks.len(), 1);
    assert_eq!(toks[0].kind, TokenKind::Eof);
}

#[test]
fn tracks_line_and_column_across_multibyte() {
    // `café` is 5 bytes but 4 columns; the next token starts at column 6.
    let toks = tokenize("café x").unwrap();
    assert_eq!((toks[0].line, toks[0].col), (1, 1));
    assert_eq!((toks[1].line, toks[1].col), (1, 6));
}

#[test]
fn string_keeps_escaped_quote() {
    assert_eq!(
        lex(r#""a\"b""#),
        vec![(TokenKind::StringLiteral, r#""a\"b""#)]
    );
}

#[test]
fn multiline_string_spans_newlines() {
    let src = "\"\"\"\n  a\n  b\n  \"\"\"";
    assert_eq!(lex(src), vec![(TokenKind::StringLiteral, src)]);
    // The token after a multiline literal keeps an accurate line number.
    let toks = tokenize("let s = \"\"\"\nx\n\"\"\"\nlet y = 1").unwrap();
    let y = toks.iter().find(|t| t.text == "y").unwrap();
    assert_eq!(y.line, 4);
}

#[test]
fn raw_string_ignores_escapes_and_inner_quotes() {
    assert_eq!(
        lex(r##"#"a "b" \n c"#"##),
        vec![(TokenKind::StringLiteral, r##"#"a "b" \n c"#"##)]
    );
    // A lone `"#` that is not the delimiter does not terminate a `##"…"##`.
    assert_eq!(
        lex(r###"##"x"# y"##"###),
        vec![(TokenKind::StringLiteral, r###"##"x"# y"##"###)]
    );
}

#[test]
fn raw_multiline_string() {
    let src = "#\"\"\"\n line \\n stays raw\n \"\"\"#";
    assert_eq!(lex(src), vec![(TokenKind::StringLiteral, src)]);
}

#[test]
fn interpolation_with_inner_quotes_stays_one_token() {
    let src = r#""value = \("inner")""#;
    assert_eq!(lex(src), vec![(TokenKind::StringLiteral, src)]);
}

#[test]
fn unterminated_string_is_an_error() {
    let err = tokenize("\"oops").unwrap_err();
    assert!(err.message.contains("unterminated"), "{}", err.message);
    assert_eq!((err.line, err.col), (1, 1));
}

#[test]
fn unexpected_character_is_an_error() {
    // A control character is neither an operator, identifier, nor structural
    // token, so it is rejected.
    let err = tokenize("\u{7}").unwrap_err();
    assert!(err.message.contains("unexpected"), "{}", err.message);
    assert_eq!(err.line, 1);
}

#[test]
fn bare_backslash_is_a_key_path_sigil() {
    // A backslash outside a string begins a key-path expression; it lexes as
    // a single operator token rather than an error.
    let toks = tokenize("\\Root.name").unwrap();
    assert_eq!(toks[0].kind, TokenKind::Oper);
    assert_eq!(toks[0].text, "\\");
}

#[test]
fn bare_regex_literal_in_expression_position() {
    assert_eq!(
        lex("let r = /\\d+/"),
        vec![
            (Keyword, "let"),
            (Identifier, "r"),
            (Oper, "="),
            (RegexLiteral, "/\\d+/"),
        ]
    );
    // After `(` and after `:` an expression is expected.
    assert_eq!(lex("f(/a/)")[2], (RegexLiteral, "/a/"));
    assert_eq!(lex("g(of: /a-z/)")[4], (RegexLiteral, "/a-z/"));
    // A `/` inside a `[…]` class does not close the literal.
    assert_eq!(lex("let r = /[/a]/")[3], (RegexLiteral, "/[/a]/"));
    // An escaped `/` does not close the literal.
    assert_eq!(lex("let r = /a\\/b/")[3], (RegexLiteral, "/a\\/b/"));
}

#[test]
fn slash_is_division_after_an_expression() {
    assert_eq!(kinds("10 / 3"), vec![IntLiteral, Oper, IntLiteral]);
    assert_eq!(kinds("a / b"), vec![Identifier, Oper, Identifier]);
    assert_eq!(kinds("x /= 2"), vec![Identifier, Oper, IntLiteral]);
    // `count) / 2` — a `/` after `)` is division, not a regex.
    assert_eq!(lex("f() / 2")[3], (Oper, "/"));
}

#[test]
fn slash_with_leading_or_trailing_space_is_not_regex() {
    // `= / x` cannot be a regex (body starts with a space): division.
    assert_eq!(lex("let r = / x /")[2], (Oper, "="));
    assert_eq!(lex("let r = / x /")[3], (Oper, "/"));
}

#[test]
fn extended_pound_regex_literal() {
    // `#/…/#` is unambiguous: inner `/` and whitespace are literal.
    assert_eq!(lex("let r = #/a\\/b/#")[3], (RegexLiteral, "#/a\\/b/#"));
    assert_eq!(lex("let r = #/ \\d+ /#")[3], (RegexLiteral, "#/ \\d+ /#"));
    // A pound-regex is recognised even right after an identifier.
    assert_eq!(lex("s.contains(#/x/#)")[4], (RegexLiteral, "#/x/#"));
}

#[test]
fn pound_regex_spans_newlines() {
    let src = "let r = #/\n  \\d+\n/#\nlet y = 1";
    let toks = tokenize(src).unwrap();
    let y = toks.iter().find(|t| t.text == "y").unwrap();
    assert_eq!(y.line, 4);
}

#[test]
fn attributes_and_directives_lex_as_single_tokens() {
    assert_eq!(
        lex("@main @available(macOS)"),
        vec![
            (TokenKind::Attribute, "@main"),
            (TokenKind::Attribute, "@available"),
            (TokenKind::LParen, "("),
            (TokenKind::Identifier, "macOS"),
            (TokenKind::RParen, ")"),
        ]
    );
    assert_eq!(
        lex("#if #file #warning"),
        vec![
            (TokenKind::Directive, "#if"),
            (TokenKind::Directive, "#file"),
            (TokenKind::Directive, "#warning"),
        ]
    );
}

#[test]
fn backtick_escapes_reserved_word_as_identifier() {
    // The inner slice (backticks stripped) is the token text, so a
    // backtick-escaped keyword is indistinguishable from a plain name.
    assert_eq!(
        lex("let `default` = `class`"),
        vec![
            (TokenKind::Keyword, "let"),
            (TokenKind::Identifier, "default"),
            (TokenKind::Oper, "="),
            (TokenKind::Identifier, "class"),
        ]
    );
}

#[test]
fn unterminated_backtick_identifier_errors() {
    assert!(tokenize("let `oops = 1").is_err());
    assert!(tokenize("let `` = 1").is_err());
}
