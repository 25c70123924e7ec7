//! A pure-Rust Swift lexer.
//!
//! [`tokenize`] turns Swift source into a flat, zero-copy [`Token`] stream:
//! each token borrows its lexeme directly from the source and carries its
//! 1-based line/column. Its result is exactly [`spec_tokenize`] of the
//! source's scalars.
//!
//! Coverage spans integer literals in every radix (with `_` separators),
//! floating-point literals (decimal and hex), the full operator set, string
//! literals (single-line, multiline `"""`, and raw `#"…"#`, with escapes and
//! `\(…)` interpolation), regex literals (`/…/` and extended `#/…/#`, with
//! `/`-vs-division disambiguation), line/block/nested comments, and unicode
//! identifiers. Keywords are lexed as [`TokenKind::Keyword`].
use vstd::prelude::*;
use crate::lex_spec::{
    is_ascii_ch, lexable, is_ascii_digit_ch, is_hex_digit_ch, is_ident_start_ch, is_ident_continue_ch, is_pure_operator_ch, is_unicode_operator_ch, is_at, run_of, line_at, col_at, lemma_line_col_bounds, line_comment_end, block_comment_end, trivia_end, DigitClass, in_digit_class, digit_run_end, directive_run_end, continues_identifier, ident_run_end, continues_operator, operator_run_end, hash_count, sign_and_digits_end, number_end, bare_regex_body_end, bare_regex_end, pound_regex_body_end, pound_regex_end, at_closing_delimiter, at_interpolation, nested_string_end, interpolation_end, StringFailure, string_body_end, triple_quote_at, string_end, is_raw_string_start, is_table_op3, is_table_op2, is_table_op1, table_op_len, operator_len, is_keyword_text, regex_allowed_after, punctuation_kind, string_scanned, LexFailure, failure_message, Scanned, scan_token, SpecToken, SpecLexError, error_at, token_at, lex_from, spec_tokenize, lemma_scan_token_not_eof,
};
use crate::text::{chars_of, chars_match, char_debug_string, str_same};

verus! {

/// The lexical category of a [`Token`].
#[derive(Debug, Clone, Copy, PartialEq, Eq, Structural)]
pub enum TokenKind {
    /// An identifier, e.g. `print`, `café`, `_x1`.
    Identifier,
    /// A reserved word, e.g. `let`, `var`, `if`, `true`, `nil`.
    Keyword,
    /// An integer literal in any radix, e.g. `42`, `0xFF`, `0b1010`, `1_000`.
    IntLiteral,
    /// A floating-point literal, e.g. `3.14`, `1.5e3`, `0x1.8p1`.
    FloatLiteral,
    /// A double-quoted string literal *including* its quotes, e.g. `"hi"`.
    StringLiteral,
    /// A regex literal *including* its delimiters, e.g. `/\d+/` or `#/a\/b/#`.
    RegexLiteral,
    /// `(`
    LParen,
    /// `)`
    RParen,
    /// `{`
    LBrace,
    /// `}`
    RBrace,
    /// `[`
    LBracket,
    /// `]`
    RBracket,
    /// `,`
    Comma,
    /// `:`
    Colon,
    /// `;`
    Semicolon,
    /// `.` (member access / tuple index; range operators lex as [`TokenKind::Oper`]).
    Dot,
    /// `?` (ternary / optional; `??` lexes as [`TokenKind::Oper`]).
    Question,
    /// Any operator lexeme (`+`, `==`, `&&`, `..<`, `->`, `&+`, …).
    Oper,
    /// An attribute, e.g. `@main` (text includes the `@`).
    Attribute,
    /// A compiler directive, e.g. `#if`, `#file` (text includes the `#`).
    Directive,
    /// End of input. Always the final token of a [`tokenize`] result.
    Eof,
}

/// One lexical token: its kind, the exact source slice it spans, and the
/// 1-based line/column of its first character.
#[derive(Debug, Clone, Copy, PartialEq, Eq)]
pub struct Token<'a> {
    pub kind: TokenKind,
    /// The verbatim source text of the token. Empty for [`TokenKind::Eof`].
    pub text: &'a str,
    /// 1-based source line of the token's first character.
    pub line: u32,
    /// 1-based source column of the token's first character.
    pub col: u32,
    /// Whether a newline was consumed between the previous token and this one.
    pub leading_newline: bool,
}

impl<'a> View for Token<'a> {
    type V = SpecToken;

    open spec fn view(&self) -> SpecToken {
        SpecToken {
            kind: self.kind,
            text: self.text@,
            line: self.line as int,
            col: self.col as int,
            leading_newline: self.leading_newline,
        }
    }
}

/// An error produced while lexing, with the location it was detected.
#[derive(Debug, Clone, PartialEq, Eq)]
pub struct LexError {
    pub message: String,
    pub line: u32,
    pub col: u32,
}

impl View for LexError {
    type V = SpecLexError;

    open spec fn view(&self) -> SpecLexError {
        SpecLexError { message: self.message@, line: self.line as int, col: self.col as int }
    }
}

/// The views of a token vector.
pub open spec fn tokens_view<'a>(v: Seq<Token<'a>>) -> Seq<SpecToken> {
    v.map_values(|t: Token<'a>| t@)
}

/// `a` followed by whatever `r` lexes, or `r`'s error.
pub open spec fn prepend(a: Seq<SpecToken>, r: Result<Seq<SpecToken>, SpecLexError>) -> Result<
    Seq<SpecToken>,
    SpecLexError,
> {
    match r {
        Ok(rest) => Ok(a + rest),
        Err(e) => Err(e),
    }
}

// ------------------------------------------------------------ scalar classes

fn is_ascii_digit(c: char) -> (r: bool)
    ensures
        r == is_ascii_digit_ch(c),
{
    c >= '0' && c <= '9'
}

fn is_hex_digit(c: char) -> (r: bool)
    ensures
        r == is_hex_digit_ch(c),
{
    (c >= '0' && c <= '9') || (c >= 'a' && c <= 'f') || (c >= 'A' && c <= 'F')
}

fn is_ascii_scalar(c: char) -> (r: bool)
    ensures
        r == is_ascii_ch(c),
{
    (c as u32) < 0x80
}

fn is_ident_start(c: char) -> (r: bool)
    ensures
        r == is_ident_start_ch(c),
{
    c == '_' || c == '$' || (c >= 'a' && c <= 'z') || (c >= 'A' && c <= 'Z') || (c as u32) >= 0x80
}

fn is_ident_continue(c: char) -> (r: bool)
    ensures
        r == is_ident_continue_ch(c),
{
    is_ident_start(c) || is_ascii_digit(c)
}

fn is_pure_operator_char(c: char) -> (r: bool)
    ensures
        r == is_pure_operator_ch(c),
{
    c == '+' || c == '-' || c == '*' || c == '/' || c == '%' || c == '<' || c == '>' || c == '='
        || c == '!' || c == '&' || c == '|' || c == '^' || c == '~'
}

/// Whether a non-ASCII scalar is a Swift operator character (operator-head
/// unicode ranges — math symbols, arrows, dingbats, …).
fn is_unicode_operator_scalar(c: char) -> (r: bool)
    ensures
        r == is_unicode_operator_ch(c),
{
    let u = c as u32;
    (0x00A1 <= u && u <= 0x00A7) || u == 0x00A9 || u == 0x00AB || u == 0x00AC || u == 0x00AE || (
    0x00B0 <= u && u <= 0x00B1) || u == 0x00B6 || u == 0x00BB || u == 0x00BF || u == 0x00D7 || u
        == 0x00F7 || (0x2016 <= u && u <= 0x2017) || (0x2020 <= u && u <= 0x2027) || (0x2030 <= u
        && u <= 0x203E) || (0x2041 <= u && u <= 0x2053) || (0x2055 <= u && u <= 0x205E) || (0x2190
        <= u && u <= 0x23FF) || (0x2500 <= u && u <= 0x2775) || (0x2794 <= u && u <= 0x2BFF) || (
    0x2E00 <= u && u <= 0x2E7F) || (0x3001 <= u && u <= 0x3003) || (0x3008 <= u && u <= 0x3020)
        || u == 0x3030
}

fn in_class(cls: DigitClass, c: char) -> (r: bool)
    ensures
        r == in_digit_class(cls, c),
{
    match cls {
        DigitClass::Decimal => is_ascii_digit(c) || c == '_',
        DigitClass::Hex => is_hex_digit(c) || c == '_',
        DigitClass::Octal => (c >= '0' && c <= '7') || c == '_',
        DigitClass::Binary => c == '0' || c == '1' || c == '_',
    }
}

/// Whether `s[i]` exists and is `c`.
fn char_is(s: &Vec<char>, i: usize, c: char) -> (r: bool)
    ensures
        r == is_at(s@, i as int, c),
{
    i < s.len() && s[i] == c
}

// ------------------------------------------------------------ runs

fn digit_run(s: &Vec<char>, i: usize, cls: DigitClass) -> (r: usize)
    requires
        lexable(s@),
        i <= s@.len(),
    ensures
        r == digit_run_end(s@, i as int, cls),
        i <= r <= s@.len(),
        i < s@.len() && in_digit_class(cls, s@[i as int]) ==> i < r,
{
    let mut j = i;
    while j < s.len() && in_class(cls, s[j])
        invariant
            lexable(s@),
            i <= j <= s@.len(),
            digit_run_end(s@, j as int, cls) == digit_run_end(s@, i as int, cls),
        decreases s@.len() - j,
    {
        j += 1;
    }
    j
}

fn directive_run(s: &Vec<char>, i: usize) -> (r: usize)
    requires
        lexable(s@),
        i <= s@.len(),
    ensures
        r == directive_run_end(s@, i as int),
        i <= r <= s@.len(),
{
    let mut j = i;
    while j < s.len() && is_ident_continue(s[j])
        invariant
            lexable(s@),
            i <= j <= s@.len(),
            directive_run_end(s@, j as int) == directive_run_end(s@, i as int),
        decreases s@.len() - j,
    {
        j += 1;
    }
    j
}

fn continues_ident(c: char) -> (r: bool)
    ensures
        r == continues_identifier(c),
{
    if is_ascii_scalar(c) {
        is_ident_continue(c)
    } else {
        !is_unicode_operator_scalar(c)
    }
}

fn ident_run(s: &Vec<char>, i: usize) -> (r: usize)
    requires
        lexable(s@),
        i <= s@.len(),
    ensures
        r == ident_run_end(s@, i as int),
        i <= r <= s@.len(),
        i < s@.len() && continues_identifier(s@[i as int]) ==> i < r,
{
    let mut j = i;
    while j < s.len() && continues_ident(s[j])
        invariant
            lexable(s@),
            i <= j <= s@.len(),
            ident_run_end(s@, j as int) == ident_run_end(s@, i as int),
        decreases s@.len() - j,
    {
        j += 1;
    }
    j
}

fn continues_oper(c: char) -> (r: bool)
    ensures
        r == continues_operator(c),
{
    if is_ascii_scalar(c) {
        is_pure_operator_char(c)
    } else {
        is_unicode_operator_scalar(c)
    }
}

fn operator_run(s: &Vec<char>, i: usize) -> (r: usize)
    requires
        lexable(s@),
        i <= s@.len(),
    ensures
        r == operator_run_end(s@, i as int),
        i <= r <= s@.len(),
{
    let mut j = i;
    while j < s.len() && continues_oper(s[j])
        invariant
            lexable(s@),
            i <= j <= s@.len(),
            operator_run_end(s@, j as int) == operator_run_end(s@, i as int),
        decreases s@.len() - j,
    {
        j += 1;
    }
    j
}

/// Number of consecutive `#` at `i`.
fn leading_hashes(s: &Vec<char>, i: usize) -> (r: usize)
    requires
        lexable(s@),
        i <= s@.len(),
    ensures
        r == hash_count(s@, i as int),
        i + r <= s@.len(),
{
    let mut j = i;
    while j < s.len() && s[j] == '#'
        invariant
            lexable(s@),
            i <= j <= s@.len(),
            hash_count(s@, i as int) == (j - i) + hash_count(s@, j as int),
        decreases s@.len() - j,
    {
        j += 1;
    }
    j - i
}

/// Whether `n` copies of `c` stand at `j`.
fn run_at(s: &Vec<char>, j: usize, n: usize, c: char) -> (r: bool)
    ensures
        r == run_of(s@, j as int, n as int, c),
        r && n > 0 ==> j + n <= s@.len(),
{
    let mut t: usize = 0;
    while t < n
        invariant
            t <= n,
            forall|u: int| 0 <= u < t ==> #[trigger] is_at(s@, j + u, c),
        decreases n - t,
    {
        if j >= s.len() || t >= s.len() - j || s[j + t] != c {
            assert(!is_at(s@, j + t, c));
            return false;
        }
        t += 1;
    }
    assert(n > 0 ==> j + n <= s@.len()) by {
        if n > 0 {
            assert(is_at(s@, j + (n - 1), c));
        }
    }
    true
}

// ------------------------------------------------------------ trivia

fn line_comment(s: &Vec<char>, i: usize) -> (r: usize)
    requires
        lexable(s@),
        i <= s@.len(),
    ensures
        r == line_comment_end(s@, i as int),
        i <= r <= s@.len(),
{
    let mut j = i;
    while j < s.len() && s[j] != '\n'
        invariant
            lexable(s@),
            i <= j <= s@.len(),
            line_comment_end(s@, j as int) == line_comment_end(s@, i as int),
        decreases s@.len() - j,
    {
        j += 1;
    }
    j
}

/// Consume a `/* ... */` comment body from `i` (just past the opening `/*`),
/// honouring nesting. Returns the end and whether it spanned a newline.
fn block_comment(s: &Vec<char>, i: usize) -> (r: Option<(usize, bool)>)
    requires
        lexable(s@),
        2 <= i <= s@.len(),
    ensures
        match r {
            Some((e, nl)) => block_comment_end(s@, i as int, 1) == Some((e as int, nl)) && i <= e
                <= s@.len(),
            None => block_comment_end(s@, i as int, 1) is None,
        },
{
    let mut j = i;
    let mut depth: usize = 1;
    let mut nl = false;
    let ghost target = block_comment_end(s@, i as int, 1);
    loop
        invariant
            lexable(s@),
            i <= j <= s@.len(),
            1 <= depth <= j,
            target == block_comment_end(s@, i as int, 1),
            match block_comment_end(s@, j as int, depth as int) {
                Some((e, n)) => target == Some((e, nl || n)),
                None => target is None,
            },
        decreases s@.len() - j,
    {
        if j >= s.len() {
            return None;
        }
        let c = s[j];
        if c == '\n' {
            nl = true;
            j += 1;
        } else if c == '/' && char_is(s, j + 1, '*') {
            j += 2;
            depth += 1;
        } else if c == '*' && char_is(s, j + 1, '/') {
            if depth <= 1 {
                return Some((j + 2, nl));
            }
            j += 2;
            depth -= 1;
        } else {
            j += 1;
        }
    }
}

/// Skip whitespace, line comments (`//`), and nested block comments from `i`:
/// the first position of real syntax and whether a newline was skipped, or
/// the start of an unterminated block comment.
fn trivia(s: &Vec<char>, i: usize) -> (r: Result<(usize, bool), usize>)
    requires
        lexable(s@),
        i <= s@.len(),
    ensures
        match r {
            Ok((e, nl)) => trivia_end(s@, i as int) == Ok::<(int, bool), int>((e as int, nl)) && i
                <= e <= s@.len(),
            Err(p) => trivia_end(s@, i as int) == Err::<(int, bool), int>(p as int) && i <= p
                < s@.len(),
        },
{
    let mut j = i;
    let mut nl = false;
    let ghost target = trivia_end(s@, i as int);
    loop
        invariant
            lexable(s@),
            i <= j <= s@.len(),
            target == trivia_end(s@, i as int),
            match trivia_end(s@, j as int) {
                Ok((e, n)) => target == Ok::<(int, bool), int>((e, nl || n)),
                Err(p) => target == Err::<(int, bool), int>(p),
            },
        decreases s@.len() - j,
    {
        if j >= s.len() {
            return Ok((j, nl));
        }
        let c = s[j];
        if c == '\n' {
            nl = true;
            j += 1;
        } else if c == ' ' || c == '\t' || c == '\r' {
            j += 1;
        } else if c == '/' && char_is(s, j + 1, '/') {
            j = line_comment(s, j + 2);
        } else if c == '/' && char_is(s, j + 1, '*') {
            match block_comment(s, j + 2) {
                Some((e, n)) => {
                    nl = nl || n;
                    j = e;
                },
                None => {
                    return Err(j);
                },
            }
        } else {
            return Ok((j, nl));
        }
    }
}

// ------------------------------------------------------------ literals

fn sign_and_digits(s: &Vec<char>, i: usize) -> (r: usize)
    requires
        lexable(s@),
        i <= s@.len(),
    ensures
        r == sign_and_digits_end(s@, i as int),
        i <= r <= s@.len(),
{
    if char_is(s, i, '+') || char_is(s, i, '-') {
        digit_run(s, i + 1, DigitClass::Decimal)
    } else {
        digit_run(s, i, DigitClass::Decimal)
    }
}

/// Scan a numeric literal beginning at the digit `i`: its end and whether it
/// is a float. Handles `0x`/`0o`/`0b` radices, `_` separators, a fractional
/// part, and decimal/binary (`e`/`p`) exponents.
fn number(s: &Vec<char>, i: usize) -> (r: (usize, bool))
    requires
        lexable(s@),
        i < s@.len(),
        is_ascii_digit_ch(s@[i as int]),
    ensures
        (r.0 as int, r.1) == number_end(s@, i as int),
        i < r.0 <= s@.len(),
{
    if char_is(s, i, '0') && (char_is(s, i + 1, 'x') || char_is(s, i + 1, 'X')) {
        let a = digit_run(s, i + 2, DigitClass::Hex);
        let frac = char_is(s, a, '.') && a + 1 < s.len() && is_hex_digit(s[a + 1]);
        let b = if frac {
            digit_run(s, a + 1, DigitClass::Hex)
        } else {
            a
        };
        let exp = char_is(s, b, 'p') || char_is(s, b, 'P');
        let e = if exp {
            sign_and_digits(s, b + 1)
        } else {
            b
        };
        (e, frac || exp)
    } else if char_is(s, i, '0') && (char_is(s, i + 1, 'o') || char_is(s, i + 1, 'O')) {
        (digit_run(s, i + 2, DigitClass::Octal), false)
    } else if char_is(s, i, '0') && (char_is(s, i + 1, 'b') || char_is(s, i + 1, 'B')) {
        (digit_run(s, i + 2, DigitClass::Binary), false)
    } else {
        let a = digit_run(s, i, DigitClass::Decimal);
        let frac = char_is(s, a, '.') && a + 1 < s.len() && is_ascii_digit(s[a + 1]);
        let b = if frac {
            digit_run(s, a + 1, DigitClass::Decimal)
        } else {
            a
        };
        let exp = char_is(s, b, 'e') || char_is(s, b, 'E');
        let e = if exp {
            sign_and_digits(s, b + 1)
        } else {
            b
        };
        (e, frac || exp)
    }
}

/// The end of a bare `/…/` regex literal at `i` (delimiters included), or
/// `None` if no valid literal is present so `/` should lex as an operator.
///
/// The body may not begin with a space/tab, may not be empty, may not span a
/// newline, and its closing `/` may not be preceded by a space. `\` escapes
/// the next scalar and `/` inside a `[…]` class is literal.
fn bare_regex(s: &Vec<char>, i: usize) -> (r: Option<usize>)
    requires
        lexable(s@),
        i < s@.len(),
    ensures
        match r {
            Some(e) => bare_regex_end(s@, i as int) == Some(e as int) && i < e <= s@.len(),
            None => bare_regex_end(s@, i as int) is None,
        },
{
    let mut j = i + 1;
    if j >= s.len() {
        return None;
    }
    let first = s[j];
    if first == ' ' || first == '\t' || first == '/' || first == '\n' || first == '\r' {
        return None;
    }
    let mut in_cls = false;
    while j < s.len()
        invariant
            lexable(s@),
            i + 1 <= j,
            bare_regex_body_end(s@, j as int, in_cls) == bare_regex_end(s@, i as int),
        decreases s@.len() - j,
    {
        let c = s[j];
        if c == '\\' {
            if j + 1 >= s.len() || s[j + 1] == '\n' {
                return None;
            }
            j += 2;
        } else if c == '\n' {
            return None;
        } else if c == '[' {
            in_cls = true;
            j += 1;
        } else if c == ']' && in_cls {
            in_cls = false;
            j += 1;
        } else if c == '/' && !in_cls {
            if s[j - 1] == ' ' || s[j - 1] == '\t' {
                return None;
            }
            return Some(j + 1);
        } else {
            j += 1;
        }
    }
    None
}

/// The end of an extended `#/…/#` regex literal at `i`, or `None` if the
/// cursor is not at one. Any number of leading `#` is allowed; the body
/// extends to a matching `/#*` and may contain newlines and whitespace.
fn pound_regex(s: &Vec<char>, i: usize) -> (r: Option<usize>)
    requires
        lexable(s@),
        i < s@.len(),
    ensures
        match r {
            Some(e) => pound_regex_end(s@, i as int) == Some(e as int) && i < e <= s@.len(),
            None => pound_regex_end(s@, i as int) is None,
        },
{
    let h = leading_hashes(s, i);
    if h == 0 || !char_is(s, i + h, '/') {
        return None;
    }
    let mut j = i + h + 1;
    while j < s.len()
        invariant
            lexable(s@),
            i + h + 1 <= j,
            i + h < s@.len(),
            h == hash_count(s@, i as int),
            h > 0,
            pound_regex_body_end(s@, j as int, h as int) == pound_regex_end(s@, i as int),
        decreases s@.len() - j,
    {
        let c = s[j];
        if c == '\\' {
            if j + 2 > s.len() {
                return None;
            }
            j += 2;
        } else if c == '/' && run_at(s, j + 1, h, '#') {
            proof {
                assert forall|t: int| 0 <= t < h implies #[trigger] is_at(s@, j + 1 + t, '#') by {
                    assert(is_at(s@, j + 1 + t, '#'));
                }
            }
            assert(j + 1 + h <= s@.len()) by {
                if h > 0 {
                    assert(is_at(s@, j + 1 + (h - 1), '#'));
                }
            }
            return Some(j + 1 + h);
        } else {
            j += 1;
        }
    }
    None
}

/// Whether `s` begins a raw string literal at `i`: hashes then a `"`.
fn raw_string_start(s: &Vec<char>, i: usize) -> (r: bool)
    requires
        lexable(s@),
        i <= s@.len(),
    ensures
        r == is_raw_string_start(s@, i as int),
{
    let h = leading_hashes(s, i);
    h > 0 && char_is(s, i + h, '"')
}

/// Skip a simple string nested inside an interpolation, opened just before
/// `j`, so its contents are not mistaken for the enclosing delimiters.
fn nested_string(s: &Vec<char>, j: usize) -> (r: usize)
    requires
        lexable(s@),
        j <= s@.len(),
    ensures
        r == nested_string_end(s@, j as int),
        j <= r <= s@.len(),
{
    let mut k = j;
    while k < s.len()
        invariant
            lexable(s@),
            j <= k <= s@.len(),
            nested_string_end(s@, k as int) == nested_string_end(s@, j as int),
        decreases s@.len() - k,
    {
        let c = s[k];
        if c == '"' {
            return k + 1;
        } else if c == '\\' {
            if k + 1 < s.len() {
                k += 2;
            } else {
                return k + 1;
            }
        } else if c == '\n' {
            return k;
        } else {
            k += 1;
        }
    }
    k
}

/// Consume a `\(…)` interpolation body from `j` (just past its `(`), skipping
/// the balanced parenthesised group and any nested string literals inside.
fn interpolation(s: &Vec<char>, j: usize) -> (r: Option<usize>)
    requires
        lexable(s@),
        j <= s@.len(),
    ensures
        match r {
            Some(e) => interpolation_end(s@, j as int, 1) == Some(e as int) && j < e <= s@.len(),
            None => interpolation_end(s@, j as int, 1) is None,
        },
{
    let mut k = j;
    let mut depth: usize = 1;
    while k < s.len()
        invariant
            lexable(s@),
            j <= k <= s@.len(),
            1 <= depth <= k + 1,
            interpolation_end(s@, k as int, depth as int) == interpolation_end(s@, j as int, 1),
        decreases s@.len() - k,
    {
        let c = s[k];
        if c == '(' {
            depth += 1;
            k += 1;
        } else if c == ')' {
            if depth <= 1 {
                return Some(k + 1);
            }
            depth -= 1;
            k += 1;
        } else if c == '"' {
            let e = nested_string(s, k + 1);
            k = e;
        } else {
            k += 1;
        }
    }
    None
}

/// Lex a string literal of any flavour — single-line, multiline (`"""`), and
/// raw (`#"…"#`), possibly combined — opening at `i`. The token spans the
/// full literal including its delimiters; escapes and `\(…)` interpolation
/// are decoded downstream.
fn string(s: &Vec<char>, i: usize) -> (r: Result<usize, StringFailure>)
    requires
        lexable(s@),
        i < s@.len(),
    ensures
        match r {
            Ok(e) => string_end(s@, i as int) == Ok::<int, StringFailure>(e as int) && i < e
                <= s@.len(),
            Err(f) => string_end(s@, i as int) == Err::<int, StringFailure>(f),
        },
{
    let h = leading_hashes(s, i);
    let multiline = run_at(s, i + h, 3, '"');
    let q: usize = if multiline {
        3
    } else {
        1
    };
    if i + h + q > s.len() {
        // Only reachable when the opening quote is missing, which the
        // callers rule out; the scan then finds no closing delimiter.
        assert(string_body_end(s@, (i + h + q) as int, q as int, h as int) == Err::<
            int,
            StringFailure,
        >(StringFailure::Unterminated));
        return Err(StringFailure::Unterminated);
    }
    let mut j = i + h + q;
    while j < s.len()
        invariant
            lexable(s@),
            i < j,
            h == hash_count(s@, i as int),
            q == 1 || q == 3,
            multiline == (q == 3),
            string_body_end(s@, j as int, q as int, h as int) == string_end(s@, i as int),
        decreases s@.len() - j,
    {
        let c = s[j];
        if c == '"' && closing_delimiter(s, j, q, h) {
            assert(j + q + h <= s@.len()) by {
                assert(is_at(s@, j + (q - 1), '"'));
                if h > 0 {
                    assert(is_at(s@, j + q + (h - 1), '#'));
                }
            }
            return Ok(j + q + h);
        } else if c == '\\' && interpolation_at(s, j, h) {
            assert(j + h + 1 < s@.len()) by {
                assert(is_at(s@, j + 1 + h, '('));
            }
            match interpolation(s, j + h + 2) {
                Some(k) => {
                    j = k;
                },
                None => {
                    return Err(StringFailure::UnterminatedInterpolation);
                },
            }
        } else if c == '\\' && h == 0 {
            if j + 1 < s.len() {
                j += 2;
            } else {
                j += 1;
            }
        } else if c == '\n' && !multiline {
            return Err(StringFailure::Unterminated);
        } else {
            j += 1;
        }
    }
    Err(StringFailure::Unterminated)
}

/// Whether `j` is at the literal's closing delimiter: `q` quotes followed by
/// exactly `h` hashes.
fn closing_delimiter(s: &Vec<char>, j: usize, q: usize, h: usize) -> (r: bool)
    requires
        lexable(s@),
        q >= 1,
    ensures
        r == at_closing_delimiter(s@, j as int, q as int, h as int),
{
    if !run_at(s, j, q, '"') {
        return false;
    }
    if !run_at(s, j + q, h, '#') {
        return false;
    }
    !char_is(s, j + q + h, '#')
}

/// Whether `j` begins a `\(…)` interpolation: a `\`, the literal's `#`
/// delimiter count, then `(`. Raw strings interpolate via `\#(…)`.
fn interpolation_at(s: &Vec<char>, j: usize, h: usize) -> (r: bool)
    requires
        lexable(s@),
    ensures
        r == at_interpolation(s@, j as int, h as int),
{
    if !char_is(s, j, '\\') {
        return false;
    }
    if !run_at(s, j + 1, h, '#') {
        return false;
    }
    char_is(s, j + 1 + h, '(')
}

// ------------------------------------------------------------ operators and words

fn is_table_op3_chars(a: char, b: char, c: char) -> (r: bool)
    ensures
        r == is_table_op3(a, b, c),
{
    (a == '&' && b == '<' && c == '<') || (a == '&' && b == '>' && c == '>') || (a == '=' && b
        == '=' && c == '=') || (a == '!' && b == '=' && c == '=') || (a == '.' && b == '.' && c
        == '<') || (a == '.' && b == '.' && c == '.')
}

fn is_table_op2_chars(a: char, b: char) -> (r: bool)
    ensures
        r == is_table_op2(a, b),
{
    (a == '<' && b == '<') || (a == '>' && b == '>') || (a == '<' && b == '=') || (a == '>' && b
        == '=') || (a == '=' && b == '=') || (a == '!' && b == '=') || (a == '&' && b == '&') || (a
        == '|' && b == '|') || (a == '?' && b == '?') || (a == '+' && b == '=') || (a == '-' && b
        == '=') || (a == '*' && b == '=') || (a == '/' && b == '=') || (a == '%' && b == '=') || (a
        == '&' && b == '+') || (a == '&' && b == '-') || (a == '&' && b == '*') || (a == '&' && b
        == '=') || (a == '|' && b == '=') || (a == '^' && b == '=') || (a == '-' && b == '>')
}

fn is_table_op1_char(a: char) -> (r: bool)
    ensures
        r == is_table_op1(a),
{
    a == '<' || a == '>' || a == '+' || a == '-' || a == '*' || a == '/' || a == '%' || a == '&'
        || a == '|' || a == '^' || a == '~' || a == '!' || a == '='
}

/// The length of the longest operator-table lexeme at `i` (0 if none).
fn table_op(s: &Vec<char>, i: usize) -> (r: usize)
    requires
        lexable(s@),
        i < s@.len(),
    ensures
        r == table_op_len(s@, i as int),
        r <= 3,
        i + r <= s@.len(),
{
    if i + 2 < s.len() && is_table_op3_chars(s[i], s[i + 1], s[i + 2]) {
        3
    } else if i + 1 < s.len() && is_table_op2_chars(s[i], s[i + 1]) {
        2
    } else if is_table_op1_char(s[i]) {
        1
    } else {
        0
    }
}

/// Longest operator lexeme matching at `i`, if any (its length). Custom
/// operators are maximal runs of operator characters: when the matched table
/// operator is built only from pure operator characters, it extends over the
/// rest of a contiguous operator-character run.
fn match_operator(s: &Vec<char>, i: usize) -> (r: Option<usize>)
    requires
        lexable(s@),
        i < s@.len(),
    ensures
        match r {
            Some(n) => operator_len(s@, i as int) == Some(n as int) && 0 < n && i + n <= s@.len(),
            None => operator_len(s@, i as int) is None,
        },
{
    let base = table_op(s, i);
    if base == 0 {
        return None;
    }
    let mut all_pure = true;
    let mut t: usize = 0;
    while t < base
        invariant
            lexable(s@),
            t <= base,
            i + base <= s@.len(),
            all_pure == (forall|u: int| 0 <= u < t ==> #[trigger] is_pure_operator_ch(s@[i + u])),
        decreases base - t,
    {
        if !is_pure_operator_char(s[i + t]) {
            all_pure = false;
        }
        t += 1;
    }
    if all_pure {
        let e = operator_run(s, i + base);
        Some(e - i)
    } else {
        Some(base)
    }
}

/// Whether the identifier `s[start..end]` is a reserved word.
fn is_keyword(s: &Vec<char>, start: usize, end: usize) -> (r: bool)
    requires
        start <= end <= s@.len(),
    ensures
        r == is_keyword_text(s@.subrange(start as int, end as int)),
{
    chars_match(s, start, end, "let") || chars_match(s, start, end, "var") || chars_match(
        s,
        start,
        end,
        "func",
    ) || chars_match(s, start, end, "return") || chars_match(s, start, end, "if") || chars_match(
        s,
        start,
        end,
        "else",
    ) || chars_match(s, start, end, "guard") || chars_match(s, start, end, "while")
        || chars_match(s, start, end, "repeat") || chars_match(s, start, end, "for")
        || chars_match(s, start, end, "in") || chars_match(s, start, end, "switch")
        || chars_match(s, start, end, "case") || chars_match(s, start, end, "default")
        || chars_match(s, start, end, "break") || chars_match(s, start, end, "continue")
        || chars_match(s, start, end, "fallthrough") || chars_match(s, start, end, "where")
        || chars_match(s, start, end, "do") || chars_match(s, start, end, "catch")
        || chars_match(s, start, end, "throw") || chars_match(s, start, end, "throws")
        || chars_match(s, start, end, "rethrows") || chars_match(s, start, end, "try")
        || chars_match(s, start, end, "defer") || chars_match(s, start, end, "struct")
        || chars_match(s, start, end, "class") || chars_match(s, start, end, "enum")
        || chars_match(s, start, end, "protocol") || chars_match(s, start, end, "extension")
        || chars_match(s, start, end, "init") || chars_match(s, start, end, "deinit")
        || chars_match(s, start, end, "subscript") || chars_match(s, start, end, "self")
        || chars_match(s, start, end, "super") || chars_match(s, start, end, "nil")
        || chars_match(s, start, end, "true") || chars_match(s, start, end, "false")
        || chars_match(s, start, end, "is") || chars_match(s, start, end, "as") || chars_match(
        s,
        start,
        end,
        "inout",
    ) || chars_match(s, start, end, "import") || chars_match(s, start, end, "typealias")
        || chars_match(s, start, end, "static") || chars_match(s, start, end, "mutating")
        || chars_match(s, start, end, "some") || chars_match(s, start, end, "any") || chars_match(
        s,
        start,
        end,
        "associatedtype",
    ) || chars_match(s, start, end, "indirect") || chars_match(s, start, end, "lazy")
        || chars_match(s, start, end, "weak") || chars_match(s, start, end, "unowned")
        || chars_match(s, start, end, "open") || chars_match(s, start, end, "public")
        || chars_match(s, start, end, "internal") || chars_match(s, start, end, "fileprivate")
        || chars_match(s, start, end, "private") || chars_match(s, start, end, "package")
}

/// The kind and text of the token that precedes the cursor, if any.
pub open spec fn prev_view<'a>(prev: Option<Token<'a>>) -> Option<(TokenKind, Seq<char>)> {
    match prev {
        Some(t) => Some((t.kind, t.text@)),
        None => None,
    }
}

/// Whether a `/` following `prev` begins a regex literal (an expression is
/// expected) rather than the division operator. Division follows anything
/// that ends an expression — an identifier, a literal, a closing `)`/`]`/`}`,
/// a `.`, or a value keyword (`self`, `true`, …).
fn regex_allowed(prev: Option<Token<'_>>) -> (r: bool)
    ensures
        r == regex_allowed_after(prev_view(prev)),
{
    match prev {
        None => true,
        Some(t) => match t.kind {
            TokenKind::Identifier | TokenKind::IntLiteral | TokenKind::FloatLiteral
            | TokenKind::StringLiteral | TokenKind::RegexLiteral | TokenKind::RParen
            | TokenKind::RBracket | TokenKind::RBrace | TokenKind::Dot => false,
            TokenKind::Keyword => !(str_same(t.text, "true") || str_same(t.text, "false")
                || str_same(t.text, "nil") || str_same(t.text, "self") || str_same(
                t.text,
                "super",
            )),
            _ => true,
        },
    }
}

/// The single-scalar structural token a scalar forms, if any.
fn punctuation(c: char) -> (r: Option<TokenKind>)
    ensures
        r == punctuation_kind(c),
{
    if c == '(' {
        Some(TokenKind::LParen)
    } else if c == ')' {
        Some(TokenKind::RParen)
    } else if c == '{' {
        Some(TokenKind::LBrace)
    } else if c == '}' {
        Some(TokenKind::RBrace)
    } else if c == '[' {
        Some(TokenKind::LBracket)
    } else if c == ']' {
        Some(TokenKind::RBracket)
    } else if c == ',' {
        Some(TokenKind::Comma)
    } else if c == ':' {
        Some(TokenKind::Colon)
    } else if c == ';' {
        Some(TokenKind::Semicolon)
    } else {
        None
    }
}

/// A scanned token as plain values: kind, text span, and resume position.
pub type ScanOutcome = Result<(TokenKind, usize, usize, usize), LexFailure>;

/// Whether an exec scan outcome is the scan the specification describes.
pub open spec fn scan_matches(r: ScanOutcome, spec: Result<Scanned, LexFailure>) -> bool {
    match r {
        Ok((k, ts, te, e)) => spec == Ok::<Scanned, LexFailure>(
            Scanned { kind: k, text_start: ts as int, text_end: te as int, end: e as int },
        ),
        Err(f) => spec == Err::<Scanned, LexFailure>(f),
    }
}

fn string_token(s: &Vec<char>, i: usize) -> (r: ScanOutcome)
    requires
        lexable(s@),
        i < s@.len(),
    ensures
        scan_matches(r, string_scanned(s@, i as int)),
        r matches Ok((_, ts, te, e)) ==> i < e <= s@.len() && ts <= te <= s@.len() && te == e
            && ts == i,
{
    match string(s, i) {
        Ok(e) => Ok((TokenKind::StringLiteral, i, e, e)),
        Err(StringFailure::Unterminated) => Err(LexFailure::UnterminatedString),
        Err(StringFailure::UnterminatedInterpolation) => Err(LexFailure::UnterminatedInterpolation),
    }
}

/// Scan the token starting at `i` (not trivia), after the token `prev`.
fn scan(s: &Vec<char>, i: usize, prev: Option<Token<'_>>) -> (r: ScanOutcome)
    requires
        lexable(s@),
        i < s@.len(),
    ensures
        scan_matches(r, scan_token(s@, i as int, prev_view(prev))),
        r matches Ok((_, ts, te, e)) ==> i < e <= s@.len() && ts <= te <= s@.len(),
{
    let c = s[i];
    if let Some(k) = punctuation(c) {
        return Ok((k, i, i + 1, i + 1));
    }
    if c == '"' {
        return string_token(s, i);
    }
    if c == '#' {
        if let Some(e) = pound_regex(s, i) {
            return Ok((TokenKind::RegexLiteral, i, e, e));
        }
        if raw_string_start(s, i) {
            return string_token(s, i);
        }
    }
    if c == '/' && regex_allowed(prev) {
        if let Some(e) = bare_regex(s, i) {
            return Ok((TokenKind::RegexLiteral, i, e, e));
        }
    }
    if c == '@' {
        let e = directive_run(s, i + 1);
        return Ok((TokenKind::Attribute, i, e, e));
    }
    if c == '#' {
        let e = directive_run(s, i + 1);
        return Ok((TokenKind::Directive, i, e, e));
    }
    if c == '.' {
        if char_is(s, i + 1, '.') && (char_is(s, i + 2, '.') || char_is(s, i + 2, '<')) {
            return Ok((TokenKind::Oper, i, i + 3, i + 3));
        }
        return Ok((TokenKind::Dot, i, i + 1, i + 1));
    }
    if c == '?' {
        if char_is(s, i + 1, '?') {
            return Ok((TokenKind::Oper, i, i + 2, i + 2));
        }
        return Ok((TokenKind::Question, i, i + 1, i + 1));
    }
    if c == '\\' {
        return Ok((TokenKind::Oper, i, i + 1, i + 1));
    }
    if c == '`' {
        let e = ident_run(s, i + 1);
        if e > i + 1 && char_is(s, e, '`') {
            return Ok((TokenKind::Identifier, i + 1, e, e + 1));
        }
        return Err(LexFailure::UnterminatedBacktick);
    }
    if is_ascii_digit(c) {
        let (e, is_float) = number(s, i);
        let k = if is_float {
            TokenKind::FloatLiteral
        } else {
            TokenKind::IntLiteral
        };
        return Ok((k, i, e, e));
    }
    if !is_ascii_scalar(c) && is_unicode_operator_scalar(c) {
        let e = operator_run(s, i + 1);
        return Ok((TokenKind::Oper, i, e, e));
    }
    if is_ident_start(c) {
        let e = ident_run(s, i);
        let k = if is_keyword(s, i, e) {
            TokenKind::Keyword
        } else {
            TokenKind::Identifier
        };
        return Ok((k, i, e, e));
    }
    match match_operator(s, i) {
        Some(n) => Ok((TokenKind::Oper, i, i + n, i + n)),
        None => Err(LexFailure::UnexpectedCharacter(c)),
    }
}

// ------------------------------------------------------------ the lexer

/// The message a failure is reported with.
fn failure_text(f: LexFailure) -> (r: String)
    ensures
        r@ == failure_message(f),
{
    match f {
        LexFailure::UnterminatedBlockComment => String::from_str("unterminated block comment"),
        LexFailure::UnterminatedBacktick => String::from_str(
            "unterminated backtick-escaped identifier",
        ),
        LexFailure::UnterminatedString => String::from_str("unterminated string literal"),
        LexFailure::UnterminatedInterpolation => String::from_str(
            "unterminated string interpolation",
        ),
        LexFailure::UnexpectedCharacter(c) => {
            let shown = char_debug_string(c);
            String::from_str("unexpected character ").concat(shown.as_str())
        },
    }
}

struct Lexer<'a> {
    src: &'a str,
    /// The scalars of `src`.
    chars: Vec<char>,
    /// Index of the next unconsumed scalar.
    pos: usize,
    line: u32,
    col: u32,
    /// Set when trivia before the next token contained a newline.
    pending_newline: bool,
}

impl<'a> Lexer<'a> {
    /// The cursor agrees with the source: `line`/`col` locate `pos`.
    spec fn wf(&self) -> bool {
        &&& self.chars@ == self.src@
        &&& lexable(self.chars@)
        &&& self.pos <= self.chars@.len()
        &&& self.line == line_at(self.chars@, self.pos as int)
        &&& self.col == col_at(self.chars@, self.pos as int)
    }

    fn new(src: &'a str) -> (r: Self)
        requires
            lexable(src@),
        ensures
            r.wf(),
            r.src == src,
            r.pos == 0,
            !r.pending_newline,
    {
        Lexer { src, chars: chars_of(src), pos: 0, line: 1, col: 1, pending_newline: false }
    }

    /// Advance to `end`, keeping the line and column counters in step.
    fn advance_to(&mut self, end: usize)
        requires
            old(self).wf(),
            old(self).pos <= end <= old(self).chars@.len(),
        ensures
            final(self).wf(),
            final(self).pos == end,
            final(self).src == old(self).src,
            final(self).chars@ == old(self).chars@,
            final(self).pending_newline == old(self).pending_newline,
    {
        while self.pos < end
            invariant
                self.wf(),
                self.pos <= end <= self.chars@.len(),
                self.src == old(self).src,
                self.chars@ == old(self).chars@,
                self.pending_newline == old(self).pending_newline,
            decreases end - self.pos,
        {
            proof {
                lemma_line_col_bounds(self.chars@, self.pos as int);
            }
            if self.chars[self.pos] == '\n' {
                self.line = self.line + 1;
                self.col = 1;
            } else {
                self.col = self.col + 1;
            }
            self.pos = self.pos + 1;
        }
    }

    /// Skip whitespace, line comments (`//`), and nested block comments.
    /// Returns whether any newline was consumed.
    fn skip_trivia(&mut self) -> (r: Result<bool, LexError>)
        requires
            old(self).wf(),
        ensures
            final(self).wf(),
            final(self).src == old(self).src,
            final(self).chars@ == old(self).chars@,
            final(self).pending_newline == old(self).pending_newline,
            old(self).pos <= final(self).pos,
            match trivia_end(old(self).chars@, old(self).pos as int) {
                Ok((q, nl)) => r == Ok::<bool, LexError>(nl) && final(self).pos == q,
                Err(p) => r is Err && r->Err_0@ == error_at(
                    old(self).chars@,
                    LexFailure::UnterminatedBlockComment,
                    p,
                ),
            },
    {
        match trivia(&self.chars, self.pos) {
            Ok((e, nl)) => {
                self.advance_to(e);
                Ok(nl)
            },
            Err(p) => {
                self.advance_to(p);
                Err(
                    LexError {
                        message: failure_text(LexFailure::UnterminatedBlockComment),
                        line: self.line,
                        col: self.col,
                    },
                )
            },
        }
    }

    /// Lex the token at the cursor (which is not at trivia or the end).
    fn next_token(&mut self, prev: Option<Token<'a>>) -> (r: Result<Token<'a>, LexError>)
        requires
            old(self).wf(),
            old(self).pos < old(self).chars@.len(),
        ensures
            final(self).wf(),
            final(self).src == old(self).src,
            final(self).chars@ == old(self).chars@,
            final(self).pending_newline == old(self).pending_newline,
            match scan_token(old(self).chars@, old(self).pos as int, prev_view(prev)) {
                Ok(sc) => r is Ok && old(self).pos < sc.end <= old(self).chars@.len()
                    && final(self).pos == sc.end && r->Ok_0@ == token_at(
                    old(self).chars@,
                    sc,
                    old(self).pos as int,
                    old(self).pending_newline,
                ),
                Err(f) => r is Err && r->Err_0@ == error_at(
                    old(self).chars@,
                    f,
                    old(self).pos as int,
                ),
            },
    {
        let line = self.line;
        let col = self.col;
        match scan(&self.chars, self.pos, prev) {
            Ok((kind, text_start, text_end, end)) => {
                self.advance_to(end);
                Ok(
                    Token {
                        kind,
                        text: self.src.substring_char(text_start, text_end),
                        line,
                        col,
                        leading_newline: self.pending_newline,
                    },
                )
            },
            Err(f) => Err(LexError { message: failure_text(f), line, col }),
        }
    }

    fn run(self) -> (r: Result<Vec<Token<'a>>, LexError>)
        requires
            self.wf(),
            self.pos == 0,
        ensures
            match r {
                Ok(v) => spec_tokenize(self.src@) == Ok::<Seq<SpecToken>, SpecLexError>(
                    tokens_view(v@),
                ),
                Err(e) => spec_tokenize(self.src@) == Err::<Seq<SpecToken>, SpecLexError>(e@),
            },
            r matches Ok(v) ==> ends_in_single_eof(v@),
    {
        let mut lx = self;
        let ghost s = lx.chars@;
        let ghost src = lx.src;
        let mut out: Vec<Token<'a>> = Vec::new();
        loop
            invariant
                lx.wf(),
                lx.chars@ == s,
                lx.src == src,
                src@ == s,
                self.src@ == s,
                forall|k: int| 0 <= k < out@.len() ==> #[trigger] out@[k].kind != TokenKind::Eof,
                spec_tokenize(s) == prepend(
                    tokens_view(out@),
                    lex_from(
                        s,
                        lx.pos as int,
                        if out@.len() == 0 {
                            None
                        } else {
                            prev_view(Some(out@.last()))
                        },
                    ),
                ),
            decreases s.len() - lx.pos,
        {
            let ghost p0 = lx.pos as int;
            let ghost prev0 = if out@.len() == 0 {
                None
            } else {
                prev_view(Some(out@.last()))
            };
            let nl = match lx.skip_trivia() {
                Ok(nl) => nl,
                Err(e) => {
                    assert(lex_from(s, p0, prev0) == Err::<Seq<SpecToken>, SpecLexError>(e@));
                    return Err(e);
                },
            };
            lx.pending_newline = nl;
            if lx.pos >= lx.chars.len() {
                let eof = Token {
                    kind: TokenKind::Eof,
                    text: lx.src.substring_char(lx.pos, lx.pos),
                    line: lx.line,
                    col: lx.col,
                    leading_newline: lx.pending_newline,
                };
                let ghost before = out@;
                out.push(eof);
                assert(tokens_view(out@) =~= tokens_view(before).push(eof@));
                assert(eof@.text =~= Seq::<char>::empty());
                assert(lex_from(s, p0, prev0) == Ok::<Seq<SpecToken>, SpecLexError>(seq![eof@]));
                assert(tokens_view(before) + seq![eof@] =~= tokens_view(out@));
                assert forall|k: int| 0 <= k < out@.len() - 1 implies #[trigger] out@[k].kind
                    != TokenKind::Eof by {
                    assert(out@[k] == before[k]);
                }
                return Ok(out);
            }
            let prev = if out.len() == 0 {
                None
            } else {
                Some(out[out.len() - 1])
            };
            assert(prev_view(prev) == prev0);
            let ghost q = lx.pos as int;
            let tok = match lx.next_token(prev) {
                Ok(t) => t,
                Err(e) => {
                    assert(trivia_end(s, p0) == Ok::<(int, bool), int>((q, nl)));
                    assert(lex_from(s, p0, prev0) == Err::<Seq<SpecToken>, SpecLexError>(e@));
                    return Err(e);
                },
            };
            proof {
                lemma_scan_token_not_eof(s, q, prev0);
            }
            let ghost before = out@;
            out.push(tok);
            assert forall|k: int| 0 <= k < out@.len() implies #[trigger] out@[k].kind != TokenKind::Eof by {
                if k < before.len() {
                    assert(out@[k] == before[k]);
                }
            }
            assert(tokens_view(out@) =~= tokens_view(before).push(tok@));
            assert(out@.last() == tok);
            proof {
                let rest = lex_from(s, lx.pos as int, prev_view(Some(tok)));
                assert(trivia_end(s, p0) == Ok::<(int, bool), int>((q, nl)));
                assert(lex_from(s, p0, prev0) == prepend(seq![tok@], rest));
                match rest {
                    Ok(r) => {
                        assert(tokens_view(before) + seq![tok@] + r =~= tokens_view(before) + (
                        seq![tok@] + r));
                        assert(tokens_view(out@) =~= tokens_view(before) + seq![tok@]);
                    },
                    Err(_) => {},
                }
            }
        }
    }
}

/// The stream's last token, and only that one, is an [`TokenKind::Eof`].
pub open spec fn ends_in_single_eof(ts: Seq<Token>) -> bool {
    &&& ts.len() > 0
    &&& ts.last().kind == TokenKind::Eof
    &&& forall|k: int| 0 <= k < ts.len() - 1 ==> #[trigger] ts[k].kind != TokenKind::Eof
}

/// Lex `source` into a token stream terminated by a single [`TokenKind::Eof`].
///
/// Whitespace and comments are consumed and used only to advance the
/// line/column counters; they produce no tokens. Returns the first
/// [`LexError`] encountered (e.g. an unterminated string or block comment).
pub fn tokenize(source: &str) -> (r: Result<Vec<Token<'_>>, LexError>)
    requires
        lexable(source@),
    ensures
        match r {
            Ok(v) => spec_tokenize(source@) == Ok::<Seq<SpecToken>, SpecLexError>(tokens_view(v@)),
            Err(e) => spec_tokenize(source@) == Err::<Seq<SpecToken>, SpecLexError>(e@),
        },
        r matches Ok(v) ==> ends_in_single_eof(v@),
{
    Lexer::new(source).run()
}

} // verus!
