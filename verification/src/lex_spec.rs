//! The mathematical definition of Swift lexing over a source's scalars.
//!
//! Every function here reads a source `s: Seq<char>` from a position and says
//! where a lexical construct ends; [`spec_tokenize`] strings them together into
//! the token sequence (or the first error) that [`crate::lexer::tokenize`]
//! returns.
use vstd::prelude::*;
use crate::lexer::TokenKind;
use crate::text::char_debug_text;

verus! {

// ---------------------------------------------------------------- scalars

pub open spec fn is_ascii_ch(c: char) -> bool {
    (c as u32) < 0x80
}

pub open spec fn is_ascii_digit_ch(c: char) -> bool {
    '0' <= c && c <= '9'
}

pub open spec fn is_ascii_alpha_ch(c: char) -> bool {
    ('a' <= c && c <= 'z') || ('A' <= c && c <= 'Z')
}

pub open spec fn is_hex_digit_ch(c: char) -> bool {
    is_ascii_digit_ch(c) || ('a' <= c && c <= 'f') || ('A' <= c && c <= 'F')
}

/// May begin an identifier: `_`, `$`, an ASCII letter, or any non-ASCII scalar.
pub open spec fn is_ident_start_ch(c: char) -> bool {
    c == '_' || c == '$' || is_ascii_alpha_ch(c) || !is_ascii_ch(c)
}

/// May continue an identifier: an identifier start or an ASCII digit.
pub open spec fn is_ident_continue_ch(c: char) -> bool {
    is_ident_start_ch(c) || is_ascii_digit_ch(c)
}

/// An operator character with no standalone role of its own (unlike `.`/`?`).
pub open spec fn is_pure_operator_ch(c: char) -> bool {
    c == '+' || c == '-' || c == '*' || c == '/' || c == '%' || c == '<' || c == '>' || c == '='
        || c == '!' || c == '&' || c == '|' || c == '^' || c == '~'
}

/// A non-ASCII scalar in Swift's operator-head ranges.
pub open spec fn is_unicode_operator_ch(c: char) -> bool {
    let u = c as u32;
    (0x00A1 <= u <= 0x00A7) || u == 0x00A9 || u == 0x00AB || u == 0x00AC || u == 0x00AE || (0x00B0
        <= u <= 0x00B1) || u == 0x00B6 || u == 0x00BB || u == 0x00BF || u == 0x00D7 || u == 0x00F7
        || (0x2016 <= u <= 0x2017) || (0x2020 <= u <= 0x2027) || (0x2030 <= u <= 0x203E) || (0x2041
        <= u <= 0x2053) || (0x2055 <= u <= 0x205E) || (0x2190 <= u <= 0x23FF) || (0x2500 <= u
        <= 0x2775) || (0x2794 <= u <= 0x2BFF) || (0x2E00 <= u <= 0x2E7F) || (0x3001 <= u
        <= 0x3003) || (0x3008 <= u <= 0x3020) || u == 0x3030
}

/// The scalar at `i`, if `i` is inside `s`.
pub open spec fn at(s: Seq<char>, i: int) -> Option<char> {
    if 0 <= i < s.len() {
        Some(s[i])
    } else {
        None
    }
}

/// Whether `s[i]` exists and is `c`.
pub open spec fn is_at(s: Seq<char>, i: int, c: char) -> bool {
    at(s, i) == Some(c)
}

/// Whether `s` holds `n` consecutive copies of `c` starting at `i`.
pub open spec fn run_of(s: Seq<char>, i: int, n: int, c: char) -> bool {
    forall|t: int| 0 <= t < n ==> #[trigger] is_at(s, i + t, c)
}

// ---------------------------------------------------------------- positions

/// Sources whose positions, lengths and line/column numbers all fit the
/// lexer's `u32` counters with room to look a few scalars ahead.
pub open spec fn lexable(s: Seq<char>) -> bool {
    s.len() + 8 <= u32::MAX
}

/// The 1-based line of position `p`: one more than the newlines before it.
pub open spec fn line_at(s: Seq<char>, p: int) -> int
    decreases p,
{
    if p <= 0 {
        1
    } else {
        line_at(s, p - 1) + if s[p - 1] == '\n' {
            1int
        } else {
            0int
        }
    }
}

/// The 1-based column of position `p`: scalars since the last newline, plus one.
pub open spec fn col_at(s: Seq<char>, p: int) -> int
    decreases p,
{
    if p <= 0 {
        1
    } else if s[p - 1] == '\n' {
        1
    } else {
        col_at(s, p - 1) + 1
    }
}

pub proof fn lemma_line_col_bounds(s: Seq<char>, p: int)
    requires
        0 <= p,
    ensures
        1 <= line_at(s, p) <= p + 1,
        1 <= col_at(s, p) <= p + 1,
    decreases p,
{
    if p > 0 {
        lemma_line_col_bounds(s, p - 1);
    }
}

// ---------------------------------------------------------------- trivia

/// The end of a line comment begun before `i`: the next newline or the end.
pub open spec fn line_comment_end(s: Seq<char>, i: int) -> int
    decreases s.len() - i,
{
    if i < 0 || i >= s.len() || s[i] == '\n' {
        i
    } else {
        line_comment_end(s, i + 1)
    }
}

/// Inside a block comment at nesting `depth`, scanning from `i`: the position
/// just past the comment's final `*/` and whether a newline lay in between, or
/// `None` if the source ends first.
pub open spec fn block_comment_end(s: Seq<char>, i: int, depth: int) -> Option<(int, bool)>
    decreases s.len() - i,
{
    if i < 0 || i >= s.len() {
        None
    } else if s[i] == '\n' {
        match block_comment_end(s, i + 1, depth) {
            Some((e, _)) => Some((e, true)),
            None => None,
        }
    } else if s[i] == '/' && is_at(s, i + 1, '*') {
        block_comment_end(s, i + 2, depth + 1)
    } else if s[i] == '*' && is_at(s, i + 1, '/') {
        if depth <= 1 {
            Some((i + 2, false))
        } else {
            block_comment_end(s, i + 2, depth - 1)
        }
    } else {
        block_comment_end(s, i + 1, depth)
    }
}

/// Skipping whitespace and comments from `i`: the first position of real
/// syntax and whether a newline was skipped, or `Err(p)` when the block
/// comment opened at `p` never closes.
pub open spec fn trivia_end(s: Seq<char>, i: int) -> Result<(int, bool), int>
    decreases s.len() - i,
{
    if i < 0 || i >= s.len() {
        Ok((i, false))
    } else if s[i] == '\n' {
        match trivia_end(s, i + 1) {
            Ok((e, _)) => Ok((e, true)),
            Err(p) => Err(p),
        }
    } else if s[i] == ' ' || s[i] == '\t' || s[i] == '\r' {
        trivia_end(s, i + 1)
    } else if s[i] == '/' && is_at(s, i + 1, '/') {
        let j = line_comment_end(s, i + 2);
        if i < j <= s.len() {
            trivia_end(s, j)
        } else {
            Ok((i, false))
        }
    } else if s[i] == '/' && is_at(s, i + 1, '*') {
        match block_comment_end(s, i + 2, 1) {
            Some((j, nl)) => if i < j <= s.len() {
                match trivia_end(s, j) {
                    Ok((e, nl2)) => Ok((e, nl || nl2)),
                    Err(p) => Err(p),
                }
            } else {
                Ok((i, false))
            },
            None => Err(i),
        }
    } else {
        Ok((i, false))
    }
}

// ---------------------------------------------------------------- runs

/// The classes of scalars that a literal's digit run may consist of.
#[derive(Clone, Copy, PartialEq, Eq, Structural)]
pub enum DigitClass {
    Decimal,
    Hex,
    Octal,
    Binary,
}

pub open spec fn in_digit_class(cls: DigitClass, c: char) -> bool {
    match cls {
        DigitClass::Decimal => is_ascii_digit_ch(c) || c == '_',
        DigitClass::Hex => is_hex_digit_ch(c) || c == '_',
        DigitClass::Octal => ('0' <= c && c <= '7') || c == '_',
        DigitClass::Binary => c == '0' || c == '1' || c == '_',
    }
}

/// The end of the maximal run of `cls` scalars starting at `i`.
pub open spec fn digit_run_end(s: Seq<char>, i: int, cls: DigitClass) -> int
    decreases s.len() - i,
{
    if 0 <= i < s.len() && in_digit_class(cls, s[i]) {
        digit_run_end(s, i + 1, cls)
    } else {
        i
    }
}

/// Continues the name of an attribute or directive (`@main`, `#if`).
pub open spec fn directive_run_end(s: Seq<char>, i: int) -> int
    decreases s.len() - i,
{
    if 0 <= i < s.len() && is_ident_continue_ch(s[i]) {
        directive_run_end(s, i + 1)
    } else {
        i
    }
}

/// Continues an identifier: ASCII identifier characters, and non-ASCII
/// scalars that are not operator characters.
pub open spec fn continues_identifier(c: char) -> bool {
    if is_ascii_ch(c) {
        is_ident_continue_ch(c)
    } else {
        !is_unicode_operator_ch(c)
    }
}

pub open spec fn ident_run_end(s: Seq<char>, i: int) -> int
    decreases s.len() - i,
{
    if 0 <= i < s.len() && continues_identifier(s[i]) {
        ident_run_end(s, i + 1)
    } else {
        i
    }
}

/// Continues an operator: pure ASCII operator characters and unicode operator scalars.
pub open spec fn continues_operator(c: char) -> bool {
    if is_ascii_ch(c) {
        is_pure_operator_ch(c)
    } else {
        is_unicode_operator_ch(c)
    }
}

pub open spec fn operator_run_end(s: Seq<char>, i: int) -> int
    decreases s.len() - i,
{
    if 0 <= i < s.len() && continues_operator(s[i]) {
        operator_run_end(s, i + 1)
    } else {
        i
    }
}

/// The number of consecutive `#` starting at `i`.
pub open spec fn hash_count(s: Seq<char>, i: int) -> int
    decreases s.len() - i,
{
    if 0 <= i < s.len() && s[i] == '#' {
        1 + hash_count(s, i + 1)
    } else {
        0
    }
}

// ---------------------------------------------------------------- numbers

/// An optional exponent sign followed by a decimal digit run.
pub open spec fn sign_and_digits_end(s: Seq<char>, i: int) -> int {
    if is_at(s, i, '+') || is_at(s, i, '-') {
        digit_run_end(s, i + 1, DigitClass::Decimal)
    } else {
        digit_run_end(s, i, DigitClass::Decimal)
    }
}

/// A numeric literal starting at digit `i`: its end and whether it is a float.
pub open spec fn number_end(s: Seq<char>, i: int) -> (int, bool) {
    if is_at(s, i, '0') && (is_at(s, i + 1, 'x') || is_at(s, i + 1, 'X')) {
        let a = digit_run_end(s, i + 2, DigitClass::Hex);
        let frac = is_at(s, a, '.') && (match at(s, a + 1) {
            Some(c) => is_hex_digit_ch(c),
            None => false,
        });
        let b = if frac {
            digit_run_end(s, a + 1, DigitClass::Hex)
        } else {
            a
        };
        let exp = is_at(s, b, 'p') || is_at(s, b, 'P');
        let e = if exp {
            sign_and_digits_end(s, b + 1)
        } else {
            b
        };
        (e, frac || exp)
    } else if is_at(s, i, '0') && (is_at(s, i + 1, 'o') || is_at(s, i + 1, 'O')) {
        (digit_run_end(s, i + 2, DigitClass::Octal), false)
    } else if is_at(s, i, '0') && (is_at(s, i + 1, 'b') || is_at(s, i + 1, 'B')) {
        (digit_run_end(s, i + 2, DigitClass::Binary), false)
    } else {
        let a = digit_run_end(s, i, DigitClass::Decimal);
        let frac = is_at(s, a, '.') && (match at(s, a + 1) {
            Some(c) => is_ascii_digit_ch(c),
            None => false,
        });
        let b = if frac {
            digit_run_end(s, a + 1, DigitClass::Decimal)
        } else {
            a
        };
        let exp = is_at(s, b, 'e') || is_at(s, b, 'E');
        let e = if exp {
            sign_and_digits_end(s, b + 1)
        } else {
            b
        };
        (e, frac || exp)
    }
}

// ---------------------------------------------------------------- regexes

/// Scanning a bare `/…/` regex body from `j` (`in_class`: inside `[…]`):
/// the end just past the closing `/`, or `None` if there is no valid literal.
pub open spec fn bare_regex_body_end(s: Seq<char>, j: int, in_class: bool) -> Option<int>
    decreases s.len() - j,
{
    if j < 1 || j >= s.len() {
        None
    } else if s[j] == '\\' {
        if j + 1 >= s.len() || s[j + 1] == '\n' {
            None
        } else {
            bare_regex_body_end(s, j + 2, in_class)
        }
    } else if s[j] == '\n' {
        None
    } else if s[j] == '[' {
        bare_regex_body_end(s, j + 1, true)
    } else if s[j] == ']' && in_class {
        bare_regex_body_end(s, j + 1, false)
    } else if s[j] == '/' && !in_class {
        if s[j - 1] == ' ' || s[j - 1] == '\t' {
            None
        } else {
            Some(j + 1)
        }
    } else {
        bare_regex_body_end(s, j + 1, in_class)
    }
}

/// A bare `/…/` regex literal at `i` (which holds `/`): the position just past it.
pub open spec fn bare_regex_end(s: Seq<char>, i: int) -> Option<int> {
    match at(s, i + 1) {
        None => None,
        Some(c) => if c == ' ' || c == '\t' || c == '/' || c == '\n' || c == '\r' {
            None
        } else {
            bare_regex_body_end(s, i + 1, false)
        },
    }
}

/// Scanning an extended regex body from `j`, closed by `/` and `h` hashes.
pub open spec fn pound_regex_body_end(s: Seq<char>, j: int, h: int) -> Option<int>
    decreases s.len() - j,
{
    if j < 0 || j >= s.len() {
        None
    } else if s[j] == '\\' {
        if j + 2 <= s.len() {
            pound_regex_body_end(s, j + 2, h)
        } else {
            None
        }
    } else if s[j] == '/' && run_of(s, j + 1, h, '#') {
        Some(j + 1 + h)
    } else {
        pound_regex_body_end(s, j + 1, h)
    }
}

/// An extended `#/…/#` regex literal at `i`: the position just past it.
pub open spec fn pound_regex_end(s: Seq<char>, i: int) -> Option<int> {
    let h = hash_count(s, i);
    if h == 0 || !is_at(s, i + h, '/') {
        None
    } else {
        pound_regex_body_end(s, i + h + 1, h)
    }
}

// ---------------------------------------------------------------- strings

/// `q` quotes followed by exactly `h` hashes at `j`.
pub open spec fn at_closing_delimiter(s: Seq<char>, j: int, q: int, h: int) -> bool {
    run_of(s, j, q, '"') && run_of(s, j + q, h, '#') && !is_at(s, j + q + h, '#')
}

/// A `\`, `h` hashes and `(` at `j`: the start of an interpolation.
pub open spec fn at_interpolation(s: Seq<char>, j: int, h: int) -> bool {
    is_at(s, j, '\\') && run_of(s, j + 1, h, '#') && is_at(s, j + 1 + h, '(')
}

/// A simple string nested inside an interpolation, opened at `j - 1`: where
/// the scan resumes.
pub open spec fn nested_string_end(s: Seq<char>, j: int) -> int
    decreases s.len() - j,
{
    if j < 0 || j >= s.len() {
        j
    } else if s[j] == '"' {
        j + 1
    } else if s[j] == '\\' {
        if j + 1 < s.len() {
            nested_string_end(s, j + 2)
        } else {
            j + 1
        }
    } else if s[j] == '\n' {
        j
    } else {
        nested_string_end(s, j + 1)
    }
}

/// Inside an interpolation at parenthesis depth `depth`, from `j`: the
/// position just past its closing `)`, or `None` if the source ends first.
pub open spec fn interpolation_end(s: Seq<char>, j: int, depth: int) -> Option<int>
    decreases s.len() - j,
{
    if j < 0 || j >= s.len() {
        None
    } else if s[j] == '(' {
        interpolation_end(s, j + 1, depth + 1)
    } else if s[j] == ')' {
        if depth <= 1 {
            Some(j + 1)
        } else {
            interpolation_end(s, j + 1, depth - 1)
        }
    } else if s[j] == '"' {
        let k = nested_string_end(s, j + 1);
        if j < k <= s.len() {
            interpolation_end(s, k, depth)
        } else {
            None
        }
    } else {
        interpolation_end(s, j + 1, depth)
    }
}

/// How a string literal scan can fail.
#[derive(Clone, Copy, PartialEq, Eq, Structural)]
pub enum StringFailure {
    Unterminated,
    UnterminatedInterpolation,
}

/// Scanning a string body from `j`, delimited by `q` quotes and `h` hashes:
/// the position just past the closing delimiter.
pub open spec fn string_body_end(s: Seq<char>, j: int, q: int, h: int) -> Result<int, StringFailure>
    decreases s.len() - j,
{
    if j < 0 || j >= s.len() {
        Err(StringFailure::Unterminated)
    } else if s[j] == '"' && at_closing_delimiter(s, j, q, h) {
        Ok(j + q + h)
    } else if s[j] == '\\' && at_interpolation(s, j, h) {
        match interpolation_end(s, j + h + 2, 1) {
            Some(k) => if j < k <= s.len() {
                string_body_end(s, k, q, h)
            } else {
                Err(StringFailure::Unterminated)
            },
            None => Err(StringFailure::UnterminatedInterpolation),
        }
    } else if s[j] == '\\' && h == 0 {
        if j + 1 < s.len() {
            string_body_end(s, j + 2, q, h)
        } else {
            string_body_end(s, j + 1, q, h)
        }
    } else if s[j] == '\n' && q == 1 {
        Err(StringFailure::Unterminated)
    } else {
        string_body_end(s, j + 1, q, h)
    }
}

/// Whether three quotes stand at `j`.
pub open spec fn triple_quote_at(s: Seq<char>, j: int) -> bool {
    run_of(s, j, 3, '"')
}

/// A string literal of any flavour opening at `i`: its end.
pub open spec fn string_end(s: Seq<char>, i: int) -> Result<int, StringFailure> {
    let h = hash_count(s, i);
    let q = if triple_quote_at(s, i + h) {
        3int
    } else {
        1int
    };
    string_body_end(s, i + h + q, q, h)
}

/// Whether raw-string hashes and a quote begin at `i`.
pub open spec fn is_raw_string_start(s: Seq<char>, i: int) -> bool {
    let h = hash_count(s, i);
    h > 0 && is_at(s, i + h, '"')
}

// ---------------------------------------------------------------- operators

/// The three-scalar operators of the operator table.
pub open spec fn is_table_op3(a: char, b: char, c: char) -> bool {
    (a == '&' && b == '<' && c == '<') || (a == '&' && b == '>' && c == '>') || (a == '=' && b
        == '=' && c == '=') || (a == '!' && b == '=' && c == '=') || (a == '.' && b == '.' && c
        == '<') || (a == '.' && b == '.' && c == '.')
}

/// The two-scalar operators of the operator table.
pub open spec fn is_table_op2(a: char, b: char) -> bool {
    (a == '<' && b == '<') || (a == '>' && b == '>') || (a == '<' && b == '=') || (a == '>' && b
        == '=') || (a == '=' && b == '=') || (a == '!' && b == '=') || (a == '&' && b == '&') || (a
        == '|' && b == '|') || (a == '?' && b == '?') || (a == '+' && b == '=') || (a == '-' && b
        == '=') || (a == '*' && b == '=') || (a == '/' && b == '=') || (a == '%' && b == '=') || (a
        == '&' && b == '+') || (a == '&' && b == '-') || (a == '&' && b == '*') || (a == '&' && b
        == '=') || (a == '|' && b == '=') || (a == '^' && b == '=') || (a == '-' && b == '>')
}

/// The single-scalar operators of the operator table.
pub open spec fn is_table_op1(a: char) -> bool {
    a == '<' || a == '>' || a == '+' || a == '-' || a == '*' || a == '/' || a == '%' || a == '&'
        || a == '|' || a == '^' || a == '~' || a == '!' || a == '='
}

/// The length of the longest table operator at `i` (0 if none).
pub open spec fn table_op_len(s: Seq<char>, i: int) -> int {
    if 0 <= i && i + 2 < s.len() && is_table_op3(s[i], s[i + 1], s[i + 2]) {
        3
    } else if 0 <= i && i + 1 < s.len() && is_table_op2(s[i], s[i + 1]) {
        2
    } else if 0 <= i && i < s.len() && is_table_op1(s[i]) {
        1
    } else {
        0
    }
}

/// The operator lexeme at `i`: the longest table operator, extended over the
/// following operator characters when it is built only of pure ones.
pub open spec fn operator_len(s: Seq<char>, i: int) -> Option<int> {
    let base = table_op_len(s, i);
    if base == 0 {
        None
    } else if (forall|t: int| 0 <= t < base ==> #[trigger] is_pure_operator_ch(s[i + t])) {
        Some(operator_run_end(s, i + base) - i)
    } else {
        Some(base)
    }
}

// ---------------------------------------------------------------- words

/// The reserved words lexed as [`TokenKind::Keyword`].
pub open spec fn is_keyword_text(t: Seq<char>) -> bool {
    t == "let"@ || t == "var"@ || t == "func"@ || t == "return"@ || t == "if"@ || t == "else"@
        || t == "guard"@ || t == "while"@ || t == "repeat"@ || t == "for"@ || t == "in"@ || t
        == "switch"@ || t == "case"@ || t == "default"@ || t == "break"@ || t == "continue"@ || t
        == "fallthrough"@ || t == "where"@ || t == "do"@ || t == "catch"@ || t == "throw"@ || t
        == "throws"@ || t == "rethrows"@ || t == "try"@ || t == "defer"@ || t == "struct"@ || t
        == "class"@ || t == "enum"@ || t == "protocol"@ || t == "extension"@ || t == "init"@ || t
        == "deinit"@ || t == "subscript"@ || t == "self"@ || t == "super"@ || t == "nil"@ || t
        == "true"@ || t == "false"@ || t == "is"@ || t == "as"@ || t == "inout"@ || t
        == "import"@ || t == "typealias"@ || t == "static"@ || t == "mutating"@ || t == "some"@
        || t == "any"@ || t == "associatedtype"@ || t == "indirect"@ || t == "lazy"@ || t
        == "weak"@ || t == "unowned"@ || t == "open"@ || t == "public"@ || t == "internal"@ || t
        == "fileprivate"@ || t == "private"@ || t == "package"@
}

/// Whether a `/` after the token `prev` may open a regex literal: not after
/// anything that ends an expression.
pub open spec fn regex_allowed_after(prev: Option<(TokenKind, Seq<char>)>) -> bool {
    match prev {
        None => true,
        Some((k, t)) => match k {
            TokenKind::Identifier | TokenKind::IntLiteral | TokenKind::FloatLiteral
            | TokenKind::StringLiteral | TokenKind::RegexLiteral | TokenKind::RParen
            | TokenKind::RBracket | TokenKind::RBrace | TokenKind::Dot => false,
            TokenKind::Keyword => !(t == "true"@ || t == "false"@ || t == "nil"@ || t == "self"@
                || t == "super"@),
            _ => true,
        },
    }
}

// ---------------------------------------------------------------- tokens

/// Why lexing stopped, located at a source position.
#[derive(Clone, Copy, PartialEq, Eq, Structural)]
pub enum LexFailure {
    UnterminatedBlockComment,
    UnterminatedBacktick,
    UnterminatedString,
    UnterminatedInterpolation,
    UnexpectedCharacter(char),
}

/// The message a failure is reported with.
pub open spec fn failure_message(f: LexFailure) -> Seq<char> {
    match f {
        LexFailure::UnterminatedBlockComment => "unterminated block comment"@,
        LexFailure::UnterminatedBacktick => "unterminated backtick-escaped identifier"@,
        LexFailure::UnterminatedString => "unterminated string literal"@,
        LexFailure::UnterminatedInterpolation => "unterminated string interpolation"@,
        LexFailure::UnexpectedCharacter(c) => "unexpected character "@ + char_debug_text(c),
    }
}

/// One scanned token: its kind, the span of its text, and where scanning resumes.
pub struct Scanned {
    pub kind: TokenKind,
    pub text_start: int,
    pub text_end: int,
    pub end: int,
}

pub open spec fn scanned(kind: TokenKind, start: int, end: int) -> Result<Scanned, LexFailure> {
    Ok(Scanned { kind, text_start: start, text_end: end, end })
}

pub open spec fn string_scanned(s: Seq<char>, i: int) -> Result<Scanned, LexFailure> {
    match string_end(s, i) {
        Ok(e) => scanned(TokenKind::StringLiteral, i, e),
        Err(StringFailure::Unterminated) => Err(LexFailure::UnterminatedString),
        Err(StringFailure::UnterminatedInterpolation) => Err(LexFailure::UnterminatedInterpolation),
    }
}

pub open spec fn operator_scanned(s: Seq<char>, i: int) -> Result<Scanned, LexFailure> {
    match operator_len(s, i) {
        Some(n) => scanned(TokenKind::Oper, i, i + n),
        None => Err(LexFailure::UnexpectedCharacter(s[i])),
    }
}

/// The single-scalar structural tokens.
pub open spec fn punctuation_kind(c: char) -> Option<TokenKind> {
    if c == '(' {
        Some(TokenKind::LParen)
    } else if c == ')' {
        Some(TokenKind::RParen)
    } else if c == '{' {
        Some(TokenKind::LBrace)
    } else if c == '}' {
        Some(TokenKind::RBrace)
    } else if c == '[' {
        Some(TokenKind::LBracket)
    } else if c == ']' {
        Some(TokenKind::RBracket)
    } else if c == ',' {
        Some(TokenKind::Comma)
    } else if c == ':' {
        Some(TokenKind::Colon)
    } else if c == ';' {
        Some(TokenKind::Semicolon)
    } else {
        None
    }
}

/// The token starting at `i` (not trivia), after the token `prev`.
pub open spec fn scan_token(s: Seq<char>, i: int, prev: Option<(TokenKind, Seq<char>)>) -> Result<
    Scanned,
    LexFailure,
> {
    let c = s[i];
    if punctuation_kind(c) is Some {
        scanned(punctuation_kind(c)->0, i, i + 1)
    } else if c == '"' {
        string_scanned(s, i)
    } else if c == '#' && pound_regex_end(s, i) is Some {
        scanned(TokenKind::RegexLiteral, i, pound_regex_end(s, i)->0)
    } else if c == '#' && is_raw_string_start(s, i) {
        string_scanned(s, i)
    } else if c == '/' && regex_allowed_after(prev) && bare_regex_end(s, i) is Some {
        scanned(TokenKind::RegexLiteral, i, bare_regex_end(s, i)->0)
    } else if c == '@' {
        scanned(TokenKind::Attribute, i, directive_run_end(s, i + 1))
    } else if c == '#' {
        scanned(TokenKind::Directive, i, directive_run_end(s, i + 1))
    } else if c == '.' {
        if is_at(s, i + 1, '.') && (is_at(s, i + 2, '.') || is_at(s, i + 2, '<')) {
            scanned(TokenKind::Oper, i, i + 3)
        } else {
            scanned(TokenKind::Dot, i, i + 1)
        }
    } else if c == '?' {
        if is_at(s, i + 1, '?') {
            scanned(TokenKind::Oper, i, i + 2)
        } else {
            scanned(TokenKind::Question, i, i + 1)
        }
    } else if c == '\\' {
        scanned(TokenKind::Oper, i, i + 1)
    } else if c == '`' {
        let e = ident_run_end(s, i + 1);
        if e > i + 1 && is_at(s, e, '`') {
            Ok(Scanned { kind: TokenKind::Identifier, text_start: i + 1, text_end: e, end: e + 1 })
        } else {
            Err(LexFailure::UnterminatedBacktick)
        }
    } else if is_ascii_digit_ch(c) {
        let (e, is_float) = number_end(s, i);
        scanned(
            if is_float {
                TokenKind::FloatLiteral
            } else {
                TokenKind::IntLiteral
            },
            i,
            e,
        )
    } else if !is_ascii_ch(c) && is_unicode_operator_ch(c) {
        scanned(TokenKind::Oper, i, operator_run_end(s, i + 1))
    } else if is_ident_start_ch(c) {
        let e = ident_run_end(s, i);
        scanned(
            if is_keyword_text(s.subrange(i, e)) {
                TokenKind::Keyword
            } else {
                TokenKind::Identifier
            },
            i,
            e,
        )
    } else {
        operator_scanned(s, i)
    }
}

/// A lexed token with its text and location.
pub struct SpecToken {
    pub kind: TokenKind,
    pub text: Seq<char>,
    pub line: int,
    pub col: int,
    pub leading_newline: bool,
}

/// A lexing failure with its message and location.
pub struct SpecLexError {
    pub message: Seq<char>,
    pub line: int,
    pub col: int,
}

pub open spec fn error_at(s: Seq<char>, f: LexFailure, p: int) -> SpecLexError {
    SpecLexError { message: failure_message(f), line: line_at(s, p), col: col_at(s, p) }
}

pub open spec fn token_at(s: Seq<char>, sc: Scanned, start: int, nl: bool) -> SpecToken {
    SpecToken {
        kind: sc.kind,
        text: s.subrange(sc.text_start, sc.text_end),
        line: line_at(s, start),
        col: col_at(s, start),
        leading_newline: nl,
    }
}

/// Lexing `s` from `i`, after the token `prev`: the remaining tokens (ending
/// in exactly one `Eof`), or the first error.
pub open spec fn lex_from(s: Seq<char>, i: int, prev: Option<(TokenKind, Seq<char>)>) -> Result<
    Seq<SpecToken>,
    SpecLexError,
>
    decreases s.len() - i,
{
    match trivia_end(s, i) {
        Err(p) => Err(error_at(s, LexFailure::UnterminatedBlockComment, p)),
        Ok((q, nl)) => if q < i || q > s.len() {
            Ok(Seq::empty())
        } else if q == s.len() {
            Ok(
                seq![SpecToken { kind: TokenKind::Eof, text: Seq::empty(), line: line_at(s, q), col: col_at(s, q), leading_newline: nl }],
            )
        } else {
            match scan_token(s, q, prev) {
                Err(f) => Err(error_at(s, f, q)),
                Ok(sc) => if q < sc.end <= s.len() {
                    let tok = token_at(s, sc, q, nl);
                    match lex_from(s, sc.end, Some((sc.kind, tok.text))) {
                        Ok(rest) => Ok(seq![tok] + rest),
                        Err(e) => Err(e),
                    }
                } else {
                    Ok(Seq::empty())
                },
            }
        },
    }
}

/// Lexing a whole source.
pub open spec fn spec_tokenize(s: Seq<char>) -> Result<Seq<SpecToken>, SpecLexError> {
    lex_from(s, 0, None)
}

/// Scanning one token never yields the end-of-input kind.
pub proof fn lemma_scan_token_not_eof(s: Seq<char>, i: int, prev: Option<(TokenKind, Seq<char>)>)
    ensures
        scan_token(s, i, prev) matches Ok(sc) ==> sc.kind != TokenKind::Eof,
{
}

} // verus!
