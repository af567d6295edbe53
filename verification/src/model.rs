//! The mathematical model of the scan: character classes, the shape of a
//! scanned token, and a recursive description of the whole pass, stated over
//! `Seq<char>`. The executable scanner in `scan` is proved to return exactly
//! what `spec_tokenize` describes.

use vstd::prelude::*;

use crate::scan::Radix;
use crate::scan::ScanError;

verus! {

// ---------------------------------------------------------------------------
// Character classes
// ---------------------------------------------------------------------------

/// An ASCII decimal digit `0`-`9`.
pub open spec fn is_digit(c: char) -> bool {
    '0' as u32 <= c as u32 && c as u32 <= '9' as u32
}

/// An ASCII letter `a`-`z` or `A`-`Z`.
pub open spec fn is_letter(c: char) -> bool {
    ('a' as u32 <= c as u32 && c as u32 <= 'z' as u32)
        || ('A' as u32 <= c as u32 && c as u32 <= 'Z' as u32)
}

/// A character that may begin an identifier: a letter or an underscore.
pub open spec fn is_identifier_start(c: char) -> bool {
    is_letter(c) || c == '_'
}

/// A character that may continue an identifier: a letter, a digit or an
/// underscore.
pub open spec fn is_identifier_char(c: char) -> bool {
    is_identifier_start(c) || is_digit(c)
}

/// A character that continues a binary literal's digit run.
pub open spec fn is_binary_continue(c: char) -> bool {
    c == '0' || c == '1' || c == '_'
}

/// A character that continues a decimal literal's digit run (the dot is
/// handled separately).
pub open spec fn is_decimal_continue(c: char) -> bool {
    is_digit(c) || c == '_'
}

/// A character that continues a hexadecimal literal's digit run.
pub open spec fn is_hex_continue(c: char) -> bool {
    is_digit(c) || ('a' as u32 <= c as u32 && c as u32 <= 'f' as u32)
        || ('A' as u32 <= c as u32 && c as u32 <= 'F' as u32) || c == '_'
}

/// A character the scanner consumes silently between tokens.
pub open spec fn is_whitespace(c: char) -> bool {
    c == ' ' || c == '\t' || c == '\r' || c == '\n'
}

// ---------------------------------------------------------------------------
// The shape of a token
// ---------------------------------------------------------------------------

/// The classified content of one token, position-independent: the ghost
/// counterpart of `scan::Lexeme`, with the matched text as a `Seq<char>`.
#[verifier::ext_equal]
pub enum LexemeModel {
    LeftParen,
    RightParen,
    LeftBracket,
    RightBracket,
    Dot,
    Identifier { text: Seq<char> },
    Number { text: Seq<char>, radix: Radix },
    StrLit { text: Seq<char> },
}

/// The display length of a lexeme: 1 for the fixed tokens, the text length
/// otherwise.
pub open spec fn lexeme_model_len(l: LexemeModel) -> nat {
    match l {
        LexemeModel::Identifier { text } => text.len(),
        LexemeModel::Number { text, radix: _ } => text.len(),
        LexemeModel::StrLit { text } => text.len(),
        _ => 1,
    }
}

/// How many source characters a token consumes: its display length, plus the
/// two delimiting quotes of a string literal, which are consumed but are not
/// part of the literal's text.
pub open spec fn lexeme_model_span(l: LexemeModel) -> nat {
    match l {
        LexemeModel::StrLit { text } => text.len() + 2,
        _ => lexeme_model_len(l),
    }
}

/// One scanned token: its lexeme and the offset of its first character.
#[verifier::ext_equal]
pub struct TokenModel {
    pub lexeme: LexemeModel,
    pub start: int,
}

/// The offset one past the last source character the token consumed.
pub open spec fn token_span_end(t: TokenModel) -> int {
    t.start + lexeme_model_span(t.lexeme)
}

// ---------------------------------------------------------------------------
// Greedy runs
// ---------------------------------------------------------------------------

/// The end of the greedy identifier run that is under way at `j`: the first
/// position at or after `j` holding no identifier character, or the end of
/// the input.
pub open spec fn identifier_end(s: Seq<char>, j: int) -> int
    recommends
        0 <= j <= s.len(),
    decreases s.len() - j,
{
    if j >= s.len() {
        s.len() as int
    } else if is_identifier_char(s[j]) {
        identifier_end(s, j + 1)
    } else {
        j
    }
}

/// The end of the greedy binary digit run that is under way at `j`.
pub open spec fn binary_end(s: Seq<char>, j: int) -> int
    recommends
        0 <= j <= s.len(),
    decreases s.len() - j,
{
    if j >= s.len() {
        s.len() as int
    } else if is_binary_continue(s[j]) {
        binary_end(s, j + 1)
    } else {
        j
    }
}

/// The end of the greedy hexadecimal digit run that is under way at `j`.
pub open spec fn hex_end(s: Seq<char>, j: int) -> int
    recommends
        0 <= j <= s.len(),
    decreases s.len() - j,
{
    if j >= s.len() {
        s.len() as int
    } else if is_hex_continue(s[j]) {
        hex_end(s, j + 1)
    } else {
        j
    }
}

/// The end of the greedy decimal run that is under way at `j`. A literal
/// absorbs at most one dot: the first dot met while `in_frac` is false is
/// consumed and scanning continues in the fractional part; any later dot
/// terminates the literal.
pub open spec fn decimal_end(s: Seq<char>, j: int, in_frac: bool) -> int
    recommends
        0 <= j <= s.len(),
    decreases s.len() - j,
{
    if j >= s.len() {
        s.len() as int
    } else if is_decimal_continue(s[j]) {
        decimal_end(s, j + 1, in_frac)
    } else if s[j] == '.' && !in_frac {
        decimal_end(s, j + 1, true)
    } else {
        j
    }
}

/// The position one past the end of the comment whose `#` stands just before
/// `j`: one past the next newline, or the end of the input.
pub open spec fn comment_end(s: Seq<char>, j: int) -> int
    recommends
        0 <= j <= s.len(),
    decreases s.len() - j,
{
    if j >= s.len() {
        s.len() as int
    } else if s[j] == '\n' {
        j + 1
    } else {
        comment_end(s, j + 1)
    }
}

/// The position of the closing quote of the string literal whose opening
/// quote stands just before `j`, or `None` when the input ends first. A
/// backslash consumes itself and the following character unconditionally.
pub open spec fn string_close(s: Seq<char>, j: int) -> Option<int>
    recommends
        0 <= j <= s.len(),
    decreases s.len() - j,
{
    if j >= s.len() {
        None
    } else if s[j] == '"' {
        Some(j)
    } else if s[j] == '\\' {
        if j + 1 >= s.len() {
            None
        } else {
            string_close(s, j + 2)
        }
    } else {
        string_close(s, j + 1)
    }
}

// ---------------------------------------------------------------------------
// Numeric literals
// ---------------------------------------------------------------------------

/// Where the numeric literal beginning with the digit at `i` ends. A leading
/// `1`-`9` always makes a decimal literal; a leading `0` dispatches on the
/// following character: `b` begins a binary run, `x` a hexadecimal run, a
/// digit, underscore or dot continues a decimal literal, and anything else
/// leaves the lone `0` as a complete decimal literal.
pub open spec fn number_end(s: Seq<char>, i: int) -> int
    recommends
        0 <= i < s.len(),
        is_digit(s[i]),
{
    if s[i] != '0' {
        decimal_end(s, i + 1, false)
    } else if i + 1 < s.len() && s[i + 1] == 'b' {
        binary_end(s, i + 2)
    } else if i + 1 < s.len() && s[i + 1] == 'x' {
        hex_end(s, i + 2)
    } else if i + 1 < s.len() && (is_decimal_continue(s[i + 1]) || s[i + 1] == '.') {
        decimal_end(s, i + 1, false)
    } else {
        i + 1
    }
}

/// The radix of the numeric literal beginning with the digit at `i`.
pub open spec fn number_radix(s: Seq<char>, i: int) -> Radix
    recommends
        0 <= i < s.len(),
        is_digit(s[i]),
{
    if s[i] == '0' && i + 1 < s.len() && s[i + 1] == 'b' {
        Radix::Binary
    } else if s[i] == '0' && i + 1 < s.len() && s[i + 1] == 'x' {
        Radix::Hexadecimal
    } else {
        Radix::Decimal
    }
}

// ---------------------------------------------------------------------------
// Bounds of the greedy runs
// ---------------------------------------------------------------------------

pub proof fn lemma_identifier_end_bounds(s: Seq<char>, j: int)
    requires
        0 <= j <= s.len(),
    ensures
        j <= identifier_end(s, j) <= s.len(),
    decreases s.len() - j,
{
    if j < s.len() && is_identifier_char(s[j]) {
        lemma_identifier_end_bounds(s, j + 1);
    }
}

pub proof fn lemma_binary_end_bounds(s: Seq<char>, j: int)
    requires
        0 <= j <= s.len(),
    ensures
        j <= binary_end(s, j) <= s.len(),
    decreases s.len() - j,
{
    if j < s.len() && is_binary_continue(s[j]) {
        lemma_binary_end_bounds(s, j + 1);
    }
}

pub proof fn lemma_hex_end_bounds(s: Seq<char>, j: int)
    requires
        0 <= j <= s.len(),
    ensures
        j <= hex_end(s, j) <= s.len(),
    decreases s.len() - j,
{
    if j < s.len() && is_hex_continue(s[j]) {
        lemma_hex_end_bounds(s, j + 1);
    }
}

pub proof fn lemma_decimal_end_bounds(s: Seq<char>, j: int, in_frac: bool)
    requires
        0 <= j <= s.len(),
    ensures
        j <= decimal_end(s, j, in_frac) <= s.len(),
    decreases s.len() - j,
{
    if j < s.len() {
        if is_decimal_continue(s[j]) {
            lemma_decimal_end_bounds(s, j + 1, in_frac);
        } else if s[j] == '.' && !in_frac {
            lemma_decimal_end_bounds(s, j + 1, true);
        }
    }
}

pub proof fn lemma_comment_end_bounds(s: Seq<char>, j: int)
    requires
        0 <= j <= s.len(),
    ensures
        j <= comment_end(s, j) <= s.len(),
    decreases s.len() - j,
{
    if j < s.len() && s[j] != '\n' {
        lemma_comment_end_bounds(s, j + 1);
    }
}

/// A closing quote, where one exists, stands at or after `j`, within the
/// input, and is itself a quote character.
pub proof fn lemma_string_close_bounds(s: Seq<char>, j: int)
    requires
        0 <= j <= s.len(),
        string_close(s, j) is Some,
    ensures
        j <= string_close(s, j)->Some_0 < s.len(),
        s[string_close(s, j)->Some_0] == '"',
    decreases s.len() - j,
{
    if j < s.len() && s[j] != '"' {
        if s[j] == '\\' {
            if j + 1 < s.len() {
                lemma_string_close_bounds(s, j + 2);
            }
        } else {
            lemma_string_close_bounds(s, j + 1);
        }
    }
}

pub proof fn lemma_number_end_bounds(s: Seq<char>, i: int)
    requires
        0 <= i < s.len(),
    ensures
        i < number_end(s, i) <= s.len(),
{
    if s[i] != '0' {
        lemma_decimal_end_bounds(s, i + 1, false);
    } else if i + 1 < s.len() && s[i + 1] == 'b' {
        lemma_binary_end_bounds(s, i + 2);
    } else if i + 1 < s.len() && s[i + 1] == 'x' {
        lemma_hex_end_bounds(s, i + 2);
    } else if i + 1 < s.len() && (is_decimal_continue(s[i + 1]) || s[i + 1] == '.') {
        lemma_decimal_end_bounds(s, i + 1, false);
    }
}

// ---------------------------------------------------------------------------
// The scan
// ---------------------------------------------------------------------------

/// Prepends one token to the outcome of the rest of a scan; an error swallows
/// the token, since a fatal condition yields no partial token list.
pub open spec fn with_token(
    t: TokenModel,
    r: Result<Seq<TokenModel>, ScanError>,
) -> Result<Seq<TokenModel>, ScanError> {
    match r {
        Ok(rest) => Ok(seq![t] + rest),
        Err(e) => Err(e),
    }
}

/// The scan of `s` from position `i` on: the remaining tokens, or the fatal
/// condition the scanner meets first. One step handles the character at `i`
/// exactly as the scanner's dispatch does.
pub open spec fn spec_scan(s: Seq<char>, i: int) -> Result<Seq<TokenModel>, ScanError>
    recommends
        0 <= i <= s.len(),
    decreases s.len() - i
        when 0 <= i <= s.len()
        via spec_scan_decreases
{
    if i >= s.len() {
        Ok(Seq::empty())
    } else {
        let c = s[i];
        if c == '(' {
            with_token(TokenModel { lexeme: LexemeModel::LeftParen, start: i }, spec_scan(s, i + 1))
        } else if c == ')' {
            with_token(
                TokenModel { lexeme: LexemeModel::RightParen, start: i },
                spec_scan(s, i + 1),
            )
        } else if c == '[' {
            with_token(
                TokenModel { lexeme: LexemeModel::LeftBracket, start: i },
                spec_scan(s, i + 1),
            )
        } else if c == ']' {
            with_token(
                TokenModel { lexeme: LexemeModel::RightBracket, start: i },
                spec_scan(s, i + 1),
            )
        } else if c == '.' {
            with_token(TokenModel { lexeme: LexemeModel::Dot, start: i }, spec_scan(s, i + 1))
        } else if is_identifier_start(c) {
            let e = identifier_end(s, i + 1);
            with_token(
                TokenModel {
                    lexeme: LexemeModel::Identifier { text: s.subrange(i, e) },
                    start: i,
                },
                spec_scan(s, e),
            )
        } else if is_digit(c) {
            let e = number_end(s, i);
            with_token(
                TokenModel {
                    lexeme: LexemeModel::Number {
                        text: s.subrange(i, e),
                        radix: number_radix(s, i),
                    },
                    start: i,
                },
                spec_scan(s, e),
            )
        } else if c == '#' {
            spec_scan(s, comment_end(s, i + 1))
        } else if c == '"' {
            match string_close(s, i + 1) {
                Some(q) => with_token(
                    TokenModel {
                        lexeme: LexemeModel::StrLit { text: s.subrange(i + 1, q) },
                        start: i,
                    },
                    spec_scan(s, q + 1),
                ),
                None => Err(ScanError::UnterminatedString),
            }
        } else if is_whitespace(c) {
            spec_scan(s, i + 1)
        } else {
            Err(ScanError::UnknownCharacter(c))
        }
    }
}

#[via_fn]
proof fn spec_scan_decreases(s: Seq<char>, i: int) {
    if 0 <= i < s.len() {
        lemma_identifier_end_bounds(s, i + 1);
        if is_digit(s[i]) {
            lemma_number_end_bounds(s, i);
        }
        lemma_comment_end_bounds(s, i + 1);
        if s[i] == '"' && string_close(s, i + 1) is Some {
            lemma_string_close_bounds(s, i + 1);
        }
    }
}

/// The whole scan of `s`: every token in left-to-right order, or the fatal
/// condition met first.
pub open spec fn spec_tokenize(s: Seq<char>) -> Result<Seq<TokenModel>, ScanError> {
    spec_scan(s, 0)
}

/// Prepends the tokens already emitted to the outcome of the rest of a scan;
/// an error swallows them, since a fatal condition yields no partial token
/// list.
pub open spec fn with_tokens(
    prefix: Seq<TokenModel>,
    r: Result<Seq<TokenModel>, ScanError>,
) -> Result<Seq<TokenModel>, ScanError> {
    match r {
        Ok(rest) => Ok(prefix + rest),
        Err(e) => Err(e),
    }
}

/// Moving one token from the remaining scan to the emitted prefix changes
/// nothing about the outcome of the whole scan.
pub proof fn lemma_with_tokens_push(
    prefix: Seq<TokenModel>,
    t: TokenModel,
    r: Result<Seq<TokenModel>, ScanError>,
)
    ensures
        with_tokens(prefix, with_token(t, r)) == with_tokens(prefix.push(t), r),
{
    match r {
        Ok(rest) => {
            assert(prefix + (seq![t] + rest) =~= prefix.push(t) + rest);
        },
        Err(_) => {},
    }
}

/// A finished scan leaves exactly the emitted prefix.
pub proof fn lemma_with_tokens_empty(prefix: Seq<TokenModel>)
    ensures
        with_tokens(prefix, Ok(Seq::empty())) == Ok::<Seq<TokenModel>, ScanError>(prefix),
{
    assert(prefix + Seq::<TokenModel>::empty() =~= prefix);
}

} // verus!
