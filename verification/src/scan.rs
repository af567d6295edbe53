//! The scanner: token and lexeme types, and the single left-to-right pass
//! that turns source text into tokens. Every function here is proved to
//! return exactly what the model in `model` describes.

use vstd::prelude::*;
use vstd::string::StrSliceExecFns;

use crate::model::LexemeModel;
use crate::model::TokenModel;
use crate::model::binary_end;
use crate::model::comment_end;
use crate::model::decimal_end;
use crate::model::hex_end;
use crate::model::identifier_end;
use crate::model::is_binary_continue;
use crate::model::is_decimal_continue;
use crate::model::is_digit;
use crate::model::is_hex_continue;
use crate::model::is_identifier_char;
use crate::model::is_identifier_start;
use crate::model::is_whitespace;
use crate::model::lexeme_model_len;
use crate::model::number_end;
use crate::model::number_radix;
use crate::model::spec_scan;
use crate::model::with_tokens;
use crate::model::lemma_with_tokens_push;
use crate::model::lemma_with_tokens_empty;
use crate::model::spec_tokenize;
use crate::model::string_close;

verus! {

/// The numeral base a `Number` token's digit text should later be
/// interpreted in.
#[derive(PartialEq, Debug)]
pub enum Radix {
    Binary,
    Hexadecimal,
    Decimal,
}

/// A fatal scanning condition: no token list is produced on these paths.
#[derive(PartialEq, Eq, Structural, Debug, Clone, Copy)]
pub enum ScanError {
    /// The current character begins no recognized token class and is not
    /// whitespace; carries the offending character.
    UnknownCharacter(char),
    /// A string literal's opening quote is never matched by a closing quote
    /// before the end of the input.
    UnterminatedString,
}

/// The kind and content of one token, independent of its position. The text
/// of an `Identifier`, `Number` or `String` is a view into the source.
#[derive(PartialEq, Debug)]
pub enum Lexeme<'a> {
    LeftParen,
    RightParen,
    LeftBracket,
    RightBracket,
    Dot,
    Identifier(&'a str),
    Number(&'a str, Radix),
    String(&'a str),
}

impl<'a> View for Lexeme<'a> {
    type V = LexemeModel;

    open spec fn view(&self) -> LexemeModel {
        match self {
            Lexeme::LeftParen => LexemeModel::LeftParen,
            Lexeme::RightParen => LexemeModel::RightParen,
            Lexeme::LeftBracket => LexemeModel::LeftBracket,
            Lexeme::RightBracket => LexemeModel::RightBracket,
            Lexeme::Dot => LexemeModel::Dot,
            Lexeme::Identifier(text) => LexemeModel::Identifier { text: text@ },
            Lexeme::Number(text, radix) => LexemeModel::Number { text: text@, radix: *radix },
            Lexeme::String(text) => LexemeModel::StrLit { text: text@ },
        }
    }
}

impl<'a> Lexeme<'a> {
    /// The display length: 1 for the fixed tokens, the length of the matched
    /// text otherwise (for a string literal, the delimiting quotes are not
    /// part of the text).
    pub fn len(&self) -> (l: usize)
        ensures
            l == lexeme_model_len(self@),
    {
        match self {
            Lexeme::Identifier(s) | Lexeme::Number(s, _) | Lexeme::String(s) => s.unicode_len(),
            _ => 1,
        }
    }
}

/// One unit of scanner output: a lexeme, the source it was drawn from, and
/// the offset of its first character.
#[derive(Debug)]
pub struct Token<'a> {
    source: &'a str,
    lexeme: Lexeme<'a>,
    start: usize,
}

impl<'a> Token<'a> {
    /// The token as the model sees it: its lexeme and start offset.
    pub closed spec fn model(&self) -> TokenModel {
        TokenModel { lexeme: self.lexeme@, start: self.start as int }
    }

    /// The view of the source text the token was drawn from.
    pub closed spec fn spec_source(&self) -> Seq<char> {
        self.source@
    }

    /// The token lies within its source: the derived end offset never passes
    /// the end of the source text.
    pub open spec fn wf(&self) -> bool {
        self.model().start + lexeme_model_len(self.model().lexeme) <= self.spec_source().len()
            <= usize::MAX
    }

    fn new(source: &'a str, lexeme: Lexeme<'a>, start: usize) -> (t: Token<'a>)
        requires
            start < source@.len(),
            start + lexeme_model_len(lexeme@) <= source@.len() <= usize::MAX,
        ensures
            t.model() == (TokenModel { lexeme: lexeme@, start: start as int }),
            t.spec_source() == source@,
            t.wf(),
    {
        Token { source, lexeme, start }
    }

    /// The original source text the token's content points into.
    pub fn source(&self) -> (s: &'a str)
        ensures
            s@ == self.spec_source(),
    {
        self.source
    }

    /// The classified content of the token.
    pub fn lexeme(&self) -> (l: &Lexeme<'a>)
        ensures
            l@ == self.model().lexeme,
    {
        &self.lexeme
    }

    /// The zero-based offset of the token's first character.
    pub fn start(&self) -> (r: usize)
        ensures
            r == self.model().start,
    {
        self.start
    }

    /// One past the offset of the token's last displayed character:
    /// `start + lexeme.len()`.
    pub fn end(&self) -> (r: usize)
        requires
            self.wf(),
        ensures
            r == self.model().start + lexeme_model_len(self.model().lexeme),
    {
        self.start + self.lexeme.len()
    }
}

fn digit_char(c: char) -> (b: bool)
    ensures
        b == is_digit(c),
{
    let u = c as u32;
    ('0' as u32) <= u && u <= ('9' as u32)
}

fn identifier_start_char(c: char) -> (b: bool)
    ensures
        b == is_identifier_start(c),
{
    let u = c as u32;
    (('a' as u32) <= u && u <= ('z' as u32)) || (('A' as u32) <= u && u <= ('A' as u32) + 25)
        || c == '_'
}

fn identifier_char(c: char) -> (b: bool)
    ensures
        b == is_identifier_char(c),
{
    identifier_start_char(c) || digit_char(c)
}

fn binary_continue_char(c: char) -> (b: bool)
    ensures
        b == is_binary_continue(c),
{
    c == '0' || c == '1' || c == '_'
}

fn decimal_continue_char(c: char) -> (b: bool)
    ensures
        b == is_decimal_continue(c),
{
    digit_char(c) || c == '_'
}

fn hex_continue_char(c: char) -> (b: bool)
    ensures
        b == is_hex_continue(c),
{
    let u = c as u32;
    digit_char(c) || (('a' as u32) <= u && u <= ('f' as u32))
        || (('A' as u32) <= u && u <= ('F' as u32)) || c == '_'
}

fn whitespace_char(c: char) -> (b: bool)
    ensures
        b == is_whitespace(c),
{
    c == ' ' || c == '\t' || c == '\r' || c == '\n'
}

/// Scans an identifier: starting at the letter or underscore at `start_idx`,
/// consumes greedily while the next character is a letter, digit or
/// underscore, and returns the matched lexeme with the position after it.
fn consume_identifier<'a>(source: &'a str, start_idx: usize) -> (r: (Lexeme<'a>, usize))
    requires
        start_idx < source@.len() <= usize::MAX,
        is_identifier_start(source@[start_idx as int]),
    ensures
        r.1 == identifier_end(source@, start_idx + 1),
        start_idx < r.1 <= source@.len(),
        r.0@ == (LexemeModel::Identifier {
            text: source@.subrange(start_idx as int, r.1 as int),
        }),
{
    let n: usize = source.unicode_len();
    let mut idx: usize = start_idx + 1;
    loop
        invariant
            start_idx < idx <= n,
            n == source@.len() <= usize::MAX,
            identifier_end(source@, start_idx + 1) == identifier_end(source@, idx as int),
        decreases n - idx,
    {
        if idx == n {
            let text = source.substring_char(start_idx, idx);
            return (Lexeme::Identifier(text), idx);
        }
        let c = source.get_char(idx);
        if !identifier_char(c) {
            let text = source.substring_char(start_idx, idx);
            return (Lexeme::Identifier(text), idx);
        }
        idx += 1;
    }
}

/// Finishes a binary literal: `start_idx` holds the leading `0` of the `0b`
/// prefix and `pos` stands just past the `b`; consumes the greedy run of
/// `0`, `1` and `_`.
fn finish_binary_number<'a>(source: &'a str, start_idx: usize, pos: usize) -> (r: (
    Lexeme<'a>,
    usize,
))
    requires
        start_idx < pos <= source@.len() <= usize::MAX,
    ensures
        r.1 == binary_end(source@, pos as int),
        start_idx < r.1 <= source@.len(),
        r.0@ == (LexemeModel::Number {
            text: source@.subrange(start_idx as int, r.1 as int),
            radix: Radix::Binary,
        }),
{
    let n: usize = source.unicode_len();
    let mut idx: usize = pos;
    loop
        invariant
            start_idx < pos <= idx <= n,
            n == source@.len() <= usize::MAX,
            binary_end(source@, pos as int) == binary_end(source@, idx as int),
        decreases n - idx,
    {
        if idx == n {
            let text = source.substring_char(start_idx, idx);
            return (Lexeme::Number(text, Radix::Binary), idx);
        }
        let c = source.get_char(idx);
        if !binary_continue_char(c) {
            let text = source.substring_char(start_idx, idx);
            return (Lexeme::Number(text, Radix::Binary), idx);
        }
        idx += 1;
    }
}

/// Finishes a hexadecimal literal: `start_idx` holds the leading `0` of the
/// `0x` prefix and `pos` stands just past the `x`; consumes the greedy run
/// of hexadecimal digits and `_`.
fn finish_hexadecimal_number<'a>(source: &'a str, start_idx: usize, pos: usize) -> (r: (
    Lexeme<'a>,
    usize,
))
    requires
        start_idx < pos <= source@.len() <= usize::MAX,
    ensures
        r.1 == hex_end(source@, pos as int),
        start_idx < r.1 <= source@.len(),
        r.0@ == (LexemeModel::Number {
            text: source@.subrange(start_idx as int, r.1 as int),
            radix: Radix::Hexadecimal,
        }),
{
    let n: usize = source.unicode_len();
    let mut idx: usize = pos;
    loop
        invariant
            start_idx < pos <= idx <= n,
            n == source@.len() <= usize::MAX,
            hex_end(source@, pos as int) == hex_end(source@, idx as int),
        decreases n - idx,
    {
        if idx == n {
            let text = source.substring_char(start_idx, idx);
            return (Lexeme::Number(text, Radix::Hexadecimal), idx);
        }
        let c = source.get_char(idx);
        if !hex_continue_char(c) {
            let text = source.substring_char(start_idx, idx);
            return (Lexeme::Number(text, Radix::Hexadecimal), idx);
        }
        idx += 1;
    }
}

/// Finishes a decimal literal whose text begins at `start_idx`, scanning
/// from `pos` on: consumes digits and underscores greedily, and absorbs at
/// most one dot — the first dot met while not yet in the fractional part is
/// consumed, a second one terminates the literal.
fn finish_decimal_number<'a>(source: &'a str, start_idx: usize, pos: usize, in_frac: bool) -> (r: (
    Lexeme<'a>,
    usize,
))
    requires
        start_idx < pos <= source@.len() <= usize::MAX,
    ensures
        r.1 == decimal_end(source@, pos as int, in_frac),
        start_idx < r.1 <= source@.len(),
        r.0@ == (LexemeModel::Number {
            text: source@.subrange(start_idx as int, r.1 as int),
            radix: Radix::Decimal,
        }),
{
    let n: usize = source.unicode_len();
    let mut idx: usize = pos;
    let mut frac: bool = in_frac;
    loop
        invariant
            start_idx < pos <= idx <= n,
            n == source@.len() <= usize::MAX,
            decimal_end(source@, pos as int, in_frac) == decimal_end(source@, idx as int, frac),
        decreases n - idx,
    {
        if idx == n {
            let text = source.substring_char(start_idx, idx);
            return (Lexeme::Number(text, Radix::Decimal), idx);
        }
        let c = source.get_char(idx);
        if decimal_continue_char(c) {
            idx += 1;
        } else if c == '.' && !frac {
            idx += 1;
            frac = true;
        } else {
            let text = source.substring_char(start_idx, idx);
            return (Lexeme::Number(text, Radix::Decimal), idx);
        }
    }
}

/// Scans a numeric literal beginning with the digit at `start_idx`,
/// dispatching on at most two characters of lookahead: a leading `1`-`9` is
/// always decimal; a leading `0` is followed either by `b` (binary), `x`
/// (hexadecimal), a digit, underscore or dot (decimal), or by nothing that
/// continues a literal, leaving the lone `0`.
fn consume_number<'a>(source: &'a str, start_idx: usize) -> (r: (Lexeme<'a>, usize))
    requires
        start_idx < source@.len() <= usize::MAX,
        is_digit(source@[start_idx as int]),
    ensures
        r.1 == number_end(source@, start_idx as int),
        start_idx < r.1 <= source@.len(),
        r.0@ == (LexemeModel::Number {
            text: source@.subrange(start_idx as int, r.1 as int),
            radix: number_radix(source@, start_idx as int),
        }),
{
    let n: usize = source.unicode_len();
    let c = source.get_char(start_idx);
    if c != '0' {
        return finish_decimal_number(source, start_idx, start_idx + 1, false);
    }
    if start_idx + 1 == n {
        let text = source.substring_char(start_idx, start_idx + 1);
        return (Lexeme::Number(text, Radix::Decimal), start_idx + 1);
    }
    let c1 = source.get_char(start_idx + 1);
    if c1 == 'b' {
        return finish_binary_number(source, start_idx, start_idx + 2);
    }
    if c1 == 'x' {
        return finish_hexadecimal_number(source, start_idx, start_idx + 2);
    }
    if decimal_continue_char(c1) || c1 == '.' {
        return finish_decimal_number(source, start_idx, start_idx + 1, false);
    }
    let text = source.substring_char(start_idx, start_idx + 1);
    (Lexeme::Number(text, Radix::Decimal), start_idx + 1)
}

/// Consumes a comment: the `#` at `start_idx` and everything up to and
/// including the next newline, or to the end of the input. Returns the
/// position after the comment; no token is produced.
fn consume_comment(source: &str, start_idx: usize) -> (r: usize)
    requires
        start_idx < source@.len() <= usize::MAX,
        source@[start_idx as int] == '#',
    ensures
        r == comment_end(source@, start_idx + 1),
        start_idx < r <= source@.len(),
{
    let n: usize = source.unicode_len();
    let mut idx: usize = start_idx + 1;
    loop
        invariant
            start_idx < idx <= n,
            n == source@.len() <= usize::MAX,
            comment_end(source@, start_idx + 1) == comment_end(source@, idx as int),
        decreases n - idx,
    {
        if idx == n {
            return idx;
        }
        let c = source.get_char(idx);
        idx += 1;
        if c == '\n' {
            return idx;
        }
    }
}

/// Scans a string literal whose opening quote stands at `start_idx`. A
/// backslash consumes itself and the following character unconditionally;
/// scanning ends at the first unescaped quote, which is consumed but not
/// included in the literal's text. Reaching the end of the input first is
/// the fatal unterminated-string condition.
fn consume_string<'a>(source: &'a str, start_idx: usize) -> (r: Result<
    (Lexeme<'a>, usize),
    ScanError,
>)
    requires
        start_idx < source@.len() <= usize::MAX,
        source@[start_idx as int] == '"',
    ensures
        match r {
            Ok(p) => {
                &&& string_close(source@, start_idx + 1) == Some(p.1 - 1)
                &&& start_idx + 1 < p.1 <= source@.len()
                &&& p.0@ == (LexemeModel::StrLit {
                    text: source@.subrange(start_idx + 1, p.1 - 1),
                })
            },
            Err(e) => {
                &&& string_close(source@, start_idx + 1) is None
                &&& e == ScanError::UnterminatedString
            },
        },
{
    let n: usize = source.unicode_len();
    let mut idx: usize = start_idx + 1;
    loop
        invariant
            start_idx < idx <= n,
            n == source@.len() <= usize::MAX,
            string_close(source@, start_idx + 1) == string_close(source@, idx as int),
        decreases n - idx,
    {
        if idx == n {
            return Err(ScanError::UnterminatedString);
        }
        let c = source.get_char(idx);
        if c == '"' {
            let text = source.substring_char(start_idx + 1, idx);
            return Ok((Lexeme::String(text), idx + 1));
        }
        if c == '\\' {
            if idx + 1 == n {
                return Err(ScanError::UnterminatedString);
            }
            idx += 2;
        } else {
            idx += 1;
        }
    }
}

/// The models of a sequence of tokens, in order.
pub open spec fn token_models<'a>(tokens: Seq<Token<'a>>) -> Seq<TokenModel> {
    tokens.map_values(|t: Token<'a>| t.model())
}

proof fn lemma_token_models_push<'a>(tokens: Seq<Token<'a>>, t: Token<'a>)
    ensures
        token_models(tokens.push(t)) == token_models(tokens).push(t.model()),
{
    assert(token_models(tokens.push(t)) =~= token_models(tokens).push(t.model()));
}

/// One left-to-right pass over `source`: returns every token in source
/// order, or the fatal condition the scanner meets first — exactly the
/// outcome that `spec_tokenize` gives for the source text. Whitespace and
/// comments are consumed but never emitted, and every returned token lies
/// within `source` and points back into it.
pub fn tokenize<'a>(source: &'a str) -> (r: Result<Vec<Token<'a>>, ScanError>)
    ensures
        match r {
            Ok(tokens) => {
                &&& spec_tokenize(source@) == Ok::<Seq<TokenModel>, ScanError>(
                    token_models(tokens@),
                )
                &&& forall|k: int|
                    0 <= k < tokens@.len() ==> (#[trigger] tokens@[k]).wf()
                        && tokens@[k].spec_source() == source@
            },
            Err(e) => spec_tokenize(source@) == Err::<Seq<TokenModel>, ScanError>(e),
        },
{
    let n: usize = source.unicode_len();
    let mut tokens: Vec<Token<'a>> = Vec::new();
    let mut i: usize = 0;
    while i < n
        invariant
            i <= n,
            n == source@.len() <= usize::MAX,
            spec_scan(source@, 0) == with_tokens(
                token_models(tokens@),
                spec_scan(source@, i as int),
            ),
            forall|k: int|
                0 <= k < tokens@.len() ==> (#[trigger] tokens@[k]).wf() && tokens@[k].spec_source()
                    == source@,
        decreases n - i,
    {
        let ghost s = source@;
        let ghost i0 = i as int;
        let ghost models = token_models(tokens@);
        let c = source.get_char(i);
        if c == '(' {
            let t = Token::new(source, Lexeme::LeftParen, i);
            proof {
                lemma_token_models_push(tokens@, t);
                lemma_with_tokens_push(models, t.model(), spec_scan(s, i0 + 1));
            }
            tokens.push(t);
            i += 1;
        } else if c == ')' {
            let t = Token::new(source, Lexeme::RightParen, i);
            proof {
                lemma_token_models_push(tokens@, t);
                lemma_with_tokens_push(models, t.model(), spec_scan(s, i0 + 1));
            }
            tokens.push(t);
            i += 1;
        } else if c == '[' {
            let t = Token::new(source, Lexeme::LeftBracket, i);
            proof {
                lemma_token_models_push(tokens@, t);
                lemma_with_tokens_push(models, t.model(), spec_scan(s, i0 + 1));
            }
            tokens.push(t);
            i += 1;
        } else if c == ']' {
            let t = Token::new(source, Lexeme::RightBracket, i);
            proof {
                lemma_token_models_push(tokens@, t);
                lemma_with_tokens_push(models, t.model(), spec_scan(s, i0 + 1));
            }
            tokens.push(t);
            i += 1;
        } else if c == '.' {
            let t = Token::new(source, Lexeme::Dot, i);
            proof {
                lemma_token_models_push(tokens@, t);
                lemma_with_tokens_push(models, t.model(), spec_scan(s, i0 + 1));
            }
            tokens.push(t);
            i += 1;
        } else if identifier_start_char(c) {
            let (lex, end) = consume_identifier(source, i);
            let t = Token::new(source, lex, i);
            proof {
                lemma_token_models_push(tokens@, t);
                lemma_with_tokens_push(models, t.model(), spec_scan(s, end as int));
            }
            tokens.push(t);
            i = end;
        } else if digit_char(c) {
            let (lex, end) = consume_number(source, i);
            let t = Token::new(source, lex, i);
            proof {
                lemma_token_models_push(tokens@, t);
                lemma_with_tokens_push(models, t.model(), spec_scan(s, end as int));
            }
            tokens.push(t);
            i = end;
        } else if c == '#' {
            i = consume_comment(source, i);
        } else if c == '"' {
            match consume_string(source, i) {
                Ok((lex, end)) => {
                    let t = Token::new(source, lex, i);
                    proof {
                        lemma_token_models_push(tokens@, t);
                        lemma_with_tokens_push(models, t.model(), spec_scan(s, end as int));
                    }
                    tokens.push(t);
                    i = end;
                },
                Err(e) => {
                    return Err(e);
                },
            }
        } else if whitespace_char(c) {
            i += 1;
        } else {
            return Err(ScanError::UnknownCharacter(c));
        }
    }
    proof {
        lemma_with_tokens_empty(token_models(tokens@));
    }
    Ok(tokens)
}

} // verus!
