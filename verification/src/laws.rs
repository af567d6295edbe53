//! Properties that hold of every scan: the emitted tokens cover the source
//! exactly, in strictly increasing order, with only whitespace and comments
//! between them; every literal's text is the very substring it was scanned
//! from; a numeric literal absorbs at most one dot; the radix of a numeric
//! literal is decided by its first two characters; and scanning is a
//! function of the text alone.

use vstd::prelude::*;

use crate::model::LexemeModel;
use crate::model::TokenModel;
use crate::model::binary_end;
use crate::model::comment_end;
use crate::model::decimal_end;
use crate::model::hex_end;
use crate::model::identifier_end;
use crate::model::is_binary_continue;
use crate::model::is_decimal_continue;
use crate::model::is_hex_continue;
use crate::model::is_digit;
use crate::model::is_identifier_start;
use crate::model::is_whitespace;
use crate::model::lemma_binary_end_bounds;
use crate::model::lemma_comment_end_bounds;
use crate::model::lemma_decimal_end_bounds;
use crate::model::lemma_hex_end_bounds;
use crate::model::lemma_identifier_end_bounds;
use crate::model::lemma_number_end_bounds;
use crate::model::lemma_string_close_bounds;
use crate::model::number_end;
use crate::model::number_radix;
use crate::model::spec_scan;
use crate::model::spec_tokenize;
use crate::model::string_close;
use crate::model::token_span_end;
use crate::scan::Radix;
use crate::scan::ScanError;

verus! {

// ---------------------------------------------------------------------------
// Coverage: tokens and skipped spans partition the source
// ---------------------------------------------------------------------------

/// The span `[i, j)` is exactly what the scanner consumes silently: a
/// sequence of whitespace characters and whole comments (each a `#` with
/// everything up to and including the next newline, or to the end of the
/// input).
pub open spec fn skippable(s: Seq<char>, i: int, j: int) -> bool
    recommends
        0 <= i,
        j <= s.len(),
    decreases j - i
        when 0 <= i && j <= s.len()
        via skippable_decreases
{
    if i >= j {
        i == j
    } else if is_whitespace(s[i]) {
        skippable(s, i + 1, j)
    } else if s[i] == '#' {
        let ce = comment_end(s, i + 1);
        if ce <= j {
            skippable(s, ce, j)
        } else {
            false
        }
    } else {
        false
    }
}

#[via_fn]
proof fn skippable_decreases(s: Seq<char>, i: int, j: int) {
    if 0 <= i && i < j && j <= s.len() {
        lemma_comment_end_bounds(s, i + 1);
    }
}

/// The token stands where it says it stands: its text is the very substring
/// of the source between its start and the end of its greedy run, its first
/// character selects its class, and its whole span lies within the source.
/// For a string literal the span also holds the two delimiting quotes, which
/// are not part of the text.
pub open spec fn token_text_matches(s: Seq<char>, t: TokenModel) -> bool {
    &&& 0 <= t.start < s.len()
    &&& token_span_end(t) <= s.len()
    &&& match t.lexeme {
        LexemeModel::LeftParen => s[t.start] == '(',
        LexemeModel::RightParen => s[t.start] == ')',
        LexemeModel::LeftBracket => s[t.start] == '[',
        LexemeModel::RightBracket => s[t.start] == ']',
        LexemeModel::Dot => s[t.start] == '.',
        LexemeModel::Identifier { text } => {
            &&& is_identifier_start(s[t.start])
            &&& text == s.subrange(t.start, t.start + text.len())
            &&& t.start + text.len() == identifier_end(s, t.start + 1)
        },
        LexemeModel::Number { text, radix } => {
            &&& is_digit(s[t.start])
            &&& text == s.subrange(t.start, t.start + text.len())
            &&& t.start + text.len() == number_end(s, t.start)
            &&& radix == number_radix(s, t.start)
        },
        LexemeModel::StrLit { text } => {
            &&& s[t.start] == '"'
            &&& text == s.subrange(t.start + 1, t.start + 1 + text.len())
            &&& string_close(s, t.start + 1) == Some(t.start + 1 + text.len() as int)
        },
    }
}

/// The tokens cover `[i, s.len())` exactly: before each token and after the
/// last stands only skippable text, each token's text matches the source at
/// its span, and the next token begins where the previous span ends. Nothing
/// is emitted for whitespace or comments, and no two spans overlap.
pub open spec fn covers(s: Seq<char>, toks: Seq<TokenModel>, i: int) -> bool
    decreases toks.len(),
{
    if toks.len() == 0 {
        skippable(s, i, s.len() as int)
    } else {
        &&& skippable(s, i, toks[0].start)
        &&& token_text_matches(s, toks[0])
        &&& covers(s, toks.drop_first(), token_span_end(toks[0]))
    }
}

/// Skippable spans compose: silence up to `m` and silence from `m` on is
/// silence throughout.
proof fn lemma_skippable_trans(s: Seq<char>, i: int, m: int, j: int)
    requires
        0 <= i,
        m <= s.len(),
        j <= s.len(),
        skippable(s, i, m),
        skippable(s, m, j),
    ensures
        skippable(s, i, j),
    decreases m - i,
{
    if i >= m {
        assert(i == m);
    } else if is_whitespace(s[i]) {
        lemma_skippable_trans(s, i + 1, m, j);
    } else {
        let ce = comment_end(s, i + 1);
        lemma_comment_end_bounds(s, i + 1);
        lemma_skippable_trans(s, ce, m, j);
    }
}

/// Prepending a skippable span to a covered one keeps it covered.
proof fn lemma_covers_prepend(s: Seq<char>, toks: Seq<TokenModel>, i: int, m: int)
    requires
        0 <= i,
        m <= s.len(),
        skippable(s, i, m),
        covers(s, toks, m),
    ensures
        covers(s, toks, i),
{
    if toks.len() == 0 {
        lemma_skippable_trans(s, i, m, s.len() as int);
    } else {
        lemma_skippable_trans(s, i, m, toks[0].start);
    }
}

/// One token, then the rest: assembling a cover from its head.
proof fn lemma_covers_cons(s: Seq<char>, t: TokenModel, rest: Seq<TokenModel>, i: int)
    requires
        skippable(s, i, t.start),
        token_text_matches(s, t),
        covers(s, rest, token_span_end(t)),
    ensures
        covers(s, seq![t] + rest, i),
{
    let toks = seq![t] + rest;
    assert(toks[0] == t);
    assert(toks.drop_first() =~= rest);
}

/// The scan from `i` on, where it succeeds, covers `[i, s.len())` exactly.
proof fn lemma_scan_covers(s: Seq<char>, i: int)
    requires
        0 <= i <= s.len(),
        spec_scan(s, i) is Ok,
    ensures
        covers(s, spec_scan(s, i)->Ok_0, i),
    decreases s.len() - i,
{
    if i == s.len() {
        assert(skippable(s, i, i));
    } else {
        let c = s[i];
        if c == '(' || c == ')' || c == '[' || c == ']' || c == '.' {
            let lex = if c == '(' {
                LexemeModel::LeftParen
            } else if c == ')' {
                LexemeModel::RightParen
            } else if c == '[' {
                LexemeModel::LeftBracket
            } else if c == ']' {
                LexemeModel::RightBracket
            } else {
                LexemeModel::Dot
            };
            let t = TokenModel { lexeme: lex, start: i };
            lemma_scan_covers(s, i + 1);
            assert(skippable(s, i, i));
            lemma_covers_cons(s, t, spec_scan(s, i + 1)->Ok_0, i);
        } else if is_identifier_start(c) {
            let e = identifier_end(s, i + 1);
            lemma_identifier_end_bounds(s, i + 1);
            lemma_scan_covers(s, e);
            assert(skippable(s, i, i));
            let text = s.subrange(i, e);
            let t = TokenModel { lexeme: LexemeModel::Identifier { text }, start: i };
            assert(text == s.subrange(t.start, t.start + text.len()));
            lemma_covers_cons(s, t, spec_scan(s, e)->Ok_0, i);
        } else if is_digit(c) {
            let e = number_end(s, i);
            lemma_number_end_bounds(s, i);
            lemma_scan_covers(s, e);
            assert(skippable(s, i, i));
            let text = s.subrange(i, e);
            let t = TokenModel {
                lexeme: LexemeModel::Number { text, radix: number_radix(s, i) },
                start: i,
            };
            assert(text == s.subrange(t.start, t.start + text.len()));
            lemma_covers_cons(s, t, spec_scan(s, e)->Ok_0, i);
        } else if c == '#' {
            let ce = comment_end(s, i + 1);
            lemma_comment_end_bounds(s, i + 1);
            lemma_scan_covers(s, ce);
            assert(skippable(s, ce, ce));
            assert(skippable(s, i, ce));
            lemma_covers_prepend(s, spec_scan(s, ce)->Ok_0, i, ce);
        } else if c == '"' {
            let q = string_close(s, i + 1)->Some_0;
            lemma_string_close_bounds(s, i + 1);
            lemma_scan_covers(s, q + 1);
            assert(skippable(s, i, i));
            let text = s.subrange(i + 1, q);
            let t = TokenModel { lexeme: LexemeModel::StrLit { text }, start: i };
            assert(text == s.subrange(t.start + 1, t.start + 1 + text.len()));
            lemma_covers_cons(s, t, spec_scan(s, q + 1)->Ok_0, i);
        } else {
            assert(is_whitespace(c));
            lemma_scan_covers(s, i + 1);
            assert(skippable(s, i + 1, i + 1));
            assert(skippable(s, i, i + 1));
            lemma_covers_prepend(s, spec_scan(s, i + 1)->Ok_0, i, i + 1);
        }
    }
}

/// Coverage: a successful scan's tokens, in order, cover the whole source
/// exactly — each token's text is the substring at its span, tokens abut
/// only skippable (whitespace and comment) spans, and nothing is emitted for
/// those.
pub proof fn lemma_coverage(s: Seq<char>, toks: Seq<TokenModel>)
    requires
        spec_tokenize(s) == Ok::<Seq<TokenModel>, ScanError>(toks),
    ensures
        covers(s, toks, 0),
{
    lemma_scan_covers(s, 0);
}

/// Every token of a cover matches the source text at its own span.
pub proof fn lemma_covers_all_tokens(s: Seq<char>, toks: Seq<TokenModel>, i: int)
    requires
        covers(s, toks, i),
    ensures
        forall|k: int| 0 <= k < toks.len() ==> token_text_matches(s, #[trigger] toks[k]),
    decreases toks.len(),
{
    if toks.len() > 0 {
        lemma_covers_all_tokens(s, toks.drop_first(), token_span_end(toks[0]));
        assert forall|k: int| 0 <= k < toks.len() implies token_text_matches(
            s,
            #[trigger] toks[k],
        ) by {
            if k > 0 {
                assert(toks[k] == toks.drop_first()[k - 1]);
            }
        }
    }
}

/// Every token consumes at least one source character.
proof fn lemma_token_span_positive(s: Seq<char>, t: TokenModel)
    requires
        token_text_matches(s, t),
    ensures
        t.start < token_span_end(t),
{
    match t.lexeme {
        LexemeModel::Identifier { text } => {
            lemma_identifier_end_bounds(s, t.start + 1);
        },
        LexemeModel::Number { text, radix } => {
            lemma_number_end_bounds(s, t.start);
        },
        _ => {},
    }
}

/// Tokens come in strictly increasing start order, and each begins no
/// earlier than where the previous one's span ends: spans never overlap.
pub proof fn lemma_token_order(s: Seq<char>, toks: Seq<TokenModel>, i: int)
    requires
        covers(s, toks, i),
    ensures
        forall|k: int| 0 <= k < toks.len() ==> i <= (#[trigger] toks[k]).start,
        forall|k: int, l: int|
            0 <= k < l < toks.len() ==> token_span_end(#[trigger] toks[k]) <= (
            #[trigger] toks[l]).start,
        forall|k: int, l: int|
            0 <= k < l < toks.len() ==> (#[trigger] toks[k]).start < (#[trigger] toks[l]).start,
    decreases toks.len(),
{
    if toks.len() > 0 {
        let t = toks[0];
        lemma_token_span_positive(s, t);
        lemma_token_order(s, toks.drop_first(), token_span_end(t));
        assert forall|k: int, l: int|
            0 <= k < l < toks.len() implies token_span_end(#[trigger] toks[k]) <= (
        #[trigger] toks[l]).start by {
            assert(toks[l] == toks.drop_first()[l - 1]);
            if k > 0 {
                assert(toks[k] == toks.drop_first()[k - 1]);
            }
        }
        assert forall|k: int, l: int|
            0 <= k < l < toks.len() implies (#[trigger] toks[k]).start < (
        #[trigger] toks[l]).start by {
            assert(toks[l] == toks.drop_first()[l - 1]);
            if k > 0 {
                assert(toks[k] == toks.drop_first()[k - 1]);
            }
        }
        assert forall|k: int| 0 <= k < toks.len() implies i <= (#[trigger] toks[k]).start by {
            if k > 0 {
                assert(toks[k] == toks.drop_first()[k - 1]);
            }
        }
    }
}

// ---------------------------------------------------------------------------
// Dispatch: the first character of a token decides its class
// ---------------------------------------------------------------------------

/// Radix dispatch: a leading `1`-`9` always makes a decimal literal; a
/// leading `0` is binary before `b`, hexadecimal before `x`, decimal before
/// a digit, underscore or dot, and otherwise stands alone as the complete
/// decimal literal `0`.
pub proof fn lemma_radix_dispatch(s: Seq<char>, i: int)
    requires
        0 <= i < s.len(),
        is_digit(s[i]),
    ensures
        s[i] != '0' ==> number_radix(s, i) == Radix::Decimal,
        s[i] == '0' && i + 1 < s.len() && s[i + 1] == 'b' ==> number_radix(s, i) == Radix::Binary,
        s[i] == '0' && i + 1 < s.len() && s[i + 1] == 'x' ==> number_radix(s, i)
            == Radix::Hexadecimal,
        s[i] == '0' && i + 1 < s.len() && (is_decimal_continue(s[i + 1]) || s[i + 1] == '.')
            ==> number_radix(s, i) == Radix::Decimal && number_end(s, i) == decimal_end(
            s,
            i + 1,
            false,
        ),
        s[i] == '0' && (i + 1 == s.len() || !(s[i + 1] == 'b' || s[i + 1] == 'x'
            || is_decimal_continue(s[i + 1]) || s[i + 1] == '.')) ==> number_end(s, i) == i + 1
            && number_radix(s, i) == Radix::Decimal && s.subrange(i, number_end(s, i)) == seq![
            '0',
        ],
{
    if s[i] == '0' {
        assert(s.subrange(i, i + 1) =~= seq!['0']);
    }
}

/// A leading letter or underscore always routes to identifier mode, never to
/// number mode: the token emitted there is the identifier whose text is the
/// whole greedy run of letters, digits and underscores.
pub proof fn lemma_identifier_dispatch(s: Seq<char>, i: int)
    requires
        0 <= i < s.len(),
        is_identifier_start(s[i]),
        spec_scan(s, i) is Ok,
    ensures
        spec_scan(s, i)->Ok_0.len() > 0,
        spec_scan(s, i)->Ok_0[0] == (TokenModel {
            lexeme: LexemeModel::Identifier { text: s.subrange(i, identifier_end(s, i + 1)) },
            start: i,
        }),
{
}

/// The number token emitted at a leading digit: its text is the source run
/// up to `number_end` and its radix is decided by `number_radix`.
pub proof fn lemma_number_dispatch(s: Seq<char>, i: int)
    requires
        0 <= i < s.len(),
        is_digit(s[i]),
        spec_scan(s, i) is Ok,
    ensures
        spec_scan(s, i)->Ok_0.len() > 0,
        spec_scan(s, i)->Ok_0[0] == (TokenModel {
            lexeme: LexemeModel::Number {
                text: s.subrange(i, number_end(s, i)),
                radix: number_radix(s, i),
            },
            start: i,
        }),
{
}

// ---------------------------------------------------------------------------
// The single-dot rule
// ---------------------------------------------------------------------------

/// How many dots a piece of text holds.
pub open spec fn dot_count(t: Seq<char>) -> int
    decreases t.len(),
{
    if t.len() == 0 {
        0
    } else {
        (if t[0] == '.' {
            1int
        } else {
            0int
        }) + dot_count(t.drop_first())
    }
}

proof fn lemma_dot_count_nonneg(t: Seq<char>)
    ensures
        dot_count(t) >= 0,
    decreases t.len(),
{
    if t.len() > 0 {
        lemma_dot_count_nonneg(t.drop_first());
    }
}

/// Splitting off the first character of a source span splits its dot count.
proof fn lemma_dot_count_step(s: Seq<char>, i: int, j: int)
    requires
        0 <= i < j <= s.len(),
    ensures
        dot_count(s.subrange(i, j)) == (if s[i] == '.' {
            1int
        } else {
            0int
        }) + dot_count(s.subrange(i + 1, j)),
{
    assert(s.subrange(i, j).drop_first() =~= s.subrange(i + 1, j));
    assert(s.subrange(i, j)[0] == s[i]);
}

proof fn lemma_decimal_run_dots(s: Seq<char>, j: int, in_frac: bool)
    requires
        0 <= j <= s.len(),
    ensures
        dot_count(s.subrange(j, decimal_end(s, j, in_frac))) <= (if in_frac {
            0int
        } else {
            1int
        }),
        dot_count(s.subrange(j, decimal_end(s, j, in_frac))) >= 0,
    decreases s.len() - j,
{
    let e = decimal_end(s, j, in_frac);
    lemma_decimal_end_bounds(s, j, in_frac);
    if j >= s.len() {
        assert(dot_count(s.subrange(j, e)) == 0);
    } else if is_decimal_continue(s[j]) {
        lemma_decimal_run_dots(s, j + 1, in_frac);
        lemma_decimal_end_bounds(s, j + 1, in_frac);
        lemma_dot_count_step(s, j, e);
    } else if s[j] == '.' && !in_frac {
        lemma_decimal_run_dots(s, j + 1, true);
        lemma_decimal_end_bounds(s, j + 1, true);
        lemma_dot_count_step(s, j, e);
    } else {
        assert(dot_count(s.subrange(j, e)) == 0);
    }
}

proof fn lemma_binary_run_dots(s: Seq<char>, j: int)
    requires
        0 <= j <= s.len(),
    ensures
        dot_count(s.subrange(j, binary_end(s, j))) == 0,
    decreases s.len() - j,
{
    let e = binary_end(s, j);
    lemma_binary_end_bounds(s, j);
    if j < s.len() && is_binary_continue(s[j]) {
        lemma_binary_run_dots(s, j + 1);
        lemma_binary_end_bounds(s, j + 1);
        lemma_dot_count_step(s, j, e);
    } else {
        assert(dot_count(s.subrange(j, e)) == 0);
    }
}

proof fn lemma_hex_run_dots(s: Seq<char>, j: int)
    requires
        0 <= j <= s.len(),
    ensures
        dot_count(s.subrange(j, hex_end(s, j))) == 0,
    decreases s.len() - j,
{
    let e = hex_end(s, j);
    lemma_hex_end_bounds(s, j);
    if j < s.len() && is_hex_continue(s[j]) {
        lemma_hex_run_dots(s, j + 1);
        lemma_hex_end_bounds(s, j + 1);
        lemma_dot_count_step(s, j, e);
    } else {
        assert(dot_count(s.subrange(j, e)) == 0);
    }
}

/// The text of any numeric literal holds at most one dot.
proof fn lemma_number_dots(s: Seq<char>, i: int)
    requires
        0 <= i < s.len(),
        is_digit(s[i]),
    ensures
        dot_count(s.subrange(i, number_end(s, i))) <= 1,
{
    let e = number_end(s, i);
    lemma_number_end_bounds(s, i);
    if s[i] != '0' {
        lemma_decimal_run_dots(s, i + 1, false);
        lemma_dot_count_step(s, i, e);
    } else if i + 1 < s.len() && s[i + 1] == 'b' {
        lemma_binary_run_dots(s, i + 2);
        lemma_binary_end_bounds(s, i + 2);
        lemma_dot_count_step(s, i, e);
        lemma_dot_count_step(s, i + 1, e);
    } else if i + 1 < s.len() && s[i + 1] == 'x' {
        lemma_hex_run_dots(s, i + 2);
        lemma_hex_end_bounds(s, i + 2);
        lemma_dot_count_step(s, i, e);
        lemma_dot_count_step(s, i + 1, e);
    } else if i + 1 < s.len() && (is_decimal_continue(s[i + 1]) || s[i + 1] == '.') {
        lemma_decimal_run_dots(s, i + 1, false);
        lemma_dot_count_step(s, i, e);
    } else {
        lemma_dot_count_step(s, i, e);
        assert(dot_count(s.subrange(i + 1, e)) == 0);
    }
}

/// Single-dot rule: every `Number` token of a successful scan holds at most
/// one dot in its text — the first dot met outside a fractional part is
/// absorbed, any further dot terminates the literal instead.
pub proof fn lemma_single_dot(s: Seq<char>, toks: Seq<TokenModel>)
    requires
        spec_tokenize(s) == Ok::<Seq<TokenModel>, ScanError>(toks),
    ensures
        forall|k: int|
            0 <= k < toks.len() ==> ((#[trigger] toks[k]).lexeme matches LexemeModel::Number {
                text,
                radix,
            } ==> dot_count(text) <= 1),
{
    lemma_coverage(s, toks);
    lemma_covers_all_tokens(s, toks, 0);
    assert forall|k: int|
        0 <= k < toks.len() implies ((#[trigger] toks[k]).lexeme matches LexemeModel::Number {
        text,
        radix,
    } ==> dot_count(text) <= 1) by {
        let t = toks[k];
        match t.lexeme {
            LexemeModel::Number { text, radix } => {
                lemma_number_dots(s, t.start);
                assert(text == s.subrange(t.start, number_end(s, t.start)));
            },
            _ => {},
        }
    }
}

// ---------------------------------------------------------------------------
// Re-scanning
// ---------------------------------------------------------------------------

/// Idempotence of re-scanning: the scan is a function of the text alone, so
/// two scans of the same text yield structurally equal token sequences.
pub proof fn lemma_rescan_equal(s: Seq<char>, first: Seq<TokenModel>, second: Seq<TokenModel>)
    requires
        spec_tokenize(s) == Ok::<Seq<TokenModel>, ScanError>(first),
        spec_tokenize(s) == Ok::<Seq<TokenModel>, ScanError>(second),
    ensures
        first == second,
{
}

} // verus!
