use pure::scan::tokenize;
use pure::scan::Lexeme;
use pure::scan::Radix;
use pure::scan::ScanError;
use pure::scan::Token;

fn to_lexemes<'a>(tokens: &'a Vec<Token>) -> Vec<&'a Lexeme<'a>> {
    tokens.iter().map(|token| token.lexeme()).collect()
}

#[test]
fn empty_input_yields_no_tokens() {
    let tokens = tokenize("").unwrap();
    assert!(tokens.is_empty());
}

#[test]
fn whitespace_only_yields_no_tokens() {
    let tokens = tokenize(" \t\r\n \n").unwrap();
    assert!(tokens.is_empty());
}

#[test]
fn comment_only_yields_no_tokens() {
    let tokens = tokenize("# nothing to see here").unwrap();
    assert!(tokens.is_empty());
}

#[test]
fn comment_elision() {
    let tokens = tokenize("x #comment\ny").unwrap();
    let lexemes = to_lexemes(&tokens);
    assert_eq!(lexemes.len(), 2);
    assert_eq!(lexemes[0], &Lexeme::Identifier("x"));
    assert_eq!(lexemes[1], &Lexeme::Identifier("y"));
    assert_eq!(tokens[1].start(), 11);
}

#[test]
fn string_escape_pass_through() {
    let tokens = tokenize("\"d\\\"ef\"").unwrap();
    let lexemes = to_lexemes(&tokens);
    assert_eq!(lexemes.len(), 1);
    assert_eq!(lexemes[0], &Lexeme::String("d\\\"ef"));
}

#[test]
fn unterminated_string_is_fatal() {
    assert!(matches!(tokenize("\"a\" \"abc"), Err(ScanError::UnterminatedString)));
}

#[test]
fn backslash_at_end_of_input_is_unterminated() {
    assert!(matches!(tokenize("\"ab\\"), Err(ScanError::UnterminatedString)));
}

#[test]
fn unknown_character_is_fatal() {
    assert!(matches!(tokenize("abc @ def"), Err(ScanError::UnknownCharacter('@'))));
}

#[test]
fn form_feed_is_rejected() {
    assert!(matches!(tokenize("a\u{c}b"), Err(ScanError::UnknownCharacter('\u{c}'))));
}

#[test]
fn unknown_character_inside_comment_is_skipped() {
    let tokens = tokenize("a #@$%\nb").unwrap();
    let lexemes = to_lexemes(&tokens);
    assert_eq!(lexemes.len(), 2);
    assert_eq!(lexemes[0], &Lexeme::Identifier("a"));
    assert_eq!(lexemes[1], &Lexeme::Identifier("b"));
}

#[test]
fn radix_dispatch_lone_zero() {
    let tokens = tokenize("0").unwrap();
    let lexemes = to_lexemes(&tokens);
    assert_eq!(lexemes.len(), 1);
    assert_eq!(lexemes[0], &Lexeme::Number("0", Radix::Decimal));
}

#[test]
fn radix_dispatch_nonzero_is_always_decimal() {
    let tokens = tokenize("29 1b0 2x4").unwrap();
    let lexemes = to_lexemes(&tokens);
    assert_eq!(lexemes[0], &Lexeme::Number("29", Radix::Decimal));
    assert_eq!(lexemes[1], &Lexeme::Number("1", Radix::Decimal));
    assert_eq!(lexemes[2], &Lexeme::Identifier("b0"));
    assert_eq!(lexemes[3], &Lexeme::Number("2", Radix::Decimal));
    assert_eq!(lexemes[4], &Lexeme::Identifier("x4"));
}

#[test]
fn single_dot_rule() {
    let tokens = tokenize("4.3_.5").unwrap();
    let lexemes = to_lexemes(&tokens);
    assert_eq!(lexemes.len(), 3);
    assert_eq!(lexemes[0], &Lexeme::Number("4.3_", Radix::Decimal));
    assert_eq!(lexemes[1], &Lexeme::Dot);
    assert_eq!(lexemes[2], &Lexeme::Number("5", Radix::Decimal));
}

#[test]
fn identifier_never_enters_number_mode() {
    let tokens = tokenize("_0b").unwrap();
    let lexemes = to_lexemes(&tokens);
    assert_eq!(lexemes.len(), 1);
    assert_eq!(lexemes[0], &Lexeme::Identifier("_0b"));
}

#[test]
fn binary_run_stops_at_first_foreign_character() {
    let tokens = tokenize("0b1__b0").unwrap();
    let lexemes = to_lexemes(&tokens);
    assert_eq!(lexemes.len(), 2);
    assert_eq!(lexemes[0], &Lexeme::Number("0b1__", Radix::Binary));
    assert_eq!(lexemes[1], &Lexeme::Identifier("b0"));
}

#[test]
fn token_offsets_and_source() {
    let source = "abc 12 (x)";
    let tokens = tokenize(source).unwrap();
    assert_eq!(tokens.len(), 5);

    assert_eq!(tokens[0].start(), 0);
    assert_eq!(tokens[0].end(), 3);
    assert_eq!(tokens[1].start(), 4);
    assert_eq!(tokens[1].end(), 6);
    assert_eq!(tokens[2].start(), 7);
    assert_eq!(tokens[2].end(), 8);
    assert_eq!(tokens[3].start(), 8);
    assert_eq!(tokens[3].end(), 9);
    assert_eq!(tokens[4].start(), 9);
    assert_eq!(tokens[4].end(), 10);

    for token in &tokens {
        assert_eq!(token.source(), source);
        assert_eq!(token.end(), token.start() + token.lexeme().len());
    }
    // Each non-string token displays the very substring at its span.
    assert_eq!(&source[tokens[0].start()..tokens[0].end()], "abc");
    assert_eq!(&source[tokens[1].start()..tokens[1].end()], "12");
}

#[test]
fn coverage_reconstructs_the_source() {
    // No string literals here, so every token's [start, end) span is its
    // exact source text; the gaps hold only whitespace and the comment.
    let source = "ab (12) #c\nx.y";
    let tokens = tokenize(source).unwrap();

    let mut rebuilt = std::string::String::new();
    let mut pos = 0;
    for token in &tokens {
        assert!(pos <= token.start());
        rebuilt.push_str(&source[pos..token.start()]);
        rebuilt.push_str(&source[token.start()..token.end()]);
        pos = token.end();
    }
    rebuilt.push_str(&source[pos..]);
    assert_eq!(rebuilt, source);

    let starts: Vec<usize> = tokens.iter().map(|t| t.start()).collect();
    let mut sorted = starts.clone();
    sorted.sort();
    sorted.dedup();
    assert_eq!(starts, sorted);
}

#[test]
fn string_token_length_counts_text_between_quotes() {
    let source = "\"ab\"";
    let tokens = tokenize(source).unwrap();
    assert_eq!(tokens.len(), 1);
    assert_eq!(tokens[0].start(), 0);
    assert_eq!(tokens[0].lexeme().len(), 2);
    assert_eq!(tokens[0].end(), 2);
}

#[test]
fn rescan_is_idempotent() {
    let source = "abc 0b1_ \"s\\\"t\" # trailing\n(4.5]";
    let first = tokenize(source).unwrap();
    let second = tokenize(source).unwrap();
    assert_eq!(first.len(), second.len());
    for (a, b) in first.iter().zip(second.iter()) {
        assert_eq!(a.lexeme(), b.lexeme());
        assert_eq!(a.start(), b.start());
        assert_eq!(a.end(), b.end());
    }
}

#[test]
fn fixed_lexemes_have_length_one() {
    let tokens = tokenize("()[].").unwrap();
    assert_eq!(tokens.len(), 5);
    for (i, token) in tokens.iter().enumerate() {
        assert_eq!(token.lexeme().len(), 1);
        assert_eq!(token.start(), i);
        assert_eq!(token.end(), i + 1);
    }
}
