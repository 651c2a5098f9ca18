use rgo::lexer::{tokenize, DelimToken, Keyword, LexErrorKind, Literal, TokenKind};
use rgo::Position;

fn kinds(s: &str) -> Vec<TokenKind> {
    tokenize(s)
        .expect("tokenization should succeed")
        .into_iter()
        .map(|t| t.kind)
        .collect()
}

#[test]
fn single_token_round_trip_delims() {
    assert_eq!(kinds("("), vec![TokenKind::OpenDelim(DelimToken::Paren)]);
    assert_eq!(kinds(")"), vec![TokenKind::CloseDelim(DelimToken::Paren)]);
    assert_eq!(kinds("{"), vec![TokenKind::OpenDelim(DelimToken::Brace)]);
    assert_eq!(kinds("}"), vec![TokenKind::CloseDelim(DelimToken::Brace)]);
    assert_eq!(kinds("["), vec![TokenKind::OpenDelim(DelimToken::Bracket)]);
    assert_eq!(kinds("]"), vec![TokenKind::CloseDelim(DelimToken::Bracket)]);
    assert_eq!(kinds(","), vec![TokenKind::Comma]);
    assert_eq!(kinds("."), vec![TokenKind::Dot]);
    assert_eq!(kinds(";"), vec![TokenKind::Semicolon]);
}

#[test]
fn single_token_round_trip_operators() {
    assert_eq!(kinds("++"), vec![TokenKind::Increment]);
    assert_eq!(kinds("+="), vec![TokenKind::PlusEquals]);
    assert_eq!(kinds("+"), vec![TokenKind::Plus]);
    assert_eq!(kinds("--"), vec![TokenKind::Decrement]);
    assert_eq!(kinds("-="), vec![TokenKind::MinusEquals]);
    assert_eq!(kinds("-"), vec![TokenKind::Minus]);
    assert_eq!(kinds("||"), vec![TokenKind::PipePipe]);
    assert_eq!(kinds("|="), vec![TokenKind::PipeEquals]);
    assert_eq!(kinds("|"), vec![TokenKind::Pipe]);
    assert_eq!(kinds("&&"), vec![TokenKind::AmpAmp]);
    assert_eq!(kinds("&="), vec![TokenKind::AmpEquals]);
    assert_eq!(kinds("&^"), vec![TokenKind::AmpCaret]);
    assert_eq!(kinds("&"), vec![TokenKind::Amp]);
    assert_eq!(kinds("*"), vec![TokenKind::Star]);
    assert_eq!(kinds("*="), vec![TokenKind::StarEquals]);
    assert_eq!(kinds("/"), vec![TokenKind::Slash]);
    assert_eq!(kinds("/="), vec![TokenKind::SlashEquals]);
    assert_eq!(kinds("%"), vec![TokenKind::Percent]);
    assert_eq!(kinds("%="), vec![TokenKind::PercentEquals]);
    assert_eq!(kinds("^"), vec![TokenKind::Caret]);
    assert_eq!(kinds("^="), vec![TokenKind::CaretEquals]);
    assert_eq!(kinds("<"), vec![TokenKind::Lt]);
    assert_eq!(kinds("<="), vec![TokenKind::LtEquals]);
    assert_eq!(kinds("<<"), vec![TokenKind::Shl]);
    assert_eq!(kinds("<-"), vec![TokenKind::LeftArrow]);
    assert_eq!(kinds(">"), vec![TokenKind::Gt]);
    assert_eq!(kinds(">="), vec![TokenKind::GtEquals]);
    assert_eq!(kinds(">>"), vec![TokenKind::Shr]);
    assert_eq!(kinds("="), vec![TokenKind::Equals]);
    assert_eq!(kinds("=="), vec![TokenKind::EqualsEquals]);
    assert_eq!(kinds("!"), vec![TokenKind::Not]);
    assert_eq!(kinds("!="), vec![TokenKind::NotEquals]);
    assert_eq!(kinds(":"), vec![TokenKind::Colon]);
    assert_eq!(kinds(":="), vec![TokenKind::ColonEquals]);
}

#[test]
fn single_token_round_trip_words_and_literals() {
    assert_eq!(kinds("break"), vec![TokenKind::Keyword(Keyword::Break)]);
    assert_eq!(kinds("chan"), vec![TokenKind::Keyword(Keyword::Chan)]);
    assert_eq!(kinds("map"), vec![TokenKind::Keyword(Keyword::MapKw)]);
    assert_eq!(kinds("x"), vec![TokenKind::Ident(String::from("x"))]);
    assert_eq!(
        kinds("\"hi\""),
        vec![TokenKind::Literal(Literal::Str(String::from("hi")))]
    );
    assert_eq!(
        kinds("42"),
        vec![TokenKind::Literal(Literal::Int(String::from("42")))]
    );
    assert_eq!(kinds(" "), vec![TokenKind::Whitespace]);
}

#[test]
fn maximal_munch_pipe_pipe() {
    // One PipePipe token, never two Pipes.
    assert_eq!(kinds("||"), vec![TokenKind::PipePipe]);
    assert_ne!(kinds("||"), vec![TokenKind::Pipe, TokenKind::Pipe]);
}

#[test]
fn keyword_identifier_boundary() {
    assert_eq!(kinds("func"), vec![TokenKind::Keyword(Keyword::Func)]);
    assert_eq!(kinds("funcx"), vec![TokenKind::Ident(String::from("funcx"))]);
}

#[test]
fn token_independence_concatenation() {
    // Tokenizing a run of separable tokens is the concatenation of the
    // independent single-token tokenizations.
    let mut expected = kinds(")");
    expected.extend(kinds("("));
    assert_eq!(kinds(")("), expected);

    let mut expected = kinds("a");
    expected.extend(kinds("+"));
    expected.extend(kinds("1"));
    assert_eq!(kinds("a+1"), expected);

    let mut expected = kinds("+");
    expected.extend(kinds("-"));
    assert_eq!(kinds("+-"), expected);
}

#[test]
fn composability_parens() {
    assert_eq!(
        kinds("()"),
        vec![
            TokenKind::OpenDelim(DelimToken::Paren),
            TokenKind::CloseDelim(DelimToken::Paren)
        ]
    );
}

#[test]
fn whitespace_run_is_one_token() {
    assert_eq!(
        kinds("a  \t\n b"),
        vec![
            TokenKind::Ident(String::from("a")),
            TokenKind::Whitespace,
            TokenKind::Ident(String::from("b"))
        ]
    );
}

#[test]
fn syntactically_invalid_sequences_still_tokenize() {
    assert_eq!(
        kinds(",,"),
        vec![TokenKind::Comma, TokenKind::Comma]
    );
}

#[test]
fn token_positions_track_lines_columns_and_bytes() {
    let toks = tokenize("ab\ncd").expect("tokenization should succeed");
    assert_eq!(toks.len(), 3);
    assert_eq!(toks[0].pos, Position { line: 1, col: 1, offset: 0 });
    // The newline is part of the whitespace token starting after "ab".
    assert_eq!(toks[1].pos, Position { line: 1, col: 3, offset: 2 });
    assert_eq!(toks[2].pos, Position { line: 2, col: 1, offset: 3 });
}

#[test]
fn multibyte_characters_advance_byte_offsets() {
    // 'é' is two bytes in UTF-8 but one column.
    let toks = tokenize("é x").expect("tokenization should succeed");
    assert_eq!(toks[0].pos, Position { line: 1, col: 1, offset: 0 });
    assert_eq!(toks[1].pos, Position { line: 1, col: 2, offset: 2 });
    assert_eq!(toks[2].pos, Position { line: 1, col: 3, offset: 3 });
}

#[test]
fn unexpected_character_is_a_positioned_error() {
    let err = tokenize("a $").expect_err("a dollar sign starts no token");
    assert_eq!(err.kind, LexErrorKind::UnexpectedChar('$'));
    assert_eq!(err.pos, Position { line: 1, col: 3, offset: 2 });
}

#[test]
fn unterminated_string_error_points_at_opening_quote() {
    let err = tokenize("x \"abc").expect_err("the string literal never closes");
    assert_eq!(err.kind, LexErrorKind::UnterminatedString);
    assert_eq!(err.pos, Position { line: 1, col: 3, offset: 2 });
}

#[test]
fn string_literal_body_is_uninterpreted() {
    assert_eq!(
        kinds("\"a b\""),
        vec![TokenKind::Literal(Literal::Str(String::from("a b")))]
    );
}

#[test]
fn integer_runs_munch_maximally() {
    assert_eq!(
        kinds("123a"),
        vec![
            TokenKind::Literal(Literal::Int(String::from("123"))),
            TokenKind::Ident(String::from("a"))
        ]
    );
}

#[test]
fn identifiers_may_contain_digits() {
    assert_eq!(kinds("a1"), vec![TokenKind::Ident(String::from("a1"))]);
}

#[test]
fn char_at_reads_by_byte_offset() {
    // "héllo": h at byte 0, é at byte 1 (two bytes), l at byte 3.
    let s = "héllo";
    assert_eq!(rgo::lexer::char_at(s, 0), 'h');
    assert_eq!(rgo::lexer::char_at(s, 1), 'é');
    assert_eq!(rgo::lexer::char_at(s, 3), 'l');
}

#[test]
fn identifiers_are_unicode_aware() {
    // A non-ASCII alphabetic character starts and continues an identifier.
    assert_eq!(kinds("héllo"), vec![TokenKind::Ident(String::from("héllo"))]);
}
