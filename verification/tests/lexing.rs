use lflc::{Lexer, Token};

fn lex_all(src: &str) -> Vec<Token> {
    let mut lx = Lexer::new(src);
    lx.lex()
}

fn ident(name: &str) -> Token {
    Token::Identifier(name.to_string())
}

fn number(span: &str) -> Token {
    Token::Number(span.to_string())
}

#[test]
fn empty_text_is_one_blank_line() {
    assert_eq!(lex_all(""), vec![Token::Separator]);
}

#[test]
fn whitespace_only_yields_separator_per_line() {
    assert_eq!(
        lex_all("   \n\t\n  "),
        vec![Token::Separator, Token::Separator, Token::Separator]
    );
    assert_eq!(lex_all(" \t "), vec![Token::Separator]);
}

#[test]
fn call_with_numbers() {
    assert_eq!(
        lex_all("foo(1, 2.5)"),
        vec![
            ident("foo"),
            Token::LeftParen,
            number("1"),
            Token::Comma,
            number("2.5"),
            Token::RightParen,
            Token::Separator,
        ]
    );
}

#[test]
fn number_spans_convert_to_floats() {
    let tokens = lex_all("foo(1, 2.5)");
    let values: Vec<f64> = tokens
        .iter()
        .filter_map(|t| match t {
            Token::Number(s) => Some(s.parse::<f64>().expect("numeric span must convert")),
            _ => None,
        })
        .collect();
    assert_eq!(values, vec![1.0, 2.5]);
}

#[test]
fn keyword_prefix_stays_identifier() {
    assert_eq!(lex_all("endpoint"), vec![ident("endpoint"), Token::Separator]);
    assert_eq!(lex_all("island"), vec![ident("island"), Token::Separator]);
    assert_eq!(lex_all("creates"), vec![ident("creates"), Token::Separator]);
    assert_eq!(
        lex_all("end point"),
        vec![Token::BlockEnd, ident("point"), Token::Separator]
    );
}

#[test]
fn keywords_classify_exactly() {
    assert_eq!(
        lex_all("create is action end"),
        vec![
            Token::Create,
            Token::Is,
            Token::Action,
            Token::BlockEnd,
            Token::Separator,
        ]
    );
}

#[test]
fn indentation_round_trip_emits_one_block_end() {
    assert_eq!(
        lex_all("a\n    b\nc"),
        vec![
            ident("a"),
            Token::Separator,
            ident("b"),
            Token::Separator,
            Token::BlockEnd,
            ident("c"),
            Token::Separator,
        ]
    );
}

#[test]
fn double_dedent_emits_two_consecutive_block_ends() {
    assert_eq!(
        lex_all("a\n    b\n        c\nd"),
        vec![
            ident("a"),
            Token::Separator,
            ident("b"),
            Token::Separator,
            ident("c"),
            Token::Separator,
            Token::BlockEnd,
            Token::BlockEnd,
            ident("d"),
            Token::Separator,
        ]
    );
}

#[test]
fn tab_counts_as_one_unit() {
    assert_eq!(
        lex_all("a\n\tb\nc"),
        vec![
            ident("a"),
            Token::Separator,
            ident("b"),
            Token::Separator,
            Token::BlockEnd,
            ident("c"),
            Token::Separator,
        ]
    );
}

#[test]
fn eight_spaces_are_two_units() {
    assert_eq!(
        lex_all("a\n        b\nc"),
        vec![
            ident("a"),
            Token::Separator,
            ident("b"),
            Token::Separator,
            Token::BlockEnd,
            Token::BlockEnd,
            ident("c"),
            Token::Separator,
        ]
    );
}

#[test]
fn short_space_runs_do_not_indent() {
    assert_eq!(
        lex_all("a\n   b"),
        vec![ident("a"), Token::Separator, ident("b"), Token::Separator]
    );
}

#[test]
fn blank_line_keeps_recorded_indentation() {
    assert_eq!(
        lex_all("a\n    b\n\n    c\nd"),
        vec![
            ident("a"),
            Token::Separator,
            ident("b"),
            Token::Separator,
            Token::Separator,
            ident("c"),
            Token::Separator,
            Token::BlockEnd,
            ident("d"),
            Token::Separator,
        ]
    );
}

#[test]
fn unrecognized_character_is_final_token() {
    assert_eq!(lex_all("a@b\nc"), vec![ident("a"), Token::LexError]);
    assert_eq!(lex_all("@x"), vec![Token::LexError]);
}

#[test]
fn lexing_is_idempotent() {
    let src = "create point\n    x is 1.5\n    y is 2!\nend";
    assert_eq!(lex_all(src), lex_all(src));
}

#[test]
fn number_edge_cases() {
    assert_eq!(lex_all(".5"), vec![number(".5"), Token::Separator]);
    assert_eq!(lex_all("5."), vec![number("5."), Token::Separator]);
    assert_eq!(".5".parse::<f64>().unwrap(), 0.5);
    assert_eq!("5.".parse::<f64>().unwrap(), 5.0);
    assert_eq!(lex_all("."), vec![Token::Period, Token::Separator]);
    assert_eq!(lex_all("1.2.3"), vec![Token::LexError]);
    assert_eq!(lex_all("1a2"), vec![Token::LexError]);
}

#[test]
fn punctuation_and_operators() {
    assert_eq!(
        lex_all("x: y!"),
        vec![ident("x"), Token::Colon, ident("y"), Token::Yell, Token::Separator]
    );
    assert_eq!(
        lex_all("1+2*3"),
        vec![
            number("1"),
            Token::BinaryOp('+'),
            number("2"),
            Token::BinaryOp('*'),
            number("3"),
            Token::Separator,
        ]
    );
    assert_eq!(
        lex_all("a-b/c"),
        vec![
            ident("a"),
            Token::BinaryOp('-'),
            ident("b"),
            Token::BinaryOp('/'),
            ident("c"),
            Token::Separator,
        ]
    );
    assert_eq!(
        lex_all("(p, q)"),
        vec![
            Token::LeftParen,
            ident("p"),
            Token::Comma,
            ident("q"),
            Token::RightParen,
            Token::Separator,
        ]
    );
    assert_eq!(lex_all("a.x"), vec![ident("a"), Token::Period, ident("x"), Token::Separator]);
    // After `.` a hexadecimal letter opens a numeric span, which is then
    // rejected for holding no decimal digit.
    assert_eq!(lex_all("a.b"), vec![ident("a"), Token::LexError]);
}

#[test]
fn semicolon_separates_within_a_line() {
    assert_eq!(
        lex_all("a; b\nc"),
        vec![
            ident("a"),
            Token::Separator,
            ident("b"),
            Token::Separator,
            ident("c"),
            Token::Separator,
        ]
    );
    assert_eq!(lex_all(";;"), vec![Token::Separator, Token::Separator, Token::Separator]);
}

#[test]
fn carriage_return_is_whitespace() {
    assert_eq!(
        lex_all("a\r\nb"),
        vec![ident("a"), Token::Separator, ident("b"), Token::Separator]
    );
}

#[test]
fn identifiers_continue_with_unicode_alphanumerics() {
    // An identifier must open with an ASCII letter or `_`, but continues
    // through any Unicode letter or number.
    assert_eq!(lex_all("caf\u{e9}"), vec![ident("caf\u{e9}"), Token::Separator]);
    assert_eq!(lex_all("\u{e9}"), vec![Token::LexError]);
}

#[test]
fn next_token_drains_then_stays_exhausted() {
    let mut lx = Lexer::new("x");
    assert_eq!(lx.next_token(), Some(ident("x")));
    assert_eq!(lx.next_token(), Some(Token::Separator));
    assert_eq!(lx.next_token(), None);
    assert_eq!(lx.next_token(), None);
}

#[test]
fn next_token_halts_after_error() {
    let mut lx = Lexer::new("@\nrest");
    assert_eq!(lx.next_token(), Some(Token::LexError));
    assert_eq!(lx.next_token(), None);
}

#[test]
fn next_token_and_lex_agree() {
    let src = "create point\n    x is 1\nend";
    let mut incremental = Lexer::new(src);
    let mut collected = Vec::new();
    while let Some(t) = incremental.next_token() {
        collected.push(t);
    }
    assert_eq!(collected, lex_all(src));
}
