use crust::lexer::source_text::{is_whitespace, parse_i32, take_first_word};
use crust::lexer::{
    keyword_token_definitions, lex, other_token_definitions, select_keyword, select_longest, LexError, Token,
};

fn ident(name: &str) -> Token {
    Token::Identifier(name.to_string())
}

#[test]
fn lex_return_program() {
    let tokens = lex("int main(void) {\n    return 2;\n}\n").unwrap();
    assert_eq!(
        tokens,
        vec![
            Token::Int,
            ident("main"),
            Token::OpenParan,
            Token::Void,
            Token::CloseParan,
            Token::OpenBrace,
            Token::Return,
            Token::Constant(2),
            Token::Semicolon,
            Token::CloseBrace,
        ]
    );
}

#[test]
fn lex_empty_and_blank_text() {
    assert_eq!(lex("").unwrap(), vec![]);
    assert_eq!(lex(" \t\r\n").unwrap(), vec![]);
}

#[test]
fn lex_prefers_longest_match() {
    assert_eq!(lex("a--b").unwrap(), vec![ident("a"), Token::DoubleMinus, ident("b")]);
    assert_eq!(lex("x<=y").unwrap(), vec![ident("x"), Token::LeftAngleBracketEqual, ident("y")]);
    assert_eq!(lex("x>=y").unwrap(), vec![ident("x"), Token::RightAngleBracketEqual, ident("y")]);
    assert_eq!(lex("a==b").unwrap(), vec![ident("a"), Token::DoubleEqual, ident("b")]);
    assert_eq!(lex("a!=b").unwrap(), vec![ident("a"), Token::ExclamationEqual, ident("b")]);
    assert_eq!(lex("!a").unwrap(), vec![Token::Exclamation, ident("a")]);
    assert_eq!(lex("a=b").unwrap(), vec![ident("a"), Token::Equal, ident("b")]);
}

#[test]
fn lex_keywords_only_as_whole_words() {
    assert_eq!(
        lex("int integer return_value returned return").unwrap(),
        vec![Token::Int, ident("integer"), ident("return_value"), ident("returned"), Token::Return]
    );
    assert_eq!(
        lex("if else do while for break continue void").unwrap(),
        vec![
            Token::If,
            Token::Else,
            Token::Do,
            Token::While,
            Token::For,
            Token::Break,
            Token::Continue,
            Token::Void,
        ]
    );
}

#[test]
fn lex_operators_and_punctuation() {
    assert_eq!(
        lex("+ * / % && || < > ? : , ~ - ; { } ( )").unwrap(),
        vec![
            Token::Plus,
            Token::Asterisk,
            Token::ForwardSlash,
            Token::Percent,
            Token::DoubleAmpersands,
            Token::DoubleBar,
            Token::LeftAngleBracket,
            Token::RightAngleBracket,
            Token::QuestionMark,
            Token::Colon,
            Token::Comma,
            Token::Tilde,
            Token::Minus,
            Token::Semicolon,
            Token::OpenBrace,
            Token::CloseBrace,
            Token::OpenParan,
            Token::CloseParan,
        ]
    );
}

#[test]
fn lex_skips_comments() {
    assert_eq!(
        lex("// line comment\nint /* block comment */ a").unwrap(),
        vec![Token::Int, ident("a")]
    );
    assert_eq!(lex("int // to the end").unwrap(), vec![Token::Int]);
}

#[test]
fn lex_white_space_before_text_changes_nothing() {
    assert_eq!(lex(" \n\tint x;").unwrap(), lex("int x;").unwrap());
    assert_eq!(lex("\u{00A0}\u{2003}int").unwrap(), vec![Token::Int]);
}

#[test]
fn lex_constants() {
    assert_eq!(lex("0 42 2147483647").unwrap(), vec![Token::Constant(0), Token::Constant(42), Token::Constant(i32::MAX)]);
}

#[test]
fn lex_constant_out_of_range_is_refused() {
    match lex("return 2147483648;") {
        Err(LexError::InvalidConstant(text)) => assert_eq!(text, "2147483648"),
        other => panic!("unexpected: {:?}", other),
    }
}

#[test]
fn lex_invalid_token_reports_its_word() {
    match lex("int @foo bar") {
        Err(LexError::InvalidToken(word)) => assert_eq!(word, "@foo"),
        other => panic!("unexpected: {:?}", other),
    }
    match lex("1abc") {
        Err(LexError::InvalidToken(word)) => assert_eq!(word, "1abc"),
        other => panic!("unexpected: {:?}", other),
    }
}

#[test]
fn lex_non_ascii_identifier_is_invalid() {
    match lex("int é;") {
        Err(LexError::InvalidToken(word)) => assert_eq!(word, "é;"),
        other => panic!("unexpected: {:?}", other),
    }
}

#[test]
fn token_equality_compares_names_and_values() {
    assert_eq!(ident("a"), ident("a"));
    assert_ne!(ident("a"), ident("b"));
    assert_eq!(Token::Constant(3), Token::Constant(3));
    assert_ne!(Token::Constant(3), Token::Constant(4));
    assert_ne!(Token::Int, Token::Void);
    assert_ne!(ident("int"), Token::Int);
    assert_eq!(Token::Semicolon.clone(), Token::Semicolon);
    assert_eq!(ident("x").clone(), ident("x"));
}

#[test]
fn token_definitions_are_listed() {
    let keywords = keyword_token_definitions();
    assert_eq!(keywords.len(), 10);
    assert_eq!(keywords[0].token_type, Token::Int);
    assert_eq!(keywords[0].pattern, r"^int\b");
    let others = other_token_definitions();
    assert_eq!(others.len(), 27);
    assert_eq!(others[1].token_type, Token::Constant(0));
    assert_eq!(others[1].pattern, r"^[0-9]+\b");
}

#[test]
fn parse_i32_follows_from_str() {
    assert_eq!(parse_i32("0"), Some(0));
    assert_eq!(parse_i32("007"), Some(7));
    assert_eq!(parse_i32("+7"), Some(7));
    assert_eq!(parse_i32("-12"), Some(-12));
    assert_eq!(parse_i32("2147483647"), Some(i32::MAX));
    assert_eq!(parse_i32("-2147483648"), Some(i32::MIN));
    assert_eq!(parse_i32("2147483648"), None);
    assert_eq!(parse_i32("99999999999999999999"), None);
    assert_eq!(parse_i32(""), None);
    assert_eq!(parse_i32("-"), None);
    assert_eq!(parse_i32("+"), None);
    assert_eq!(parse_i32("1 "), None);
    assert_eq!(parse_i32("1_000"), None);
    for text in ["0", "12", "-5", "+3", "2147483647", "-2147483648", "2147483648", "x", "", "--1"] {
        assert_eq!(parse_i32(text), text.parse::<i32>().ok());
    }
}

#[test]
fn white_space_is_the_unicode_property() {
    for c in [' ', '\t', '\n', '\r', '\u{0B}', '\u{0C}', '\u{85}', '\u{A0}', '\u{1680}', '\u{2000}', '\u{200A}', '\u{2028}', '\u{2029}', '\u{202F}', '\u{205F}', '\u{3000}'] {
        assert!(is_whitespace(c));
    }
    for c in ['a', '0', '_', '\u{200B}', '\u{FEFF}', 'é'] {
        assert!(!is_whitespace(c));
    }
    for u in 0u32..0x3100 {
        if let Some(c) = char::from_u32(u) {
            assert_eq!(is_whitespace(c), c.is_whitespace());
        }
    }
}

#[test]
fn first_word_stops_at_white_space() {
    assert_eq!(take_first_word("abc def"), "abc");
    assert_eq!(take_first_word("abc"), "abc");
    assert_eq!(take_first_word("a\u{3000}b"), "a");
}

#[test]
fn select_longest_takes_the_longest_span_and_the_first_on_ties() {
    assert_eq!(select_longest(&vec![]), None);
    assert_eq!(select_longest(&vec![None, None]), None);
    assert_eq!(select_longest(&vec![Some((0, 1)), None, Some((0, 2)), Some((1, 2))]), Some((0, 2, 2)));
    assert_eq!(select_longest(&vec![None, Some((0, 3)), Some((2, 5))]), Some((0, 3, 1)));
    assert_eq!(select_longest(&vec![Some((4, 4)), Some((0, 0))]), Some((4, 4, 0)));
}

#[test]
fn select_keyword_takes_the_first_match() {
    assert_eq!(select_keyword(&vec![]), None);
    assert_eq!(select_keyword(&vec![false, false]), None);
    assert_eq!(select_keyword(&vec![false, true, true]), Some(1));
    assert_eq!(select_keyword(&vec![true]), Some(0));
}
