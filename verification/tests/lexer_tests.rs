use minilang::lexer::{LexError, Lexer, RawToken, Token};

fn lex(src: &str) -> Result<Vec<Token>, LexError> {
    Lexer::new().unwrap().tokenize(src.to_string())
}

#[test]
fn empty_source_is_end_of_input() {
    assert_eq!(lex(""), Ok(vec![Token::EOF]));
}

#[test]
fn declaration_and_print() {
    assert_eq!(
        lex("int x = 2 + 3 * 4 print(x)"),
        Ok(vec![
            Token::Int,
            Token::Name("x".to_string()),
            Token::Assign,
            Token::IntLit(2),
            Token::Plus,
            Token::IntLit(3),
            Token::Times,
            Token::IntLit(4),
            Token::Print,
            Token::OpenParen,
            Token::Name("x".to_string()),
            Token::CloseParen,
            Token::EOF,
        ])
    );
}

#[test]
fn keywords_win_over_names_only_when_whole() {
    assert_eq!(
        lex("if iffy while whiles int ints"),
        Ok(vec![
            Token::If,
            Token::Name("iffy".to_string()),
            Token::While,
            Token::Name("whiles".to_string()),
            Token::Int,
            Token::Name("ints".to_string()),
            Token::EOF,
        ])
    );
}

#[test]
fn double_equals_is_one_token() {
    assert_eq!(
        lex("a==b=c"),
        Ok(vec![
            Token::Name("a".to_string()),
            Token::Equals,
            Token::Name("b".to_string()),
            Token::Assign,
            Token::Name("c".to_string()),
            Token::EOF,
        ])
    );
}

#[test]
fn all_punctuation() {
    assert_eq!(
        lex("(){};=== ><*+"),
        Ok(vec![
            Token::OpenParen,
            Token::CloseParen,
            Token::OpenBrace,
            Token::CloseBrace,
            Token::Semi,
            Token::Equals,
            Token::Assign,
            Token::GT,
            Token::LT,
            Token::Times,
            Token::Plus,
            Token::EOF,
        ])
    );
}

#[test]
fn string_literal_loses_its_quotes() {
    assert_eq!(
        lex("str s = \"hello world\""),
        Ok(vec![
            Token::Str,
            Token::Name("s".to_string()),
            Token::Assign,
            Token::StringLit("hello world".to_string()),
            Token::EOF,
        ])
    );
}

#[test]
fn trailing_white_space_is_dropped() {
    assert_eq!(lex("x \n\t\r "), Ok(vec![Token::Name("x".to_string()), Token::EOF]));
}

#[test]
fn largest_integer_literal() {
    assert_eq!(lex("32767"), Ok(vec![Token::IntLit(32767), Token::EOF]));
    assert_eq!(lex("0032767"), Ok(vec![Token::IntLit(32767), Token::EOF]));
}

#[test]
fn integer_literal_out_of_range() {
    assert_eq!(lex("32768"), Err(LexError::BadNumber));
    assert_eq!(lex("int x = 99999 print(x)"), Err(LexError::BadNumber));
}

#[test]
fn stray_character_is_an_error() {
    assert_eq!(lex("int x = 1 - 2"), Err(LexError::Unrecognized));
    assert_eq!(lex("@"), Err(LexError::Unrecognized));
}

#[test]
fn unterminated_string_is_an_error() {
    assert_eq!(lex("\"abc"), Err(LexError::Unrecognized));
}

#[test]
fn match_token_classifies_whole_text() {
    let lexer = Lexer::new().unwrap();
    assert_eq!(lexer.match_token("print"), Some(RawToken::Print));
    assert_eq!(lexer.match_token("printer"), Some(RawToken::Name));
    assert_eq!(lexer.match_token("12"), Some(RawToken::IntLit));
    assert_eq!(lexer.match_token(" "), Some(RawToken::WhiteSpace));
    assert_eq!(lexer.match_token("  "), None);
    assert_eq!(lexer.match_token(""), None);
    assert_eq!(lexer.match_token("1a"), None);
}

#[test]
fn into_token_keeps_names_and_numbers() {
    assert_eq!(RawToken::Name.into_token("abc"), Ok(Token::Name("abc".to_string())));
    assert_eq!(RawToken::IntLit.into_token("123"), Ok(Token::IntLit(123)));
    assert_eq!(RawToken::IntLit.into_token("40000"), Err(LexError::BadNumber));
    assert_eq!(RawToken::IntLit.into_token(""), Err(LexError::BadNumber));
    assert_eq!(RawToken::StringLit.into_token("\"a\""), Ok(Token::StringLit("a".to_string())));
    assert_eq!(RawToken::StringLit.into_token("\"a\\\"b\""), Ok(Token::StringLit("a\\\"b".to_string())));
    assert_eq!(RawToken::While.into_token("while"), Ok(Token::While));
}

#[test]
fn stream_ends_with_its_only_end_of_input_and_has_no_white_space() {
    for src in ["", " ", "\n\n", "int x = 1\n", "a  b\t\tc \r\n", "print ( x ) ", "\"a b\" \"c\""] {
        let tokens = lex(src).unwrap();
        assert_eq!(tokens.last(), Some(&Token::EOF), "{:?}", src);
        assert_eq!(tokens.iter().filter(|t| **t == Token::EOF).count(), 1, "{:?}", src);
        assert!(tokens.iter().all(|t| *t != Token::WhiteSpace), "{:?}", src);
    }
}

#[test]
fn white_space_inside_a_string_literal_stays() {
    assert_eq!(
        lex("\"a b\tc\""),
        Ok(vec![Token::StringLit("a b\tc".to_string()), Token::EOF])
    );
}

#[test]
fn escaped_quote_inside_a_string_literal() {
    assert_eq!(
        lex("\"a\\\"b\""),
        Ok(vec![Token::StringLit("a\\\"b".to_string()), Token::EOF])
    );
}

#[test]
fn no_token_carries_data_on_its_own() {
    let none: Option<minilang::lexer::DataToken> = None;
    assert!(none.is_none());
    assert_eq!(std::mem::size_of::<minilang::lexer::DataToken>(), 0);
}
