use treewalk::error::ErrorType;
use treewalk::token::{Literal, Token, TokenType};
use treewalk::tokenizer::Tokenizer;

fn tokens(source: &str) -> Vec<Token> {
    Tokenizer::new(source).tokenize().expect("the text has tokens only")
}

fn kinds(source: &str) -> Vec<TokenType> {
    tokens(source).iter().map(|token| token.type_).collect()
}

fn plain(type_: TokenType, lexeme: &str, line: usize) -> Token {
    Token { type_, lexeme: String::from(lexeme), literal: Literal::Null, line }
}

#[test]
fn empty_text_is_the_end_alone() {
    assert_eq!(tokens(""), vec![plain(TokenType::Eof, "", 1)]);
    assert_eq!(tokens(" \t\r"), vec![plain(TokenType::Eof, "", 1)]);
}

#[test]
fn symbols() {
    assert_eq!(
        kinds("( ) { } [ ] , : ; + - * / % ! != = == > >= < <="),
        vec![
            TokenType::LeftParen,
            TokenType::RightParen,
            TokenType::LeftCurly,
            TokenType::RightCurly,
            TokenType::LeftSquare,
            TokenType::RightSquare,
            TokenType::Comma,
            TokenType::Colon,
            TokenType::Semicolon,
            TokenType::Plus,
            TokenType::Minus,
            TokenType::Star,
            TokenType::Slash,
            TokenType::Percent,
            TokenType::Bang,
            TokenType::BangEqual,
            TokenType::Equal,
            TokenType::EqualEqual,
            TokenType::Greater,
            TokenType::GreaterEqual,
            TokenType::Less,
            TokenType::LessEqual,
            TokenType::Eof,
        ]
    );
}

#[test]
fn symbols_take_a_following_equal_sign() {
    assert_eq!(
        tokens("a<=b"),
        vec![
            plain(TokenType::Identifier, "a", 1),
            plain(TokenType::LessEqual, "<=", 1),
            plain(TokenType::Identifier, "b", 1),
            plain(TokenType::Eof, "", 1),
        ]
    );
    assert_eq!(
        kinds("==="),
        vec![TokenType::EqualEqual, TokenType::Equal, TokenType::Eof]
    );
    assert_eq!(kinds("!"), vec![TokenType::Bang, TokenType::Eof]);
}

#[test]
fn keywords_and_names() {
    assert_eq!(
        kinds("and break else false for func if null or print return true var while"),
        vec![
            TokenType::And,
            TokenType::Break,
            TokenType::Else,
            TokenType::False,
            TokenType::For,
            TokenType::Func,
            TokenType::If,
            TokenType::Null,
            TokenType::Or,
            TokenType::Print,
            TokenType::Return,
            TokenType::True,
            TokenType::Var,
            TokenType::While,
            TokenType::Eof,
        ]
    );
    assert_eq!(
        tokens("printer _x1 If"),
        vec![
            plain(TokenType::Identifier, "printer", 1),
            plain(TokenType::Identifier, "_x1", 1),
            plain(TokenType::Identifier, "If", 1),
            plain(TokenType::Eof, "", 1),
        ]
    );
}

fn number(lexeme: &str, line: usize) -> Token {
    Token {
        type_: TokenType::Number,
        lexeme: String::from(lexeme),
        literal: Literal::Number(String::from(lexeme)),
        line,
    }
}

#[test]
fn numbers_keep_their_numerals() {
    assert_eq!(
        tokens("12 3.25 0.5"),
        vec![number("12", 1), number("3.25", 1), number("0.5", 1), plain(TokenType::Eof, "", 1)]
    );
}

#[test]
fn point_without_digits_is_no_part_of_a_number() {
    assert_eq!(
        Tokenizer::new("7.").tokenize(),
        Err(vec![ErrorType::UnexpectedCharacter { character: '.', line: 1 }])
    );
}

#[test]
fn number_before_a_name() {
    assert_eq!(
        tokens("123abc"),
        vec![
            Token {
                type_: TokenType::Number,
                lexeme: String::from("123"),
                literal: Literal::Number(String::from("123")),
                line: 1
            },
            plain(TokenType::Identifier, "abc", 1),
            plain(TokenType::Eof, "", 1),
        ]
    );
}

#[test]
fn strings_hold_their_text() {
    assert_eq!(
        tokens("\"a b\" \"\""),
        vec![
            Token {
                type_: TokenType::String_,
                lexeme: String::from("\"a b\""),
                literal: Literal::String_(String::from("a b")),
                line: 1
            },
            Token {
                type_: TokenType::String_,
                lexeme: String::from("\"\""),
                literal: Literal::String_(String::new()),
                line: 1
            },
            plain(TokenType::Eof, "", 1),
        ]
    );
}

#[test]
fn strings_of_other_alphabets() {
    assert_eq!(
        tokens("x = \"héllo wörld\""),
        vec![
            plain(TokenType::Identifier, "x", 1),
            plain(TokenType::Equal, "=", 1),
            Token {
                type_: TokenType::String_,
                lexeme: String::from("\"héllo wörld\""),
                literal: Literal::String_(String::from("héllo wörld")),
                line: 1
            },
            plain(TokenType::Eof, "", 1),
        ]
    );
}

#[test]
fn lines_are_counted() {
    assert_eq!(
        tokens("a\nb\n\n\"x\ny\" c"),
        vec![
            plain(TokenType::Identifier, "a", 1),
            plain(TokenType::Identifier, "b", 2),
            Token {
                type_: TokenType::String_,
                lexeme: String::from("\"x\ny\""),
                literal: Literal::String_(String::from("x\ny")),
                line: 5
            },
            plain(TokenType::Identifier, "c", 5),
            plain(TokenType::Eof, "", 5),
        ]
    );
}

#[test]
fn unexpected_characters_are_all_reported() {
    assert_eq!(
        Tokenizer::new("a @ b\n# c").tokenize(),
        Err(vec![
            ErrorType::UnexpectedCharacter { character: '@', line: 1 },
            ErrorType::UnexpectedCharacter { character: '#', line: 2 },
        ])
    );
    assert_eq!(
        Tokenizer::new("é").tokenize(),
        Err(vec![ErrorType::UnexpectedCharacter { character: 'é', line: 1 }])
    );
}

#[test]
fn unterminated_string() {
    assert_eq!(
        Tokenizer::new("var a = \"abc").tokenize(),
        Err(vec![ErrorType::UnterminatedString])
    );
    assert_eq!(
        Tokenizer::new("? \"abc").tokenize(),
        Err(vec![
            ErrorType::UnexpectedCharacter { character: '?', line: 1 },
            ErrorType::UnterminatedString
        ])
    );
}
