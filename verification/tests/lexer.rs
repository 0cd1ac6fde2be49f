use nemo::ast::Decimal;
use nemo::lexer::{tokenize, ParseError, Symbol, Token};

fn name(x: &str) -> Token {
    Token::Name(String::from(x))
}

fn whole(n: u64) -> Token {
    Token::Number(Decimal::whole(n))
}

#[test]
fn blanks_separate_tokens_and_mean_nothing_else() {
    assert_eq!(tokenize("").unwrap(), vec![]);
    assert_eq!(tokenize(" \t\r\n").unwrap(), vec![]);
    assert_eq!(tokenize("a b").unwrap(), vec![name("a"), name("b")]);
    assert_eq!(tokenize("  a\n\tb  ").unwrap(), vec![name("a"), name("b")]);
    assert_eq!(
        tokenize("22+foo*2").unwrap(),
        vec![
            whole(22),
            Token::Symbol(Symbol::Plus),
            name("foo"),
            Token::Symbol(Symbol::Star),
            whole(2)
        ]
    );
}

#[test]
fn every_symbol_is_recognised() {
    let text = "( ) { } , ; | + - * / % > < = := -> =>";
    let expected = vec![
        Symbol::LParen,
        Symbol::RParen,
        Symbol::LBrace,
        Symbol::RBrace,
        Symbol::Comma,
        Symbol::Semicolon,
        Symbol::Bar,
        Symbol::Plus,
        Symbol::Minus,
        Symbol::Star,
        Symbol::Slash,
        Symbol::Percent,
        Symbol::Greater,
        Symbol::Less,
        Symbol::Equal,
        Symbol::Assign,
        Symbol::Arrow,
        Symbol::FatArrow,
    ];
    let expected: Vec<Token> = expected.into_iter().map(Token::Symbol).collect();
    assert_eq!(tokenize(text).unwrap(), expected);
}

#[test]
fn every_reserved_word_is_recognised() {
    let text = "if then else while do push pull return true false and or FinishedPipe";
    let expected = vec![
        Symbol::If,
        Symbol::Then,
        Symbol::Else,
        Symbol::While,
        Symbol::Do,
        Symbol::Push,
        Symbol::Pull,
        Symbol::Return,
        Symbol::True,
        Symbol::False,
        Symbol::And,
        Symbol::Or,
        Symbol::FinishedPipe,
    ];
    let expected: Vec<Token> = expected.into_iter().map(Token::Symbol).collect();
    assert_eq!(tokenize(text).unwrap(), expected);
}

#[test]
fn a_word_that_only_begins_like_a_reserved_word_is_a_name() {
    assert_eq!(
        tokenize("ifx iff If do_ _do thenelse").unwrap(),
        vec![name("ifx"), name("iff"), name("If"), name("do_"), name("_do"), name("thenelse")]
    );
    assert_eq!(tokenize("x1 + _").unwrap(), vec![name("x1"), Token::Symbol(Symbol::Plus), name("_")]);
}

#[test]
fn two_character_symbols_win_over_one_character_symbols() {
    assert_eq!(
        tokenize("a->b").unwrap(),
        vec![name("a"), Token::Symbol(Symbol::Arrow), name("b")]
    );
    assert_eq!(
        tokenize("a - > b").unwrap(),
        vec![name("a"), Token::Symbol(Symbol::Minus), Token::Symbol(Symbol::Greater), name("b")]
    );
    assert_eq!(
        tokenize("==>").unwrap(),
        vec![Token::Symbol(Symbol::Equal), Token::Symbol(Symbol::FatArrow)]
    );
}

#[test]
fn numbers_are_kept_without_trailing_zeros() {
    assert_eq!(tokenize("0").unwrap(), vec![whole(0)]);
    assert_eq!(tokenize("007").unwrap(), vec![whole(7)]);
    assert_eq!(tokenize("1.0").unwrap(), vec![whole(1)]);
    assert_eq!(
        tokenize("3.1400").unwrap(),
        vec![Token::Number(Decimal { mantissa: 314, scale: 2 })]
    );
    assert_eq!(
        tokenize("0.001").unwrap(),
        vec![Token::Number(Decimal { mantissa: 1, scale: 3 })]
    );
    // A long tail of zeros does not make a number too large.
    assert_eq!(
        tokenize("18446744073709551615.000000000000000000000").unwrap(),
        vec![whole(18446744073709551615)]
    );
    assert_eq!(
        tokenize("1.5x").unwrap(),
        vec![Token::Number(Decimal { mantissa: 15, scale: 1 }), name("x")]
    );
}

#[test]
fn what_is_no_token_is_an_invalid_token() {
    assert_eq!(tokenize("a ? b"), Err(ParseError::InvalidToken));
    assert_eq!(tokenize("a : b"), Err(ParseError::InvalidToken));
    assert_eq!(tokenize("1."), Err(ParseError::InvalidToken));
    assert_eq!(tokenize(".5"), Err(ParseError::InvalidToken));
    assert_eq!(tokenize("'text'"), Err(ParseError::InvalidToken));
    assert_eq!(tokenize("na\u{ef}ve"), Err(ParseError::InvalidToken));
    assert_eq!(tokenize("18446744073709551616"), Err(ParseError::InvalidToken));
    assert_eq!(tokenize("1844674407370955161.6"), Err(ParseError::InvalidToken));
}
