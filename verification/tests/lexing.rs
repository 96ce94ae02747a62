use exprcalc::error::LexError;
use exprcalc::lexer::{parse_number, to_token, TokenState};
use exprcalc::scanner::{tokenizer, Scanner};
use exprcalc::token::{
    get_op_associativity, get_op_precedence, Assoc, Function, Operator, Token,
};

fn chars(s: &str) -> Vec<char> {
    s.chars().collect()
}

#[test]
fn precedence_table() {
    assert_eq!(get_op_precedence(&Token::Operator(Operator::Plus)), 2);
    assert_eq!(get_op_precedence(&Token::Operator(Operator::Minus)), 2);
    assert_eq!(get_op_precedence(&Token::Operator(Operator::Multiply)), 3);
    assert_eq!(get_op_precedence(&Token::Operator(Operator::Divide)), 3);
    assert_eq!(get_op_precedence(&Token::Operator(Operator::Modulo)), 3);
    assert_eq!(get_op_precedence(&Token::Operator(Operator::Power)), 4);
    assert_eq!(get_op_precedence(&Token::Operator(Operator::LeftParen)), 5);
    assert_eq!(get_op_precedence(&Token::Operator(Operator::RightParen)), 5);
    assert_eq!(get_op_precedence(&Token::Operator(Operator::Factorial)), 6);
    assert_eq!(get_op_precedence(&Token::Number(7)), -1);
    assert_eq!(get_op_precedence(&Token::Function(Function::Sum)), -1);
}

#[test]
fn associativity_table() {
    for op in [
        Operator::Plus,
        Operator::Minus,
        Operator::Multiply,
        Operator::Divide,
        Operator::Modulo,
    ] {
        assert_eq!(get_op_associativity(&Token::Operator(op)), Assoc::Left);
    }
    assert_eq!(
        get_op_associativity(&Token::Operator(Operator::Power)),
        Assoc::Right
    );
    for op in [
        Operator::Factorial,
        Operator::LeftParen,
        Operator::RightParen,
    ] {
        assert_eq!(get_op_associativity(&Token::Operator(op)), Assoc::Invalid);
    }
    assert_eq!(get_op_associativity(&Token::Number(1)), Assoc::Invalid);
    assert_eq!(
        get_op_associativity(&Token::Function(Function::Sqrt)),
        Assoc::Invalid
    );
}

#[test]
fn parse_number_reads_digits() {
    assert_eq!(parse_number(&chars("0")), Some(0));
    assert_eq!(parse_number(&chars("12")), Some(12));
    assert_eq!(parse_number(&chars("007")), Some(7));
    assert_eq!(
        parse_number(&chars("9223372036854775807")),
        Some(i64::MAX)
    );
}

#[test]
fn parse_number_rejects_what_is_no_number() {
    assert_eq!(parse_number(&chars("")), None);
    assert_eq!(parse_number(&chars("9223372036854775808")), None);
    assert_eq!(parse_number(&chars("99999999999999999999999")), None);
    assert_eq!(parse_number(&chars("12a")), None);
    assert_eq!(parse_number(&chars("-5")), None);
}

#[test]
fn to_token_reads_each_kind_of_buffer() {
    assert_eq!(
        to_token(TokenState::InNumber, &chars("42")),
        Ok(Token::Number(42))
    );
    assert_eq!(
        to_token(TokenState::InWord, &chars("sum")),
        Ok(Token::Function(Function::Sum))
    );
    assert_eq!(
        to_token(TokenState::InWord, &chars("average")),
        Ok(Token::Function(Function::Average))
    );
    assert_eq!(
        to_token(TokenState::InWord, &chars("sqrt")),
        Ok(Token::Function(Function::Sqrt))
    );
    let symbols = [
        ('+', Operator::Plus),
        ('-', Operator::Minus),
        ('*', Operator::Multiply),
        ('/', Operator::Divide),
        ('^', Operator::Power),
        ('%', Operator::Modulo),
        ('!', Operator::Factorial),
        ('(', Operator::LeftParen),
        (')', Operator::RightParen),
    ];
    for (c, op) in symbols {
        assert_eq!(
            to_token(TokenState::InSymbol, &vec![c]),
            Ok(Token::Operator(op))
        );
    }
}

#[test]
fn to_token_failures() {
    assert_eq!(
        to_token(TokenState::InWord, &chars("cos")),
        Err(LexError::UnknownWord)
    );
    assert_eq!(
        to_token(TokenState::InWord, &chars("Sum")),
        Err(LexError::UnknownWord)
    );
    assert_eq!(
        to_token(TokenState::InNumber, &chars("9223372036854775808")),
        Err(LexError::InvalidNumber)
    );
    assert_eq!(
        to_token(TokenState::InSymbol, &chars("++")),
        Err(LexError::BrokenScanner)
    );
    assert_eq!(
        to_token(TokenState::InSymbol, &chars("a")),
        Err(LexError::BrokenScanner)
    );
    assert_eq!(
        to_token(TokenState::Idle, &chars("1")),
        Err(LexError::BrokenScanner)
    );
}

#[test]
fn tokenizer_of_empty_text_and_spaces() {
    assert_eq!(tokenizer(""), Ok(vec![]));
    assert_eq!(tokenizer("   "), Ok(vec![]));
}

#[test]
fn tokenizer_adjacent_tokens() {
    assert_eq!(
        tokenizer("4!"),
        Ok(vec![Token::Number(4), Token::Operator(Operator::Factorial)])
    );
    assert_eq!(
        tokenizer("(2+2)!"),
        Ok(vec![
            Token::Operator(Operator::LeftParen),
            Token::Number(2),
            Token::Operator(Operator::Plus),
            Token::Number(2),
            Token::Operator(Operator::RightParen),
            Token::Operator(Operator::Factorial),
        ])
    );
    assert_eq!(
        tokenizer("2sqrt3"),
        Ok(vec![
            Token::Number(2),
            Token::Function(Function::Sqrt),
            Token::Number(3)
        ])
    );
}

#[test]
fn tokenizer_space_does_not_end_a_run() {
    assert_eq!(tokenizer("1 2"), Ok(vec![Token::Number(12)]));
    assert_eq!(
        tokenizer("s u m"),
        Ok(vec![Token::Function(Function::Sum)])
    );
    assert_eq!(tokenizer(" 1 2 + 3 "), tokenizer("12+3"));
}

#[test]
fn tokenizer_folds_letters_to_lower_case() {
    assert_eq!(
        tokenizer("SUM"),
        Ok(vec![Token::Function(Function::Sum)])
    );
    assert_eq!(
        tokenizer("Sqrt(4)"),
        Ok(vec![
            Token::Function(Function::Sqrt),
            Token::Operator(Operator::LeftParen),
            Token::Number(4),
            Token::Operator(Operator::RightParen),
        ])
    );
    assert_eq!(
        tokenizer("1+aVeRaGe"),
        Ok(vec![
            Token::Number(1),
            Token::Operator(Operator::Plus),
            Token::Function(Function::Average)
        ])
    );
}

#[test]
fn tokenizer_failures() {
    assert_eq!(tokenizer("1 & 2"), Err(LexError::UnrecognizedChar('&')));
    assert_eq!(tokenizer("1.5"), Err(LexError::UnrecognizedChar('.')));
    assert_eq!(tokenizer("2\u{00d7}3"), Err(LexError::UnrecognizedChar('\u{00d7}')));
    assert_eq!(tokenizer("cos(1)"), Err(LexError::UnknownWord));
    assert_eq!(tokenizer("summ"), Err(LexError::UnknownWord));
    assert_eq!(
        tokenizer("9223372036854775808"),
        Err(LexError::InvalidNumber)
    );
    assert_eq!(
        tokenizer("9223372036854775807"),
        Ok(vec![Token::Number(i64::MAX)])
    );
}

#[test]
fn tokenizer_reports_the_first_failure() {
    assert_eq!(tokenizer("abc+$"), Err(LexError::UnknownWord));
    assert_eq!(tokenizer("abc$"), Err(LexError::UnrecognizedChar('$')));
}

#[test]
fn scanner_transitions() {
    let s = Scanner::new();
    assert_eq!(s.state, TokenState::Idle);
    let s = s.on_digit('1').unwrap();
    assert_eq!(s.state, TokenState::InNumber);
    assert_eq!(s.buf, vec!['1']);
    let s = s.on_digit('2').unwrap();
    assert_eq!(s.buf, vec!['1', '2']);
    assert!(s.tokens.is_empty());
    let s = s.on_symbol('+').unwrap();
    assert_eq!(s.state, TokenState::InSymbol);
    assert_eq!(s.buf, vec!['+']);
    assert_eq!(s.tokens, vec![Token::Number(12)]);
    let s = s.on_letter('S').unwrap();
    assert_eq!(s.state, TokenState::InWord);
    assert_eq!(s.buf, vec!['s']);
    let s = s.step(' ').unwrap();
    assert_eq!(s.state, TokenState::InWord);
    let s = s.step('U').unwrap().step('m').unwrap();
    assert_eq!(s.buf, vec!['s', 'u', 'm']);
    assert_eq!(
        s.finish(),
        Ok(vec![
            Token::Number(12),
            Token::Operator(Operator::Plus),
            Token::Function(Function::Sum)
        ])
    );
}

#[test]
fn scanner_with_an_empty_buffer_outside_idle_is_broken() {
    let broken = Scanner {
        tokens: vec![],
        buf: vec![],
        state: TokenState::InWord,
    };
    assert!(matches!(broken.on_digit('1'), Err(LexError::BrokenScanner)));
    let broken = Scanner {
        tokens: vec![],
        buf: vec![],
        state: TokenState::InNumber,
    };
    assert!(matches!(broken.on_letter('a'), Err(LexError::BrokenScanner)));
    let broken = Scanner {
        tokens: vec![],
        buf: vec!['1'],
        state: TokenState::Idle,
    };
    assert!(matches!(broken.on_symbol('+'), Err(LexError::BrokenScanner)));
}
