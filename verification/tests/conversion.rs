use exprcalc::error::StructuralError;
use exprcalc::render::rpn_to_string;
use exprcalc::scanner::tokenizer;
use exprcalc::shunting::{generate_rpn, ShuntingYard};
use exprcalc::token::{Function, Operator, Token};

fn postfix(text: &str) -> String {
    rpn_to_string(generate_rpn(tokenizer(text).unwrap()).unwrap())
}

#[test]
fn postfix_text_of_the_long_expression() {
    assert_eq!(
        postfix("3 + 4 * 2 / ( 1 - 5 ) ^ 2 ^ 3"),
        "3 4 2 * 1 5 - 2 3 ^ ^ / + "
    );
}

#[test]
fn postfix_text_of_small_expressions() {
    assert_eq!(postfix("(8/2) - 3 * 2"), "8 2 / 3 2 * - ");
    assert_eq!(postfix("(8/2)+6-4+(6*6)"), "8 2 / 6 + 4 - 6 6 * + ");
    assert_eq!(postfix("2^3^4"), "2 3 4 ^ ^ ");
    assert_eq!(postfix("1-2-3"), "1 2 - 3 - ");
    assert_eq!(postfix("(2+2)! % 5^2"), "2 2 + ! 5 2 ^ % ");
    assert_eq!(postfix(""), "");
}

#[test]
fn functions_wait_on_the_stack() {
    assert_eq!(postfix("sqrt(9)+1"), "9 1 + sqrt ");
    assert_eq!(postfix("sum 1 + 2"), "1 2 + sum ");
    assert_eq!(postfix("average(4)"), "4 average ");
}

#[test]
fn rpn_to_string_writes_every_token() {
    let tokens = vec![
        Token::Number(0),
        Token::Number(-45),
        Token::Number(i64::MAX),
        Token::Number(i64::MIN),
        Token::Number(1000),
        Token::Operator(Operator::Plus),
        Token::Operator(Operator::Minus),
        Token::Operator(Operator::Multiply),
        Token::Operator(Operator::Divide),
        Token::Operator(Operator::Power),
        Token::Operator(Operator::Modulo),
        Token::Operator(Operator::Factorial),
        Token::Operator(Operator::LeftParen),
        Token::Operator(Operator::RightParen),
        Token::Function(Function::Sum),
        Token::Function(Function::Average),
        Token::Function(Function::Sqrt),
    ];
    assert_eq!(
        rpn_to_string(tokens),
        "0 -45 9223372036854775807 -9223372036854775808 1000 + - * / ^ % ! ( ) sum average sqrt "
    );
}

#[test]
fn numbers_are_read_back_from_their_text() {
    for n in [0i64, 7, 10, 99, 100, 12345, i64::MAX] {
        let text = rpn_to_string(vec![Token::Number(n)]);
        assert_eq!(tokenizer(&text), Ok(vec![Token::Number(n)]));
    }
}

#[test]
fn unbalanced_parentheses_are_rejected() {
    let unbalanced = ["(", ")", "(1+2", "1+2)", "((1)", "(1))", ")(", "1+(2*(3-1)"];
    for text in unbalanced {
        assert_eq!(
            generate_rpn(tokenizer(text).unwrap()),
            Err(StructuralError::UnbalancedParens),
            "{}",
            text
        );
    }
}

#[test]
fn balanced_parentheses_are_accepted_and_dropped() {
    let balanced = ["", "()", "(1)", "((1))", "(1)(2)", "(1+2)*(3+4)", "+", "1 2", "(+)"];
    for text in balanced {
        let rpn = generate_rpn(tokenizer(text).unwrap()).unwrap();
        for t in &rpn {
            assert_ne!(*t, Token::Operator(Operator::LeftParen));
            assert_ne!(*t, Token::Operator(Operator::RightParen));
        }
    }
}

#[test]
fn conversion_keeps_every_other_token() {
    let tokens = tokenizer("3 + 4 * 2 / ( 1 - 5 ) ^ 2 ^ 3 ! % sqrt(7)").unwrap();
    let rpn = generate_rpn(tokens.clone()).unwrap();
    let is_paren = |t: &Token| {
        *t == Token::Operator(Operator::LeftParen) || *t == Token::Operator(Operator::RightParen)
    };
    let kept: Vec<Token> = tokens.iter().filter(|t| !is_paren(t)).cloned().collect();
    assert_eq!(rpn.len(), kept.len());
    for t in &kept {
        let before = kept.iter().filter(|x| *x == t).count();
        let after = rpn.iter().filter(|x| *x == t).count();
        assert_eq!(before, after);
    }
    let numbers = |v: &Vec<Token>| -> Vec<i64> {
        v.iter()
            .filter_map(|t| match t {
                Token::Number(n) => Some(*n),
                _ => None,
            })
            .collect()
    };
    assert_eq!(numbers(&rpn), numbers(&tokens));
    assert_eq!(numbers(&rpn), vec![3, 4, 2, 1, 5, 2, 3, 7]);
}

#[test]
fn converter_transitions() {
    let yard = ShuntingYard::new();
    let yard = yard.step(Token::Number(1)).unwrap();
    assert_eq!(yard.output, vec![Token::Number(1)]);
    assert!(yard.stack.is_empty());
    let yard = yard.step(Token::Operator(Operator::Multiply)).unwrap();
    assert_eq!(yard.stack, vec![Token::Operator(Operator::Multiply)]);
    let yard = yard.step(Token::Number(2)).unwrap();
    let yard = yard.step(Token::Operator(Operator::Plus)).unwrap();
    assert_eq!(
        yard.output,
        vec![
            Token::Number(1),
            Token::Number(2),
            Token::Operator(Operator::Multiply)
        ]
    );
    assert_eq!(yard.stack, vec![Token::Operator(Operator::Plus)]);
    let yard = yard.step(Token::Operator(Operator::Power)).unwrap();
    assert_eq!(
        yard.stack,
        vec![
            Token::Operator(Operator::Plus),
            Token::Operator(Operator::Power)
        ]
    );
    let yard = yard.step(Token::Operator(Operator::Power)).unwrap();
    assert_eq!(yard.stack.len(), 3);
    assert!(matches!(
        yard.step(Token::Operator(Operator::RightParen)),
        Err(StructuralError::UnbalancedParens)
    ));
}

#[test]
fn left_parenthesis_stops_the_popping() {
    let yard = ShuntingYard::new();
    let yard = yard.step(Token::Operator(Operator::LeftParen)).unwrap();
    let yard = yard.step(Token::Operator(Operator::Plus)).unwrap();
    assert_eq!(
        yard.stack,
        vec![
            Token::Operator(Operator::LeftParen),
            Token::Operator(Operator::Plus)
        ]
    );
    assert!(yard.output.is_empty());
    let yard = yard.step(Token::Operator(Operator::RightParen)).unwrap();
    assert!(yard.stack.is_empty());
    assert_eq!(yard.output, vec![Token::Operator(Operator::Plus)]);
    assert_eq!(yard.drain(), Ok(vec![Token::Operator(Operator::Plus)]));
}
