use matheval::ast::{BinOp, Expr, Function, UnOp};
use matheval::error::{get_parse_error_position, ParseError};
use matheval::lexer::{Lexer, Token};
use matheval::parser::{describe_token, Parser};

fn parse_expr(input: &str) -> Result<Expr, ParseError> {
    let mut lexer = Lexer::new(input);
    let mut tokens = Vec::new();
    loop {
        let token = lexer.next_token().unwrap();
        if token.token == Token::EOF {
            tokens.push(token);
            break;
        }
        tokens.push(token);
    }
    let mut parser = Parser::new(tokens);
    parser.parse()
}

fn num(text: &str) -> Box<Expr> {
    Box::new(Expr::Number(text.to_string()))
}

fn var(name: &str) -> Box<Expr> {
    Box::new(Expr::Variable(name.to_string()))
}

fn bin(left: Box<Expr>, op: BinOp, right: Box<Expr>) -> Box<Expr> {
    Box::new(Expr::BinaryOp { left, op, right })
}

#[test]
fn test_simple_addition() {
    let expr = parse_expr("2 + 3").unwrap();
    matches!(expr, Expr::BinaryOp { .. });
}

#[test]
fn parser_test_precedence() {
    let expr = parse_expr("2 + 3 * 4").unwrap();
    // 2 + (3 * 4), no (2 + 3) * 4
    if let Expr::BinaryOp { left, op, right } = expr {
        assert_eq!(op, BinOp::Add);
        matches!(*left, Expr::Number(_));
        matches!(*right, Expr::BinaryOp { .. });
    }
}

#[test]
fn test_function_call() {
    let expr = parse_expr("sin(0)").unwrap();
    if let Expr::FunctionCall { func, args } = expr {
        assert_eq!(func, Function::Sin);
        assert_eq!(args.len(), 1);
        matches!(args[0], Expr::Number(_));
    }
}

#[test]
fn multiplication_binds_tighter_than_addition() {
    assert_eq!(
        parse_expr("2 + 3 * 4").unwrap(),
        *bin(num("2"), BinOp::Add, bin(num("3"), BinOp::Multiply, num("4")))
    );
    assert_eq!(
        parse_expr("(2 + 3) * 4").unwrap(),
        *bin(bin(num("2"), BinOp::Add, num("3")), BinOp::Multiply, num("4"))
    );
}

#[test]
fn addition_and_multiplication_associate_to_the_left() {
    assert_eq!(
        parse_expr("1 - 2 + 3").unwrap(),
        *bin(bin(num("1"), BinOp::Subtract, num("2")), BinOp::Add, num("3"))
    );
    assert_eq!(
        parse_expr("8 / 4 * 2").unwrap(),
        *bin(bin(num("8"), BinOp::Divide, num("4")), BinOp::Multiply, num("2"))
    );
}

#[test]
fn power_associates_to_the_right() {
    assert_eq!(
        parse_expr("2^3^2").unwrap(),
        *bin(num("2"), BinOp::Power, bin(num("3"), BinOp::Power, num("2")))
    );
}

#[test]
fn a_sign_binds_tighter_than_power_and_looser_than_factorial() {
    assert_eq!(
        parse_expr("-2^2").unwrap(),
        *bin(Box::new(Expr::UnaryOp { op: UnOp::Negate, expr: num("2") }), BinOp::Power, num("2"))
    );
    assert_eq!(
        parse_expr("-3!").unwrap(),
        Expr::UnaryOp {
            op: UnOp::Negate,
            expr: Box::new(Expr::PostfixOp { expr: num("3"), op: UnOp::Factorial }),
        }
    );
    assert_eq!(
        parse_expr("2^-3").unwrap(),
        *bin(num("2"), BinOp::Power, Box::new(Expr::UnaryOp { op: UnOp::Negate, expr: num("3") }))
    );
    assert_eq!(parse_expr("+x").unwrap(), Expr::UnaryOp { op: UnOp::Positive, expr: var("x") });
}

#[test]
fn a_primary_takes_one_sign_and_one_factorial() {
    assert!(matches!(parse_expr("--5"), Err(ParseError::UnexpectedToken { position: 1, .. })));
    assert!(matches!(parse_expr("5!!"), Err(ParseError::UnexpectedToken { position: 2, .. })));
    assert_eq!(
        parse_expr("(5!)!").unwrap(),
        Expr::PostfixOp {
            expr: Box::new(Expr::PostfixOp { expr: num("5"), op: UnOp::Factorial }),
            op: UnOp::Factorial,
        }
    );
}

#[test]
fn a_bare_identifier_is_a_variable() {
    assert_eq!(parse_expr("sin").unwrap(), Expr::Variable("sin".to_string()));
    assert_eq!(parse_expr("unknown_name").unwrap(), Expr::Variable("unknown_name".to_string()));
}

#[test]
fn function_names_are_matched_without_regard_to_case() {
    for input in ["sqrt(1)", "SQRT(1)", "SqRt(1)"] {
        assert_eq!(
            parse_expr(input).unwrap(),
            Expr::FunctionCall { func: Function::Sqrt, args: vec![Expr::Number("1".to_string())] }
        );
    }
}

#[test]
fn every_function_name_is_known() {
    let table = [
        ("sin", Function::Sin),
        ("cos", Function::Cos),
        ("tan", Function::Tan),
        ("asin", Function::Asin),
        ("acos", Function::Acos),
        ("atan", Function::Atan),
        ("log", Function::Log),
        ("ln", Function::Ln),
        ("exp", Function::Exp),
        ("sqrt", Function::Sqrt),
        ("abs", Function::Abs),
        ("floor", Function::Floor),
        ("ceil", Function::Ceil),
        ("round", Function::Round),
        ("pow", Function::Pow),
        ("max", Function::Max),
        ("min", Function::Min),
    ];
    for (name, func) in table {
        assert_eq!(Function::from_str(name), Some(func));
        assert_eq!(Function::from_str(&name.to_uppercase()), Some(func));
        assert_eq!(Function::from_lowercase(name), Some(func));
        assert_eq!(Function::from_lowercase(&name.to_uppercase()), None);
        assert_eq!(func.name(), name);
    }
    assert_eq!(Function::from_str("sinh"), None);
    assert_eq!(Function::from_str(""), None);
}

#[test]
fn calls_take_any_number_of_arguments() {
    assert_eq!(parse_expr("max()").unwrap(), Expr::FunctionCall { func: Function::Max, args: vec![] });
    assert_eq!(
        parse_expr("max(1, x, 2 + 3)").unwrap(),
        Expr::FunctionCall {
            func: Function::Max,
            args: vec![Expr::Number("1".to_string()), *var("x"), *bin(num("2"), BinOp::Add, num("3"))],
        }
    );
}

#[test]
fn an_unknown_function_is_a_parse_error() {
    assert_eq!(
        parse_expr("1 + foo(2)"),
        Err(ParseError::InvalidExpression { message: "Unknown function: foo".to_string(), position: 4 })
    );
    // the arguments are read before the name is looked up
    assert_eq!(parse_expr("foo(1 +"), Err(ParseError::UnexpectedEOF { position: 7 }));
}

#[test]
fn assignments() {
    assert_eq!(
        parse_expr("x = 5").unwrap(),
        Expr::Assignment { name: "x".to_string(), value: num("5") }
    );
    assert_eq!(
        parse_expr("a = b = 1 + 2").unwrap(),
        Expr::Assignment {
            name: "a".to_string(),
            value: Box::new(Expr::Assignment {
                name: "b".to_string(),
                value: bin(num("1"), BinOp::Add, num("2")),
            }),
        }
    );
    assert!(matches!(parse_expr("1 = 2"), Err(ParseError::UnexpectedToken { position: 2, .. })));
    assert!(matches!(parse_expr("(x = 2)"), Err(ParseError::UnexpectedToken { position: 3, .. })));
    assert_eq!(parse_expr("x ="), Err(ParseError::UnexpectedEOF { position: 3 }));
}

#[test]
fn malformed_input_is_rejected() {
    assert_eq!(parse_expr(""), Err(ParseError::UnexpectedEOF { position: 0 }));
    assert_eq!(
        parse_expr("2 + * 3"),
        Err(ParseError::UnexpectedToken {
            expected: "an expression".to_string(),
            found: "*".to_string(),
            position: 4,
        })
    );
    assert_eq!(parse_expr("5 /"), Err(ParseError::UnexpectedEOF { position: 3 }));
    assert_eq!(
        parse_expr("2 3"),
        Err(ParseError::UnexpectedToken {
            expected: "end of input".to_string(),
            found: "3".to_string(),
            position: 2,
        })
    );
}

#[test]
fn parentheses_and_commas_must_match() {
    assert_eq!(parse_expr("(1 + 2"), Err(ParseError::UnexpectedEOF { position: 6 }));
    assert_eq!(
        parse_expr("(1 + 2 3"),
        Err(ParseError::UnexpectedToken {
            expected: "')'".to_string(),
            found: "3".to_string(),
            position: 7,
        })
    );
    assert_eq!(
        parse_expr("1 + 2)"),
        Err(ParseError::UnexpectedToken {
            expected: "end of input".to_string(),
            found: ")".to_string(),
            position: 5,
        })
    );
    assert_eq!(
        parse_expr("max(1 2)"),
        Err(ParseError::UnexpectedToken {
            expected: "','".to_string(),
            found: "2".to_string(),
            position: 6,
        })
    );
    assert_eq!(
        parse_expr("max(1,)"),
        Err(ParseError::UnexpectedToken {
            expected: "an expression".to_string(),
            found: ")".to_string(),
            position: 6,
        })
    );
    assert_eq!(parse_expr("max(1,"), Err(ParseError::UnexpectedEOF { position: 6 }));
}

#[test]
fn tokens_without_an_end_marker_end_where_they_end() {
    let mut tokens = Lexer::new("1 +").tokenize().unwrap();
    tokens.pop();
    assert_eq!(Parser::new(tokens).parse(), Err(ParseError::UnexpectedEOF { position: 2 }));
    assert_eq!(Parser::new(Vec::new()).parse(), Err(ParseError::UnexpectedEOF { position: 0 }));
    let mut tokens = Lexer::new("1 + 2").tokenize().unwrap();
    tokens.pop();
    assert_eq!(Parser::new(tokens).parse().unwrap(), *bin(num("1"), BinOp::Add, num("2")));
}

#[test]
fn tokens_are_named_as_they_are_written() {
    assert_eq!(describe_token(&Token::Number("1.5".to_string())), "1.5");
    assert_eq!(describe_token(&Token::Identifier("abc".to_string())), "abc");
    assert_eq!(describe_token(&Token::Plus), "+");
    assert_eq!(describe_token(&Token::Minus), "-");
    assert_eq!(describe_token(&Token::Asterisk), "*");
    assert_eq!(describe_token(&Token::Slash), "/");
    assert_eq!(describe_token(&Token::LParen), "(");
    assert_eq!(describe_token(&Token::RParen), ")");
    assert_eq!(describe_token(&Token::Caret), "^");
    assert_eq!(describe_token(&Token::Exclamation), "!");
    assert_eq!(describe_token(&Token::Comma), ",");
    assert_eq!(describe_token(&Token::Equals), "=");
    assert_eq!(describe_token(&Token::EOF), "end of input");
}

#[test]
fn parse_error_messages_and_positions() {
    let unexpected = ParseError::UnexpectedToken {
        expected: "')'".to_string(),
        found: "3".to_string(),
        position: 7,
    };
    assert_eq!(unexpected.to_string(), "Unexpected token at position 7: expected ')', found 3");
    assert_eq!(get_parse_error_position(&unexpected), 7);
    let eof = ParseError::UnexpectedEOF { position: 120 };
    assert_eq!(eof.to_string(), "Unexpected end of input at position 120");
    assert_eq!(get_parse_error_position(&eof), 120);
    let invalid = ParseError::InvalidExpression { message: "Unknown function: foo".to_string(), position: 0 };
    assert_eq!(invalid.to_string(), "Invalid expression at position 0: Unknown function: foo");
    assert_eq!(get_parse_error_position(&invalid), 0);
}

#[test]
fn a_copy_of_a_tree_equals_the_tree() {
    for input in ["x = -sin(1 + 2, y)! ^ 3", "max()", "7", "a * (b - c) / d"] {
        let tree = parse_expr(input).unwrap();
        assert_eq!(tree.clone(), tree);
        assert_eq!(Expr::duplicate(&tree), tree);
    }
}
