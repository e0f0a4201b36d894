use matheval::ast::{BinOp, Expr};
use matheval::context::AngleMode;
use matheval::error::{EvalError, LexError, ParseError};
use matheval::pipeline::{marker_line, parse_input, Failure};

#[test]
fn a_line_that_parses_gives_its_tree() {
    assert_eq!(
        parse_input("x = 1 + 2"),
        Ok(Expr::Assignment {
            name: "x".to_string(),
            value: Box::new(Expr::BinaryOp {
                left: Box::new(Expr::Number("1".to_string())),
                op: BinOp::Add,
                right: Box::new(Expr::Number("2".to_string())),
            }),
        })
    );
}

#[test]
fn the_first_stage_that_fails_is_reported() {
    assert_eq!(parse_input("1 + $"), Err(Failure::Lexing(LexError::UnexpectedCharacter('$', 4))));
    assert_eq!(parse_input("(1 + ."), Err(Failure::Lexing(LexError::InvalidNumber(".".to_string()))));
    assert_eq!(parse_input("(1 +"), Err(Failure::Parsing(ParseError::UnexpectedEOF { position: 4 })));
    assert_eq!(parse_input(""), Err(Failure::Parsing(ParseError::UnexpectedEOF { position: 0 })));
}

#[test]
fn malformed_lines_are_rejected() {
    for input in ["", "2 + * 3", "5 /", "2 3", "(", ")", "1 +", "sin(", "sin(1", "foo(1)", "1 2 3", "x y", "= 1", "2 = 1", "1,2", "!", "3 ^", "#"] {
        assert!(parse_input(input).is_err(), "{}", input);
    }
}

#[test]
fn failures_are_tagged_with_their_stage() {
    assert_eq!(
        Failure::Lexing(LexError::UnexpectedCharacter('$', 4)).to_string(),
        "Lexing error: Unexpected character encountered: '$' at position 4"
    );
    assert_eq!(
        Failure::Parsing(ParseError::UnexpectedEOF { position: 4 }).to_string(),
        "Parsing error: Unexpected end of input at position 4"
    );
    assert_eq!(
        Failure::Evaluation(EvalError::DivisionByZero).to_string(),
        "Evaluation error: Division by zero error"
    );
}

#[test]
fn failures_point_into_the_line_where_they_can() {
    assert_eq!(Failure::Lexing(LexError::UnexpectedCharacter('$', 4)).position(), Some(4));
    assert_eq!(Failure::Lexing(LexError::InvalidNumber(".".to_string())).position(), None);
    assert_eq!(Failure::Parsing(ParseError::UnexpectedEOF { position: 7 }).position(), Some(7));
    assert_eq!(Failure::Evaluation(EvalError::DivisionByZero).position(), None);
}

#[test]
fn the_marker_stands_under_the_position() {
    assert_eq!(marker_line(0), "^");
    assert_eq!(marker_line(1), " ^");
    assert_eq!(marker_line(5), "     ^");
}

#[test]
fn angle_modes_have_names() {
    assert_eq!(AngleMode::from_name("deg"), Ok(AngleMode::Degrees));
    assert_eq!(AngleMode::from_name("rad"), Ok(AngleMode::Radians));
    assert_eq!(AngleMode::from_name("grad"), Ok(AngleMode::Gradians));
    assert_eq!(AngleMode::from_name("DEG"), Err("Invalid angle mode".to_string()));
    assert_eq!(AngleMode::from_name(""), Err("Invalid angle mode".to_string()));
    assert_eq!(AngleMode::from_name("degrees"), Err("Invalid angle mode".to_string()));
    for mode in [AngleMode::Degrees, AngleMode::Radians, AngleMode::Gradians] {
        assert_eq!(AngleMode::from_name(mode.name()), Ok(mode));
    }
    assert_eq!(AngleMode::Degrees.name(), "deg");
    assert_eq!(AngleMode::Radians.name(), "rad");
    assert_eq!(AngleMode::Gradians.name(), "grad");
}
