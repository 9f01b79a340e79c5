use minicompiler::ast::Exp;
use minicompiler::parser::{ParseError, Parser};
use minicompiler::tokenizer::Token;

fn pp(input: &str) -> String {
    Parser::new(input).parse().unwrap().smart_pretty(false)
}

#[test]
fn parse_int() {
    assert_eq!(Parser::new("1").parse().unwrap().eval(), 1);
}

#[test]
fn parse_pretty_spaces() {
    assert_eq!(pp("1"), "1");
    assert_eq!(pp("1 + 0"), "1+0");
    assert_eq!(pp("1 + (0)"), "1+0");
    assert_eq!(pp("1 + 2 * 0"), "1+2*0");
    assert_eq!(pp("1 * 2 + 0"), "1*2+0");
    assert_eq!(pp("(1+ 2) * 0"), "(1+2)*0");
    assert_eq!(pp("(1 + 2) *0  +2"), "(1+2)*0+2");
}

#[test]
fn parse_pretty_parens() {
    assert_eq!(pp("2*((0*1)*2) + (2*2)*1 + 0 + 0*0"), "2*0*1*2+2*2*1+0+0*0");
    assert_eq!(pp("( 1 + 1 )"), "1+1");
    assert_eq!(pp("(2) + (2*2+0) * (2)+2+ (2*2)*1"), "2+(2*2+0)*2+2+2*2*1");
    assert_eq!(pp("(2*1*2) + (2) + 2 * (2+1)*(0*1+0)"), "2*1*2+2+2*(2+1)*(0*1+0)");
    assert_eq!(pp("(((((2)))))"), "2");
    assert_eq!(pp("((((((((((2)*2)*2)*2)*2)*2)*2)*2)*2)*2)*2"), "2*2*2*2*2*2*2*2*2*2*2");
    assert_eq!(pp("((((2))+1))*((1))"), "(2+1)*1");
    assert_eq!(pp("(((((1))+(2))*((0*2)+(2*2+1))))"), "(1+2)*(0*2+2*2+1)");
}

#[test]
fn parse_pretty_invalid_none() {
    assert!(Parser::new("+ 1 1 2 3 5 8").parse().ok().is_none());
    assert!(Parser::new(") (1+2)").parse().ok().is_none());
    assert!(Parser::new("").parse().ok().is_none());
}

#[test]
fn empty_input_reports_end_at_column_zero() {
    assert_eq!(
        Parser::new("").parse().err(),
        Some(ParseError::UnexpectedToken { token: Token::EOS, column: 0 })
    );
}

#[test]
fn unclosed_parenthesis_reports_its_column() {
    assert_eq!(Parser::new("(1+1").parse().err(), Some(ParseError::UnclosedParen { column: 1 }));
    assert_eq!(Parser::new("2*  ((1)").parse().err(), Some(ParseError::UnclosedParen { column: 5 }));
}

#[test]
fn unexpected_token_reports_its_column() {
    assert_eq!(
        Parser::new("(1+2) * )").parse().err(),
        Some(ParseError::UnexpectedToken { token: Token::CLOSE, column: 9 })
    );
    assert_eq!(
        Parser::new("+ 1").parse().err(),
        Some(ParseError::UnexpectedToken { token: Token::PLUS, column: 1 })
    );
    assert_eq!(
        Parser::new("1+").parse().err(),
        Some(ParseError::UnexpectedToken { token: Token::EOS, column: 2 })
    );
}

#[test]
fn trailing_input_is_ignored() {
    assert_eq!(pp("1+2)3"), "1+2");
    assert_eq!(pp("2 2"), "2");
}

#[test]
fn operators_associate_to_the_left() {
    let tree = Parser::new("1+2+0").parse().unwrap();
    assert_eq!(tree.pretty(), "((1+2)+0)");
    let tree = Parser::new("1*2*0+1").parse().unwrap();
    assert_eq!(tree.pretty(), "(((1*2)*0)+1)");
}

#[test]
fn minimal_text_parses_to_the_same_value() {
    for input in ["(2) + (2*2+0) * (2)+2+ (2*2)*1", "2*(1+(2+1))*(2*(1*2))", "((1+2)+(2*(0+1)))"] {
        let tree = Parser::new(input).parse().unwrap();
        let text = tree.smart_pretty(false);
        let again = Parser::new(&text).parse().unwrap();
        assert_eq!(again.eval(), tree.eval());
        assert_eq!(again.smart_pretty(false), text);
    }
}

#[test]
fn error_messages_carry_token_and_column() {
    let err = Parser::new("(1+2) * )").parse().unwrap_err();
    assert_eq!(err.message(), "Unexpected token ')' at column 9");
    assert_eq!(err.column(), 9);
    let err = Parser::new("").parse().unwrap_err();
    assert_eq!(err.message(), "Unexpected token 'EOS' at column 0");
    let err = Parser::new("(1+1").parse().unwrap_err();
    assert_eq!(err.message(), "Unclosed parenthesis at column 1");
    assert_eq!(err.column(), 1);
}

#[test]
fn token_display_forms() {
    assert_eq!(Token::EOS.show(), "EOS");
    assert_eq!(Token::ZERO.show(), "0");
    assert_eq!(Token::TWO.show(), "2");
    assert_eq!(Token::OPEN.show(), "(");
    assert_eq!(Token::MULT.show(), "*");
}
