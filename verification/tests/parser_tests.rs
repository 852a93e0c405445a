use monkey::lexer::Lexer;
use monkey::mini::parser::{Expression, Parser, Statement};
use monkey::token::Token;

#[test]
fn parse_let() {
    let input = r#"
        let x = 5;
        let y = 10;
        let foobar = 838383;
        "#;
    let mut parser = Parser::new(Lexer::new(&input));
    let expected = vec![
        Statement::LetStmt {
            name: "x".to_string(),
            value: Expression::NoneVal,
        },
        Statement::LetStmt {
            name: "y".to_string(),
            value: Expression::NoneVal,
        },
        Statement::LetStmt {
            name: "foobar".to_string(),
            value: Expression::NoneVal,
        },
    ];
    assert_eq!(expected, parser.parse_program().unwrap());
}

#[test]
fn parse_return() {
    let input = r#"
        return 5;
        return 10;
        return 993322;
        "#;
    let mut parser = Parser::new(Lexer::new(&input));
    let expected = vec![
        Statement::ReturnStmt {
            value: Expression::NoneVal,
        },
        Statement::ReturnStmt {
            value: Expression::NoneVal,
        },
        Statement::ReturnStmt {
            value: Expression::NoneVal,
        },
    ];
    assert_eq!(expected, parser.parse_program().unwrap());
}

#[test]
fn parse_ident() {
    let input = r#"
            foobar;
            add;
            asdf;
        "#;
    let mut parser = Parser::new(Lexer::new(&input));
    let expected = vec![
        Statement::ExpressionStmt {
            expression: Expression::Ident("foobar".to_string()),
        },
        Statement::ExpressionStmt {
            expression: Expression::Ident("add".to_string()),
        },
        Statement::ExpressionStmt {
            expression: Expression::Ident("asdf".to_string()),
        },
    ];
    assert_eq!(expected, parser.parse_program().unwrap());
}

#[test]
fn parse_integer() {
    let input = r#"
            5;
            155;
            32415;
        "#;
    let mut parser = Parser::new(Lexer::new(&input));
    let expected = vec![
        Statement::ExpressionStmt {
            expression: Expression::Integer(5),
        },
        Statement::ExpressionStmt {
            expression: Expression::Integer(155),
        },
        Statement::ExpressionStmt {
            expression: Expression::Integer(32415),
        },
    ];
    assert_eq!(expected, parser.parse_program().unwrap());
}

#[test]
fn parse_prefix() {
    let input = r#"
            !5;
            -15;
        "#;
    let mut parser = Parser::new(Lexer::new(&input));
    let expected = vec![
        Statement::ExpressionStmt {
            expression: Expression::Prefix {
                operator: Token::BANG,
                right: Box::new(Expression::Integer(5)),
            },
        },
        Statement::ExpressionStmt {
            expression: Expression::Prefix {
                operator: Token::MINUS,
                right: Box::new(Expression::Integer(15)),
            },
        },
    ];
    assert_eq!(expected, parser.parse_program().unwrap());
}

#[test]
fn parse_infix() {
    let input = r#"
            5 + 6;
            5 - 7;
            5 * 8;
            5 / 9;
            5 > 10;
            5 < 11;
            5 == 12;
            5 != 13;
        "#;
    let mut parser = Parser::new(Lexer::new(&input));
    let cases = [
        (Token::PLUS, 6),
        (Token::MINUS, 7),
        (Token::ASTERISK, 8),
        (Token::SLASH, 9),
        (Token::GT, 10),
        (Token::LT, 11),
        (Token::EQ, 12),
        (Token::NOTEQ, 13),
    ];
    let expected: Vec<Statement> = cases
        .into_iter()
        .map(|(operator, n)| Statement::ExpressionStmt {
            expression: Expression::Infix {
                left: Box::new(Expression::Integer(5)),
                operator,
                right: Box::new(Expression::Integer(n)),
            },
        })
        .collect();
    assert_eq!(expected, parser.parse_program().unwrap());
}
