use amm::ast::{Expr, Operator, Stmt};
use amm::parser::Parser;
use amm::printer::AstPrinter;
use amm::token::{Diagnostic, ErrorKind, Literal, Token, TokenType};

#[test]
fn test_print() {
    let expr = Expr::Binary {
        left: Box::new(Expr::Binary {
            left: Box::new(Expr::Literal {
                value: Literal::Int(1),
            }),
            operator: Operator::Plus,
            right: Box::new(Expr::Literal {
                value: Literal::Int(2),
            }),
        }),
        operator: Operator::Star,
        right: Box::new(Expr::Literal {
            value: Literal::Int(3),
        }),
    };
    assert_eq!(AstPrinter {}.print(&expr), "(* (+ 1 2) 3)");
}

#[test]
fn test_parser() {
    let tokens = vec![
        Token::new(TokenType::NUMBER, "1".to_string(), Some(Literal::Int(1)), 1),
        Token::new(TokenType::PLUS, "+".to_string(), None, 1),
        Token::new(TokenType::NUMBER, "2".to_string(), Some(Literal::Int(2)), 1),
        Token::new(TokenType::EOF, "".to_string(), None, 2),
    ];
    let expr = Expr::Binary {
        left: Box::new(Expr::Literal {
            value: Literal::Int(1),
        }),
        operator: Operator::Plus,
        right: Box::new(Expr::Literal {
            value: Literal::Int(2),
        }),
    };

    // The grammar ends an expression statement with `;`, which this token list
    // lacks: the statement is reported at the EOF token and none is produced.
    let mut parser = Parser::new(tokens);
    assert!(parser.parse().is_empty());
    assert_eq!(
        parser.errors(),
        &vec![Diagnostic { line: 2, kind: ErrorKind::ExpectSemicolonAfterValue }]
    );

    let tokens = vec![
        Token::new(TokenType::NUMBER, "1".to_string(), Some(Literal::Int(1)), 1),
        Token::new(TokenType::PLUS, "+".to_string(), None, 1),
        Token::new(TokenType::NUMBER, "2".to_string(), Some(Literal::Int(2)), 1),
        Token::new(TokenType::SEMICOLON, ";".to_string(), None, 1),
        Token::new(TokenType::EOF, "".to_string(), None, 2),
    ];
    assert_eq!(Parser::new(tokens).parse(), [Stmt::Expr(expr)]);
}
