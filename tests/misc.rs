use amm::ast::{Expr, Operator, Stmt};
use amm::color::{text_message_with_color, BasicColor, Color};
use amm::environment::Environment;
use amm::parser::Parser;
use amm::printer::AstPrinter;
use amm::scanner::Scanner;
use amm::text::int_to_string;
use amm::token::{ErrorKind, Literal, Token, TokenType};
use amm::value::Object;

fn parse(src: &str) -> Vec<Stmt> {
    let mut scanner = Scanner::new(src);
    let tokens = scanner.scan_tokens().clone();
    Parser::new(tokens).parse()
}

fn printed_expr(src: &str) -> String {
    match &parse(src)[..] {
        [Stmt::Expr(e)] => AstPrinter.print(e),
        other => panic!("not one expression statement: {:?}", other),
    }
}

#[test]
fn product_binds_tighter_than_sum() {
    assert_eq!(printed_expr("1 + 2 * 3;"), "(+ 1 (* 2 3))");
    assert_eq!(printed_expr("1 - 2 / 3;"), "(- 1 (/ 2 3))");
    assert_eq!(printed_expr("4 * 5 - 6;"), "(- (* 4 5) 6)");
}

#[test]
fn binary_operators_associate_left() {
    assert_eq!(printed_expr("1 - 2 - 3;"), "(- (- 1 2) 3)");
}

#[test]
fn assignment_associates_right() {
    assert_eq!(printed_expr("a = b = 1;"), "(= a (= b 1))");
}

#[test]
fn printer_covers_every_node() {
    assert_eq!(
        printed_expr("x = !(a or b and -c) < 2.5 == \"s\";"),
        "(= x (== (< (! (group (or a (and b (- c))))) 2.5) s))"
    );
    assert_eq!(printed_expr("true; "), "true");
    assert_eq!(printed_expr("nil;"), "nil");
}

#[test]
fn parses_control_flow() {
    let stmts = parse("if (a) print 1; else { var b; } while (c) d = 1;");
    assert_eq!(stmts.len(), 2);
    assert!(matches!(&stmts[0], Stmt::If { else_branch: Some(_), .. }));
    assert!(matches!(&stmts[1], Stmt::While { .. }));
}

#[test]
fn empty_token_stream_parses_to_nothing() {
    let tokens = vec![Token::new(TokenType::EOF, String::new(), None, 1)];
    assert!(Parser::new(tokens).parse().is_empty());
}

#[test]
fn parse_error_messages() {
    let cases = [
        ("var 1;", ErrorKind::ExpectVariableName),
        ("var a = 1", ErrorKind::ExpectSemicolonAfterVarDecl),
        ("while 1", ErrorKind::ExpectLeftParenAfterWhile),
        ("while (1", ErrorKind::ExpectRightParenAfterWhile),
        ("if 1", ErrorKind::ExpectLeftParenAfterIf),
        ("if (1", ErrorKind::ExpectRightParenAfterIf),
        ("{ print 1;", ErrorKind::ExpectRightBraceAfterBlock),
        ("(1;", ErrorKind::ExpectRightParenAfterExpr),
    ];
    for (src, kind) in cases {
        let mut scanner = Scanner::new(src);
        let tokens = scanner.scan_tokens().clone();
        let mut parser = Parser::new(tokens);
        assert!(parser.parse().is_empty(), "{}", src);
        assert_eq!(parser.errors()[0].kind, kind, "{}", src);
    }
    assert_eq!(ErrorKind::ExpectRightBraceAfterBlock.message(), "Expect '}' after block.");
}

#[test]
fn operator_from_token() {
    let t = Token::new(TokenType::GREATER_EQUAL, ">=".to_string(), None, 1);
    assert_eq!(Operator::from_token(&t), Operator::GreaterEqual);
    assert_eq!(Operator::GreaterEqual.text(), ">=");
    assert_eq!(Operator::And.text(), "and");
}

#[test]
fn environment_scopes() {
    let x = Token::new(TokenType::IDENTIFIER, "x".to_string(), None, 1);
    let y = Token::new(TokenType::IDENTIFIER, "y".to_string(), None, 1);
    let mut env = Environment::new();
    env.define("x".to_string(), Object::Int(1));
    let mut inner = Environment::new_enclosed(env);
    assert_eq!(inner.get(&x), Object::Int(1));
    inner.define("y".to_string(), Object::Int(2));
    assert!(inner.assign(&x, Object::Int(3)));
    assert!(!inner.assign(&Token::new(TokenType::IDENTIFIER, "z".to_string(), None, 1), Object::Nil));
    inner.pop_scope();
    assert_eq!(inner.get(&x), Object::Int(3));
    assert_eq!(inner.get(&y), Object::Nil);
}

#[test]
fn colored_error_text() {
    assert_eq!(text_message_with_color(Color::Bold(BasicColor::Red), "Error"), "\x1b[38;5;9mError\x1b[0m");
    assert_eq!(text_message_with_color(Color::Basic(BasicColor::Red), "msg"), "\x1b[38;5;1mmsg\x1b[0m");
    assert_eq!(text_message_with_color(Color::RGB(5, 5, 5), "w"), "\x1b[38;5;231mw\x1b[0m");
    assert_eq!(text_message_with_color(Color::Gray(23), ""), "\x1b[38;5;255m\x1b[0m");
}

#[test]
fn integers_render_in_base_ten() {
    assert_eq!(int_to_string(0), "0");
    assert_eq!(int_to_string(-123), "-123");
    assert_eq!(int_to_string(i32::MIN), "-2147483648");
    assert_eq!(int_to_string(i32::MAX), "2147483647");
}

#[test]
fn literal_and_expression_equality() {
    let e = Expr::Literal { value: Literal::Float("1.50".to_string()) };
    assert_eq!(AstPrinter.print(&e), "1.50");
}
