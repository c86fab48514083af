use amm::scanner::Scanner;
use amm::token::{Diagnostic, ErrorKind, Literal, Token, TokenType};

fn scan(src: &str) -> (Vec<Token>, Vec<Diagnostic>) {
    let mut scanner = Scanner::new(src);
    let tokens = scanner.scan_tokens().clone();
    (tokens, scanner.errors().clone())
}

fn kinds(src: &str) -> Vec<TokenType> {
    scan(src).0.iter().map(|t| t.token_type).collect()
}

#[test]
fn empty_source_is_one_eof() {
    let (tokens, errors) = scan("");
    assert_eq!(tokens, vec![Token::new(TokenType::EOF, String::new(), None, 1)]);
    assert!(errors.is_empty());
}

#[test]
fn exactly_one_eof_at_the_end() {
    let (tokens, _) = scan("var a = 1;\n// note\nprint a + 2.5 * \"s\";");
    let eofs = tokens.iter().filter(|t| t.token_type == TokenType::EOF).count();
    assert_eq!(eofs, 1);
    assert_eq!(tokens.last().unwrap().token_type, TokenType::EOF);
}

#[test]
fn lexemes_are_source_slices() {
    let src = "var  total=12.50 ;if(x>=1){print \"a b\";}";
    let (tokens, _) = scan(src);
    let mut rest = src;
    for t in &tokens[..tokens.len() - 1] {
        assert!(!t.lexeme.is_empty());
        let at = rest.find(t.lexeme.as_str()).unwrap();
        rest = &rest[at + t.lexeme.len()..];
    }
    let lexemes: Vec<String> = tokens.iter().map(|t| t.get_lexeme()).collect();
    assert_eq!(
        lexemes,
        vec!["var", "total", "=", "12.50", ";", "if", "(", "x", ">=", "1", ")", "{", "print", "\"a b\"", ";", "}", ""]
    );
}

#[test]
fn single_character_tokens() {
    assert_eq!(
        kinds("(){},.-+;*/"),
        vec![
            TokenType::LEFT_PAREN,
            TokenType::RIGHT_PAREN,
            TokenType::LEFT_BRACE,
            TokenType::RIGHT_BRACE,
            TokenType::COMMA,
            TokenType::DOT,
            TokenType::MINUS,
            TokenType::PLUS,
            TokenType::SEMICOLON,
            TokenType::STAR,
            TokenType::SLASH,
            TokenType::EOF,
        ]
    );
}

#[test]
fn one_or_two_character_operators() {
    assert_eq!(
        kinds("! != = == < <= > >="),
        vec![
            TokenType::BANG,
            TokenType::BANG_EQUAL,
            TokenType::EQUAL,
            TokenType::EQUAL_EQUAL,
            TokenType::LESS,
            TokenType::LESS_EQUAL,
            TokenType::GREATER,
            TokenType::GREATER_EQUAL,
            TokenType::EOF,
        ]
    );
}

#[test]
fn keywords_and_identifiers() {
    assert_eq!(
        kinds("and class else false fun for if nil or print return super this true var while whiles x1"),
        vec![
            TokenType::AND,
            TokenType::CLASS,
            TokenType::ELSE,
            TokenType::FALSE,
            TokenType::FUN,
            TokenType::FOR,
            TokenType::IF,
            TokenType::NIL,
            TokenType::OR,
            TokenType::PRINT,
            TokenType::RETURN,
            TokenType::SUPER,
            TokenType::THIS,
            TokenType::TRUE,
            TokenType::VAR,
            TokenType::WHILE,
            TokenType::IDENTIFIER,
            TokenType::IDENTIFIER,
            TokenType::EOF,
        ]
    );
}

#[test]
fn identifier_continues_with_unicode_letters() {
    let (tokens, errors) = scan("caf\u{e9} = 1;");
    assert_eq!(tokens[0].lexeme, "caf\u{e9}");
    assert_eq!(tokens[0].token_type, TokenType::IDENTIFIER);
    assert!(errors.is_empty());
}

#[test]
fn number_literals() {
    let (tokens, _) = scan("42 3.25 7.");
    assert_eq!(tokens[0].literal, Some(Literal::Int(42)));
    assert_eq!(tokens[1].literal, Some(Literal::Float("3.25".to_string())));
    assert_eq!(tokens[2].literal, Some(Literal::Int(7)));
    assert_eq!(tokens[3].token_type, TokenType::DOT);
}

#[test]
fn largest_integer_literal() {
    let (tokens, errors) = scan("2147483647");
    assert_eq!(tokens[0].literal, Some(Literal::Int(2147483647)));
    assert!(errors.is_empty());
}

#[test]
fn integer_literal_out_of_range() {
    let (tokens, errors) = scan("2147483648;");
    assert_eq!(tokens[0].token_type, TokenType::SEMICOLON);
    assert_eq!(errors, vec![Diagnostic { line: 1, kind: ErrorKind::NumberTooLarge }]);
}

#[test]
fn string_literal_spans_lines() {
    let (tokens, errors) = scan("\"a\nb\" x");
    assert_eq!(tokens[0].literal, Some(Literal::String("a\nb".to_string())));
    assert_eq!(tokens[0].line, 2);
    assert_eq!(tokens[1].line, 2);
    assert!(errors.is_empty());
}

#[test]
fn unterminated_string_reported() {
    let (tokens, errors) = scan("print \"abc\n");
    assert_eq!(tokens.len(), 2);
    assert_eq!(errors, vec![Diagnostic { line: 2, kind: ErrorKind::UnterminatedString }]);
    assert_eq!(errors[0].kind.message(), "Unterminated string.");
}

#[test]
fn unexpected_character_reported_and_scanning_goes_on() {
    let (tokens, errors) = scan("1 @ 2\n#");
    assert_eq!(tokens.len(), 3);
    assert_eq!(
        errors,
        vec![
            Diagnostic { line: 1, kind: ErrorKind::UnexpectedCharacter },
            Diagnostic { line: 2, kind: ErrorKind::UnexpectedCharacter },
        ]
    );
}

#[test]
fn comments_and_whitespace_skipped() {
    let (tokens, _) = scan("// all of this\n\t1 // more\r\n2");
    assert_eq!(tokens.len(), 3);
    assert_eq!(tokens[0].line, 2);
    assert_eq!(tokens[1].line, 3);
    assert_eq!(tokens[2].line, 3);
}
