use vstd::prelude::*;
use vstd::string::StringExecFns;
use crate::text::append;

verus! {

/// The kinds of token the scanner produces.
#[allow(non_camel_case_types)]
#[derive(Debug, Clone, Copy, PartialEq, Eq, Structural)]
pub enum TokenType {
    LEFT_PAREN,
    RIGHT_PAREN,
    LEFT_BRACE,
    RIGHT_BRACE,
    COMMA,
    DOT,
    MINUS,
    PLUS,
    SEMICOLON,
    SLASH,
    STAR,
    BANG,
    BANG_EQUAL,
    EQUAL,
    EQUAL_EQUAL,
    GREATER,
    GREATER_EQUAL,
    LESS,
    LESS_EQUAL,
    IDENTIFIER,
    STRING,
    NUMBER,
    AND,
    CLASS,
    ELSE,
    FALSE,
    FUN,
    FOR,
    IF,
    NIL,
    OR,
    PRINT,
    RETURN,
    SUPER,
    THIS,
    TRUE,
    VAR,
    WHILE,
    EOF,
}

/// The value a literal token carries. A number with a fractional part keeps its
/// decimal text: turning it into a binary float is left to whoever evaluates it.
#[derive(Debug, Clone, PartialEq)]
pub enum Literal {
    String(String),
    Int(i32),
    Boolean(bool),
    Float(String),
    Nil,
    Identifier(String),
}

/// A literal as mathematical data.
pub enum LiteralView {
    String(Seq<char>),
    Int(i32),
    Boolean(bool),
    Float(Seq<char>),
    Nil,
    Identifier(Seq<char>),
}

impl View for Literal {
    type V = LiteralView;

    open spec fn view(&self) -> LiteralView {
        match self {
            Literal::String(s) => LiteralView::String(s@),
            Literal::Int(i) => LiteralView::Int(*i),
            Literal::Boolean(b) => LiteralView::Boolean(*b),
            Literal::Float(t) => LiteralView::Float(t@),
            Literal::Nil => LiteralView::Nil,
            Literal::Identifier(s) => LiteralView::Identifier(s@),
        }
    }
}

impl Literal {
    /// A copy of the literal, field for field.
    pub fn duplicate(&self) -> (r: Literal)
        ensures
            r == *self,
    {
        match self {
            Literal::String(s) => Literal::String(s.clone()),
            Literal::Int(i) => Literal::Int(*i),
            Literal::Boolean(b) => Literal::Boolean(*b),
            Literal::Float(t) => Literal::Float(t.clone()),
            Literal::Nil => Literal::Nil,
            Literal::Identifier(s) => Literal::Identifier(s.clone()),
        }
    }
}

pub open spec fn option_literal_view(l: Option<Literal>) -> Option<LiteralView> {
    match l {
        Some(v) => Some(v@),
        None => None,
    }
}

/// A token: its kind, the exact source text it was made from, the value of a
/// literal token, and the 1-based line it ends on.
#[derive(Debug, Clone, PartialEq)]
pub struct Token {
    pub token_type: TokenType,
    pub lexeme: String,
    pub literal: Option<Literal>,
    pub line: u32,
}

/// A token as mathematical data.
pub struct TokenView {
    pub kind: TokenType,
    pub lexeme: Seq<char>,
    pub literal: Option<LiteralView>,
    pub line: u32,
}

impl View for Token {
    type V = TokenView;

    open spec fn view(&self) -> TokenView {
        TokenView {
            kind: self.token_type,
            lexeme: self.lexeme@,
            literal: option_literal_view(self.literal),
            line: self.line,
        }
    }
}

impl Token {
    pub fn new(token_type: TokenType, lexeme: String, literal: Option<Literal>, line: u32) -> (r: Token)
        ensures
            r == (Token { token_type, lexeme, literal, line }),
    {
        Token { token_type, lexeme, literal, line }
    }

    pub fn get_lexeme(&self) -> (r: String)
        ensures
            r == self.lexeme,
    {
        self.lexeme.clone()
    }

    /// A copy of the token, field for field.
    pub fn duplicate(&self) -> (r: Token)
        ensures
            r == *self,
    {
        let literal = match &self.literal {
            Some(l) => Some(l.duplicate()),
            None => None,
        };
        Token { token_type: self.token_type, lexeme: self.lexeme.clone(), literal, line: self.line }
    }
}

/// What went wrong, for each diagnostic the pipeline can report.
#[derive(Debug, Clone, PartialEq)]
pub enum ErrorKind {
    UnexpectedCharacter,
    UnterminatedString,
    NumberTooLarge,
    ExpectVariableName,
    ExpectSemicolonAfterVarDecl,
    ExpectLeftParenAfterWhile,
    ExpectRightParenAfterWhile,
    ExpectLeftParenAfterIf,
    ExpectRightParenAfterIf,
    ExpectSemicolonAfterValue,
    ExpectRightBraceAfterBlock,
    ExpectRightParenAfterExpr,
    ExpectExpression,
    InvalidAssignmentTarget,
    UndefinedVariable(String),
}

/// A diagnostic: the line it is reported at and what went wrong.
#[derive(Debug, Clone, PartialEq)]
pub struct Diagnostic {
    pub line: u32,
    pub kind: ErrorKind,
}

/// The text of each diagnostic.
pub open spec fn message_text(k: ErrorKind) -> Seq<char> {
    match k {
        ErrorKind::UnexpectedCharacter => "Unexpected character."@,
        ErrorKind::UnterminatedString => "Unterminated string."@,
        ErrorKind::NumberTooLarge => "Number literal out of range."@,
        ErrorKind::ExpectVariableName => "Expect variable name."@,
        ErrorKind::ExpectSemicolonAfterVarDecl => "Expect ';' after variable declaration."@,
        ErrorKind::ExpectLeftParenAfterWhile => "Expect '(' after 'while'."@,
        ErrorKind::ExpectRightParenAfterWhile => "Expect ')' after while condition."@,
        ErrorKind::ExpectLeftParenAfterIf => "Expect '(' after 'if'."@,
        ErrorKind::ExpectRightParenAfterIf => "Expect ')' after if condition."@,
        ErrorKind::ExpectSemicolonAfterValue => "Expect ';' after value."@,
        ErrorKind::ExpectRightBraceAfterBlock => "Expect '}' after block."@,
        ErrorKind::ExpectRightParenAfterExpr => "Expect ')' after expression."@,
        ErrorKind::ExpectExpression => "Expect expression."@,
        ErrorKind::InvalidAssignmentTarget => "Invalid assignment target."@,
        ErrorKind::UndefinedVariable(name) => "Undefined variable '"@ + name@ + "'"@,
    }
}

impl ErrorKind {
    /// The message reported for this error.
    pub fn message(&self) -> (r: String)
        ensures
            r@ == message_text(*self),
    {
        match self {
            ErrorKind::UnexpectedCharacter => String::from_str("Unexpected character."),
            ErrorKind::UnterminatedString => String::from_str("Unterminated string."),
            ErrorKind::NumberTooLarge => String::from_str("Number literal out of range."),
            ErrorKind::ExpectVariableName => String::from_str("Expect variable name."),
            ErrorKind::ExpectSemicolonAfterVarDecl => String::from_str(
                "Expect ';' after variable declaration.",
            ),
            ErrorKind::ExpectLeftParenAfterWhile => String::from_str("Expect '(' after 'while'."),
            ErrorKind::ExpectRightParenAfterWhile => String::from_str(
                "Expect ')' after while condition.",
            ),
            ErrorKind::ExpectLeftParenAfterIf => String::from_str("Expect '(' after 'if'."),
            ErrorKind::ExpectRightParenAfterIf => String::from_str("Expect ')' after if condition."),
            ErrorKind::ExpectSemicolonAfterValue => String::from_str("Expect ';' after value."),
            ErrorKind::ExpectRightBraceAfterBlock => String::from_str("Expect '}' after block."),
            ErrorKind::ExpectRightParenAfterExpr => String::from_str("Expect ')' after expression."),
            ErrorKind::ExpectExpression => String::from_str("Expect expression."),
            ErrorKind::InvalidAssignmentTarget => String::from_str("Invalid assignment target."),
            ErrorKind::UndefinedVariable(name) => {
                let mut r = String::from_str("Undefined variable '");
                append(&mut r, name);
                let close = String::from_str("'");
                append(&mut r, &close);
                r
            },
        }
    }

    /// A copy of the error, field for field.
    pub fn duplicate(&self) -> (r: ErrorKind)
        ensures
            r == *self,
    {
        match self {
            ErrorKind::UndefinedVariable(name) => ErrorKind::UndefinedVariable(name.clone()),
            ErrorKind::UnexpectedCharacter => ErrorKind::UnexpectedCharacter,
            ErrorKind::UnterminatedString => ErrorKind::UnterminatedString,
            ErrorKind::NumberTooLarge => ErrorKind::NumberTooLarge,
            ErrorKind::ExpectVariableName => ErrorKind::ExpectVariableName,
            ErrorKind::ExpectSemicolonAfterVarDecl => ErrorKind::ExpectSemicolonAfterVarDecl,
            ErrorKind::ExpectLeftParenAfterWhile => ErrorKind::ExpectLeftParenAfterWhile,
            ErrorKind::ExpectRightParenAfterWhile => ErrorKind::ExpectRightParenAfterWhile,
            ErrorKind::ExpectLeftParenAfterIf => ErrorKind::ExpectLeftParenAfterIf,
            ErrorKind::ExpectRightParenAfterIf => ErrorKind::ExpectRightParenAfterIf,
            ErrorKind::ExpectSemicolonAfterValue => ErrorKind::ExpectSemicolonAfterValue,
            ErrorKind::ExpectRightBraceAfterBlock => ErrorKind::ExpectRightBraceAfterBlock,
            ErrorKind::ExpectRightParenAfterExpr => ErrorKind::ExpectRightParenAfterExpr,
            ErrorKind::ExpectExpression => ErrorKind::ExpectExpression,
            ErrorKind::InvalidAssignmentTarget => ErrorKind::InvalidAssignmentTarget,
        }
    }
}

} // verus!
