use vstd::prelude::*;
use crate::ast::{operator_of, stmt_view, stmts_view, Expr, Operator, Stmt, StmtView};
use crate::token::{Diagnostic, ErrorKind, Literal, Token, TokenType};

verus! {

/// A parse error: the token it is reported at, what was expected, and the
/// position where parsing stopped, from which recovery starts.
#[derive(Debug, PartialEq)]
pub struct ParseError {
    pub token: Token,
    pub kind: ErrorKind,
    pub at: usize,
}

/// The token at `pos`; past the end, the last token.
pub open spec fn tok(toks: Seq<Token>, pos: nat) -> Token {
    if pos < toks.len() { toks[pos as int] } else { toks.last() }
}

pub open spec fn kind_at(toks: Seq<Token>, pos: nat) -> TokenType {
    tok(toks, pos).token_type
}

pub open spec fn at_end(toks: Seq<Token>, pos: nat) -> bool {
    kind_at(toks, pos) == TokenType::EOF
}

/// The token at `pos` has kind `k` and is not the end.
pub open spec fn check(toks: Seq<Token>, pos: nat, k: TokenType) -> bool {
    !at_end(toks, pos) && kind_at(toks, pos) == k
}

/// The token at `pos` has kind `k` and can be stepped over.
pub open spec fn matches_at(toks: Seq<Token>, pos: nat, k: TokenType) -> bool {
    check(toks, pos, k) && pos + 1 < toks.len()
}

/// A token list the parser accepts: nonempty and closed by EOF.
pub open spec fn tokens_wf(toks: Seq<Token>) -> bool {
    toks.len() >= 1 && toks.last().token_type == TokenType::EOF
}

pub open spec fn fail<T>(toks: Seq<Token>, pos: nat, kind: ErrorKind) -> Result<(T, nat), ParseError> {
    Err(ParseError { token: tok(toks, pos), kind, at: pos as usize })
}

/// A sub-parse that stopped at `p` went forward from `pos` and did not pass the end.
pub open spec fn advanced(toks: Seq<Token>, pos: nat, p: nat) -> bool {
    pos < p < toks.len()
}

/// The operators of each binary precedence level, from `or` (6) down to
/// multiplication (1).
pub open spec fn level_op(level: nat, k: TokenType) -> bool {
    if level == 6 {
        k == TokenType::OR
    } else if level == 5 {
        k == TokenType::AND
    } else if level == 4 {
        k == TokenType::BANG_EQUAL || k == TokenType::EQUAL_EQUAL
    } else if level == 3 {
        k == TokenType::GREATER || k == TokenType::GREATER_EQUAL || k == TokenType::LESS
            || k == TokenType::LESS_EQUAL
    } else if level == 2 {
        k == TokenType::MINUS || k == TokenType::PLUS
    } else if level == 1 {
        k == TokenType::SLASH || k == TokenType::STAR
    } else {
        false
    }
}

/// The node for `left op right` at a level: the two lowest-precedence levels are logical.
pub open spec fn combine(level: nat, left: Expr, op: Operator, right: Expr) -> Expr {
    if level >= 5 {
        Expr::Logical { left: Box::new(left), operator: op, right: Box::new(right) }
    } else {
        Expr::Binary { left: Box::new(left), operator: op, right: Box::new(right) }
    }
}

/// `primary → "false" | "true" | "nil" | IDENT | NUMBER | STRING | "(" expression ")"`
pub open spec fn p_primary(toks: Seq<Token>, pos: nat) -> Result<(Expr, nat), ParseError>
    decreases toks.len() - pos, 0nat,
{
    let t = tok(toks, pos);
    if matches_at(toks, pos, TokenType::FALSE) {
        Ok((Expr::Literal { value: Literal::Boolean(false) }, pos + 1))
    } else if matches_at(toks, pos, TokenType::TRUE) {
        Ok((Expr::Literal { value: Literal::Boolean(true) }, pos + 1))
    } else if matches_at(toks, pos, TokenType::NIL) {
        Ok((Expr::Literal { value: Literal::Nil }, pos + 1))
    } else if matches_at(toks, pos, TokenType::IDENTIFIER) {
        Ok((Expr::Variable { name: t }, pos + 1))
    } else if matches_at(toks, pos, TokenType::NUMBER) || matches_at(toks, pos, TokenType::STRING) {
        Ok((Expr::Literal { value: match t.literal { Some(v) => v, None => Literal::Nil } }, pos + 1))
    } else if matches_at(toks, pos, TokenType::LEFT_PAREN) {
        match p_assignment(toks, pos + 1) {
            Err(e) => Err(e),
            Ok((e, p)) => if !advanced(toks, pos, p) {
                fail(toks, p, ErrorKind::ExpectRightParenAfterExpr)
            } else if matches_at(toks, p, TokenType::RIGHT_PAREN) {
                Ok((Expr::Grouping { expression: Box::new(e) }, p + 1))
            } else {
                fail(toks, p, ErrorKind::ExpectRightParenAfterExpr)
            },
        }
    } else {
        fail(toks, pos, ErrorKind::ExpectExpression)
    }
}

/// `unary → ("!" | "-") unary | primary`
pub open spec fn p_unary(toks: Seq<Token>, pos: nat) -> Result<(Expr, nat), ParseError>
    decreases toks.len() - pos, 1nat,
{
    if matches_at(toks, pos, TokenType::BANG) || matches_at(toks, pos, TokenType::MINUS) {
        match p_unary(toks, pos + 1) {
            Err(e) => Err(e),
            Ok((right, p)) => Ok((
                Expr::Unary { operator: operator_of(kind_at(toks, pos))->0, right: Box::new(right) },
                p,
            )),
        }
    } else {
        p_primary(toks, pos)
    }
}

/// A left-associative binary level: an operand of the next level, then any
/// number of operators of this level, each with its right operand.
pub open spec fn p_binary(toks: Seq<Token>, pos: nat, level: nat) -> Result<(Expr, nat), ParseError>
    decreases toks.len() - pos, level + 2, 0nat,
{
    if level == 0 {
        p_unary(toks, pos)
    } else {
        match p_binary(toks, pos, (level - 1) as nat) {
            Err(e) => Err(e),
            Ok((left, p)) => if !advanced(toks, pos, p) {
                fail(toks, p, ErrorKind::ExpectExpression)
            } else {
                p_binary_rest(toks, left, p, level)
            },
        }
    }
}

/// The operators of a binary level that follow an operand already parsed.
pub open spec fn p_binary_rest(toks: Seq<Token>, left: Expr, pos: nat, level: nat) -> Result<(Expr, nat), ParseError>
    decreases toks.len() - pos, level + 2, 1nat,
{
    if level >= 1 && level_op(level, kind_at(toks, pos)) && !at_end(toks, pos) && pos + 1 < toks.len() {
        match p_binary(toks, pos + 1, (level - 1) as nat) {
            Err(e) => Err(e),
            Ok((right, p)) => if !advanced(toks, pos, p) {
                fail(toks, p, ErrorKind::ExpectExpression)
            } else {
                p_binary_rest(toks, combine(level, left, operator_of(kind_at(toks, pos))->0, right), p, level)
            },
        }
    } else {
        Ok((left, pos))
    }
}

/// `expression → assignment`, `assignment → logic_or ("=" assignment)?`;
/// only a variable can be assigned to.
pub open spec fn p_assignment(toks: Seq<Token>, pos: nat) -> Result<(Expr, nat), ParseError>
    decreases toks.len() - pos, 9nat, 0nat,
{
    match p_binary(toks, pos, 6) {
        Err(e) => Err(e),
        Ok((expr, p)) => if !advanced(toks, pos, p) {
            fail(toks, p, ErrorKind::ExpectExpression)
        } else if matches_at(toks, p, TokenType::EQUAL) {
            match p_assignment(toks, p + 1) {
                Err(e) => Err(e),
                Ok((value, p2)) => match expr {
                    Expr::Variable { name } => Ok((Expr::Assignment { name, value: Box::new(value) }, p2)),
                    _ => Err(ParseError { token: toks[p as int], kind: ErrorKind::InvalidAssignmentTarget, at: p2 as usize }),
                },
            }
        } else {
            Ok((expr, p))
        },
    }
}

/// An expression followed by `;`: a print statement when `print`, else an expression statement.
pub open spec fn p_expr_then_semicolon(toks: Seq<Token>, pos: nat, print: bool) -> Result<(StmtView, nat), ParseError>
    decreases toks.len() - pos, 11nat, 0nat,
{
    match p_assignment(toks, pos) {
        Err(e) => Err(e),
        Ok((e, p)) => if matches_at(toks, p, TokenType::SEMICOLON) {
            Ok((if print { StmtView::Print(e) } else { StmtView::Expr(e) }, p + 1))
        } else {
            fail(toks, p, ErrorKind::ExpectSemicolonAfterValue)
        },
    }
}

/// `varDecl → "var" IDENT ("=" expression)? ";"`, from after `var`.
pub open spec fn p_var_declaration(toks: Seq<Token>, pos: nat) -> Result<(StmtView, nat), ParseError>
    decreases toks.len() - pos, 12nat, 0nat,
{
    if !matches_at(toks, pos, TokenType::IDENTIFIER) {
        fail(toks, pos, ErrorKind::ExpectVariableName)
    } else {
        let name = toks[pos as int];
        let p = pos + 1;
        if matches_at(toks, p, TokenType::EQUAL) {
            match p_assignment(toks, p + 1) {
                Err(e) => Err(e),
                Ok((init, p2)) => if matches_at(toks, p2, TokenType::SEMICOLON) {
                    Ok((StmtView::Var { name, initializer: Some(init) }, p2 + 1))
                } else {
                    fail(toks, p2, ErrorKind::ExpectSemicolonAfterVarDecl)
                },
            }
        } else if matches_at(toks, p, TokenType::SEMICOLON) {
            Ok((StmtView::Var { name, initializer: None }, p + 1))
        } else {
            fail(toks, p, ErrorKind::ExpectSemicolonAfterVarDecl)
        }
    }
}

/// `whileStmt → "while" "(" expression ")" declaration`, from after `while`.
pub open spec fn p_while(toks: Seq<Token>, pos: nat) -> Result<(StmtView, nat), ParseError>
    decreases toks.len() - pos, 12nat, 0nat,
{
    if !matches_at(toks, pos, TokenType::LEFT_PAREN) {
        fail(toks, pos, ErrorKind::ExpectLeftParenAfterWhile)
    } else {
        match p_assignment(toks, pos + 1) {
            Err(e) => Err(e),
            Ok((condition, p)) => if !advanced(toks, pos, p) {
                fail(toks, p, ErrorKind::ExpectRightParenAfterWhile)
            } else if !matches_at(toks, p, TokenType::RIGHT_PAREN) {
                fail(toks, p, ErrorKind::ExpectRightParenAfterWhile)
            } else {
                match p_declaration(toks, p + 1) {
                    Err(e) => Err(e),
                    Ok((body, p2)) => Ok((StmtView::While { condition, body: Box::new(body) }, p2)),
                }
            },
        }
    }
}

/// `ifStmt → "if" "(" expression ")" statement ("else" statement)?`, from after `if`.
pub open spec fn p_if(toks: Seq<Token>, pos: nat) -> Result<(StmtView, nat), ParseError>
    decreases toks.len() - pos, 12nat, 0nat,
{
    if !matches_at(toks, pos, TokenType::LEFT_PAREN) {
        fail(toks, pos, ErrorKind::ExpectLeftParenAfterIf)
    } else {
        match p_assignment(toks, pos + 1) {
            Err(e) => Err(e),
            Ok((condition, p)) => if !advanced(toks, pos, p) {
                fail(toks, p, ErrorKind::ExpectRightParenAfterIf)
            } else if !matches_at(toks, p, TokenType::RIGHT_PAREN) {
                fail(toks, p, ErrorKind::ExpectRightParenAfterIf)
            } else {
                match p_statement(toks, p + 1) {
                    Err(e) => Err(e),
                    Ok((then_branch, p2)) => if !advanced(toks, pos, p2) {
                        fail(toks, p2, ErrorKind::ExpectExpression)
                    } else if matches_at(toks, p2, TokenType::ELSE) {
                        match p_statement(toks, p2 + 1) {
                            Err(e) => Err(e),
                            Ok((else_branch, p3)) => Ok((
                                StmtView::If {
                                    condition,
                                    then_branch: Box::new(then_branch),
                                    else_branch: Some(Box::new(else_branch)),
                                },
                                p3,
                            )),
                        }
                    } else {
                        Ok((StmtView::If { condition, then_branch: Box::new(then_branch), else_branch: None }, p2))
                    },
                }
            },
        }
    }
}

/// The declarations of a block up to its `}`, appended to `acc`.
pub open spec fn p_block_items(toks: Seq<Token>, pos: nat, acc: Seq<StmtView>) -> Result<(Seq<StmtView>, nat), ParseError>
    decreases toks.len() - pos, 15nat, 0nat,
{
    if check(toks, pos, TokenType::RIGHT_BRACE) || at_end(toks, pos) {
        if matches_at(toks, pos, TokenType::RIGHT_BRACE) {
            Ok((acc, pos + 1))
        } else {
            fail(toks, pos, ErrorKind::ExpectRightBraceAfterBlock)
        }
    } else {
        match p_declaration(toks, pos) {
            Err(e) => Err(e),
            Ok((s, p)) => if !advanced(toks, pos, p) {
                fail(toks, p, ErrorKind::ExpectRightBraceAfterBlock)
            } else {
                p_block_items(toks, p, acc.push(s))
            },
        }
    }
}

/// `block → "{" declaration* "}"`, from after `{`.
pub open spec fn p_block(toks: Seq<Token>, pos: nat) -> Result<(StmtView, nat), ParseError>
    decreases toks.len() - pos, 16nat, 0nat,
{
    match p_block_items(toks, pos, seq![]) {
        Err(e) => Err(e),
        Ok((statements, p)) => Ok((StmtView::Block { statements }, p)),
    }
}

/// `statement → exprStmt | printStmt | block | ifStmt | whileStmt`
pub open spec fn p_statement(toks: Seq<Token>, pos: nat) -> Result<(StmtView, nat), ParseError>
    decreases toks.len() - pos, 13nat, 0nat,
{
    if matches_at(toks, pos, TokenType::WHILE) {
        p_while(toks, pos + 1)
    } else if matches_at(toks, pos, TokenType::IF) {
        p_if(toks, pos + 1)
    } else if matches_at(toks, pos, TokenType::PRINT) {
        p_expr_then_semicolon(toks, pos + 1, true)
    } else if matches_at(toks, pos, TokenType::LEFT_BRACE) {
        p_block(toks, pos + 1)
    } else {
        p_expr_then_semicolon(toks, pos, false)
    }
}

/// `declaration → varDecl | statement`
pub open spec fn p_declaration(toks: Seq<Token>, pos: nat) -> Result<(StmtView, nat), ParseError>
    decreases toks.len() - pos, 14nat, 0nat,
{
    if matches_at(toks, pos, TokenType::VAR) {
        p_var_declaration(toks, pos + 1)
    } else {
        p_statement(toks, pos)
    }
}

/// Kinds that begin a statement, where recovery after an error stops.
pub open spec fn starts_statement(k: TokenType) -> bool {
    k == TokenType::CLASS || k == TokenType::FUN || k == TokenType::VAR || k == TokenType::FOR
        || k == TokenType::IF || k == TokenType::WHILE || k == TokenType::PRINT || k == TokenType::RETURN
}

/// Where recovery stops when scanning forward from `p`: after a `;`, before a
/// token that begins a statement, or at the end.
pub open spec fn sync_from(toks: Seq<Token>, p: nat) -> nat
    decreases toks.len() - p,
{
    if p >= toks.len() || p == 0 || at_end(toks, p) {
        p
    } else if kind_at(toks, (p - 1) as nat) == TokenType::SEMICOLON {
        p
    } else if starts_statement(kind_at(toks, p)) {
        p
    } else {
        sync_from(toks, p + 1)
    }
}

/// Where recovery after an error that stopped parsing at `at` resumes: one
/// token further, then on to the next statement boundary; at the end it stays.
pub open spec fn recover_from(toks: Seq<Token>, at: nat) -> nat {
    if at_end(toks, at) { at } else { sync_from(toks, at + 1) }
}

/// `program → declaration* EOF`: the statements parsed from `pos` on, appended
/// to `acc`, and the errors reported, appended to `errs`. After an error the
/// parser recovers at the next statement boundary.
pub open spec fn p_program(
    toks: Seq<Token>,
    pos: nat,
    acc: Seq<StmtView>,
    errs: Seq<Diagnostic>,
) -> (Seq<StmtView>, Seq<Diagnostic>)
    decreases toks.len() - pos,
{
    if pos >= toks.len() || at_end(toks, pos) {
        (acc, errs)
    } else {
        match p_declaration(toks, pos) {
            Ok((s, p)) => if !advanced(toks, pos, p) {
                (acc, errs)
            } else {
                p_program(toks, p, acc.push(s), errs)
            },
            Err(e) => {
                let errs2 = errs.push(Diagnostic { line: e.token.line, kind: e.kind });
                let p = recover_from(toks, e.at as nat);
                if !advanced(toks, pos, p) {
                    (acc, errs2)
                } else {
                    p_program(toks, p, acc, errs2)
                }
            },
        }
    }
}

/// The statements of a whole token list.
pub open spec fn parse_program(toks: Seq<Token>) -> Seq<StmtView> {
    p_program(toks, 0, seq![], seq![]).0
}

/// The literal node a number or string token parses to.
pub open spec fn literal_node(t: Token) -> Expr {
    Expr::Literal { value: match t.literal { Some(v) => v, None => Literal::Nil } }
}

/// Multiplication and division bind tighter than addition and subtraction:
/// for number tokens `a`, `b`, `c`, an additive operator `op1` and a
/// multiplicative operator `op2`, the statement `a op1 b op2 c;` parses as
/// `a op1 (b op2 c)`.
pub proof fn lemma_product_binds_tighter(a: Token, op1: Token, b: Token, op2: Token, c: Token, semi: Token, eof: Token)
    requires
        a.token_type == TokenType::NUMBER,
        b.token_type == TokenType::NUMBER,
        c.token_type == TokenType::NUMBER,
        op1.token_type == TokenType::PLUS || op1.token_type == TokenType::MINUS,
        op2.token_type == TokenType::STAR || op2.token_type == TokenType::SLASH,
        semi.token_type == TokenType::SEMICOLON,
        eof.token_type == TokenType::EOF,
    ensures
        parse_program(seq![a, op1, b, op2, c, semi, eof]) == seq![StmtView::Expr(Expr::Binary {
            left: Box::new(literal_node(a)),
            operator: operator_of(op1.token_type)->0,
            right: Box::new(Expr::Binary {
                left: Box::new(literal_node(b)),
                operator: operator_of(op2.token_type)->0,
                right: Box::new(literal_node(c)),
            }),
        })],
{
    let t = seq![a, op1, b, op2, c, semi, eof];
    let la = literal_node(a);
    let lb = literal_node(b);
    let lc = literal_node(c);
    let bc = Expr::Binary { left: Box::new(lb), operator: operator_of(op2.token_type)->0, right: Box::new(lc) };
    let whole = Expr::Binary { left: Box::new(la), operator: operator_of(op1.token_type)->0, right: Box::new(bc) };
    assert(p_primary(t, 0) == Ok::<(Expr, nat), ParseError>((la, 1nat)));
    assert(p_unary(t, 0) == Ok::<(Expr, nat), ParseError>((la, 1nat)));
    assert(p_binary(t, 0, 0) == Ok::<(Expr, nat), ParseError>((la, 1nat)));
    assert(p_binary_rest(t, la, 1, 1) == Ok::<(Expr, nat), ParseError>((la, 1nat)));
    assert(p_binary(t, 0, 1) == Ok::<(Expr, nat), ParseError>((la, 1nat)));
    assert(p_primary(t, 2) == Ok::<(Expr, nat), ParseError>((lb, 3nat)));
    assert(p_unary(t, 2) == Ok::<(Expr, nat), ParseError>((lb, 3nat)));
    assert(p_binary(t, 2, 0) == Ok::<(Expr, nat), ParseError>((lb, 3nat)));
    assert(p_primary(t, 4) == Ok::<(Expr, nat), ParseError>((lc, 5nat)));
    assert(p_unary(t, 4) == Ok::<(Expr, nat), ParseError>((lc, 5nat)));
    assert(p_binary(t, 4, 0) == Ok::<(Expr, nat), ParseError>((lc, 5nat)));
    assert(p_binary_rest(t, bc, 5, 1) == Ok::<(Expr, nat), ParseError>((bc, 5nat)));
    assert(p_binary_rest(t, lb, 3, 1) == Ok::<(Expr, nat), ParseError>((bc, 5nat)));
    assert(p_binary(t, 2, 1) == Ok::<(Expr, nat), ParseError>((bc, 5nat)));
    assert(p_binary_rest(t, whole, 5, 2) == Ok::<(Expr, nat), ParseError>((whole, 5nat)));
    assert(p_binary_rest(t, la, 1, 2) == Ok::<(Expr, nat), ParseError>((whole, 5nat)));
    assert(p_binary(t, 0, 2) == Ok::<(Expr, nat), ParseError>((whole, 5nat)));
    assert(p_binary_rest(t, whole, 5, 3) == Ok::<(Expr, nat), ParseError>((whole, 5nat)));
    assert(p_binary(t, 0, 3) == Ok::<(Expr, nat), ParseError>((whole, 5nat)));
    assert(p_binary_rest(t, whole, 5, 4) == Ok::<(Expr, nat), ParseError>((whole, 5nat)));
    assert(p_binary(t, 0, 4) == Ok::<(Expr, nat), ParseError>((whole, 5nat)));
    assert(p_binary_rest(t, whole, 5, 5) == Ok::<(Expr, nat), ParseError>((whole, 5nat)));
    assert(p_binary(t, 0, 5) == Ok::<(Expr, nat), ParseError>((whole, 5nat)));
    assert(p_binary_rest(t, whole, 5, 6) == Ok::<(Expr, nat), ParseError>((whole, 5nat)));
    assert(p_binary(t, 0, 6) == Ok::<(Expr, nat), ParseError>((whole, 5nat)));
    assert(p_assignment(t, 0) == Ok::<(Expr, nat), ParseError>((whole, 5nat)));
    let stmt = StmtView::Expr(whole);
    assert(p_expr_then_semicolon(t, 0, false) == Ok::<(StmtView, nat), ParseError>((stmt, 6nat)));
    assert(p_statement(t, 0) == Ok::<(StmtView, nat), ParseError>((stmt, 6nat)));
    assert(p_declaration(t, 0) == Ok::<(StmtView, nat), ParseError>((stmt, 6nat)));
    assert(p_program(t, 6, seq![stmt], seq![]) == (seq![stmt], Seq::<Diagnostic>::empty()));
    assert(seq![].push(stmt) =~= seq![stmt]);
}

pub open spec fn lift_expr(r: Result<(Expr, usize), ParseError>) -> Result<(Expr, nat), ParseError> {
    match r {
        Ok((e, p)) => Ok((e, p as nat)),
        Err(e) => Err(e),
    }
}

pub open spec fn lift_stmt(r: Result<(Stmt, usize), ParseError>) -> Result<(StmtView, nat), ParseError> {
    match r {
        Ok((s, p)) => Ok((stmt_view(s), p as nat)),
        Err(e) => Err(e),
    }
}

/// An exec result went forward from `pos` without passing the end; an error
/// stopped at or after `pos`.
pub open spec fn moved<T>(r: Result<(T, usize), ParseError>, pos: usize, len: nat) -> bool {
    match r {
        Ok((_, p)) => pos < p < len,
        Err(e) => pos <= e.at < len,
    }
}

proof fn lemma_views_push(ss: Seq<Stmt>, s: Stmt)
    ensures
        stmts_view(ss.push(s)) == stmts_view(ss).push(stmt_view(s)),
{
    assert(ss.push(s).drop_last() =~= ss);
}

fn level_op_exec(level: u8, k: TokenType) -> (r: bool)
    ensures
        r == level_op(level as nat, k),
{
    if level == 6 {
        k == TokenType::OR
    } else if level == 5 {
        k == TokenType::AND
    } else if level == 4 {
        k == TokenType::BANG_EQUAL || k == TokenType::EQUAL_EQUAL
    } else if level == 3 {
        k == TokenType::GREATER || k == TokenType::GREATER_EQUAL || k == TokenType::LESS
            || k == TokenType::LESS_EQUAL
    } else if level == 2 {
        k == TokenType::MINUS || k == TokenType::PLUS
    } else if level == 1 {
        k == TokenType::SLASH || k == TokenType::STAR
    } else {
        false
    }
}

fn is_statement_start(k: TokenType) -> (r: bool)
    ensures
        r == starts_statement(k),
{
    k == TokenType::CLASS || k == TokenType::FUN || k == TokenType::VAR || k == TokenType::FOR
        || k == TokenType::IF || k == TokenType::WHILE || k == TokenType::PRINT || k == TokenType::RETURN
}

/// A recursive-descent parser over a token list closed by EOF.
pub struct Parser {
    current: usize,
    tokens: Vec<Token>,
    errors: Vec<Diagnostic>,
}

impl Parser {
    pub closed spec fn token_list(&self) -> Seq<Token> {
        self.tokens@
    }

    pub closed spec fn position(&self) -> nat {
        self.current as nat
    }

    pub closed spec fn errors_so_far(&self) -> Seq<Diagnostic> {
        self.errors@
    }

    pub closed spec fn wf(&self) -> bool {
        tokens_wf(self.tokens@) && self.current < self.tokens@.len()
    }

    /// A parser at the start of `tokens`, which must be closed by EOF.
    pub fn new(tokens: Vec<Token>) -> (p: Parser)
        requires
            tokens_wf(tokens@),
        ensures
            p.wf(),
            p.token_list() == tokens@,
            p.position() == 0,
            p.errors_so_far() == Seq::<Diagnostic>::empty(),
    {
        Parser { current: 0, tokens, errors: Vec::new() }
    }

    /// The parse errors reported so far, in order.
    pub fn errors(&self) -> (r: &Vec<Diagnostic>)
        ensures
            r@ == self.errors_so_far(),
    {
        &self.errors
    }

    /// Parses declarations up to EOF. A declaration that fails is reported, the
    /// parser recovers at the next statement boundary, and parsing goes on.
    pub fn parse(&mut self) -> (r: Vec<Stmt>)
        requires
            old(self).wf(),
        ensures
            (stmts_view(r@), final(self).errors_so_far())
                == p_program(old(self).token_list(), old(self).position(), seq![], old(self).errors_so_far()),
    {
        let ghost toks = self.tokens@;
        let ghost goal = p_program(toks, self.current as nat, seq![], self.errors@);
        let mut stmts: Vec<Stmt> = Vec::new();
        proof {
            assert(stmts_view(stmts@) =~= Seq::<StmtView>::empty());
        }
        while !self.is_at_end(self.current)
            invariant
                self.wf(),
                self.tokens@ == toks,
                p_program(toks, self.current as nat, stmts_view(stmts@), self.errors@) == goal,
            decreases toks.len() - self.current,
        {
            match self.declaration(self.current) {
                Ok((s, p)) => {
                    proof {
                        lemma_views_push(stmts@, s);
                    }
                    stmts.push(s);
                    self.current = p;
                },
                Err(e) => {
                    self.errors.push(Diagnostic { line: e.token.line, kind: e.kind });
                    self.synchronize(e.at);
                },
            }
        }
        stmts
    }

    /// Recovers from an error that stopped parsing at `at`: steps over one
    /// token, unless at the end, then skips to the next statement boundary.
    fn synchronize(&mut self, at: usize)
        requires
            old(self).wf(),
            old(self).current <= at < old(self).tokens@.len(),
            !at_end(old(self).tokens@, old(self).current as nat),
        ensures
            final(self).wf(),
            final(self).current == recover_from(old(self).tokens@, at as nat),
            final(self).current > old(self).current,
            final(self).tokens == old(self).tokens,
            final(self).errors == old(self).errors,
    {
        let ghost toks = self.tokens@;
        let ghost from = (at + 1) as nat;
        self.current = at;
        if self.is_at_end(at) {
            return;
        }
        let n = self.tokens.len();
        self.current = at + 1;
        while !self.is_at_end(self.current)
            invariant
                self.wf(),
                self.tokens == old(self).tokens,
                self.errors == old(self).errors,
                self.tokens@ == toks,
                1 <= from <= self.current,
                from == at + 1,
                at >= old(self).current,
                !at_end(toks, at as nat),
                toks.len() <= usize::MAX,
                sync_from(toks, self.current as nat) == sync_from(toks, from),
            decreases toks.len() - self.current,
        {
            if self.tokens[self.current - 1].token_type == TokenType::SEMICOLON {
                return;
            }
            if is_statement_start(self.tokens[self.current].token_type) {
                return;
            }
            self.current = self.current + 1;
        }
    }

    fn is_at_end(&self, pos: usize) -> (r: bool)
        requires
            pos < self.tokens@.len(),
        ensures
            r == at_end(self.tokens@, pos as nat),
    {
        self.tokens[pos].token_type == TokenType::EOF
    }

    /// Whether the token at `pos` has kind `k` and is not the end; one can then step over it.
    fn check(&self, pos: usize, k: TokenType) -> (r: bool)
        requires
            tokens_wf(self.tokens@),
            pos < self.tokens@.len(),
        ensures
            r == check(self.tokens@, pos as nat, k),
            r == matches_at(self.tokens@, pos as nat, k),
            self.tokens@.len() <= usize::MAX,
    {
        let n = self.tokens.len();
        self.tokens[pos].token_type != TokenType::EOF && self.tokens[pos].token_type == k
    }

    fn error_at(&self, pos: usize, kind: ErrorKind) -> (r: ParseError)
        requires
            pos < self.tokens@.len(),
        ensures
            r == (ParseError { token: tok(self.tokens@, pos as nat), kind, at: pos }),
    {
        ParseError { token: self.tokens[pos].duplicate(), kind, at: pos }
    }

    fn primary(&self, pos: usize) -> (r: Result<(Expr, usize), ParseError>)
        requires
            tokens_wf(self.tokens@),
            pos < self.tokens@.len(),
        ensures
            lift_expr(r) == p_primary(self.tokens@, pos as nat),
            moved(r, pos, self.tokens@.len()),
        decreases self.tokens@.len() - pos, 0nat, 0nat,
    {
        if self.check(pos, TokenType::FALSE) {
            Ok((Expr::Literal { value: Literal::Boolean(false) }, pos + 1))
        } else if self.check(pos, TokenType::TRUE) {
            Ok((Expr::Literal { value: Literal::Boolean(true) }, pos + 1))
        } else if self.check(pos, TokenType::NIL) {
            Ok((Expr::Literal { value: Literal::Nil }, pos + 1))
        } else if self.check(pos, TokenType::IDENTIFIER) {
            Ok((Expr::Variable { name: self.tokens[pos].duplicate() }, pos + 1))
        } else if self.check(pos, TokenType::NUMBER) || self.check(pos, TokenType::STRING) {
            let value = match &self.tokens[pos].literal {
                Some(v) => v.duplicate(),
                None => Literal::Nil,
            };
            Ok((Expr::Literal { value }, pos + 1))
        } else if self.check(pos, TokenType::LEFT_PAREN) {
            match self.assignment(pos + 1) {
                Err(e) => Err(e),
                Ok((e, p)) => if self.check(p, TokenType::RIGHT_PAREN) {
                    Ok((Expr::Grouping { expression: Box::new(e) }, p + 1))
                } else {
                    Err(self.error_at(p, ErrorKind::ExpectRightParenAfterExpr))
                },
            }
        } else {
            Err(self.error_at(pos, ErrorKind::ExpectExpression))
        }
    }

    fn unary(&self, pos: usize) -> (r: Result<(Expr, usize), ParseError>)
        requires
            tokens_wf(self.tokens@),
            pos < self.tokens@.len(),
        ensures
            lift_expr(r) == p_unary(self.tokens@, pos as nat),
            moved(r, pos, self.tokens@.len()),
        decreases self.tokens@.len() - pos, 1nat, 0nat,
    {
        if self.check(pos, TokenType::BANG) || self.check(pos, TokenType::MINUS) {
            let operator = Operator::from_token(&self.tokens[pos]);
            match self.unary(pos + 1) {
                Err(e) => Err(e),
                Ok((right, p)) => Ok((Expr::Unary { operator, right: Box::new(right) }, p)),
            }
        } else {
            self.primary(pos)
        }
    }

    fn binary(&self, pos: usize, level: u8) -> (r: Result<(Expr, usize), ParseError>)
        requires
            tokens_wf(self.tokens@),
            pos < self.tokens@.len(),
            level <= 6,
        ensures
            lift_expr(r) == p_binary(self.tokens@, pos as nat, level as nat),
            moved(r, pos, self.tokens@.len()),
        decreases self.tokens@.len() - pos, level + 2, 0nat,
    {
        if level == 0 {
            return self.unary(pos);
        }
        match self.binary(pos, level - 1) {
            Err(e) => Err(e),
            Ok((left, p)) => self.binary_rest(left, p, level),
        }
    }

    fn binary_rest(&self, left: Expr, pos: usize, level: u8) -> (r: Result<(Expr, usize), ParseError>)
        requires
            tokens_wf(self.tokens@),
            pos < self.tokens@.len(),
            1 <= level <= 6,
        ensures
            lift_expr(r) == p_binary_rest(self.tokens@, left, pos as nat, level as nat),
            r matches Ok((_, p)) ==> pos <= p < self.tokens@.len(),
            r matches Err(e) ==> pos <= e.at < self.tokens@.len(),
        decreases self.tokens@.len() - pos, level + 2, 1nat,
    {
        let n = self.tokens.len();
        let k = self.tokens[pos].token_type;
        if level_op_exec(level, k) && k != TokenType::EOF {
            let operator = Operator::from_token(&self.tokens[pos]);
            match self.binary(pos + 1, level - 1) {
                Err(e) => Err(e),
                Ok((right, p)) => {
                    let e = if level >= 5 {
                        Expr::Logical { left: Box::new(left), operator, right: Box::new(right) }
                    } else {
                        Expr::Binary { left: Box::new(left), operator, right: Box::new(right) }
                    };
                    self.binary_rest(e, p, level)
                },
            }
        } else {
            Ok((left, pos))
        }
    }

    fn assignment(&self, pos: usize) -> (r: Result<(Expr, usize), ParseError>)
        requires
            tokens_wf(self.tokens@),
            pos < self.tokens@.len(),
        ensures
            lift_expr(r) == p_assignment(self.tokens@, pos as nat),
            moved(r, pos, self.tokens@.len()),
        decreases self.tokens@.len() - pos, 9nat, 0nat,
    {
        match self.binary(pos, 6) {
            Err(e) => Err(e),
            Ok((expr, p)) => if self.check(p, TokenType::EQUAL) {
                let equals = self.tokens[p].duplicate();
                match self.assignment(p + 1) {
                    Err(e) => Err(e),
                    Ok((value, p2)) => match expr {
                        Expr::Variable { name } => Ok((Expr::Assignment { name, value: Box::new(value) }, p2)),
                        _ => Err(ParseError { token: equals, kind: ErrorKind::InvalidAssignmentTarget, at: p2 }),
                    },
                }
            } else {
                Ok((expr, p))
            },
        }
    }

    fn expr_then_semicolon(&self, pos: usize, print: bool) -> (r: Result<(Stmt, usize), ParseError>)
        requires
            tokens_wf(self.tokens@),
            pos < self.tokens@.len(),
        ensures
            lift_stmt(r) == p_expr_then_semicolon(self.tokens@, pos as nat, print),
            moved(r, pos, self.tokens@.len()),
        decreases self.tokens@.len() - pos, 11nat, 0nat,
    {
        match self.assignment(pos) {
            Err(e) => Err(e),
            Ok((e, p)) => if self.check(p, TokenType::SEMICOLON) {
                Ok((if print { Stmt::Print(e) } else { Stmt::Expr(e) }, p + 1))
            } else {
                Err(self.error_at(p, ErrorKind::ExpectSemicolonAfterValue))
            },
        }
    }

    fn var_declaration(&self, pos: usize) -> (r: Result<(Stmt, usize), ParseError>)
        requires
            tokens_wf(self.tokens@),
            pos < self.tokens@.len(),
        ensures
            lift_stmt(r) == p_var_declaration(self.tokens@, pos as nat),
            moved(r, pos, self.tokens@.len()),
        decreases self.tokens@.len() - pos, 12nat, 0nat,
    {
        if !self.check(pos, TokenType::IDENTIFIER) {
            return Err(self.error_at(pos, ErrorKind::ExpectVariableName));
        }
        let name = self.tokens[pos].duplicate();
        let p = pos + 1;
        if self.check(p, TokenType::EQUAL) {
            match self.assignment(p + 1) {
                Err(e) => Err(e),
                Ok((init, p2)) => if self.check(p2, TokenType::SEMICOLON) {
                    Ok((Stmt::Var { name, initializer: Some(init) }, p2 + 1))
                } else {
                    Err(self.error_at(p2, ErrorKind::ExpectSemicolonAfterVarDecl))
                },
            }
        } else if self.check(p, TokenType::SEMICOLON) {
            Ok((Stmt::Var { name, initializer: None }, p + 1))
        } else {
            Err(self.error_at(p, ErrorKind::ExpectSemicolonAfterVarDecl))
        }
    }

    fn while_statement(&self, pos: usize) -> (r: Result<(Stmt, usize), ParseError>)
        requires
            tokens_wf(self.tokens@),
            pos < self.tokens@.len(),
        ensures
            lift_stmt(r) == p_while(self.tokens@, pos as nat),
            moved(r, pos, self.tokens@.len()),
        decreases self.tokens@.len() - pos, 12nat, 0nat,
    {
        if !self.check(pos, TokenType::LEFT_PAREN) {
            return Err(self.error_at(pos, ErrorKind::ExpectLeftParenAfterWhile));
        }
        match self.assignment(pos + 1) {
            Err(e) => Err(e),
            Ok((condition, p)) => if !self.check(p, TokenType::RIGHT_PAREN) {
                Err(self.error_at(p, ErrorKind::ExpectRightParenAfterWhile))
            } else {
                match self.declaration(p + 1) {
                    Err(e) => Err(e),
                    Ok((body, p2)) => Ok((Stmt::While { condition, body: Box::new(body) }, p2)),
                }
            },
        }
    }

    fn if_statement(&self, pos: usize) -> (r: Result<(Stmt, usize), ParseError>)
        requires
            tokens_wf(self.tokens@),
            pos < self.tokens@.len(),
        ensures
            lift_stmt(r) == p_if(self.tokens@, pos as nat),
            moved(r, pos, self.tokens@.len()),
        decreases self.tokens@.len() - pos, 12nat, 0nat,
    {
        if !self.check(pos, TokenType::LEFT_PAREN) {
            return Err(self.error_at(pos, ErrorKind::ExpectLeftParenAfterIf));
        }
        match self.assignment(pos + 1) {
            Err(e) => Err(e),
            Ok((condition, p)) => if !self.check(p, TokenType::RIGHT_PAREN) {
                Err(self.error_at(p, ErrorKind::ExpectRightParenAfterIf))
            } else {
                match self.statement(p + 1) {
                    Err(e) => Err(e),
                    Ok((then_branch, p2)) => if self.check(p2, TokenType::ELSE) {
                        match self.statement(p2 + 1) {
                            Err(e) => Err(e),
                            Ok((else_branch, p3)) => Ok((
                                Stmt::If {
                                    condition,
                                    then_branch: Box::new(then_branch),
                                    else_branch: Some(Box::new(else_branch)),
                                },
                                p3,
                            )),
                        }
                    } else {
                        Ok((Stmt::If { condition, then_branch: Box::new(then_branch), else_branch: None }, p2))
                    },
                }
            },
        }
    }

    fn block_statement(&self, pos: usize) -> (r: Result<(Stmt, usize), ParseError>)
        requires
            tokens_wf(self.tokens@),
            pos < self.tokens@.len(),
        ensures
            lift_stmt(r) == p_block(self.tokens@, pos as nat),
            moved(r, pos, self.tokens@.len()),
        decreases self.tokens@.len() - pos, 16nat, 0nat,
    {
        let ghost toks = self.tokens@;
        let mut statements: Vec<Stmt> = Vec::new();
        let mut p = pos;
        proof {
            assert(stmts_view(statements@) =~= Seq::<StmtView>::empty());
        }
        while !self.check(p, TokenType::RIGHT_BRACE) && !self.is_at_end(p)
            invariant
                tokens_wf(toks),
                self.tokens@ == toks,
                pos <= p < toks.len(),
                p_block_items(toks, p as nat, stmts_view(statements@)) == p_block_items(toks, pos as nat, seq![]),
            decreases toks.len() - p,
        {
            match self.declaration(p) {
                Err(e) => return Err(e),
                Ok((s, p2)) => {
                    proof {
                        lemma_views_push(statements@, s);
                    }
                    statements.push(s);
                    p = p2;
                },
            }
        }
        if self.check(p, TokenType::RIGHT_BRACE) {
            Ok((Stmt::Block { statements }, p + 1))
        } else {
            Err(self.error_at(p, ErrorKind::ExpectRightBraceAfterBlock))
        }
    }

    fn statement(&self, pos: usize) -> (r: Result<(Stmt, usize), ParseError>)
        requires
            tokens_wf(self.tokens@),
            pos < self.tokens@.len(),
        ensures
            lift_stmt(r) == p_statement(self.tokens@, pos as nat),
            moved(r, pos, self.tokens@.len()),
        decreases self.tokens@.len() - pos, 13nat, 0nat,
    {
        if self.check(pos, TokenType::WHILE) {
            self.while_statement(pos + 1)
        } else if self.check(pos, TokenType::IF) {
            self.if_statement(pos + 1)
        } else if self.check(pos, TokenType::PRINT) {
            self.expr_then_semicolon(pos + 1, true)
        } else if self.check(pos, TokenType::LEFT_BRACE) {
            self.block_statement(pos + 1)
        } else {
            self.expr_then_semicolon(pos, false)
        }
    }

    fn declaration(&self, pos: usize) -> (r: Result<(Stmt, usize), ParseError>)
        requires
            tokens_wf(self.tokens@),
            pos < self.tokens@.len(),
        ensures
            lift_stmt(r) == p_declaration(self.tokens@, pos as nat),
            moved(r, pos, self.tokens@.len()),
        decreases self.tokens@.len() - pos, 14nat, 0nat,
    {
        if self.check(pos, TokenType::VAR) {
            self.var_declaration(pos + 1)
        } else {
            self.statement(pos)
        }
    }
}

} // verus!
