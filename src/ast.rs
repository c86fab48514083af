use vstd::prelude::*;
use vstd::string::StringExecFns;
use crate::token::{Literal, Token, TokenType};

verus! {

/// The operators of the language.
#[derive(Debug, Clone, Copy, PartialEq, Eq, Structural)]
pub enum Operator {
    Bang,
    Minus,
    Plus,
    Slash,
    Star,
    Greater,
    GreaterEqual,
    Less,
    LessEqual,
    EqualEqual,
    BangEqual,
    Or,
    And,
}

/// The operator a token kind stands for, if it stands for one.
pub open spec fn operator_of(t: TokenType) -> Option<Operator> {
    match t {
        TokenType::BANG => Some(Operator::Bang),
        TokenType::MINUS => Some(Operator::Minus),
        TokenType::PLUS => Some(Operator::Plus),
        TokenType::SLASH => Some(Operator::Slash),
        TokenType::STAR => Some(Operator::Star),
        TokenType::GREATER => Some(Operator::Greater),
        TokenType::GREATER_EQUAL => Some(Operator::GreaterEqual),
        TokenType::LESS => Some(Operator::Less),
        TokenType::LESS_EQUAL => Some(Operator::LessEqual),
        TokenType::EQUAL_EQUAL => Some(Operator::EqualEqual),
        TokenType::BANG_EQUAL => Some(Operator::BangEqual),
        TokenType::OR => Some(Operator::Or),
        TokenType::AND => Some(Operator::And),
        _ => None,
    }
}

/// The source symbol of each operator.
pub open spec fn operator_text(op: Operator) -> Seq<char> {
    match op {
        Operator::Bang => "!"@,
        Operator::Minus => "-"@,
        Operator::Plus => "+"@,
        Operator::Slash => "/"@,
        Operator::Star => "*"@,
        Operator::Greater => ">"@,
        Operator::GreaterEqual => ">="@,
        Operator::Less => "<"@,
        Operator::LessEqual => "<="@,
        Operator::EqualEqual => "=="@,
        Operator::BangEqual => "!="@,
        Operator::Or => "or"@,
        Operator::And => "and"@,
    }
}

impl Operator {
    /// The operator of an operator token.
    pub fn from_token(t: &Token) -> (r: Operator)
        requires
            operator_of(t.token_type) is Some,
        ensures
            operator_of(t.token_type) == Some(r),
    {
        match t.token_type {
            TokenType::BANG => Operator::Bang,
            TokenType::MINUS => Operator::Minus,
            TokenType::PLUS => Operator::Plus,
            TokenType::SLASH => Operator::Slash,
            TokenType::STAR => Operator::Star,
            TokenType::GREATER => Operator::Greater,
            TokenType::GREATER_EQUAL => Operator::GreaterEqual,
            TokenType::LESS => Operator::Less,
            TokenType::LESS_EQUAL => Operator::LessEqual,
            TokenType::EQUAL_EQUAL => Operator::EqualEqual,
            TokenType::BANG_EQUAL => Operator::BangEqual,
            TokenType::OR => Operator::Or,
            _ => Operator::And,
        }
    }

    /// The source symbol of the operator.
    pub fn text(&self) -> (r: String)
        ensures
            r@ == operator_text(*self),
    {
        match self {
            Operator::Bang => String::from_str("!"),
            Operator::Minus => String::from_str("-"),
            Operator::Plus => String::from_str("+"),
            Operator::Slash => String::from_str("/"),
            Operator::Star => String::from_str("*"),
            Operator::Greater => String::from_str(">"),
            Operator::GreaterEqual => String::from_str(">="),
            Operator::Less => String::from_str("<"),
            Operator::LessEqual => String::from_str("<="),
            Operator::EqualEqual => String::from_str("=="),
            Operator::BangEqual => String::from_str("!="),
            Operator::Or => String::from_str("or"),
            Operator::And => String::from_str("and"),
        }
    }
}

/// An expression tree.
#[derive(Debug, PartialEq)]
pub enum Expr {
    Assignment { name: Token, value: Box<Expr> },
    Binary { left: Box<Expr>, operator: Operator, right: Box<Expr> },
    Unary { operator: Operator, right: Box<Expr> },
    Grouping { expression: Box<Expr> },
    Literal { value: Literal },
    Variable { name: Token },
    Logical { left: Box<Expr>, operator: Operator, right: Box<Expr> },
}

/// A statement tree.
#[derive(Debug, PartialEq)]
pub enum Stmt {
    Expr(Expr),
    Print(Expr),
    Var { name: Token, initializer: Option<Expr> },
    Block { statements: Vec<Stmt> },
    If { condition: Expr, then_branch: Box<Stmt>, else_branch: Option<Box<Stmt>> },
    While { condition: Expr, body: Box<Stmt> },
}

/// A statement as mathematical data: a block holds a sequence.
pub enum StmtView {
    Expr(Expr),
    Print(Expr),
    Var { name: Token, initializer: Option<Expr> },
    Block { statements: Seq<StmtView> },
    If { condition: Expr, then_branch: Box<StmtView>, else_branch: Option<Box<StmtView>> },
    While { condition: Expr, body: Box<StmtView> },
}

pub open spec fn stmt_view(s: Stmt) -> StmtView
    decreases s,
{
    match s {
        Stmt::Expr(e) => StmtView::Expr(e),
        Stmt::Print(e) => StmtView::Print(e),
        Stmt::Var { name, initializer } => StmtView::Var { name, initializer },
        Stmt::Block { statements } => StmtView::Block { statements: stmts_view(statements@) },
        Stmt::If { condition, then_branch, else_branch } => StmtView::If {
            condition,
            then_branch: Box::new(stmt_view(*then_branch)),
            else_branch: match else_branch {
                Some(b) => Some(Box::new(stmt_view(*b))),
                None => None,
            },
        },
        Stmt::While { condition, body } => StmtView::While { condition, body: Box::new(stmt_view(*body)) },
    }
}

pub open spec fn stmts_view(ss: Seq<Stmt>) -> Seq<StmtView>
    decreases ss,
{
    if ss.len() == 0 {
        seq![]
    } else {
        stmts_view(ss.drop_last()).push(stmt_view(ss.last()))
    }
}

/// `stmts_view` keeps the length and views each statement in place.
pub proof fn lemma_stmts_view_index(ss: Seq<Stmt>)
    ensures
        stmts_view(ss).len() == ss.len(),
        forall|i: int| 0 <= i < ss.len() ==> #[trigger] stmts_view(ss)[i] == stmt_view(ss[i]),
    decreases ss.len(),
{
    if ss.len() > 0 {
        lemma_stmts_view_index(ss.drop_last());
    }
}

impl Expr {
    /// A copy of the expression, node for node.
    pub fn duplicate(&self) -> (r: Expr)
        ensures
            r == *self,
        decreases self,
    {
        match self {
            Expr::Assignment { name, value } => Expr::Assignment {
                name: name.duplicate(),
                value: Box::new(value.duplicate()),
            },
            Expr::Binary { left, operator, right } => Expr::Binary {
                left: Box::new(left.duplicate()),
                operator: *operator,
                right: Box::new(right.duplicate()),
            },
            Expr::Unary { operator, right } => Expr::Unary { operator: *operator, right: Box::new(right.duplicate()) },
            Expr::Grouping { expression } => Expr::Grouping { expression: Box::new(expression.duplicate()) },
            Expr::Literal { value } => Expr::Literal { value: value.duplicate() },
            Expr::Variable { name } => Expr::Variable { name: name.duplicate() },
            Expr::Logical { left, operator, right } => Expr::Logical {
                left: Box::new(left.duplicate()),
                operator: *operator,
                right: Box::new(right.duplicate()),
            },
        }
    }
}

impl Stmt {
    /// A copy of the statement, node for node.
    pub fn duplicate(&self) -> (r: Stmt)
        ensures
            stmt_view(r) == stmt_view(*self),
        decreases self,
    {
        match self {
            Stmt::Expr(e) => Stmt::Expr(e.duplicate()),
            Stmt::Print(e) => Stmt::Print(e.duplicate()),
            Stmt::Var { name, initializer } => Stmt::Var {
                name: name.duplicate(),
                initializer: match initializer {
                    Some(e) => Some(e.duplicate()),
                    None => None,
                },
            },
            Stmt::Block { statements } => {
                let mut copy: Vec<Stmt> = Vec::new();
                let mut i: usize = 0;
                while i < statements.len()
                    invariant
                        *self == (Stmt::Block { statements: *statements }),
                        i <= statements@.len(),
                        copy@.len() == i,
                        forall|k: int| 0 <= k < i ==> stmt_view(#[trigger] copy@[k]) == stmt_view(statements@[k]),
                    decreases statements@.len() - i,
                {
                    proof {
                        vstd::std_specs::vec::axiom_vec_index_decreases(*statements, i as int);
                        assert(decreases_to!(*self => (*self)->statements));
                    }
                    let s = statements[i].duplicate();
                    copy.push(s);
                    i = i + 1;
                }
                proof {
                    lemma_stmts_view_index(copy@);
                    lemma_stmts_view_index(statements@);
                    assert(stmts_view(copy@) =~= stmts_view(statements@));
                }
                Stmt::Block { statements: copy }
            },
            Stmt::If { condition, then_branch, else_branch } => Stmt::If {
                condition: condition.duplicate(),
                then_branch: Box::new(then_branch.duplicate()),
                else_branch: match else_branch {
                    Some(b) => Some(Box::new(b.duplicate())),
                    None => None,
                },
            },
            Stmt::While { condition, body } => Stmt::While {
                condition: condition.duplicate(),
                body: Box::new(body.duplicate()),
            },
        }
    }
}

} // verus!
