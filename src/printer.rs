use vstd::prelude::*;
use vstd::string::StringExecFns;
use crate::ast::{lemma_stmts_view_index, operator_text, stmt_view, stmts_view, Expr, Stmt, StmtView};
use crate::text::{append, int_text, int_to_string};
use crate::token::Literal;

verus! {

/// The text of a literal in a printed tree: strings bare, numbers in base 10.
pub open spec fn literal_text(l: Literal) -> Seq<char> {
    match l {
        Literal::String(s) => s@,
        Literal::Int(i) => int_text(i as int),
        Literal::Boolean(b) => if b { "true"@ } else { "false"@ },
        Literal::Float(t) => t@,
        Literal::Nil => "nil"@,
        Literal::Identifier(s) => s@,
    }
}

/// Each part preceded by a space.
pub open spec fn spaced(parts: Seq<Seq<char>>) -> Seq<char>
    decreases parts.len(),
{
    if parts.len() == 0 {
        seq![]
    } else {
        spaced(parts.drop_last()) + " "@ + parts.last()
    }
}

/// `(name part part ...)`
pub open spec fn paren_text(name: Seq<char>, parts: Seq<Seq<char>>) -> Seq<char> {
    "("@ + name + spaced(parts) + ")"@
}

/// An expression tree in prefix form: each operator node is parenthesized
/// with its operator first, as in `(* (+ 1 2) 3)`.
pub open spec fn ast_text(e: Expr) -> Seq<char>
    decreases e,
{
    match e {
        Expr::Binary { left, operator, right } => paren_text(operator_text(operator), seq![ast_text(*left), ast_text(*right)]),
        Expr::Logical { left, operator, right } => paren_text(operator_text(operator), seq![ast_text(*left), ast_text(*right)]),
        Expr::Grouping { expression } => paren_text("group"@, seq![ast_text(*expression)]),
        Expr::Literal { value } => literal_text(value),
        Expr::Unary { operator, right } => paren_text(operator_text(operator), seq![ast_text(*right)]),
        Expr::Variable { name } => name.lexeme@,
        Expr::Assignment { name, value } => paren_text("= "@ + name.lexeme@, seq![ast_text(*value)]),
    }
}

/// Prints expression trees in prefix form.
pub struct AstPrinter;

fn literal_to_string(l: &Literal) -> (r: String)
    ensures
        r@ == literal_text(*l),
{
    match l {
        Literal::String(s) => s.clone(),
        Literal::Int(i) => int_to_string(*i),
        Literal::Boolean(b) => if *b { String::from_str("true") } else { String::from_str("false") },
        Literal::Float(t) => t.clone(),
        Literal::Nil => String::from_str("nil"),
        Literal::Identifier(s) => s.clone(),
    }
}

impl AstPrinter {
    pub fn print(&mut self, expr: &Expr) -> (r: String)
        ensures
            r@ == ast_text(*expr),
        decreases expr,
    {
        match expr {
            Expr::Binary { left, operator, right } => {
                let l = self.print(left);
                let r = self.print(right);
                let parts = vec![l, r];
                assert(parts@.map_values(|p: String| p@) =~= seq![ast_text(**left), ast_text(**right)]);
                Self::parenthesize(operator.text(), parts)
            },
            Expr::Logical { left, operator, right } => {
                let l = self.print(left);
                let r = self.print(right);
                let parts = vec![l, r];
                assert(parts@.map_values(|p: String| p@) =~= seq![ast_text(**left), ast_text(**right)]);
                Self::parenthesize(operator.text(), parts)
            },
            Expr::Grouping { expression } => {
                let e = self.print(expression);
                let parts = vec![e];
                assert(parts@.map_values(|p: String| p@) =~= seq![ast_text(**expression)]);
                Self::parenthesize(String::from_str("group"), parts)
            },
            Expr::Literal { value } => literal_to_string(value),
            Expr::Unary { operator, right } => {
                let r = self.print(right);
                let parts = vec![r];
                assert(parts@.map_values(|p: String| p@) =~= seq![ast_text(**right)]);
                Self::parenthesize(operator.text(), parts)
            },
            Expr::Variable { name } => name.lexeme.clone(),
            Expr::Assignment { name, value } => {
                let v = self.print(value);
                let mut label = String::from_str("= ");
                append(&mut label, &name.lexeme);
                let parts = vec![v];
                assert(parts@.map_values(|p: String| p@) =~= seq![ast_text(**value)]);
                Self::parenthesize(label, parts)
            },
        }
    }

    /// `(name part part ...)`, from parts already printed.
    fn parenthesize(name: String, parts: Vec<String>) -> (r: String)
        ensures
            r@ == paren_text(name@, parts@.map_values(|p: String| p@)),
    {
        let ghost views = parts@.map_values(|p: String| p@);
        let mut r = String::from_str("(");
        append(&mut r, &name);
        let space = String::from_str(" ");
        let mut i: usize = 0;
        while i < parts.len()
            invariant
                i <= parts@.len(),
                views == parts@.map_values(|p: String| p@),
                space@ == " "@,
                r@ == "("@ + name@ + spaced(views.subrange(0, i as int)),
            decreases parts@.len() - i,
        {
            append(&mut r, &space);
            append(&mut r, &parts[i]);
            proof {
                assert(views.subrange(0, i + 1).drop_last() =~= views.subrange(0, i as int));
            }
            i = i + 1;
        }
        proof {
            assert(views.subrange(0, parts@.len() as int) =~= views);
        }
        let close = String::from_str(")");
        append(&mut r, &close);
        r
    }
}

/// A literal as source text: strings quoted, numbers as written.
pub open spec fn literal_source(l: Literal) -> Seq<char> {
    match l {
        Literal::String(s) => "\""@ + s@ + "\""@,
        _ => literal_text(l),
    }
}

/// An expression as source text. Groupings keep their parentheses and no
/// others are added, so the text parses back to the same tree.
pub open spec fn expr_source(e: Expr) -> Seq<char>
    decreases e,
{
    match e {
        Expr::Binary { left, operator, right } => expr_source(*left) + " "@ + operator_text(operator) + " "@ + expr_source(*right),
        Expr::Logical { left, operator, right } => expr_source(*left) + " "@ + operator_text(operator) + " "@ + expr_source(*right),
        Expr::Grouping { expression } => "("@ + expr_source(*expression) + ")"@,
        Expr::Literal { value } => literal_source(value),
        Expr::Unary { operator, right } => operator_text(operator) + expr_source(*right),
        Expr::Variable { name } => name.lexeme@,
        Expr::Assignment { name, value } => name.lexeme@ + " = "@ + expr_source(*value),
    }
}

/// A statement as source text.
pub open spec fn stmt_source(s: StmtView) -> Seq<char>
    decreases s,
{
    match s {
        StmtView::Expr(e) => expr_source(e) + ";"@,
        StmtView::Print(e) => "print "@ + expr_source(e) + ";"@,
        StmtView::Var { name, initializer } => match initializer {
            Some(e) => "var "@ + name.lexeme@ + " = "@ + expr_source(e) + ";"@,
            None => "var "@ + name.lexeme@ + ";"@,
        },
        StmtView::Block { statements } => "{"@ + spaced_sources(statements) + " }"@,
        StmtView::If { condition, then_branch, else_branch } => match else_branch {
            Some(b) => "if ("@ + expr_source(condition) + ") "@ + stmt_source(*then_branch) + " else "@ + stmt_source(*b),
            None => "if ("@ + expr_source(condition) + ") "@ + stmt_source(*then_branch),
        },
        StmtView::While { condition, body } => "while ("@ + expr_source(condition) + ") "@ + stmt_source(*body),
    }
}

/// Each statement's source preceded by a space.
pub open spec fn spaced_sources(ss: Seq<StmtView>) -> Seq<char>
    decreases ss,
{
    if ss.len() == 0 {
        seq![]
    } else {
        spaced_sources(ss.drop_last()) + " "@ + stmt_source(ss.last())
    }
}

/// A program as source text, one top-level statement per line.
pub open spec fn program_source(ss: Seq<StmtView>) -> Seq<char>
    decreases ss.len(),
{
    if ss.len() == 0 {
        seq![]
    } else {
        program_source(ss.drop_last()) + stmt_source(ss.last()) + "\n"@
    }
}

fn push_str(r: &mut String, s: &str)
    ensures
        final(r)@ == old(r)@ + s@,
{
    let t = String::from_str(s);
    append(r, &t);
}

impl Expr {
    /// The expression as source text that parses back to the same tree.
    pub fn to_source(&self) -> (r: String)
        ensures
            r@ == expr_source(*self),
        decreases self,
    {
        match self {
            Expr::Binary { left, operator, right } | Expr::Logical { left, operator, right } => {
                let mut r = left.to_source();
                push_str(&mut r, " ");
                append(&mut r, &operator.text());
                push_str(&mut r, " ");
                append(&mut r, &right.to_source());
                r
            },
            Expr::Grouping { expression } => {
                let mut r = String::from_str("(");
                append(&mut r, &expression.to_source());
                push_str(&mut r, ")");
                r
            },
            Expr::Literal { value } => match value {
                Literal::String(s) => {
                    let mut r = String::from_str("\"");
                    append(&mut r, s);
                    push_str(&mut r, "\"");
                    r
                },
                _ => literal_to_string(value),
            },
            Expr::Unary { operator, right } => {
                let mut r = operator.text();
                append(&mut r, &right.to_source());
                r
            },
            Expr::Variable { name } => name.lexeme.clone(),
            Expr::Assignment { name, value } => {
                let mut r = name.lexeme.clone();
                push_str(&mut r, " = ");
                append(&mut r, &value.to_source());
                r
            },
        }
    }
}

impl Stmt {
    /// The statement as source text that parses back to the same tree.
    pub fn to_source(&self) -> (r: String)
        ensures
            r@ == stmt_source(stmt_view(*self)),
        decreases self,
    {
        match self {
            Stmt::Expr(e) => {
                let mut r = e.to_source();
                push_str(&mut r, ";");
                r
            },
            Stmt::Print(e) => {
                let mut r = String::from_str("print ");
                append(&mut r, &e.to_source());
                push_str(&mut r, ";");
                r
            },
            Stmt::Var { name, initializer } => {
                let mut r = String::from_str("var ");
                append(&mut r, &name.lexeme);
                match initializer {
                    Some(e) => {
                        push_str(&mut r, " = ");
                        append(&mut r, &e.to_source());
                    },
                    None => {},
                }
                push_str(&mut r, ";");
                r
            },
            Stmt::Block { statements } => {
                let ghost views = stmts_view(statements@);
                proof {
                    lemma_stmts_view_index(statements@);
                }
                let mut r = String::from_str("{");
                let mut i: usize = 0;
                while i < statements.len()
                    invariant
                        *self == (Stmt::Block { statements: *statements }),
                        views == stmts_view(statements@),
                        views.len() == statements@.len(),
                        forall|k: int| 0 <= k < statements@.len() ==> #[trigger] views[k] == stmt_view(statements@[k]),
                        i <= statements@.len(),
                        r@ == "{"@ + spaced_sources(views.subrange(0, i as int)),
                    decreases statements@.len() - i,
                {
                    proof {
                        vstd::std_specs::vec::axiom_vec_index_decreases(*statements, i as int);
                        assert(decreases_to!(*self => (*self)->statements));
                    }
                    push_str(&mut r, " ");
                    append(&mut r, &statements[i].to_source());
                    proof {
                        assert(views.subrange(0, i + 1).drop_last() =~= views.subrange(0, i as int));
                    }
                    i = i + 1;
                }
                proof {
                    assert(views.subrange(0, statements@.len() as int) =~= views);
                }
                push_str(&mut r, " }");
                r
            },
            Stmt::If { condition, then_branch, else_branch } => {
                let mut r = String::from_str("if (");
                append(&mut r, &condition.to_source());
                push_str(&mut r, ") ");
                append(&mut r, &then_branch.to_source());
                match else_branch {
                    Some(b) => {
                        push_str(&mut r, " else ");
                        append(&mut r, &b.to_source());
                    },
                    None => {},
                }
                r
            },
            Stmt::While { condition, body } => {
                let mut r = String::from_str("while (");
                append(&mut r, &condition.to_source());
                push_str(&mut r, ") ");
                append(&mut r, &body.to_source());
                r
            },
        }
    }
}

/// A program as source text, one top-level statement per line.
pub fn program_to_source(stmts: &Vec<Stmt>) -> (r: String)
    ensures
        r@ == program_source(stmts_view(stmts@)),
{
    let ghost views = stmts_view(stmts@);
    proof {
        lemma_stmts_view_index(stmts@);
    }
    let mut r = String::new();
    let mut i: usize = 0;
    while i < stmts.len()
        invariant
            views == stmts_view(stmts@),
            views.len() == stmts@.len(),
            forall|k: int| 0 <= k < stmts@.len() ==> #[trigger] views[k] == stmt_view(stmts@[k]),
            i <= stmts@.len(),
            r@ == program_source(views.subrange(0, i as int)),
        decreases stmts@.len() - i,
    {
        append(&mut r, &stmts[i].to_source());
        push_str(&mut r, "\n");
        proof {
            assert(views.subrange(0, i + 1).drop_last() =~= views.subrange(0, i as int));
        }
        i = i + 1;
    }
    proof {
        assert(views.subrange(0, stmts@.len() as int) =~= views);
    }
    r
}

} // verus!
