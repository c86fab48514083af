use vstd::prelude::*;
use crate::ast::{lemma_stmts_view_index, stmt_view, stmts_view, Expr, Operator, Stmt, StmtView};
use crate::environment::{lemma_assignment_through_scope, lemma_scoped_declaration_vanishes, EnvView, Environment};
use crate::token::{Diagnostic, ErrorKind, Literal, Token};
use crate::value::{concat, sign_bit, truthy, value_text, FloatArith, Object, ObjectView};

verus! {

/// What running a program shows: a printed line, or a reported runtime error.
#[derive(Debug, PartialEq)]
pub enum Output {
    Line(String),
    Error(Diagnostic),
}

pub enum OutputView {
    Line(Seq<char>),
    Error(Diagnostic),
}

impl View for Output {
    type V = OutputView;

    open spec fn view(&self) -> OutputView {
        match self {
            Output::Line(s) => OutputView::Line(s@),
            Output::Error(d) => OutputView::Error(*d),
        }
    }
}

pub open spec fn outputs_view(os: Seq<Output>) -> Seq<OutputView> {
    os.map_values(|o: Output| o@)
}

/// The value of a literal; a float literal's value is the host's, so it is left open.
pub open spec fn literal_value(l: Literal) -> Option<ObjectView> {
    match l {
        Literal::String(s) => Some(ObjectView::String(s@)),
        Literal::Int(i) => Some(ObjectView::Int(i)),
        Literal::Boolean(b) => Some(ObjectView::Boolean(b)),
        Literal::Float(_) => None,
        Literal::Nil => Some(ObjectView::Nil),
        Literal::Identifier(s) => Some(ObjectView::Identifier(s@)),
    }
}

/// `!` negates a boolean and `-` negates a number; any other operand gives `Nil`.
pub open spec fn unary_value(op: Operator, v: ObjectView) -> ObjectView {
    match op {
        Operator::Bang => match v {
            ObjectView::Boolean(b) => ObjectView::Boolean(!b),
            _ => ObjectView::Nil,
        },
        Operator::Minus => match v {
            ObjectView::Int(i) => ObjectView::Int(0i32.wrapping_sub(i)),
            ObjectView::Float(bits) => ObjectView::Float(bits ^ sign_bit()),
            _ => ObjectView::Nil,
        },
        _ => ObjectView::Nil,
    }
}

/// A binary operation on two values. Integers wrap around on overflow; an
/// integer division by zero, or one that overflows, gives `Nil`; `+` joins two
/// strings; mismatched operands and the equality operators give `Nil`. An
/// operation on two floats is the host's, so it is left open.
pub open spec fn binary_value(op: Operator, l: ObjectView, r: ObjectView) -> Option<ObjectView> {
    match (l, r) {
        (ObjectView::Float(_), ObjectView::Float(_)) => match op {
            Operator::Plus | Operator::Minus | Operator::Star | Operator::Slash | Operator::Greater
            | Operator::GreaterEqual | Operator::Less | Operator::LessEqual => None,
            _ => Some(ObjectView::Nil),
        },
        (ObjectView::Int(a), ObjectView::Int(b)) => Some(match op {
            Operator::Plus => ObjectView::Int(a.wrapping_add(b)),
            Operator::Minus => ObjectView::Int(a.wrapping_sub(b)),
            Operator::Star => ObjectView::Int(a.wrapping_mul(b)),
            Operator::Slash => match a.checked_div(b) {
                Some(q) => ObjectView::Int(q),
                None => ObjectView::Nil,
            },
            Operator::Greater => ObjectView::Boolean(a > b),
            Operator::GreaterEqual => ObjectView::Boolean(a >= b),
            Operator::Less => ObjectView::Boolean(a < b),
            Operator::LessEqual => ObjectView::Boolean(a <= b),
            _ => ObjectView::Nil,
        }),
        (ObjectView::String(a), ObjectView::String(b)) => Some(match op {
            Operator::Plus => ObjectView::String(a + b),
            _ => ObjectView::Nil,
        }),
        _ => Some(ObjectView::Nil),
    }
}

/// Evaluating an expression: its value, the environment after it, and the
/// errors it reported. Operands are evaluated left to right; `or` and `and`
/// evaluate their right operand only when the left one does not decide.
/// `None` when the result depends on the host's float arithmetic.
pub open spec fn eval(env: EnvView, e: Expr) -> Option<(ObjectView, EnvView, Seq<OutputView>)>
    decreases e,
{
    match e {
        Expr::Literal { value } => match literal_value(value) {
            Some(v) => Some((v, env, seq![])),
            None => None,
        },
        Expr::Variable { name } => Some((
            match env.lookup(name.lexeme@) {
                Some(v) => v,
                None => ObjectView::Nil,
            },
            env,
            seq![],
        )),
        Expr::Grouping { expression } => eval(env, *expression),
        Expr::Unary { operator, right } => match eval(env, *right) {
            Some((v, env1, o)) => Some((unary_value(operator, v), env1, o)),
            None => None,
        },
        Expr::Binary { left, operator, right } => match eval(env, *left) {
            Some((l, env1, o1)) => match eval(env1, *right) {
                Some((r, env2, o2)) => match binary_value(operator, l, r) {
                    Some(v) => Some((v, env2, o1 + o2)),
                    None => None,
                },
                None => None,
            },
            None => None,
        },
        Expr::Logical { left, operator, right } => match eval(env, *left) {
            Some((l, env1, o1)) => {
                let decided = match operator {
                    Operator::Or => truthy(l),
                    Operator::And => !truthy(l),
                    _ => true,
                };
                if decided {
                    Some((if operator is Or || operator is And { l } else { ObjectView::Nil }, env1, o1))
                } else {
                    match eval(env1, *right) {
                        Some((r, env2, o2)) => Some((r, env2, o1 + o2)),
                        None => None,
                    }
                }
            },
            None => None,
        },
        Expr::Assignment { name, value } => match eval(env, *value) {
            Some((v, env1, o)) => match env1.assign(name.lexeme@, v) {
                Some(env2) => Some((v, env2, o)),
                None => Some((
                    v,
                    env1,
                    o.push(OutputView::Error(Diagnostic { line: name.line, kind: ErrorKind::UndefinedVariable(name.lexeme) })),
                )),
            },
            None => None,
        },
    }
}

/// An `or` whose left operand is truthy yields that operand and never
/// evaluates its right operand: the outcome is the left operand's alone. The
/// same holds of an `and` whose left operand is falsy.
pub proof fn lemma_short_circuit(env: EnvView, left: Expr, right: Expr)
    ensures
        eval(env, left) matches Some((v, env1, o)) ==> (truthy(v) ==> eval(
            env,
            Expr::Logical { left: Box::new(left), operator: Operator::Or, right: Box::new(right) },
        ) == Some((v, env1, o))),
        eval(env, left) matches Some((v, env1, o)) ==> (!truthy(v) ==> eval(
            env,
            Expr::Logical { left: Box::new(left), operator: Operator::And, right: Box::new(right) },
        ) == Some((v, env1, o))),
{
}

proof fn lemma_outputs_push(os: Seq<Output>, o: Output)
    ensures
        outputs_view(os.push(o)) == outputs_view(os).push(o@),
{
    assert(outputs_view(os.push(o)) =~= outputs_view(os).push(o@));
}

proof fn lemma_concat_assoc(
    out0: Seq<OutputView>,
    first: Option<(ObjectView, EnvView, Seq<OutputView>)>,
    out1: Seq<OutputView>,
    second: Option<(ObjectView, EnvView, Seq<OutputView>)>,
    out2: Seq<OutputView>,
)
    requires
        first matches Some((_, _, o1)) ==> out1 == out0 + o1,
        second matches Some((_, _, o2)) ==> out2 == out1 + o2,
    ensures
        first matches Some((_, _, o1)) ==> (second matches Some((_, _, o2)) ==> out2 == out0 + (o1 + o2)),
{
    if let Some((_, _, o1)) = first {
        if let Some((_, _, o2)) = second {
            assert(out0 + o1 + o2 =~= out0 + (o1 + o2));
        }
    }
}

fn literal_object<F: FloatArith>(l: &Literal, floats: &F) -> (r: Object)
    ensures
        literal_value(*l) matches Some(v) ==> r@ == v,
{
    match l {
        Literal::String(s) => Object::String(s.clone()),
        Literal::Int(i) => Object::Int(*i),
        Literal::Boolean(b) => Object::Boolean(*b),
        Literal::Float(text) => Object::Float(floats.parse(text)),
        Literal::Nil => Object::Nil,
        Literal::Identifier(s) => Object::Identifier(s.clone()),
    }
}

fn unary_object(op: Operator, v: Object) -> (r: Object)
    ensures
        r@ == unary_value(op, v@),
{
    match op {
        Operator::Bang => match v {
            Object::Boolean(b) => Object::Boolean(!b),
            _ => Object::Nil,
        },
        Operator::Minus => match v {
            Object::Int(i) => Object::Int(0i32.wrapping_sub(i)),
            Object::Float(bits) => Object::Float(bits ^ 0x8000_0000_0000_0000u64),
            _ => Object::Nil,
        },
        _ => Object::Nil,
    }
}

fn binary_object<F: FloatArith>(op: Operator, l: Object, r: Object, floats: &F) -> (res: Object)
    ensures
        binary_value(op, l@, r@) matches Some(v) ==> res@ == v,
{
    match (l, r) {
        (Object::Float(a), Object::Float(b)) => match op {
            Operator::Plus => Object::Float(floats.add(a, b)),
            Operator::Minus => Object::Float(floats.sub(a, b)),
            Operator::Star => Object::Float(floats.mul(a, b)),
            Operator::Slash => Object::Float(floats.div(a, b)),
            Operator::Greater => Object::Boolean(floats.less(b, a)),
            Operator::GreaterEqual => Object::Boolean(floats.less_equal(b, a)),
            Operator::Less => Object::Boolean(floats.less(a, b)),
            Operator::LessEqual => Object::Boolean(floats.less_equal(a, b)),
            _ => Object::Nil,
        },
        (Object::Int(a), Object::Int(b)) => match op {
            Operator::Plus => Object::Int(a.wrapping_add(b)),
            Operator::Minus => Object::Int(a.wrapping_sub(b)),
            Operator::Star => Object::Int(a.wrapping_mul(b)),
            Operator::Slash => match a.checked_div(b) {
                Some(q) => Object::Int(q),
                None => Object::Nil,
            },
            Operator::Greater => Object::Boolean(a > b),
            Operator::GreaterEqual => Object::Boolean(a >= b),
            Operator::Less => Object::Boolean(a < b),
            Operator::LessEqual => Object::Boolean(a <= b),
            _ => Object::Nil,
        },
        (Object::String(a), Object::String(b)) => match op {
            Operator::Plus => Object::String(concat(&a, &b)),
            _ => Object::Nil,
        },
        _ => Object::Nil,
    }
}

/// Evaluates an expression against `env`, appending the errors it reports to `out`.
fn evaluate<F: FloatArith>(env: &mut Environment, out: &mut Vec<Output>, e: &Expr, floats: &F) -> (r: Object)
    requires
        old(env)@.wf(),
    ensures
        final(env)@.wf(),
        eval(old(env)@, *e) matches Some((v, env1, o)) ==> {
            &&& r@ == v
            &&& final(env)@ == env1
            &&& outputs_view(final(out)@) == outputs_view(old(out)@) + o
        },
    decreases e,
{
    let ghost out0 = outputs_view(out@);
    let ghost env0 = env@;
    match e {
        Expr::Literal { value } => {
            assert(outputs_view(out@) =~= out0 + Seq::<OutputView>::empty());
            literal_object(value, floats)
        },
        Expr::Variable { name } => {
            assert(outputs_view(out@) =~= out0 + Seq::<OutputView>::empty());
            env.get(name)
        },
        Expr::Grouping { expression } => evaluate(env, out, expression, floats),
        Expr::Unary { operator, right } => {
            let v = evaluate(env, out, right, floats);
            unary_object(*operator, v)
        },
        Expr::Binary { left, operator, right } => {
            let l = evaluate(env, out, left, floats);
            let ghost out1 = outputs_view(out@);
            let ghost env1 = env@;
            let r = evaluate(env, out, right, floats);
            proof {
                lemma_concat_assoc(out0, eval(env0, **left), out1, eval(env1, **right), outputs_view(out@));
            }
            binary_object(*operator, l, r, floats)
        },
        Expr::Logical { left, operator, right } => {
            let l = evaluate(env, out, left, floats);
            match operator {
                Operator::Or => if l.is_truthy() {
                    l
                } else {
                    let ghost out1 = outputs_view(out@);
                    let ghost env1 = env@;
                    let r = evaluate(env, out, right, floats);
                    proof {
                        lemma_concat_assoc(out0, eval(env0, **left), out1, eval(env1, **right), outputs_view(out@));
                    }
                    r
                },
                Operator::And => if !l.is_truthy() {
                    l
                } else {
                    let ghost out1 = outputs_view(out@);
                    let ghost env1 = env@;
                    let r = evaluate(env, out, right, floats);
                    proof {
                        lemma_concat_assoc(out0, eval(env0, **left), out1, eval(env1, **right), outputs_view(out@));
                    }
                    r
                },
                _ => Object::Nil,
            }
        },
        Expr::Assignment { name, value } => {
            let v = evaluate(env, out, value, floats);
            let kept = v.duplicate();
            if !env.assign(name, v) {
                let d = Diagnostic { line: name.line, kind: ErrorKind::UndefinedVariable(name.lexeme.clone()) };
                let ghost before = out@;
                let o = Output::Error(d);
                proof {
                    lemma_outputs_push(before, o);
                }
                out.push(o);
            }
            kept
        },
    }
}

/// A unit of pending work: a statement to execute, or the end of a block's scope.
pub enum Task {
    Exec(Stmt),
    EndScope,
}

pub enum TaskView {
    Exec(StmtView),
    EndScope,
}

pub open spec fn task_view(t: Task) -> TaskView {
    match t {
        Task::Exec(s) => TaskView::Exec(stmt_view(s)),
        Task::EndScope => TaskView::EndScope,
    }
}

pub open spec fn tasks_view(ts: Seq<Task>) -> Seq<TaskView> {
    ts.map_values(|t: Task| task_view(t))
}

/// The tasks that run a list of statements in order: the first statement ends on top.
pub open spec fn statement_tasks(ss: Seq<StmtView>) -> Seq<TaskView> {
    Seq::new(ss.len(), |i: int| TaskView::Exec(ss[ss.len() - 1 - i]))
}

/// The interpreter's state as mathematical data: its variables, its pending
/// work (the last task runs next), and what it has shown so far.
pub struct MachineView {
    pub env: EnvView,
    pub tasks: Seq<TaskView>,
    pub output: Seq<OutputView>,
}

/// Executing one statement popped off the work list. `None` when the outcome
/// depends on the host's float arithmetic.
pub open spec fn exec_spec(env: EnvView, rest: Seq<TaskView>, out: Seq<OutputView>, s: StmtView) -> Option<MachineView> {
    match s {
        StmtView::Expr(e) => match eval(env, e) {
            Some((_, env1, o)) => Some(MachineView { env: env1, tasks: rest, output: out + o }),
            None => None,
        },
        StmtView::Print(e) => match eval(env, e) {
            Some((v, env1, o)) => match value_text(v) {
                Some(t) => Some(MachineView { env: env1, tasks: rest, output: (out + o).push(OutputView::Line(t)) }),
                None => None,
            },
            None => None,
        },
        StmtView::Var { name, initializer } => match initializer {
            None => Some(MachineView { env: env.define(name.lexeme@, ObjectView::Nil), tasks: rest, output: out }),
            Some(e) => match eval(env, e) {
                Some((v, env1, o)) => Some(MachineView { env: env1.define(name.lexeme@, v), tasks: rest, output: out + o }),
                None => None,
            },
        },
        StmtView::Block { statements } => Some(MachineView {
            env: env.push_scope(),
            tasks: rest.push(TaskView::EndScope) + statement_tasks(statements),
            output: out,
        }),
        StmtView::If { condition, then_branch, else_branch } => match eval(env, condition) {
            Some((v, env1, o)) => Some(MachineView {
                env: env1,
                tasks: if truthy(v) {
                    rest.push(TaskView::Exec(*then_branch))
                } else {
                    match else_branch {
                        Some(b) => rest.push(TaskView::Exec(*b)),
                        None => rest,
                    }
                },
                output: out + o,
            }),
            None => None,
        },
        StmtView::While { condition, body } => match eval(env, condition) {
            Some((v, env1, o)) => Some(MachineView {
                env: env1,
                tasks: if truthy(v) {
                    rest.push(TaskView::Exec(StmtView::While { condition, body })).push(TaskView::Exec(*body))
                } else {
                    rest
                },
                output: out + o,
            }),
            None => None,
        },
    }
}

/// One step of the interpreter: run the task on top of the work list. With no
/// work left the state stays as it is.
pub open spec fn step_spec(m: MachineView) -> Option<MachineView> {
    if m.tasks.len() == 0 {
        Some(m)
    } else {
        match m.tasks.last() {
            TaskView::EndScope => Some(MachineView { env: m.env.pop_scope(), tasks: m.tasks.drop_last(), output: m.output }),
            TaskView::Exec(s) => exec_spec(m.env, m.tasks.drop_last(), m.output, s),
        }
    }
}

/// `n` steps of the interpreter.
pub open spec fn steps(m: MachineView, n: nat) -> Option<MachineView>
    decreases n,
{
    if n == 0 {
        Some(m)
    } else {
        match step_spec(m) {
            Some(m1) => steps(m1, (n - 1) as nat),
            None => None,
        }
    }
}

proof fn lemma_steps_idle(m: MachineView, n: nat)
    requires
        m.tasks.len() == 0,
    ensures
        steps(m, n) == Some(m),
    decreases n,
{
    if n > 0 {
        lemma_steps_idle(m, (n - 1) as nat);
    }
}

proof fn lemma_steps_split(m: MachineView, n: nat)
    requires
        n > 0,
    ensures
        steps(m, n) == match steps(m, (n - 1) as nat) {
            Some(m1) => step_spec(m1),
            None => None,
        },
    decreases n,
{
    if n == 1 {
        assert(steps(m, 0) == Some(m));
        if let Some(m1) = step_spec(m) {
            assert(steps(m1, 0) == Some(m1));
        }
    } else {
        if let Some(m1) = step_spec(m) {
            lemma_steps_split(m1, (n - 1) as nat);
            assert(steps(m, (n - 1) as nat) == steps(m1, (n - 2) as nat));
        } else {
            assert(steps(m, (n - 1) as nat) is None);
        }
    }
}

/// Running the block `{ var name = value; }` leaves the variables as they
/// were: the name declared inside is not visible once the block is done.
pub proof fn lemma_block_declaration_not_visible_after(m: MachineView, name: Token, value: Literal)
    requires
        m.env.wf(),
        literal_value(value) is Some,
        m.tasks.len() > 0,
        m.tasks.last() == TaskView::Exec(StmtView::Block {
            statements: seq![StmtView::Var { name, initializer: Some(Expr::Literal { value }) }],
        }),
    ensures
        steps(m, 3) == Some(MachineView { env: m.env, tasks: m.tasks.drop_last(), output: m.output }),
{
    let rest = m.tasks.drop_last();
    let decl = StmtView::Var { name, initializer: Some(Expr::Literal { value }) };
    let v = literal_value(value)->0;
    let inner = m.env.push_scope();
    let m1 = MachineView { env: inner, tasks: rest.push(TaskView::EndScope) + statement_tasks(seq![decl]), output: m.output };
    assert(step_spec(m) == Some(m1));
    assert(m1.tasks.last() == TaskView::Exec(decl));
    assert(m1.tasks.drop_last() =~= rest.push(TaskView::EndScope));
    assert(eval(inner, Expr::Literal { value }) == Some((v, inner, Seq::<OutputView>::empty())));
    let m2 = MachineView { env: inner.define(name.lexeme@, v), tasks: rest.push(TaskView::EndScope), output: m.output };
    assert(m.output + Seq::<OutputView>::empty() =~= m.output);
    assert(step_spec(m1) == Some(m2));
    assert(rest.push(TaskView::EndScope).drop_last() =~= rest);
    lemma_scoped_declaration_vanishes(m.env, name.lexeme@, v);
    let m3 = MachineView { env: m.env, tasks: rest, output: m.output };
    assert(step_spec(m2) == Some(m3));
    assert(steps(m3, 0) == Some(m3));
    assert(steps(m2, 1) == Some(m3));
    assert(steps(m1, 2) == Some(m3));
}

/// Running the block `{ name = value; }`, where `name` is bound outside the
/// block, updates that outer binding, and the update outlasts the block.
pub proof fn lemma_block_assignment_updates_outer(m: MachineView, name: Token, value: Literal)
    requires
        m.env.wf(),
        m.env.lookup(name.lexeme@) is Some,
        literal_value(value) is Some,
        m.tasks.len() > 0,
        m.tasks.last() == TaskView::Exec(StmtView::Block {
            statements: seq![StmtView::Expr(Expr::Assignment { name, value: Box::new(Expr::Literal { value }) })],
        }),
    ensures
        steps(m, 3) == Some(MachineView {
            env: m.env.assign(name.lexeme@, literal_value(value)->0)->0,
            tasks: m.tasks.drop_last(),
            output: m.output,
        }),
        m.env.assign(name.lexeme@, literal_value(value)->0)->0.lookup(name.lexeme@) == literal_value(value),
{
    let rest = m.tasks.drop_last();
    let assign = Expr::Assignment { name, value: Box::new(Expr::Literal { value }) };
    let stmt = StmtView::Expr(assign);
    let v = literal_value(value)->0;
    let inner = m.env.push_scope();
    lemma_assignment_through_scope(m.env, name.lexeme@, v);
    let m1 = MachineView { env: inner, tasks: rest.push(TaskView::EndScope) + statement_tasks(seq![stmt]), output: m.output };
    assert(step_spec(m) == Some(m1));
    assert(m1.tasks.last() == TaskView::Exec(stmt));
    assert(m1.tasks.drop_last() =~= rest.push(TaskView::EndScope));
    assert(eval(inner, Expr::Literal { value }) == Some((v, inner, Seq::<OutputView>::empty())));
    let updated = inner.assign(name.lexeme@, v)->0;
    assert(eval(inner, assign) == Some((v, updated, Seq::<OutputView>::empty())));
    let m2 = MachineView { env: updated, tasks: rest.push(TaskView::EndScope), output: m.output };
    assert(m.output + Seq::<OutputView>::empty() =~= m.output);
    assert(step_spec(m1) == Some(m2));
    assert(rest.push(TaskView::EndScope).drop_last() =~= rest);
    let m3 = MachineView { env: m.env.assign(name.lexeme@, v)->0, tasks: rest, output: m.output };
    assert(step_spec(m2) == Some(m3));
    assert(steps(m3, 0) == Some(m3));
    assert(steps(m2, 1) == Some(m3));
    assert(steps(m1, 2) == Some(m3));
}

/// A tree-walking interpreter run as a machine over a work list, one statement
/// per step; a driver calls `step` or `run` until the work is done.
pub struct Interpreter {
    environment: Environment,
    tasks: Vec<Task>,
    output: Vec<Output>,
}

impl View for Interpreter {
    type V = MachineView;

    closed spec fn view(&self) -> MachineView {
        MachineView { env: self.environment@, tasks: tasks_view(self.tasks@), output: outputs_view(self.output@) }
    }
}

impl Interpreter {
    pub closed spec fn wf(&self) -> bool {
        self.environment@.wf()
    }

    /// An interpreter with no variables, no work and no output.
    pub fn new() -> (r: Self)
        ensures
            r.wf(),
            r@ == (MachineView { env: EnvView { bindings: seq![], scopes: seq![] }, tasks: seq![], output: seq![] }),
    {
        let r = Interpreter { environment: Environment::new(), tasks: Vec::new(), output: Vec::new() };
        assert(tasks_view(r.tasks@) =~= seq![]);
        assert(outputs_view(r.output@) =~= seq![]);
        r
    }

    /// Queues statements to run, in order, before any work already queued.
    pub fn interpret(&mut self, stmts: Vec<Stmt>)
        requires
            old(self).wf(),
        ensures
            final(self).wf(),
            final(self)@ == (MachineView {
                env: old(self)@.env,
                tasks: old(self)@.tasks + statement_tasks(stmts_view(stmts@)),
                output: old(self)@.output,
            }),
    {
        self.push_statements(stmts);
    }

    /// Whether work is left.
    pub fn is_running(&self) -> (r: bool)
        ensures
            r == (self@.tasks.len() > 0),
    {
        self.tasks.len() > 0
    }

    /// Hands over what the program has shown so far and forgets it.
    pub fn take_output(&mut self) -> (r: Vec<Output>)
        ensures
            outputs_view(r@) == old(self)@.output,
            final(self)@ == (MachineView { env: old(self)@.env, tasks: old(self)@.tasks, output: seq![] }),
            final(self).wf() == old(self).wf(),
    {
        let mut r: Vec<Output> = Vec::new();
        core::mem::swap(&mut self.output, &mut r);
        assert(outputs_view(self.output@) =~= seq![]);
        r
    }

    fn push_statements(&mut self, stmts: Vec<Stmt>)
        ensures
            final(self).environment == old(self).environment,
            final(self).output == old(self).output,
            tasks_view(final(self).tasks@) == tasks_view(old(self).tasks@) + statement_tasks(stmts_view(stmts@)),
    {
        let ghost all = stmts_view(stmts@);
        let ghost base = tasks_view(self.tasks@);
        let ghost n = stmts@.len();
        proof {
            lemma_stmts_view_index(stmts@);
        }
        let mut stmts = stmts;
        while stmts.len() > 0
            invariant
                self.environment == old(self).environment,
                self.output == old(self).output,
                all.len() == n,
                stmts@.len() <= n,
                forall|i: int| 0 <= i < stmts@.len() ==> stmt_view(#[trigger] stmts@[i]) == all[i],
                tasks_view(self.tasks@) == base + statement_tasks(all).subrange(0, n - stmts@.len()),
            decreases stmts@.len(),
        {
            let ghost k = stmts@.len();
            let s = stmts.pop().unwrap();
            let ghost before = self.tasks@;
            self.tasks.push(Task::Exec(s));
            proof {
                assert(stmt_view(s) == all[k - 1]);
                assert(tasks_view(self.tasks@) =~= tasks_view(before).push(TaskView::Exec(all[k - 1])));
                assert(statement_tasks(all).subrange(0, n - k + 1) =~= statement_tasks(all).subrange(0, n - k).push(
                    TaskView::Exec(all[k - 1]),
                ));
            }
        }
        assert(statement_tasks(all).subrange(0, n as int) =~= statement_tasks(all));
    }

    /// Runs the task on top of the work list; `false` when there was none.
    pub fn step<F: FloatArith>(&mut self, floats: &F) -> (r: bool)
        requires
            old(self).wf(),
        ensures
            final(self).wf(),
            r == (old(self)@.tasks.len() > 0),
            step_spec(old(self)@) matches Some(m) ==> final(self)@ == m,
    {
        let ghost before = self.tasks@;
        match self.tasks.pop() {
            None => false,
            Some(task) => {
                proof {
                    assert(tasks_view(self.tasks@) =~= tasks_view(before).drop_last());
                }
                match task {
                    Task::EndScope => self.environment.pop_scope(),
                    Task::Exec(stmt) => self.execute(stmt, floats),
                }
                true
            },
        }
    }

    /// Runs at most `fuel` steps; `true` when no work is left.
    pub fn run<F: FloatArith>(&mut self, floats: &F, fuel: u64) -> (r: bool)
        requires
            old(self).wf(),
        ensures
            final(self).wf(),
            r == (final(self)@.tasks.len() == 0),
            steps(old(self)@, fuel as nat) matches Some(m) ==> final(self)@ == m,
    {
        let ghost start = self@;
        let mut i: u64 = 0;
        while i < fuel && self.tasks.len() > 0
            invariant
                self.wf(),
                i <= fuel,
                steps(start, i as nat) matches Some(m) ==> self@ == m,
            decreases fuel - i,
        {
            let ghost cur = self@;
            self.step(floats);
            proof {
                lemma_steps_split(start, (i + 1) as nat);
            }
            i = i + 1;
        }
        proof {
            if i < fuel {
                lemma_steps_add(start, i as nat, (fuel - i) as nat);
                assert(i as nat + (fuel - i) as nat == fuel as nat);
                if let Some(m) = steps(start, i as nat) {
                    lemma_steps_idle(m, (fuel - i) as nat);
                }
            }
        }
        self.tasks.len() == 0
    }

    fn execute<F: FloatArith>(&mut self, stmt: Stmt, floats: &F)
        requires
            old(self).wf(),
        ensures
            final(self).wf(),
            exec_spec(old(self)@.env, old(self)@.tasks, old(self)@.output, stmt_view(stmt)) matches Some(m)
                ==> final(self)@ == m,
    {
        let ghost out0 = outputs_view(self.output@);
        match stmt {
            Stmt::Expr(e) => {
                evaluate(&mut self.environment, &mut self.output, &e, floats);
            },
            Stmt::Print(e) => {
                let v = evaluate(&mut self.environment, &mut self.output, &e, floats);
                let text = v.to_text(floats);
                let ghost mid = self.output@;
                let o = Output::Line(text);
                proof {
                    lemma_outputs_push(mid, o);
                }
                self.output.push(o);
            },
            Stmt::Var { name, initializer } => {
                let v = match initializer {
                    Some(e) => evaluate(&mut self.environment, &mut self.output, &e, floats),
                    None => {
                        assert(outputs_view(self.output@) =~= out0);
                        Object::Nil
                    },
                };
                self.environment.define(name.lexeme, v);
            },
            Stmt::Block { statements } => {
                self.environment.push_scope();
                let ghost mid = self.tasks@;
                self.tasks.push(Task::EndScope);
                proof {
                    assert(tasks_view(self.tasks@) =~= tasks_view(mid).push(TaskView::EndScope));
                }
                self.push_statements(statements);
            },
            Stmt::If { condition, then_branch, else_branch } => {
                let v = evaluate(&mut self.environment, &mut self.output, &condition, floats);
                let ghost mid = self.tasks@;
                if v.is_truthy() {
                    self.tasks.push(Task::Exec(*then_branch));
                    proof {
                        assert(tasks_view(self.tasks@) =~= tasks_view(mid).push(TaskView::Exec(stmt_view(*then_branch))));
                    }
                } else {
                    match else_branch {
                        Some(b) => {
                            self.tasks.push(Task::Exec(*b));
                            proof {
                                assert(tasks_view(self.tasks@) =~= tasks_view(mid).push(TaskView::Exec(stmt_view(*b))));
                            }
                        },
                        None => {},
                    }
                }
            },
            Stmt::While { condition, body } => {
                let v = evaluate(&mut self.environment, &mut self.output, &condition, floats);
                let ghost mid = self.tasks@;
                if v.is_truthy() {
                    let again = body.duplicate();
                    let ghost body_view = stmt_view(*body);
                    self.tasks.push(Task::Exec(Stmt::While { condition, body }));
                    self.tasks.push(Task::Exec(again));
                    proof {
                        assert(tasks_view(self.tasks@) =~= tasks_view(mid).push(
                            TaskView::Exec(StmtView::While { condition, body: Box::new(body_view) }),
                        ).push(TaskView::Exec(body_view)));
                    }
                }
            },
        }
    }
}

proof fn lemma_steps_add(m: MachineView, a: nat, b: nat)
    ensures
        steps(m, a) matches Some(m1) ==> steps(m, a + b) == steps(m1, b),
        steps(m, a) is None ==> steps(m, a + b) is None,
    decreases a,
{
    if a > 0 {
        if let Some(m0) = step_spec(m) {
            lemma_steps_add(m0, (a - 1) as nat, b);
            assert((a - 1) as nat + b == (a + b - 1) as nat);
        }
    }
}

} // verus!
