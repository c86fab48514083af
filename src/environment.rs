use vstd::prelude::*;
use crate::token::Token;
use crate::value::{Object, ObjectView};

verus! {

/// A name bound to a value.
pub struct Binding {
    pub name: String,
    pub value: Object,
}

/// Where, counting from 0, the last binding of `name` in `bs[lo..hi]` stands, or -1.
pub open spec fn find_last(bs: Seq<(Seq<char>, ObjectView)>, name: Seq<char>, lo: int, hi: int) -> int
    decreases hi - lo,
{
    if hi <= lo {
        -1
    } else if bs[hi - 1].0 == name {
        hi - 1
    } else {
        find_last(bs, name, lo, hi - 1)
    }
}

/// Nested scopes as mathematical data: all bindings, outermost scope first,
/// and for each open inner scope the position where its bindings begin.
pub struct EnvView {
    pub bindings: Seq<(Seq<char>, ObjectView)>,
    pub scopes: Seq<nat>,
}

impl EnvView {
    pub open spec fn wf(self) -> bool {
        &&& forall|i: int| 0 <= i < self.scopes.len() ==> #[trigger] self.scopes[i] <= self.bindings.len()
        &&& forall|i: int, j: int| 0 <= i <= j < self.scopes.len() ==> #[trigger] self.scopes[i] <= #[trigger] self.scopes[j]
    }

    /// Where the innermost scope's bindings begin.
    pub open spec fn top(self) -> int {
        if self.scopes.len() == 0 { 0 } else { self.scopes.last() as int }
    }

    /// The value of the innermost binding of `name`, if any.
    pub open spec fn lookup(self, name: Seq<char>) -> Option<ObjectView> {
        let i = find_last(self.bindings, name, 0, self.bindings.len() as int);
        if i < 0 { None } else { Some(self.bindings[i].1) }
    }

    /// Binds `name` in the innermost scope, replacing a binding of it there.
    pub open spec fn define(self, name: Seq<char>, v: ObjectView) -> EnvView {
        let i = find_last(self.bindings, name, self.top(), self.bindings.len() as int);
        if i < 0 {
            EnvView { bindings: self.bindings.push((name, v)), scopes: self.scopes }
        } else {
            EnvView { bindings: self.bindings.update(i, (name, v)), scopes: self.scopes }
        }
    }

    /// Updates the innermost binding of `name`; `None` when there is none.
    pub open spec fn assign(self, name: Seq<char>, v: ObjectView) -> Option<EnvView> {
        let i = find_last(self.bindings, name, 0, self.bindings.len() as int);
        if i < 0 {
            None
        } else {
            Some(EnvView { bindings: self.bindings.update(i, (name, v)), scopes: self.scopes })
        }
    }

    /// Opens a new innermost scope.
    pub open spec fn push_scope(self) -> EnvView {
        EnvView { bindings: self.bindings, scopes: self.scopes.push(self.bindings.len()) }
    }

    /// Closes the innermost scope and drops its bindings.
    pub open spec fn pop_scope(self) -> EnvView {
        if self.scopes.len() == 0 {
            self
        } else {
            EnvView { bindings: self.bindings.subrange(0, self.scopes.last() as int), scopes: self.scopes.drop_last() }
        }
    }
}

proof fn lemma_find_last_range(bs: Seq<(Seq<char>, ObjectView)>, name: Seq<char>, lo: int, hi: int)
    ensures
        find_last(bs, name, lo, hi) == -1 || (lo <= find_last(bs, name, lo, hi) < hi
            && bs[find_last(bs, name, lo, hi)].0 == name),
    decreases hi - lo,
{
    if hi > lo && bs[hi - 1].0 != name {
        lemma_find_last_range(bs, name, lo, hi - 1);
    }
}

/// Searching a prefix that a change does not touch gives the same answer.
proof fn lemma_find_last_prefix(
    bs: Seq<(Seq<char>, ObjectView)>,
    cs: Seq<(Seq<char>, ObjectView)>,
    name: Seq<char>,
    lo: int,
    hi: int,
)
    requires
        hi <= bs.len(),
        hi <= cs.len(),
        forall|k: int| lo <= k < hi ==> bs[k] == cs[k],
    ensures
        find_last(bs, name, lo, hi) == find_last(cs, name, lo, hi),
    decreases hi - lo,
{
    if hi > lo {
        lemma_find_last_prefix(bs, cs, name, lo, hi - 1);
    }
}

/// Searching a range whose tail holds no binding of `name` is searching the rest.
proof fn lemma_find_last_skip(bs: Seq<(Seq<char>, ObjectView)>, name: Seq<char>, lo: int, mid: int, hi: int)
    requires
        0 <= lo <= mid <= hi,
        find_last(bs, name, mid, hi) == -1,
    ensures
        find_last(bs, name, lo, hi) == find_last(bs, name, lo, mid),
    decreases hi - mid,
{
    if hi > mid {
        lemma_find_last_skip(bs, name, lo, mid, hi - 1);
    }
}

/// Searching a range whose tail holds a binding of `name` finds it there.
proof fn lemma_find_last_split(bs: Seq<(Seq<char>, ObjectView)>, name: Seq<char>, lo: int, mid: int, hi: int)
    requires
        lo <= mid <= hi,
        find_last(bs, name, mid, hi) != -1,
    ensures
        find_last(bs, name, lo, hi) == find_last(bs, name, mid, hi),
    decreases hi - mid,
{
    if hi > mid && bs[hi - 1].0 != name {
        lemma_find_last_split(bs, name, lo, mid, hi - 1);
    }
}

/// A binding declared inside a scope is gone once the scope closes: opening a
/// scope, declaring a name in it and closing it leaves the environment as it was.
pub proof fn lemma_scoped_declaration_vanishes(e: EnvView, name: Seq<char>, v: ObjectView)
    requires
        e.wf(),
    ensures
        e.push_scope().define(name, v).pop_scope() == e,
{
    let inner = e.push_scope();
    assert(inner.top() == e.bindings.len());
    assert(find_last(inner.bindings, name, inner.top(), inner.bindings.len() as int) == -1);
    assert(inner.define(name, v).bindings.subrange(0, e.bindings.len() as int) =~= e.bindings);
    assert(inner.scopes.drop_last() =~= e.scopes);
}

/// Bindings of the enclosing scopes are visible inside a new scope.
pub proof fn lemma_outer_binding_visible(e: EnvView, name: Seq<char>)
    ensures
        e.push_scope().lookup(name) == e.lookup(name),
{
}

/// Assigning, inside a new scope, to a name bound outside it updates the outer
/// binding: after the scope closes the environment is the one that assigning
/// outside would give, and the name holds the new value.
pub proof fn lemma_assignment_through_scope(e: EnvView, name: Seq<char>, v: ObjectView)
    requires
        e.wf(),
        e.lookup(name) is Some,
    ensures
        e.push_scope().assign(name, v) is Some,
        e.push_scope().assign(name, v)->0.pop_scope() == e.assign(name, v)->0,
        e.assign(name, v)->0.lookup(name) == Some(v),
{
    let n = e.bindings.len() as int;
    let i = find_last(e.bindings, name, 0, n);
    lemma_find_last_range(e.bindings, name, 0, n);
    let after = e.assign(name, v)->0;
    let closed = e.push_scope().assign(name, v)->0.pop_scope();
    assert(closed.bindings =~= after.bindings);
    assert(closed.scopes =~= after.scopes);
    assert(after.bindings[i].0 == name);
    assert(find_last(after.bindings, name, 0, n) == i) by {
        if i + 1 < n {
            lemma_find_last_range(e.bindings, name, i + 1, n);
            if find_last(e.bindings, name, i + 1, n) != -1 {
                lemma_find_last_split(e.bindings, name, 0, i + 1, n);
            }
            lemma_find_last_prefix(e.bindings, after.bindings, name, i + 1, n);
        }
        lemma_find_last_skip(after.bindings, name, 0, i + 1, n);
    }
}

pub open spec fn bindings_view(bs: Seq<Binding>) -> Seq<(Seq<char>, ObjectView)> {
    bs.map_values(|b: Binding| (b.name@, b.value@))
}

pub open spec fn scopes_view(ss: Seq<usize>) -> Seq<nat> {
    ss.map_values(|s: usize| s as nat)
}

/// Variable bindings in nested lexical scopes. Bindings live in one list,
/// outermost scope first; an inner scope is a suffix of it. Looking a name up
/// finds its innermost binding, and assigning updates that same binding, so a
/// write inside a block to a name of an enclosing scope reaches that scope.
pub struct Environment {
    bindings: Vec<Binding>,
    scopes: Vec<usize>,
}

impl View for Environment {
    type V = EnvView;

    closed spec fn view(&self) -> EnvView {
        EnvView { bindings: bindings_view(self.bindings@), scopes: scopes_view(self.scopes@) }
    }
}

impl Environment {
    /// An environment with one, empty, scope.
    pub fn new() -> (r: Environment)
        ensures
            r@ == (EnvView { bindings: seq![], scopes: seq![] }),
            r@.wf(),
    {
        let r = Environment { bindings: Vec::new(), scopes: Vec::new() };
        assert(r@.bindings =~= seq![]);
        assert(r@.scopes =~= seq![]);
        r
    }

    /// The environment with a new innermost scope opened inside `env`.
    pub fn new_enclosed(env: Environment) -> (r: Environment)
        requires
            env@.wf(),
        ensures
            r@ == env@.push_scope(),
            r@.wf(),
    {
        let mut env = env;
        env.push_scope();
        env
    }

    /// Opens a new innermost scope.
    pub fn push_scope(&mut self)
        requires
            old(self)@.wf(),
        ensures
            final(self)@ == old(self)@.push_scope(),
            final(self)@.wf(),
    {
        let n = self.bindings.len();
        self.scopes.push(n);
        assert(scopes_view(self.scopes@) =~= scopes_view(old(self).scopes@).push(n as nat));
        let ghost e = self@;
        let ghost o = old(self)@;
        assert forall|i: int, j: int| 0 <= i <= j < e.scopes.len() implies #[trigger] e.scopes[i] <= #[trigger] e.scopes[j] by {
            if j == e.scopes.len() - 1 && i < j {
                assert(o.scopes[i] <= o.bindings.len());
            } else if i < j {
                assert(o.scopes[i] <= o.scopes[j]);
            }
        }
    }

    /// Closes the innermost scope, dropping its bindings.
    pub fn pop_scope(&mut self)
        requires
            old(self)@.wf(),
        ensures
            final(self)@ == old(self)@.pop_scope(),
            final(self)@.wf(),
    {
        if self.scopes.len() == 0 {
            return;
        }
        let start = self.scopes.pop().unwrap();
        assert(start == old(self)@.scopes.last());
        self.bindings.truncate(start);
        assert(scopes_view(self.scopes@) =~= scopes_view(old(self).scopes@).drop_last());
        assert(bindings_view(self.bindings@) =~= bindings_view(old(self).bindings@).subrange(0, start as int));
    }

    /// Where the last binding of `name` at or after `lo` stands.
    fn find(&self, name: &String, lo: usize) -> (r: Option<usize>)
        requires
            lo <= self.bindings@.len(),
        ensures
            ({
                let i = find_last(self@.bindings, name@, lo as int, self@.bindings.len() as int);
                &&& r is None <==> i == -1
                &&& r matches Some(k) ==> k == i
            }),
    {
        let ghost bs = self@.bindings;
        let mut hi = self.bindings.len();
        while hi > lo
            invariant
                lo <= hi <= self.bindings@.len(),
                bs == self@.bindings,
                find_last(bs, name@, lo as int, hi as int) == find_last(bs, name@, lo as int, bs.len() as int),
            decreases hi,
        {
            if self.bindings[hi - 1].name == *name {
                return Some(hi - 1);
            }
            hi = hi - 1;
        }
        None
    }

    /// Binds `name` in the innermost scope; a binding of it there is replaced.
    pub fn define(&mut self, name: String, value: Object)
        requires
            old(self)@.wf(),
        ensures
            final(self)@ == old(self)@.define(name@, value@),
            final(self)@.wf(),
    {
        let top = if self.scopes.len() == 0 { 0 } else { self.scopes[self.scopes.len() - 1] };
        proof {
            if self.scopes@.len() > 0 {
                assert(self@.scopes[self@.scopes.len() - 1] <= self@.bindings.len());
            }
        }
        let b = Binding { name, value };
        match self.find(&b.name, top) {
            Some(i) => {
                proof {
                    lemma_find_last_range(self@.bindings, b.name@, top as int, self@.bindings.len() as int);
                }
                self.bindings.set(i, b);
                assert(bindings_view(self.bindings@) =~= bindings_view(old(self).bindings@).update(i as int, (name@, value@)));
            },
            None => {
                self.bindings.push(b);
                assert(bindings_view(self.bindings@) =~= bindings_view(old(self).bindings@).push((name@, value@)));
            },
        }
    }

    /// The value bound to the token's name in the innermost scope that binds
    /// it; `Nil` when no scope does.
    pub fn get(&self, name: &Token) -> (r: Object)
        ensures
            r@ == match self@.lookup(name.lexeme@) {
                Some(v) => v,
                None => ObjectView::Nil,
            },
    {
        match self.find(&name.lexeme, 0) {
            Some(i) => {
                proof {
                    lemma_find_last_range(self@.bindings, name.lexeme@, 0, self@.bindings.len() as int);
                }
                self.bindings[i].value.duplicate()
            },
            None => Object::Nil,
        }
    }

    /// Updates the innermost binding of the token's name; `false`, with
    /// nothing changed, when no scope binds it.
    pub fn assign(&mut self, name: &Token, value: Object) -> (r: bool)
        requires
            old(self)@.wf(),
        ensures
            match old(self)@.assign(name.lexeme@, value@) {
                Some(e) => r && final(self)@ == e,
                None => !r && final(self)@ == old(self)@,
            },
            final(self)@.wf(),
    {
        match self.find(&name.lexeme, 0) {
            Some(i) => {
                proof {
                    lemma_find_last_range(self@.bindings, name.lexeme@, 0, self@.bindings.len() as int);
                }
                let ghost v = value@;
                let b = Binding { name: name.lexeme.clone(), value };
                self.bindings.set(i, b);
                assert(bindings_view(self.bindings@) =~= bindings_view(old(self).bindings@).update(i as int, (name.lexeme@, v)));
                true
            },
            None => false,
        }
    }
}

} // verus!
