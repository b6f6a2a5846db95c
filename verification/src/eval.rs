//! The environment of variables and the evaluator that walks expressions and
//! statements against it.
//!
//! Values are 64-bit signed integers. A result outside their range is an
//! error, as is a division by zero.

use vstd::prelude::*;
use crate::abs::{Expr, ExprView, Stm, StmView};

verus! {

/// Why a statement could not be executed.
#[derive(Clone, Debug, PartialEq, Eq)]
pub enum EvalError {
    /// The named variable was read before any assignment to it.
    UndefinedVariable(String),
    /// The target of a declaration or an assignment is not an identifier.
    MalformedStatement,
    /// A result does not fit in 64 bits.
    Overflow,
    /// The divisor is zero.
    DivisionByZero,
}

/// The mathematical value of an [`EvalError`].
pub enum EvalErrorView {
    UndefinedVariable(Seq<char>),
    MalformedStatement,
    Overflow,
    DivisionByZero,
}

impl View for EvalError {
    type V = EvalErrorView;

    open spec fn view(&self) -> EvalErrorView {
        match *self {
            EvalError::UndefinedVariable(s) => EvalErrorView::UndefinedVariable(s@),
            EvalError::MalformedStatement => EvalErrorView::MalformedStatement,
            EvalError::Overflow => EvalErrorView::Overflow,
            EvalError::DivisionByZero => EvalErrorView::DivisionByZero,
        }
    }
}

/// The view of a value or its error.
pub open spec fn value_result_view(r: Result<i64, EvalError>) -> Result<int, EvalErrorView> {
    match r {
        Ok(v) => Ok(v as int),
        Err(e) => Err(e@),
    }
}

/// `v` where it fits in 64 bits, an overflow where it does not.
pub open spec fn in_range(v: int) -> Result<int, EvalErrorView> {
    if i64::MIN <= v <= i64::MAX {
        Ok(v)
    } else {
        Err(EvalErrorView::Overflow)
    }
}

/// The quotient of `x` by `d`, rounded toward zero; `d` is not zero.
pub open spec fn trunc_div(x: int, d: int) -> int {
    if x >= 0 && d > 0 {
        x / d
    } else if x < 0 && d < 0 {
        (-x) / (-d)
    } else if x < 0 {
        -((-x) / d)
    } else {
        -(x / (-d))
    }
}

/// The operator of a binary node.
pub enum BinOp {
    Plus,
    Minus,
    Divide,
    Multiply,
}

/// What an operator makes of two values.
pub open spec fn apply_spec(op: BinOp, x: int, y: int) -> Result<int, EvalErrorView> {
    match op {
        BinOp::Plus => in_range(x + y),
        BinOp::Minus => in_range(x - y),
        BinOp::Multiply => in_range(x * y),
        BinOp::Divide => if y == 0 {
            Err(EvalErrorView::DivisionByZero)
        } else {
            in_range(trunc_div(x, y))
        },
    }
}

/// What a binary node makes of its evaluated operands; the left operand's
/// error comes first.
pub open spec fn binary_spec(
    op: BinOp,
    left: Result<int, EvalErrorView>,
    right: Result<int, EvalErrorView>,
) -> Result<int, EvalErrorView> {
    match (left, right) {
        (Err(e), _) => Err(e),
        (Ok(_), Err(e)) => Err(e),
        (Ok(x), Ok(y)) => apply_spec(op, x, y),
    }
}

/// The value of an expression in an environment.
pub open spec fn eval_spec(e: ExprView, env: Map<Seq<char>, int>) -> Result<int, EvalErrorView>
    decreases e,
{
    match e {
        ExprView::Id(name) => if env.contains_key(name) {
            Ok(env[name])
        } else {
            Err(EvalErrorView::UndefinedVariable(name))
        },
        ExprView::LitInt(v) => Ok(v),
        ExprView::Neg(a) => match eval_spec(*a, env) {
            Ok(x) => in_range(-x),
            Err(e) => Err(e),
        },
        ExprView::Plus(a, b) => binary_spec(BinOp::Plus, eval_spec(*a, env), eval_spec(*b, env)),
        ExprView::Minus(a, b) => binary_spec(BinOp::Minus, eval_spec(*a, env), eval_spec(*b, env)),
        ExprView::Divide(a, b) => binary_spec(
            BinOp::Divide,
            eval_spec(*a, env),
            eval_spec(*b, env),
        ),
        ExprView::Multiply(a, b) => binary_spec(
            BinOp::Multiply,
            eval_spec(*a, env),
            eval_spec(*b, env),
        ),
    }
}

/// The environment after a statement, or the error that stops it.
pub open spec fn exec_spec(stm: StmView, env: Map<Seq<char>, int>) -> Result<
    Map<Seq<char>, int>,
    EvalErrorView,
> {
    match stm {
        StmView::Vardef(ExprView::Id(_), _) => Ok(env),
        StmView::Assign(ExprView::Id(name), e) => match eval_spec(e, env) {
            Ok(v) => Ok(env.insert(name, v)),
            Err(err) => Err(err),
        },
        _ => Err(EvalErrorView::MalformedStatement),
    }
}

/// The views of a sequence of statements.
pub open spec fn program_view(stms: Seq<Stm>) -> Seq<StmView> {
    Seq::new(stms.len(), |i: int| stms[i]@)
}

/// The environment after the statements run in order from `env`, up to the
/// first that fails, and the error of that one if there is one.
pub open spec fn run_spec(stms: Seq<StmView>, env: Map<Seq<char>, int>) -> (
    Map<Seq<char>, int>,
    Option<EvalErrorView>,
)
    decreases stms.len(),
{
    if stms.len() == 0 {
        (env, None)
    } else {
        let prev = run_spec(stms.drop_last(), env);
        if prev.1 is Some {
            prev
        } else {
            match exec_spec(stms.last(), prev.0) {
                Ok(next) => (next, None),
                Err(e) => (prev.0, Some(e)),
            }
        }
    }
}

/// A run that has failed on a prefix of the statements has failed on all of
/// them, in the same way.
pub proof fn lemma_run_stops_at_first_error(
    stms: Seq<StmView>,
    env: Map<Seq<char>, int>,
    i: int,
)
    requires
        0 <= i <= stms.len(),
        run_spec(stms.subrange(0, i), env).1 is Some,
    ensures
        run_spec(stms, env) == run_spec(stms.subrange(0, i), env),
    decreases stms.len() - i,
{
    if i == stms.len() {
        assert(stms.subrange(0, i) =~= stms);
    } else {
        assert(stms.subrange(0, i + 1).drop_last() =~= stms.subrange(0, i));
        lemma_run_stops_at_first_error(stms, env, i + 1);
    }
}

/// The index of the binding of `name` in `b`, where it has one.
pub open spec fn index_of(b: Seq<(Seq<char>, int)>, name: Seq<char>) -> int {
    choose|i: int| 0 <= i < b.len() && b[i].0 == name
}

/// Whether `name` is bound in `b`.
pub open spec fn is_bound(b: Seq<(Seq<char>, int)>, name: Seq<char>) -> bool {
    exists|i: int| 0 <= i < b.len() && (#[trigger] b[i]).0 == name
}

/// No name is bound twice.
pub open spec fn distinct_names(b: Seq<(Seq<char>, int)>) -> bool {
    forall|i: int, j: int| 0 <= i < j < b.len() ==> (#[trigger] b[i]).0 != (#[trigger] b[j]).0
}

/// The mapping that a sequence of bindings stands for.
pub open spec fn bindings_map(b: Seq<(Seq<char>, int)>) -> Map<Seq<char>, int> {
    Map::new(|name: Seq<char>| is_bound(b, name), |name: Seq<char>| b[index_of(b, name)].1)
}

/// The bindings after `name` is given `value`: an existing binding keeps its
/// place, a new one goes to the end.
pub open spec fn bind(b: Seq<(Seq<char>, int)>, name: Seq<char>, value: int) -> Seq<
    (Seq<char>, int),
> {
    if is_bound(b, name) {
        b.update(index_of(b, name), (name, value))
    } else {
        b.push((name, value))
    }
}

/// Binding a name is an insertion into the mapping, and keeps names distinct.
pub proof fn lemma_bind(b: Seq<(Seq<char>, int)>, name: Seq<char>, value: int)
    requires
        distinct_names(b),
    ensures
        distinct_names(bind(b, name, value)),
        bindings_map(bind(b, name, value)) == bindings_map(b).insert(name, value),
{
    let c = bind(b, name, value);
    let k = if is_bound(b, name) {
        index_of(b, name)
    } else {
        b.len() as int
    };
    assert(c[k] == (name, value));
    assert(c.len() > k >= 0);
    assert forall|i: int| 0 <= i < c.len() && i != k implies c[i] == b[i] && c[i].0 != name by {
        if is_bound(b, name) {
            assert(b[k].0 == name);
        }
    }
    assert(distinct_names(c));
    assert forall|n: Seq<char>| is_bound(c, n) <==> (n == name || is_bound(b, n)) by {
        if is_bound(c, n) {
            let i = index_of(c, n);
            if i != k {
                assert(b[i].0 == n);
            }
        }
        if n != name && is_bound(b, n) {
            let i = index_of(b, n);
            assert(c[i].0 == n);
        }
    }
    assert forall|n: Seq<char>| is_bound(c, n) implies #[trigger] bindings_map(c)[n]
        == bindings_map(b).insert(name, value)[n] by {
        let i = index_of(c, n);
        if n == name {
            assert(i == k);
        } else {
            assert(i != k);
            assert(b[i].0 == n);
            let j = index_of(b, n);
            assert(i == j);
        }
    }
    assert(bindings_map(c) =~= bindings_map(b).insert(name, value));
}

/// The variables of a run with their last assigned values, in the order of
/// their first assignment.
#[derive(Debug)]
pub struct Env {
    entries: Vec<(String, i64)>,
}

impl Env {
    /// The bindings, oldest first.
    pub closed spec fn bindings(&self) -> Seq<(Seq<char>, int)> {
        Seq::new(self.entries@.len(), |i: int| (self.entries@[i].0@, self.entries@[i].1 as int))
    }

    /// No name is bound twice.
    pub open spec fn wf(&self) -> bool {
        distinct_names(self.bindings())
    }

    /// An environment with no variable.
    pub fn new() -> (env: Env)
        ensures
            env.wf(),
            env.bindings() == Seq::<(Seq<char>, int)>::empty(),
            env@ == Map::<Seq<char>, int>::empty(),
    {
        let env = Env { entries: Vec::new() };
        assert(env.bindings() =~= Seq::empty());
        assert(env@ =~= Map::empty());
        env
    }

    /// The index of the binding of `id`, if it has one.
    fn position(&self, id: &String) -> (r: Option<usize>)
        ensures
            match r {
                Some(i) => i < self.bindings().len() && self.bindings()[i as int].0 == id@,
                None => !is_bound(self.bindings(), id@),
            },
    {
        let mut i: usize = 0;
        while i < self.entries.len()
            invariant
                i <= self.entries@.len(),
                forall|j: int| 0 <= j < i ==> (#[trigger] self.bindings()[j]).0 != id@,
            decreases self.entries@.len() - i,
        {
            if self.entries[i].0 == *id {
                return Some(i);
            }
            i += 1;
        }
        None
    }

    /// Binds `id` to `value`; an earlier value of `id` is overwritten.
    pub fn add(&mut self, id: String, value: i64)
        requires
            old(self).wf(),
        ensures
            final(self).wf(),
            final(self)@ == old(self)@.insert(id@, value as int),
            final(self).bindings() == bind(old(self).bindings(), id@, value as int),
    {
        let ghost before = self.bindings();
        proof {
            lemma_bind(before, id@, value as int);
        }
        match self.position(&id) {
            Some(i) => {
                assert(is_bound(before, id@));
                assert(index_of(before, id@) == i);
                self.entries.set(i, (id, value));
            },
            None => {
                self.entries.push((id, value));
            },
        }
        assert(self.bindings() =~= bind(before, id@, value as int));
    }

    /// The value of `id`, or the error that names it when it has none.
    pub fn lookup(&mut self, id: String) -> (r: Result<i64, EvalError>)
        requires
            old(self).wf(),
        ensures
            *final(self) == *old(self),
            value_result_view(r) == eval_spec(ExprView::Id(id@), old(self)@),
    {
        match self.position(&id) {
            Some(i) => {
                assert(is_bound(self.bindings(), id@));
                assert(index_of(self.bindings(), id@) == i);
                Ok(self.entries[i].1)
            },
            None => Err(EvalError::UndefinedVariable(id)),
        }
    }

    /// The bindings as plain values, oldest first.
    pub fn entries(&self) -> (r: Vec<(String, i64)>)
        ensures
            r@.len() == self.bindings().len(),
            forall|i: int|
                0 <= i < r@.len() ==> (#[trigger] r@[i]).0@ == self.bindings()[i].0 && r@[i].1
                    == self.bindings()[i].1,
    {
        let mut r: Vec<(String, i64)> = Vec::new();
        let mut i: usize = 0;
        while i < self.entries.len()
            invariant
                i <= self.entries@.len(),
                r@.len() == i,
                forall|j: int|
                    0 <= j < i ==> (#[trigger] r@[j]).0@ == self.bindings()[j].0 && r@[j].1
                        == self.bindings()[j].1,
            decreases self.entries@.len() - i,
        {
            r.push((self.entries[i].0.clone(), self.entries[i].1));
            i += 1;
        }
        r
    }
}

impl View for Env {
    type V = Map<Seq<char>, int>;

    open spec fn view(&self) -> Map<Seq<char>, int> {
        bindings_map(self.bindings())
    }
}

/// The evaluator: it owns the environment of one run.
pub struct Eval {
    env: Env,
}

impl View for Eval {
    type V = Map<Seq<char>, int>;

    closed spec fn view(&self) -> Map<Seq<char>, int> {
        self.env@
    }
}

impl Eval {
    /// The environment is well formed.
    pub closed spec fn wf(&self) -> bool {
        self.env.wf()
    }

    /// The bindings, oldest first.
    pub closed spec fn bindings(&self) -> Seq<(Seq<char>, int)> {
        self.env.bindings()
    }

    /// An evaluator with no variable.
    pub fn new() -> (e: Eval)
        ensures
            e.wf(),
            e@ == Map::<Seq<char>, int>::empty(),
            e.bindings() == Seq::<(Seq<char>, int)>::empty(),
    {
        Eval { env: Env::new() }
    }

    /// The environment.
    pub fn env(&self) -> (env: &Env)
        ensures
            env@ == self@,
            env.bindings() == self.bindings(),
            env.wf() == self.wf(),
    {
        &self.env
    }

    /// Executes one statement. A declaration changes nothing; an assignment
    /// binds its target to the value of its expression. On an error the
    /// environment is as it was.
    pub fn exec_stm(&mut self, stm: Stm) -> (r: Result<(), EvalError>)
        requires
            old(self).wf(),
        ensures
            final(self).wf(),
            match exec_spec(stm@, old(self)@) {
                Ok(env) => r is Ok && final(self)@ == env,
                Err(e) => r is Err && r->Err_0@ == e && *final(self) == *old(self),
            },
            match stm@ {
                StmView::Assign(ExprView::Id(name), _) if r is Ok => final(self).bindings() == bind(
                    old(self).bindings(),
                    name,
                    final(self)@[name],
                ),
                _ => final(self).bindings() == old(self).bindings(),
            },
    {
        match stm {
            Stm::Vardef(Expr::Id(_), _) => Ok(()),
            Stm::Assign(Expr::Id(s), e) => {
                let x = self.eval(e)?;
                self.env.add(s, x);
                Ok(())
            },
            _ => Err(EvalError::MalformedStatement),
        }
    }

    /// Executes the statements in order and stops at the first that fails:
    /// the statements before it have run, it and those after it have not.
    pub fn exec_all(&mut self, stms: &Vec<Stm>) -> (r: Result<(), EvalError>)
        requires
            old(self).wf(),
        ensures
            final(self).wf(),
            final(self)@ == run_spec(program_view(stms@), old(self)@).0,
            match run_spec(program_view(stms@), old(self)@).1 {
                None => r is Ok,
                Some(e) => r is Err && r->Err_0@ == e,
            },
    {
        let ghost all = program_view(stms@);
        let ghost start = self@;
        let mut i: usize = 0;
        assert(all.subrange(0, 0) =~= Seq::empty());
        while i < stms.len()
            invariant
                i <= stms.len(),
                all == program_view(stms@),
                start == old(self)@,
                self.wf(),
                run_spec(all.subrange(0, i as int), start) == (self@, None::<EvalErrorView>),
            decreases stms.len() - i,
        {
            proof {
                assert(all.subrange(0, i + 1).drop_last() =~= all.subrange(0, i as int));
                assert(all.subrange(0, i + 1).last() == stms@[i as int]@);
            }
            let ghost prev = self@;
            let stm = stms[i].clone();
            match self.exec_stm(stm) {
                Ok(()) => {},
                Err(e) => {
                    proof {
                        assert(run_spec(all.subrange(0, i + 1), start) == (prev, Some(e@)));
                        lemma_run_stops_at_first_error(all, start, i + 1);
                    }
                    return Err(e);
                },
            }
            i += 1;
        }
        assert(all.subrange(0, stms.len() as int) =~= all);
        Ok(())
    }

    /// The value of an expression in the current environment.
    pub fn eval(&mut self, expr: Expr) -> (r: Result<i64, EvalError>)
        requires
            old(self).wf(),
        ensures
            *final(self) == *old(self),
            value_result_view(r) == eval_spec(expr@, old(self)@),
        decreases expr,
    {
        match expr {
            Expr::Id(s) => self.env.lookup(s),
            Expr::LitInt(i) => Ok(i),
            Expr::Neg(e) => {
                let x = self.eval(*e)?;
                let zero: i64 = 0;
                match zero.checked_sub(x) {
                    Some(v) => Ok(v),
                    None => Err(EvalError::Overflow),
                }
            },
            Expr::Plus(e1, e2) => {
                let x = self.eval(*e1)?;
                let y = self.eval(*e2)?;
                apply(BinOp::Plus, x, y)
            },
            Expr::Minus(e1, e2) => {
                let x = self.eval(*e1)?;
                let y = self.eval(*e2)?;
                apply(BinOp::Minus, x, y)
            },
            Expr::Divide(e1, e2) => {
                let x = self.eval(*e1)?;
                let y = self.eval(*e2)?;
                apply(BinOp::Divide, x, y)
            },
            Expr::Multiply(e1, e2) => {
                let x = self.eval(*e1)?;
                let y = self.eval(*e2)?;
                apply(BinOp::Multiply, x, y)
            },
        }
    }
}

/// Applies an operator to two values.
pub fn apply(op: BinOp, x: i64, y: i64) -> (r: Result<i64, EvalError>)
    ensures
        value_result_view(r) == apply_spec(op, x as int, y as int),
{
    let v: Option<i64> = match op {
        BinOp::Plus => x.checked_add(y),
        BinOp::Minus => x.checked_sub(y),
        BinOp::Multiply => x.checked_mul(y),
        BinOp::Divide => {
            if y == 0 {
                return Err(EvalError::DivisionByZero);
            }
            x.checked_div(y)
        },
    };
    match v {
        Some(v) => Ok(v),
        None => Err(EvalError::Overflow),
    }
}

} // verus!
