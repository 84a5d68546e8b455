use vstd::prelude::*;

use crate::ast::{lemma_stmts_view_from, stmt_view, stmts_view, BinaryOp, Expr, ExprModel, Program, Stmt, StmtModel};
use crate::text::{decimal, render_decimal};

verus! {

broadcast use vstd::std_specs::vec::group_vec_axioms;

/// A runtime value.
#[derive(Debug, Clone, PartialEq)]
pub enum Value {
    Number(i64),
    String(String),
}

/// Mathematical model of a runtime value.
pub enum Val {
    Int(i64),
    Text(Seq<char>),
}

impl View for Value {
    type V = Val;

    open spec fn view(&self) -> Val {
        match self {
            Value::Number(n) => Val::Int(*n),
            Value::String(s) => Val::Text(s@),
        }
    }
}

/// The variable environment: one value per name.
pub type Env = Map<Seq<char>, Val>;

/// What running some statements leaves behind: the environment, every output
/// line printed so far, and the runtime error that stopped the run, if any.
pub struct Outcome {
    pub env: Env,
    pub out: Seq<Seq<char>>,
    pub result: Result<(), Seq<char>>,
}

impl Outcome {
    /// The run finished without a runtime error.
    pub open spec fn ok(self) -> bool {
        self.result is Ok
    }
}

pub open spec fn abs(x: int) -> int {
    if x < 0 {
        -x
    } else {
        x
    }
}

/// Integer division truncating toward zero.
pub open spec fn trunc_div(x: int, y: int) -> int {
    let q = abs(x) / abs(y);
    if (x < 0) == (y < 0) {
        q
    } else {
        -q
    }
}

/// How a value reads in a message: `Number(7)` or `String("abc")`.
pub open spec fn describe(v: Val) -> Seq<char> {
    match v {
        Val::Int(n) => "Number("@ + decimal(n as int) + ")"@,
        Val::Text(s) => "String(\""@ + s + "\")"@,
    }
}

/// An integer result, if it fits in 64 bits.
pub open spec fn checked(v: int) -> Result<Val, Seq<char>> {
    if i64::MIN <= v <= i64::MAX {
        Ok(Val::Int(v as i64))
    } else {
        Err("Integer overflow"@)
    }
}

/// The integer in a value; text is a runtime error.
pub open spec fn number_of(v: Val) -> Result<i64, Seq<char>> {
    match v {
        Val::Int(n) => Ok(n),
        Val::Text(_) => Err("Expected number, got "@ + describe(v)),
    }
}

/// Applies a binary operator to two evaluated operands; `Err` is a runtime error.
pub open spec fn apply_op(op: BinaryOp, a: Val, b: Val) -> Result<Val, Seq<char>> {
    if op == BinaryOp::Equal {
        Ok(Val::Int(if a == b { 1 } else { 0 }))
    } else {
        match number_of(a) {
            Err(m) => Err(m),
            Ok(x) => match number_of(b) {
                Err(m) => Err(m),
                Ok(y) => match op {
                    BinaryOp::Add => checked(x + y),
                    BinaryOp::Sub => checked(x - y),
                    BinaryOp::Mul => checked(x * y),
                    _ => if y == 0 {
                        Err("Division by zero"@)
                    } else {
                        checked(trunc_div(x as int, y as int))
                    },
                },
            },
        }
    }
}

/// The value of an expression in an environment, the left operand evaluated
/// first; `Err` is a runtime error.
pub open spec fn eval(env: Env, e: ExprModel) -> Result<Val, Seq<char>>
    decreases e,
{
    match e {
        ExprModel::Num(n) => Ok(Val::Int(n)),
        ExprModel::Text(s) => Ok(Val::Text(s)),
        ExprModel::Var(x) => if env.contains_key(x) {
            Ok(env[x])
        } else {
            Err("Undefined variable: "@ + x)
        },
        ExprModel::Binary(l, op, r) => match eval(env, *l) {
            Err(m) => Err(m),
            Ok(a) => match eval(env, *r) {
                Err(m) => Err(m),
                Ok(b) => apply_op(op, a, b),
            },
        },
    }
}

/// The output line that printing a value produces.
pub open spec fn render(v: Val) -> Seq<char> {
    match v {
        Val::Int(n) => decimal(n as int),
        Val::Text(s) => s,
    }
}

pub open spec fn finished(env: Env, out: Seq<Seq<char>>) -> Outcome {
    Outcome { env, out, result: Ok(()) }
}

pub open spec fn failed(env: Env, out: Seq<Seq<char>>, m: Seq<char>) -> Outcome {
    Outcome { env, out, result: Err(m) }
}

/// Runs one statement from the given environment and output.
pub open spec fn run_stmt(env: Env, out: Seq<Seq<char>>, s: StmtModel) -> Outcome
    decreases s,
{
    match s {
        StmtModel::Print(e) => match eval(env, e) {
            Ok(v) => finished(env, out.push(render(v))),
            Err(m) => failed(env, out, m),
        },
        StmtModel::Let(x, e) => match eval(env, e) {
            Ok(v) => finished(env.insert(x, v), out),
            Err(m) => failed(env, out, m),
        },
        StmtModel::If(c, then_body, else_body) => match eval(env, c) {
            Err(m) => failed(env, out, m),
            Ok(v) => match number_of(v) {
                Err(m) => failed(env, out, m),
                Ok(n) => if n != 0 {
                    run_stmts(env, out, then_body)
                } else {
                    match else_body {
                        Some(b) => run_stmts(env, out, b),
                        None => finished(env, out),
                    }
                },
            },
        },
        StmtModel::Assert(a, b) => match eval(env, a) {
            Err(m) => failed(env, out, m),
            Ok(x) => match eval(env, b) {
                Err(m) => failed(env, out, m),
                Ok(y) => if x == y {
                    finished(env, out)
                } else {
                    failed(env, out, "Assertion failed: expected "@ + describe(y) + ", got "@ + describe(x))
                },
            },
        },
        StmtModel::AssertNe(a, b) => match eval(env, a) {
            Err(m) => failed(env, out, m),
            Ok(x) => match eval(env, b) {
                Err(m) => failed(env, out, m),
                Ok(y) => if x != y {
                    finished(env, out)
                } else {
                    failed(env, out, "Assertion failed: expected values to be different, but both are "@ + describe(x))
                },
            },
        },
    }
}

/// Runs statements in order, stopping at the first runtime error.
pub open spec fn run_stmts(env: Env, out: Seq<Seq<char>>, ss: Seq<StmtModel>) -> Outcome
    decreases ss,
{
    if ss.len() == 0 {
        finished(env, out)
    } else {
        let o = run_stmt(env, out, ss[0]);
        if o.ok() {
            run_stmts(o.env, o.out, ss.subrange(1, ss.len() as int))
        } else {
            o
        }
    }
}

/// Whether an executable result carries exactly the model's value or message.
pub open spec fn value_result(spec: Result<Val, Seq<char>>, r: Result<Value, String>) -> bool {
    match spec {
        Ok(v) => r is Ok && r->Ok_0@ == v,
        Err(m) => r is Err && r->Err_0@ == m,
    }
}

/// Whether an executable result succeeds, or fails with exactly the model's message.
pub open spec fn run_result(spec: Result<(), Seq<char>>, r: Result<(), String>) -> bool {
    match spec {
        Ok(()) => r is Ok,
        Err(m) => r is Err && r->Err_0@ == m,
    }
}

fn names_equal(a: &String, b: &String) -> (r: bool)
    ensures
        r == (a@ == b@),
{
    a.eq(b)
}

impl Value {
    /// A copy of this value.
    pub fn duplicate(&self) -> (r: Value)
        ensures
            r@ == self@,
    {
        match self {
            Value::Number(n) => Value::Number(*n),
            Value::String(s) => Value::String(s.clone()),
        }
    }

    /// Structural equality: same kind and same content.
    pub fn same_as(&self, other: &Value) -> (r: bool)
        ensures
            r == (self@ == other@),
    {
        match (self, other) {
            (Value::Number(a), Value::Number(b)) => *a == *b,
            (Value::String(a), Value::String(b)) => a.eq(b),
            _ => false,
        }
    }

    /// How this value reads in a message.
    pub fn describe(&self) -> (r: String)
        ensures
            r@ == describe(self@),
    {
        match self {
            Value::Number(n) => {
                let mut m = String::from_str("Number(");
                let digits = render_decimal(*n);
                m.append(digits.as_str());
                m.append(")");
                m
            },
            Value::String(s) => {
                let mut m = String::from_str("String(\"");
                m.append(s.as_str());
                m.append("\")");
                m
            },
        }
    }

    fn as_number(&self) -> (r: Result<i64, String>)
        ensures
            match number_of(self@) {
                Ok(n) => r == Ok::<i64, String>(n),
                Err(m) => r is Err && r->Err_0@ == m,
            },
    {
        match self {
            Value::Number(n) => Ok(*n),
            _ => {
                let mut m = String::from_str("Expected number, got ");
                let d = self.describe();
                m.append(d.as_str());
                Err(m)
            },
        }
    }
}

/// Executes programs against one environment, recording every printed line.
pub struct Interpreter {
    variables: Vec<(String, Value)>,
    output: Vec<String>,
    env: Ghost<Env>,
}

impl Interpreter {
    /// The variables hold unique names and agree with the environment.
    pub closed spec fn wf(&self) -> bool {
        &&& forall|i: int, j: int|
            0 <= i < self.variables@.len() && 0 <= j < self.variables@.len() && i != j
                ==> (#[trigger] self.variables@[i]).0@ != (#[trigger] self.variables@[j]).0@
        &&& forall|i: int|
            0 <= i < self.variables@.len() ==> self.env@.contains_key(
                (#[trigger] self.variables@[i]).0@,
            ) && self.env@[self.variables@[i].0@] == self.variables@[i].1@
        &&& forall|k: Seq<char>|
            #[trigger] self.env@.contains_key(k) ==> exists|i: int|
                0 <= i < self.variables@.len() && (#[trigger] self.variables@[i]).0@ == k
    }

    /// The current variable bindings.
    pub closed spec fn env(&self) -> Env {
        self.env@
    }

    /// Every line printed so far, in order.
    pub closed spec fn printed(&self) -> Seq<Seq<char>> {
        self.output@.map_values(|s: String| s@)
    }

    /// An interpreter with no variables and no output.
    pub fn new() -> (r: Self)
        ensures
            r.wf(),
            r.env() == Map::<Seq<char>, Val>::empty(),
            r.printed() == Seq::<Seq<char>>::empty(),
    {
        let r = Interpreter { variables: Vec::new(), output: Vec::new(), env: Ghost(Map::empty()) };
        assert(r.printed() =~= Seq::<Seq<char>>::empty());
        r
    }

    /// The lines printed so far.
    pub fn output(&self) -> (r: &Vec<String>)
        ensures
            r@.map_values(|s: String| s@) == self.printed(),
    {
        &self.output
    }

    /// Hands over the lines printed so far.
    pub fn take_output(self) -> (r: Vec<String>)
        ensures
            r@.map_values(|s: String| s@) == self.printed(),
    {
        self.output
    }

    fn lookup(&self, name: &String) -> (r: Option<Value>)
        requires
            self.wf(),
        ensures
            match r {
                Some(v) => self.env().contains_key(name@) && v@ == self.env()[name@],
                None => !self.env().contains_key(name@),
            },
    {
        let mut i: usize = 0;
        while i < self.variables.len()
            invariant
                self.wf(),
                i <= self.variables@.len(),
                forall|j: int| 0 <= j < i ==> (#[trigger] self.variables@[j]).0@ != name@,
            decreases self.variables@.len() - i,
        {
            if self.variables[i].0.eq(name) {
                return Some(self.variables[i].1.duplicate());
            }
            i += 1;
        }
        None
    }

    fn assign(&mut self, name: String, v: Value)
        requires
            old(self).wf(),
        ensures
            final(self).wf(),
            final(self).env() == old(self).env().insert(name@, v@),
            final(self).printed() == old(self).printed(),
    {
        let ghost key = name@;
        let ghost val = v@;
        let mut i: usize = 0;
        while i < self.variables.len()
            invariant
                self.wf(),
                self.env() == old(self).env(),
                self.output == old(self).output,
                key == name@,
                val == v@,
                i <= self.variables@.len(),
                forall|j: int| 0 <= j < i ==> (#[trigger] self.variables@[j]).0@ != key,
            decreases self.variables@.len() - i,
        {
            let same = names_equal(&self.variables[i].0, &name);
            if same {
                let ghost old_vars = self.variables@;
                self.variables.set(i, (name, v));
                self.env = Ghost(self.env@.insert(key, val));
                assert forall|k: Seq<char>| #[trigger] self.env@.contains_key(k) implies exists|j: int|
                    0 <= j < self.variables@.len() && (#[trigger] self.variables@[j]).0@ == k by {
                    if k != key {
                        let j = choose|j: int| 0 <= j < old_vars.len() && (#[trigger] old_vars[j]).0@ == k;
                        assert(self.variables@[j].0@ == k);
                    } else {
                        assert(self.variables@[i as int].0@ == k);
                    }
                }
                return;
            }
            i += 1;
        }
        let ghost old_vars = self.variables@;
        self.variables.push((name, v));
        self.env = Ghost(self.env@.insert(key, val));
        assert forall|k: Seq<char>| #[trigger] self.env@.contains_key(k) implies exists|j: int|
            0 <= j < self.variables@.len() && (#[trigger] self.variables@[j]).0@ == k by {
            if k != key {
                let j = choose|j: int| 0 <= j < old_vars.len() && (#[trigger] old_vars[j]).0@ == k;
                assert(self.variables@[j].0@ == k);
            } else {
                assert(self.variables@[old_vars.len() as int].0@ == k);
            }
        }
    }

    /// Runs a whole program from the current state. Lines printed before a
    /// runtime error stay recorded, as do the bindings made before it.
    pub fn execute(&mut self, program: &Program) -> (r: Result<(), String>)
        requires
            old(self).wf(),
        ensures
            final(self).wf(),
            ({
                let o = run_stmts(old(self).env(), old(self).printed(), stmts_view(program@));
                &&& final(self).env() == o.env
                &&& final(self).printed() == o.out
                &&& run_result(o.result, r)
            }),
    {
        self.execute_body(program)
    }

    fn print_line(&mut self, line: String)
        requires
            old(self).wf(),
        ensures
            final(self).wf(),
            final(self).env() == old(self).env(),
            final(self).printed() == old(self).printed().push(line@),
    {
        self.output.push(line);
        assert(self.variables@ == old(self).variables@);
        assert(self.printed() =~= old(self).printed().push(line@));
    }

    fn execute_body(&mut self, body: &Vec<Stmt>) -> (r: Result<(), String>)
        requires
            old(self).wf(),
        ensures
            final(self).wf(),
            ({
                let o = run_stmts(old(self).env(), old(self).printed(), stmts_view(body@));
                &&& final(self).env() == o.env
                &&& final(self).printed() == o.out
                &&& run_result(o.result, r)
            }),
        decreases body,
    {
        let ghost ms = stmts_view(body@);
        proof {
            lemma_stmts_view_from(body@, 0);
            assert forall|k: int| 0 <= k < body@.len() implies ms[k] == stmt_view(#[trigger] body@[k]) by {
                assert(body@[k] == body@[0 + k]);
            }
            assert(ms.subrange(0, ms.len() as int) =~= ms);
        }
        let mut i: usize = 0;
        while i < body.len()
            invariant
                self.wf(),
                i <= body@.len(),
                ms == stmts_view(body@),
                ms.len() == body@.len(),
                forall|k: int| 0 <= k < body@.len() ==> ms[k] == stmt_view(#[trigger] body@[k]),
                run_stmts(old(self).env(), old(self).printed(), ms) == run_stmts(
                    self.env(),
                    self.printed(),
                    ms.subrange(i as int, ms.len() as int),
                ),
            decreases body@.len() - i,
        {
            let ghost rest = ms.subrange(i as int, ms.len() as int);
            let ghost self_before = *self;
            assert(rest[0] == stmt_view(body@[i as int]));
            assert(rest.subrange(1, rest.len() as int) =~= ms.subrange(i + 1, ms.len() as int));
            let r = self.execute_stmt(&body[i]);
            if r.is_err() {
                assert(rest.len() > 0);
                assert(run_stmts(self_before.env(), self_before.printed(), rest) == run_stmt(
                    self_before.env(),
                    self_before.printed(),
                    rest[0],
                ));

                return r;
            }
            i += 1;
        }
        assert(ms.subrange(i as int, ms.len() as int) =~= Seq::<StmtModel>::empty());
        Ok(())
    }

    fn execute_stmt(&mut self, stmt: &Stmt) -> (r: Result<(), String>)
        requires
            old(self).wf(),
        ensures
            final(self).wf(),
            ({
                let o = run_stmt(old(self).env(), old(self).printed(), stmt_view(*stmt));
                &&& final(self).env() == o.env
                &&& final(self).printed() == o.out
                &&& run_result(o.result, r)
            }),
        decreases stmt,
    {
        match stmt {
            Stmt::Print(e) => {
                let v = match self.eval_expr(e) {
                    Ok(v) => v,
                    Err(m) => return Err(m),
                };
                let line = match &v {
                    Value::Number(n) => render_decimal(*n),
                    Value::String(s) => s.clone(),
                };
                self.print_line(line);
                Ok(())
            },
            Stmt::Let { name, value } => {
                let v = match self.eval_expr(value) {
                    Ok(v) => v,
                    Err(m) => return Err(m),
                };
                self.assign(name.clone(), v);
                Ok(())
            },
            Stmt::If { condition, then_body, else_body } => {
                let c = match self.eval_expr(condition) {
                    Ok(v) => v,
                    Err(m) => return Err(m),
                };
                let n = match c.as_number() {
                    Ok(n) => n,
                    Err(m) => return Err(m),
                };
                if n != 0 {
                    self.execute_body(then_body)
                } else {
                    match else_body {
                        Some(b) => self.execute_body(b),
                        None => Ok(()),
                    }
                }
            },
            Stmt::Assert { actual, expected } => {
                let a = match self.eval_expr(actual) {
                    Ok(v) => v,
                    Err(m) => return Err(m),
                };
                let b = match self.eval_expr(expected) {
                    Ok(v) => v,
                    Err(m) => return Err(m),
                };
                if a.same_as(&b) {
                    Ok(())
                } else {
                    let mut m = String::from_str("Assertion failed: expected ");
                    m.append(b.describe().as_str());
                    m.append(", got ");
                    m.append(a.describe().as_str());
                    Err(m)
                }
            },
            Stmt::AssertNe { actual, expected } => {
                let a = match self.eval_expr(actual) {
                    Ok(v) => v,
                    Err(m) => return Err(m),
                };
                let b = match self.eval_expr(expected) {
                    Ok(v) => v,
                    Err(m) => return Err(m),
                };
                if a.same_as(&b) {
                    let mut m = String::from_str("Assertion failed: expected values to be different, but both are ");
                    m.append(a.describe().as_str());
                    Err(m)
                } else {
                    Ok(())
                }
            },
        }
    }

    /// Evaluates an expression, left operand before right.
    fn eval_expr(&self, expr: &Expr) -> (r: Result<Value, String>)
        requires
            self.wf(),
        ensures
            value_result(eval(self.env(), expr@), r),
        decreases expr,
    {
        match expr {
            Expr::Number(n) => Ok(Value::Number(*n)),
            Expr::String(s) => Ok(Value::String(s.clone())),
            Expr::Variable(name) => match self.lookup(name) {
                Some(v) => Ok(v),
                None => {
                    let mut msg = String::from_str("Undefined variable: ");
                    msg.append(name.as_str());
                    Err(msg)
                },
            },
            Expr::Binary { left, op, right } => {
                let l = match self.eval_expr(left) {
                    Ok(v) => v,
                    Err(e) => return Err(e),
                };
                let r = match self.eval_expr(right) {
                    Ok(v) => v,
                    Err(e) => return Err(e),
                };
                apply(*op, &l, &r)
            },
        }
    }
}

fn number_result(v: i128) -> (r: Result<Value, String>)
    ensures
        value_result(checked(v as int), r),
{
    if v < i64::MIN as i128 || v > i64::MAX as i128 {
        Err(String::from_str("Integer overflow"))
    } else {
        Ok(Value::Number(v as i64))
    }
}

/// Applies an operator to two values, failing as `apply_op` does.
pub fn apply(op: BinaryOp, a: &Value, b: &Value) -> (r: Result<Value, String>)
    ensures
        value_result(apply_op(op, a@, b@), r),
{
    if op == BinaryOp::Equal {
        let same = a.same_as(b);
        return Ok(Value::Number(if same { 1 } else { 0 }));
    }
    let x = match a.as_number() {
        Ok(n) => n,
        Err(e) => return Err(e),
    };
    let y = match b.as_number() {
        Ok(n) => n,
        Err(e) => return Err(e),
    };
    let (xw, yw) = (x as i128, y as i128);
    match op {
        BinaryOp::Add => number_result(xw + yw),
        BinaryOp::Sub => number_result(xw - yw),
        BinaryOp::Mul => {
            assert(-0x4000_0000_0000_0000_0000_0000_0000_0000 <= xw * yw <= 0x4000_0000_0000_0000_0000_0000_0000_0000) by (nonlinear_arith)
                requires
                    -0x8000_0000_0000_0000 <= xw <= 0x7fff_ffff_ffff_ffff,
                    -0x8000_0000_0000_0000 <= yw <= 0x7fff_ffff_ffff_ffff,
            ;
            number_result(xw * yw)
        },
        _ => {
            if y == 0 {
                return Err(String::from_str("Division by zero"));
            }
            let ax: i128 = if xw < 0 { -xw } else { xw };
            let ay: i128 = if yw < 0 { -yw } else { yw };
            let q: i128 = ax / ay;
            assert(q == abs(x as int) / abs(y as int));
            assert(0 <= q <= ax) by (nonlinear_arith)
                requires
                    q == ax / ay,
                    ax >= 0,
                    ay >= 1,
            ;
            number_result(if (x < 0) == (y < 0) { q } else { -q })
        },
    }
}

} // verus!
