use vstd::prelude::*;

use crate::ast::{BinaryOp, ExprModel, StmtModel};
use crate::interpreter::{abs, describe, eval, finished, run_stmt, run_stmts, trunc_div, Env, Val};
use crate::parser::{binary, block_at, expr_at, skip_newlines_from, stmt_at, tok, BlockEnd};
use crate::token::TokenModel;

verus! {

/// Division of integers truncates toward zero: the quotient `q` leaves a
/// remainder `a - q * b` smaller than `b` in size and of the sign of `a`.
/// The one quotient that does not fit in 64 bits, `i64::MIN / -1`, is left out.
pub proof fn division_truncates(env: Env, a: i64, b: i64)
    requires
        b != 0,
        !(a == i64::MIN && b == -1),
    ensures
        eval(env, binary(ExprModel::Num(a), BinaryOp::Div, ExprModel::Num(b))) matches Ok(Val::Int(q)) && ({
            let rem = a - q * b;
            &&& abs(rem) < abs(b as int)
            &&& (rem == 0 || (rem < 0) == (a < 0))
        }),
{
    assert(eval(env, ExprModel::Num(a)) == Ok::<Val, Seq<char>>(Val::Int(a)));
    assert(eval(env, ExprModel::Num(b)) == Ok::<Val, Seq<char>>(Val::Int(b)));
    let (x, y) = (a as int, b as int);
    let q = trunc_div(x, y);
    let q0 = abs(x) / abs(y);
    let r0 = abs(x) % abs(y);
    assert(abs(x) == q0 * abs(y) + r0 && 0 <= r0 < abs(y)) by (nonlinear_arith)
        requires
            abs(y) > 0,
            q0 == abs(x) / abs(y),
            r0 == abs(x) % abs(y),
    ;
    assert(0 <= q0 <= abs(x)) by (nonlinear_arith)
        requires
            abs(y) >= 1,
            abs(x) >= 0,
            q0 == abs(x) / abs(y),
    ;
    if x >= 0 && y > 0 {
        assert(x - q * y == r0);
    } else if x >= 0 && y < 0 {
        assert(q * y == q0 * abs(y)) by (nonlinear_arith)
            requires
                q == -q0,
                y == -abs(y),
        ;
        assert(x - q * y == r0);
    } else if x < 0 && y > 0 {
        assert(q * y == -(q0 * abs(y))) by (nonlinear_arith)
            requires
                q == -q0,
                y == abs(y),
        ;
        assert(x - q * y == -r0);
    } else {
        assert(q * y == -(q0 * abs(y))) by (nonlinear_arith)
            requires
                q == q0,
                y == -abs(y),
        ;
        assert(x - q * y == -r0);
    }
    assert(i64::MIN <= q <= i64::MAX) by {
        if q0 == abs(x) && abs(x) == 0x8000_0000_0000_0000 {
            assert(abs(y) == 1) by (nonlinear_arith)
                requires
                    q0 == abs(x) / abs(y),
                    abs(y) >= 1,
                    q0 == abs(x),
                    abs(x) > 0,
            ;
        }
    }
}

/// Dividing an integer by zero is a runtime error.
pub proof fn division_by_zero_fails(env: Env, left: ExprModel)
    requires
        eval(env, left) matches Ok(Val::Int(_)),
    ensures
        eval(env, binary(left, BinaryOp::Div, ExprModel::Num(0))) == Err::<Val, Seq<char>>("Division by zero"@),
{
    assert(eval(env, ExprModel::Num(0)) == Ok::<Val, Seq<char>>(Val::Int(0)));
}

/// Asserting that a literal equals itself succeeds.
pub proof fn assert_literal_self(env: Env, out: Seq<Seq<char>>, x: ExprModel)
    requires
        x is Num || x is Text,
    ensures
        run_stmt(env, out, StmtModel::Assert(x, x)) == finished(env, out),
{
}

/// Asserting that two expressions with different values are equal fails.
pub proof fn assert_different_fails(env: Env, out: Seq<Seq<char>>, x: ExprModel, y: ExprModel)
    requires
        eval(env, x) is Ok,
        eval(env, y) is Ok,
        eval(env, x) != eval(env, y),
    ensures
        !run_stmt(env, out, StmtModel::Assert(x, y)).ok(),
        run_stmt(env, out, StmtModel::Assert(x, y)).result == Err::<(), Seq<char>>(
            "Assertion failed: expected "@ + describe(eval(env, y)->Ok_0) + ", got "@ + describe(eval(env, x)->Ok_0),
        ),
{
}

/// Where both operands evaluate, `assert_ne` succeeds exactly when `assert` fails.
pub proof fn assert_ne_negates_assert(env: Env, out: Seq<Seq<char>>, x: ExprModel, y: ExprModel)
    requires
        eval(env, x) is Ok,
        eval(env, y) is Ok,
    ensures
        run_stmt(env, out, StmtModel::AssertNe(x, y)).ok() == !run_stmt(env, out, StmtModel::Assert(x, y)).ok(),
{
}

/// Comparing an integer with a text gives 0, never an error.
pub proof fn integer_never_equals_text(env: Env, x: ExprModel, y: ExprModel)
    requires
        eval(env, x) matches Ok(Val::Int(_)),
        eval(env, y) matches Ok(Val::Text(_)),
    ensures
        eval(env, binary(x, BinaryOp::Equal, y)) == Ok::<Val, Seq<char>>(Val::Int(0)),
        eval(env, binary(y, BinaryOp::Equal, x)) == Ok::<Val, Seq<char>>(Val::Int(0)),
{
}

/// A zero condition runs the else-branch, or nothing without one; a nonzero
/// condition runs the then-branch.
pub proof fn if_chooses_branch(
    env: Env,
    out: Seq<Seq<char>>,
    c: ExprModel,
    then_body: Seq<StmtModel>,
    else_body: Option<Seq<StmtModel>>,
)
    requires
        eval(env, c) matches Ok(Val::Int(_)),
    ensures
        eval(env, c) == Ok::<Val, Seq<char>>(Val::Int(0)) ==> run_stmt(env, out, StmtModel::If(c, then_body, else_body)) == match else_body {
            Some(b) => run_stmts(env, out, b),
            None => finished(env, out),
        },
        eval(env, c) != Ok::<Val, Seq<char>>(Val::Int(0)) ==> run_stmt(env, out, StmtModel::If(c, then_body, else_body)) == run_stmts(
            env,
            out,
            then_body,
        ),
{
}

/// A binding made inside a branch is still there after the `if`, and a later
/// reference to the name reads it.
pub proof fn branch_binding_survives(
    env: Env,
    out: Seq<Seq<char>>,
    c: ExprModel,
    x: Seq<char>,
    e: ExprModel,
    v: Val,
)
    requires
        eval(env, c) matches Ok(Val::Int(n)) && n != 0,
        eval(env, e) == Ok::<Val, Seq<char>>(v),
    ensures
        ({
            let o = run_stmts(env, out, seq![StmtModel::If(c, seq![StmtModel::Let(x, e)], None)]);
            &&& o.ok()
            &&& o.env.contains_key(x)
            &&& o.env[x] == v
            &&& eval(o.env, ExprModel::Var(x)) == Ok::<Val, Seq<char>>(v)
        }),
{
    let body = seq![StmtModel::Let(x, e)];
    let outer = seq![StmtModel::If(c, body, None)];
    assert(body.subrange(1, 1) =~= Seq::<StmtModel>::empty());
    assert(outer.subrange(1, 1) =~= Seq::<StmtModel>::empty());
    let o1 = run_stmt(env, out, body[0]);
    assert(o1 == finished(env.insert(x, v), out));
    assert(run_stmts(o1.env, o1.out, body.subrange(1, 1)) == o1);
    assert(run_stmts(env, out, body) == o1);
    let o2 = run_stmt(env, out, outer[0]);
    assert(o2 == o1);
    assert(run_stmts(o2.env, o2.out, outer.subrange(1, 1)) == o2);
    assert(eval(o1.env, ExprModel::Var(x)) == Ok::<Val, Seq<char>>(v));
}

/// Lines already printed are never taken back: a run only appends output,
/// whether or not it stops on a runtime error.
pub proof fn output_only_grows(env: Env, out: Seq<Seq<char>>, s: StmtModel)
    ensures
        out.is_prefix_of(run_stmt(env, out, s).out),
    decreases s,
{
    match s {
        StmtModel::If(c, th, el) => {
            output_only_grows_all(env, out, th);
            if let Some(b) = el {
                output_only_grows_all(env, out, b);
            }
        },
        StmtModel::Print(e) => {
            if let Ok(v) = eval(env, e) {
                assert(out.push(crate::interpreter::render(v)).subrange(0, out.len() as int) =~= out);
            }
        },
        _ => {},
    }
}

/// Lines already printed are never taken back by a list of statements.
pub proof fn output_only_grows_all(env: Env, out: Seq<Seq<char>>, ss: Seq<StmtModel>)
    ensures
        out.is_prefix_of(run_stmts(env, out, ss).out),
    decreases ss,
{
    if ss.len() > 0 {
        output_only_grows(env, out, ss[0]);
        let o = run_stmt(env, out, ss[0]);
        if o.ok() {
            output_only_grows_all(o.env, o.out, ss.subrange(1, ss.len() as int));
            let o2 = run_stmts(o.env, o.out, ss.subrange(1, ss.len() as int));
            assert(o2.out.subrange(0, out.len() as int) =~= o.out.subrange(0, out.len() as int));
        }
    }
}

/// After a then-branch ending at `r`: the input ends, or an else-branch runs
/// to the end of input.
pub open spec fn ends_without_endif(ts: Seq<TokenModel>, r: int) -> bool {
    tok(ts, r) is Eof || (tok(ts, r) is Else && (block_at(
        ts,
        skip_newlines_from(ts, r + 1),
        BlockEnd::Else,
    ) matches Ok((_, e)) && tok(ts, e) is Eof))
}

/// An `if` whose branches run to the end of input without `endif` is a parse error.
pub proof fn missing_endif_fails(ts: Seq<TokenModel>, p: int)
    requires
        tok(ts, p) is If,
        expr_at(ts, p + 1) matches Ok((_, q)) && (block_at(
            ts,
            skip_newlines_from(ts, q),
            BlockEnd::Then,
        ) matches Ok((_, r)) && ends_without_endif(ts, r)),
    ensures
        stmt_at(ts, p) is Err,
{
}

} // verus!
