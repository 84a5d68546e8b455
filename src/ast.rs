use vstd::prelude::*;

verus! {

broadcast use vstd::std_specs::vec::group_vec_axioms;

/// The binary operators of the expression language.
#[derive(Debug, Clone, Copy, PartialEq, Eq, Structural)]
pub enum BinaryOp {
    Add,
    Sub,
    Mul,
    Div,
    Equal,
}

/// An expression node; each node owns its children.
#[derive(Debug, PartialEq)]
pub enum Expr {
    Number(i64),
    String(String),
    Variable(String),
    Binary { left: Box<Expr>, op: BinaryOp, right: Box<Expr> },
}

/// A statement node.
#[derive(Debug, PartialEq)]
pub enum Stmt {
    Print(Expr),
    Let { name: String, value: Expr },
    If { condition: Expr, then_body: Vec<Stmt>, else_body: Option<Vec<Stmt>> },
    Assert { actual: Expr, expected: Expr },
    AssertNe { actual: Expr, expected: Expr },
}

/// A program is the ordered list of its statements.
pub type Program = Vec<Stmt>;

/// Mathematical model of an expression: text is a sequence of characters.
pub enum ExprModel {
    Num(i64),
    Text(Seq<char>),
    Var(Seq<char>),
    Binary(Box<ExprModel>, BinaryOp, Box<ExprModel>),
}

/// Mathematical model of a statement.
pub enum StmtModel {
    Print(ExprModel),
    Let(Seq<char>, ExprModel),
    If(ExprModel, Seq<StmtModel>, Option<Seq<StmtModel>>),
    Assert(ExprModel, ExprModel),
    AssertNe(ExprModel, ExprModel),
}

impl View for Expr {
    type V = ExprModel;

    open spec fn view(&self) -> ExprModel
        decreases self,
    {
        match self {
            Expr::Number(n) => ExprModel::Num(*n),
            Expr::String(s) => ExprModel::Text(s@),
            Expr::Variable(x) => ExprModel::Var(x@),
            Expr::Binary { left, op, right } => ExprModel::Binary(
                Box::new((**left).view()),
                *op,
                Box::new((**right).view()),
            ),
        }
    }
}

/// The models of `stmts[i..]`, in order.
pub open spec fn stmts_view_from(stmts: Seq<Stmt>, i: int) -> Seq<StmtModel>
    decreases stmts, stmts.len() - i,
{
    if 0 <= i < stmts.len() {
        seq![stmt_view(stmts[i])] + stmts_view_from(stmts, i + 1)
    } else {
        Seq::empty()
    }
}

/// The models of a list of statements.
pub open spec fn stmts_view(stmts: Seq<Stmt>) -> Seq<StmtModel> {
    stmts_view_from(stmts, 0)
}

/// The model of one statement.
pub open spec fn stmt_view(s: Stmt) -> StmtModel
    decreases s, 0int,
{
    match s {
        Stmt::Print(e) => StmtModel::Print(e@),
        Stmt::Let { name, value } => StmtModel::Let(name@, value@),
        Stmt::If { condition, then_body, else_body } => StmtModel::If(
            condition@,
            stmts_view_from(then_body@, 0),
            match else_body {
                Some(b) => Some(stmts_view_from(b@, 0)),
                None => None,
            },
        ),
        Stmt::Assert { actual, expected } => StmtModel::Assert(actual@, expected@),
        Stmt::AssertNe { actual, expected } => StmtModel::AssertNe(actual@, expected@),
    }
}

/// The models of `stmts[i..]`: one per statement, in order.
pub proof fn lemma_stmts_view_from(b: Seq<Stmt>, i: int)
    requires
        0 <= i <= b.len(),
    ensures
        stmts_view_from(b, i).len() == b.len() - i,
        forall|k: int| 0 <= k < b.len() - i ==> stmts_view_from(b, i)[k] == stmt_view(#[trigger] b[i + k]),
    decreases b.len() - i,
{
    if i < b.len() {
        lemma_stmts_view_from(b, i + 1);
        assert forall|k: int| 0 <= k < b.len() - i implies stmts_view_from(b, i)[k] == stmt_view(#[trigger] b[i + k]) by {
            if k > 0 {
                assert(b[i + k] == b[(i + 1) + (k - 1)]);
            }
        }
    }
}

/// Appending a statement appends its model.
pub proof fn lemma_stmts_view_push(b: Seq<Stmt>, s: Stmt)
    ensures
        stmts_view(b.push(s)) == stmts_view(b).push(stmt_view(s)),
{
    lemma_stmts_view_from(b, 0);
    lemma_stmts_view_from(b.push(s), 0);
    assert forall|k: int| 0 <= k < b.len() implies stmts_view(b)[k] == stmt_view(#[trigger] b[k]) by {
        assert(b[k] == b[0 + k]);
    }
    assert forall|k: int| 0 <= k <= b.len() implies stmts_view(b.push(s))[k] == stmt_view(#[trigger] b.push(s)[k]) by {
        assert(b.push(s)[k] == b.push(s)[0 + k]);
    }
    assert forall|k: int| 0 <= k <= b.len() implies stmts_view(b.push(s))[k] == stmts_view(b).push(
        stmt_view(s),
    )[k] by {
        if k < b.len() {
            assert(b.push(s)[k] == b[k]);
        } else {
            assert(b.push(s)[k] == s);
        }
    }
    assert(stmts_view(b.push(s)) =~= stmts_view(b).push(stmt_view(s)));
}

impl Clone for Expr {
    fn clone(&self) -> (r: Self)
        ensures
            r@ == self@,
        decreases self,
    {
        match self {
            Expr::Number(n) => Expr::Number(*n),
            Expr::String(s) => Expr::String(s.clone()),
            Expr::Variable(x) => Expr::Variable(x.clone()),
            Expr::Binary { left, op, right } => {
                let l = (**left).clone();
                let r = (**right).clone();
                Expr::Binary { left: Box::new(l), op: *op, right: Box::new(r) }
            },
        }
    }
}

/// A copy of a statement list.
fn clone_stmts(v: &Vec<Stmt>) -> (r: Vec<Stmt>)
    ensures
        stmts_view(r@) == stmts_view(v@),
    decreases v,
{
    let mut r: Vec<Stmt> = Vec::new();
    let mut i: usize = 0;
    proof {
        lemma_stmts_view_from(v@, 0);
        lemma_stmts_view_from(r@, 0);
    }
    while i < v.len()
        invariant
            i <= v@.len(),
            r@.len() == i,
            forall|k: int| 0 <= k < i ==> stmt_view(#[trigger] r@[k]) == stmt_view(v@[k]),
        decreases v@.len() - i,
    {
        let s = v[i].clone();
        r.push(s);
        i += 1;
    }
    proof {
        lemma_stmts_view_from(v@, 0);
        lemma_stmts_view_from(r@, 0);
        assert forall|k: int| 0 <= k < r@.len() implies stmts_view(r@)[k] == stmts_view(v@)[k] by {
            assert(r@[k] == r@[0 + k]);
            assert(v@[k] == v@[0 + k]);
        }
        assert(stmts_view(r@) =~= stmts_view(v@));
    }
    r
}

impl Clone for Stmt {
    fn clone(&self) -> (r: Self)
        ensures
            stmt_view(r) == stmt_view(*self),
        decreases self,
    {
        match self {
            Stmt::Print(e) => Stmt::Print(e.clone()),
            Stmt::Let { name, value } => Stmt::Let { name: name.clone(), value: value.clone() },
            Stmt::If { condition, then_body, else_body } => Stmt::If {
                condition: condition.clone(),
                then_body: clone_stmts(then_body),
                else_body: match else_body {
                    Some(b) => Some(clone_stmts(b)),
                    None => None,
                },
            },
            Stmt::Assert { actual, expected } => Stmt::Assert { actual: actual.clone(), expected: expected.clone() },
            Stmt::AssertNe { actual, expected } => Stmt::AssertNe {
                actual: actual.clone(),
                expected: expected.clone(),
            },
        }
    }
}

} // verus!
