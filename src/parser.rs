use vstd::prelude::*;

use crate::ast::{lemma_stmts_view_push, stmt_view, stmts_view, BinaryOp, Expr, ExprModel, Program, Stmt, StmtModel};
use crate::text::{decimal, render_decimal};
use crate::token::{moves_on, tokens_view, Token, TokenModel};

verus! {

broadcast use vstd::std_specs::vec::group_vec_axioms;

/// Where a list of statements ends.
#[derive(Clone, Copy, PartialEq, Eq, Structural)]
pub enum BlockEnd {
    /// The whole program: only at the end of input.
    Program,
    /// A then-branch: at `else`, `endif` or the end of input.
    Then,
    /// An else-branch: at `endif` or the end of input.
    Else,
}

/// The token at `p`; past the end it is `Eof`.
pub open spec fn tok(ts: Seq<TokenModel>, p: int) -> TokenModel {
    if 0 <= p < ts.len() {
        ts[p]
    } else {
        TokenModel::Eof
    }
}

/// The first position at or after `p` that does not hold a newline.
pub open spec fn skip_newlines_from(ts: Seq<TokenModel>, p: int) -> int
    decreases ts.len() - p,
{
    if 0 <= p < ts.len() && ts[p] is Newline {
        skip_newlines_from(ts, p + 1)
    } else {
        p
    }
}

/// How a token reads in a message: its kind, with any payload.
pub open spec fn token_text(t: TokenModel) -> Seq<char> {
    match t {
        TokenModel::Number(n) => "Number("@ + decimal(n as int) + ")"@,
        TokenModel::Str(s) => "String(\""@ + s + "\")"@,
        TokenModel::Ident(s) => "Identifier(\""@ + s + "\")"@,
        TokenModel::Print => "Print"@,
        TokenModel::Let => "Let"@,
        TokenModel::If => "If"@,
        TokenModel::Else => "Else"@,
        TokenModel::Endif => "Endif"@,
        TokenModel::Assert => "Assert"@,
        TokenModel::AssertNe => "AssertNe"@,
        TokenModel::Plus => "Plus"@,
        TokenModel::Minus => "Minus"@,
        TokenModel::Star => "Star"@,
        TokenModel::Slash => "Slash"@,
        TokenModel::Equal => "Equal"@,
        TokenModel::EqualEqual => "EqualEqual"@,
        TokenModel::LParen => "LParen"@,
        TokenModel::RParen => "RParen"@,
        TokenModel::Comma => "Comma"@,
        TokenModel::Newline => "Newline"@,
        TokenModel::Eof => "Eof"@,
    }
}

/// The message when one token was required and another was found.
pub open spec fn expected_but(expected: TokenModel, found: TokenModel) -> Seq<char> {
    "Expected "@ + token_text(expected) + ", got "@ + token_text(found)
}

/// The message when a token cannot start a statement.
pub open spec fn unexpected_statement(found: TokenModel) -> Seq<char> {
    "Unexpected token: "@ + token_text(found)
}

/// The message when a token cannot start an expression.
pub open spec fn unexpected_in_expression(found: TokenModel) -> Seq<char> {
    "Unexpected token in expression: "@ + token_text(found)
}

/// Unary minus: a literal is negated in place, anything else becomes `0 - e`.
pub open spec fn negated(e: ExprModel) -> ExprModel {
    match e {
        ExprModel::Num(n) => if n != i64::MIN {
            ExprModel::Num((-(n as int)) as i64)
        } else {
            ExprModel::Binary(Box::new(ExprModel::Num(0)), BinaryOp::Sub, Box::new(e))
        },
        _ => ExprModel::Binary(Box::new(ExprModel::Num(0)), BinaryOp::Sub, Box::new(e)),
    }
}

pub open spec fn binary(l: ExprModel, op: BinaryOp, r: ExprModel) -> ExprModel {
    ExprModel::Binary(Box::new(l), op, Box::new(r))
}

/// `primary := NUMBER | STRING | IDENT | '-' primary | '(' expr ')'`
pub open spec fn primary_at(ts: Seq<TokenModel>, p: int) -> Result<(ExprModel, int), Seq<char>>
    decreases ts.len() - p, 2int,
{
    if p < 0 || p >= ts.len() {
        Err(unexpected_in_expression(tok(ts, p)))
    } else {
        match ts[p] {
            TokenModel::Number(n) => Ok((ExprModel::Num(n), p + 1)),
            TokenModel::Str(s) => Ok((ExprModel::Text(s), p + 1)),
            TokenModel::Ident(x) => Ok((ExprModel::Var(x), p + 1)),
            TokenModel::Minus => match primary_at(ts, p + 1) {
                Ok((e, q)) => Ok((negated(e), q)),
                Err(m) => Err(m),
            },
            TokenModel::LParen => match expr_at(ts, p + 1) {
                Ok((e, q)) => if tok(ts, q) is RParen {
                    Ok((e, q + 1))
                } else {
                    Err(expected_but(TokenModel::RParen, tok(ts, q)))
                },
                Err(m) => Err(m),
            },
            _ => Err(unexpected_in_expression(ts[p])),
        }
    }
}

/// `multiplicative := primary (('*'|'/') primary)*`
pub open spec fn multiplicative_at(ts: Seq<TokenModel>, p: int) -> Result<(ExprModel, int), Seq<char>>
    decreases ts.len() - p, 3int,
{
    match primary_at(ts, p) {
        Ok((l, q)) => if moves_on(p, q, ts.len() as int) {
            multiplicative_rest(ts, l, q)
        } else {
            Err(Seq::empty())
        },
        Err(m) => Err(m),
    }
}

/// The `(('*'|'/') primary)*` tail, folded to the left onto `left`.
pub open spec fn multiplicative_rest(ts: Seq<TokenModel>, left: ExprModel, p: int) -> Result<(ExprModel, int), Seq<char>>
    decreases ts.len() - p, 0int,
{
    let op = if tok(ts, p) is Star { BinaryOp::Mul } else { BinaryOp::Div };
    if 0 <= p && (tok(ts, p) is Star || tok(ts, p) is Slash) {
        match primary_at(ts, p + 1) {
            Ok((r, q)) => if moves_on(p, q, ts.len() as int) {
                multiplicative_rest(ts, binary(left, op, r), q)
            } else {
                Err(Seq::empty())
            },
            Err(m) => Err(m),
        }
    } else {
        Ok((left, p))
    }
}

/// `additive := multiplicative (('+'|'-') multiplicative)*`
pub open spec fn additive_at(ts: Seq<TokenModel>, p: int) -> Result<(ExprModel, int), Seq<char>>
    decreases ts.len() - p, 4int,
{
    match multiplicative_at(ts, p) {
        Ok((l, q)) => if moves_on(p, q, ts.len() as int) {
            additive_rest(ts, l, q)
        } else {
            Err(Seq::empty())
        },
        Err(m) => Err(m),
    }
}

/// The `(('+'|'-') multiplicative)*` tail, folded to the left onto `left`.
pub open spec fn additive_rest(ts: Seq<TokenModel>, left: ExprModel, p: int) -> Result<(ExprModel, int), Seq<char>>
    decreases ts.len() - p, 0int,
{
    let op = if tok(ts, p) is Plus { BinaryOp::Add } else { BinaryOp::Sub };
    if 0 <= p && (tok(ts, p) is Plus || tok(ts, p) is Minus) {
        match multiplicative_at(ts, p + 1) {
            Ok((r, q)) => if moves_on(p, q, ts.len() as int) {
                additive_rest(ts, binary(left, op, r), q)
            } else {
                Err(Seq::empty())
            },
            Err(m) => Err(m),
        }
    } else {
        Ok((left, p))
    }
}

/// `equality := additive ('==' additive)*`, left-associative.
pub open spec fn equality_at(ts: Seq<TokenModel>, p: int) -> Result<(ExprModel, int), Seq<char>>
    decreases ts.len() - p, 5int,
{
    match additive_at(ts, p) {
        Ok((l, q)) => if moves_on(p, q, ts.len() as int) {
            equality_rest(ts, l, q)
        } else {
            Err(Seq::empty())
        },
        Err(m) => Err(m),
    }
}

/// The `('==' additive)*` tail, folded to the left onto `left`.
pub open spec fn equality_rest(ts: Seq<TokenModel>, left: ExprModel, p: int) -> Result<(ExprModel, int), Seq<char>>
    decreases ts.len() - p, 0int,
{
    if 0 <= p && tok(ts, p) is EqualEqual {
        match additive_at(ts, p + 1) {
            Ok((r, q)) => if moves_on(p, q, ts.len() as int) {
                equality_rest(ts, binary(left, BinaryOp::Equal, r), q)
            } else {
                Err(Seq::empty())
            },
            Err(m) => Err(m),
        }
    } else {
        Ok((left, p))
    }
}

/// `expr := equality`
pub open spec fn expr_at(ts: Seq<TokenModel>, p: int) -> Result<(ExprModel, int), Seq<char>>
    decreases ts.len() - p, 6int,
{
    equality_at(ts, p)
}

/// `'(' expr ',' expr ')'`, the operands of an assertion.
pub open spec fn operands_at(ts: Seq<TokenModel>, p: int) -> Result<(ExprModel, ExprModel, int), Seq<char>>
    decreases ts.len() - p, 7int,
{
    if 0 <= p && tok(ts, p) is LParen {
        match expr_at(ts, p + 1) {
            Ok((a, q)) => if !moves_on(p, q, ts.len() as int) {
                Err(Seq::empty())
            } else if tok(ts, q) is Comma {
                match expr_at(ts, q + 1) {
                    Ok((b, r)) => if tok(ts, r) is RParen {
                        Ok((a, b, r + 1))
                    } else {
                        Err(expected_but(TokenModel::RParen, tok(ts, r)))
                    },
                    Err(m) => Err(m),
                }
            } else {
                Err(expected_but(TokenModel::Comma, tok(ts, q)))
            },
            Err(m) => Err(m),
        }
    } else {
        Err(expected_but(TokenModel::LParen, tok(ts, p)))
    }
}

/// Whether a statement list of the given kind ends at token `t`.
pub open spec fn block_stops(t: TokenModel, end: BlockEnd) -> bool {
    match end {
        BlockEnd::Program => t is Eof,
        BlockEnd::Then => t is Eof || t is Else || t is Endif,
        BlockEnd::Else => t is Eof || t is Endif,
    }
}

/// `if_stmt := 'if' expr NEWLINE* stmt* ('else' NEWLINE* stmt*)? 'endif' NEWLINE*`,
/// for `p` at the `if`.
pub open spec fn if_at(ts: Seq<TokenModel>, p: int) -> Result<(StmtModel, int), Seq<char>>
    decreases ts.len() - p, 0int,
{
    let len = ts.len() as int;
    if !(0 <= p < len) {
        Err(Seq::empty())
    } else {
        match expr_at(ts, p + 1) {
            Ok((c, q)) => {
                let q1 = skip_newlines_from(ts, q);
                if !moves_on(p, q1, len) {
                    Err(Seq::empty())
                } else {
                    match block_at(ts, q1, BlockEnd::Then) {
                        Ok((th, q2)) => if tok(ts, q2) is Else {
                            let q3 = skip_newlines_from(ts, q2 + 1);
                            if !moves_on(p, q3, len) {
                                Err(Seq::empty())
                            } else {
                                match block_at(ts, q3, BlockEnd::Else) {
                                    Ok((el, q4)) => if tok(ts, q4) is Endif {
                                        Ok((StmtModel::If(c, th, Some(el)), skip_newlines_from(ts, q4 + 1)))
                                    } else {
                                        Err(expected_but(TokenModel::Endif, tok(ts, q4)))
                                    },
                                    Err(m) => Err(m),
                                }
                            }
                        } else if tok(ts, q2) is Endif {
                            Ok((StmtModel::If(c, th, None), skip_newlines_from(ts, q2 + 1)))
                        } else {
                            Err(expected_but(TokenModel::Endif, tok(ts, q2)))
                        },
                        Err(m) => Err(m),
                    }
                }
            },
            Err(m) => Err(m),
        }
    }
}

/// `stmt := print_stmt | let_stmt | if_stmt | assert_stmt | assertne_stmt`, each
/// followed by any newlines.
pub open spec fn stmt_at(ts: Seq<TokenModel>, p: int) -> Result<(StmtModel, int), Seq<char>>
    decreases ts.len() - p, 1int,
{
    if p < 0 || p >= ts.len() {
        Err(unexpected_statement(tok(ts, p)))
    } else {
        match ts[p] {
            TokenModel::Print => match expr_at(ts, p + 1) {
                Ok((e, q)) => Ok((StmtModel::Print(e), skip_newlines_from(ts, q))),
                Err(m) => Err(m),
            },
            TokenModel::Let => match tok(ts, p + 1) {
                TokenModel::Ident(x) => if tok(ts, p + 2) is Equal {
                    match expr_at(ts, p + 3) {
                        Ok((e, q)) => Ok((StmtModel::Let(x, e), skip_newlines_from(ts, q))),
                        Err(m) => Err(m),
                    }
                } else {
                    Err(expected_but(TokenModel::Equal, tok(ts, p + 2)))
                },
                found => Err("Expected identifier, got "@ + token_text(found)),
            },
            TokenModel::If => if_at(ts, p),
            TokenModel::Assert => match operands_at(ts, p + 1) {
                Ok((a, b, q)) => Ok((StmtModel::Assert(a, b), skip_newlines_from(ts, q))),
                Err(m) => Err(m),
            },
            TokenModel::AssertNe => match operands_at(ts, p + 1) {
                Ok((a, b, q)) => Ok((StmtModel::AssertNe(a, b), skip_newlines_from(ts, q))),
                Err(m) => Err(m),
            },
            found => Err(unexpected_statement(found)),
        }
    }
}

/// Statements from `p` up to the token that ends a list of this kind.
pub open spec fn block_at(ts: Seq<TokenModel>, p: int, end: BlockEnd) -> Result<(Seq<StmtModel>, int), Seq<char>>
    decreases ts.len() - p, 2int,
{
    if block_stops(tok(ts, p), end) {
        Ok((Seq::empty(), p))
    } else {
        match stmt_at(ts, p) {
            Ok((st, q)) => {
                let q1 = skip_newlines_from(ts, q);
                if moves_on(p, q1, ts.len() as int) {
                    match block_at(ts, q1, end) {
                        Ok((rest, r)) => Ok((seq![st] + rest, r)),
                        Err(m) => Err(m),
                    }
                } else {
                    Err(Seq::empty())
                }
            },
            Err(m) => Err(m),
        }
    }
}

/// The program that a token sequence spells from `p`, or the parse error.
pub open spec fn program_at(ts: Seq<TokenModel>, p: int) -> Result<Seq<StmtModel>, Seq<char>> {
    match block_at(ts, skip_newlines_from(ts, p), BlockEnd::Program) {
        Ok((b, _)) => Ok(b),
        Err(m) => Err(m),
    }
}

/// The program of a whole token sequence.
pub open spec fn program_of(ts: Seq<TokenModel>) -> Result<Seq<StmtModel>, Seq<char>> {
    program_at(ts, 0)
}

/// A recursive-descent parser over a token list, one token of lookahead.
pub struct Parser {
    tokens: Vec<Token>,
    pos: usize,
}

/// The model of the current token, where `None` stands past the end.
pub open spec fn found_model(t: Option<&Token>) -> TokenModel {
    match t {
        Some(t) => t@,
        None => TokenModel::Eof,
    }
}

/// How a token reads in a message.
fn token_text_of(t: Option<&Token>) -> (r: String)
    ensures
        r@ == token_text(found_model(t)),
{
    match t {
        None => String::from_str("Eof"),
        Some(t) => match t {
            Token::Number(n) => {
                let mut m = String::from_str("Number(");
                let digits = render_decimal(*n);
                m.append(digits.as_str());
                m.append(")");
                m
            },
            Token::String(s) => {
                let mut m = String::from_str("String(\"");
                m.append(s.as_str());
                m.append("\")");
                m
            },
            Token::Identifier(s) => {
                let mut m = String::from_str("Identifier(\"");
                m.append(s.as_str());
                m.append("\")");
                m
            },
            Token::Print => String::from_str("Print"),
            Token::Let => String::from_str("Let"),
            Token::If => String::from_str("If"),
            Token::Else => String::from_str("Else"),
            Token::Endif => String::from_str("Endif"),
            Token::Assert => String::from_str("Assert"),
            Token::AssertNe => String::from_str("AssertNe"),
            Token::Plus => String::from_str("Plus"),
            Token::Minus => String::from_str("Minus"),
            Token::Star => String::from_str("Star"),
            Token::Slash => String::from_str("Slash"),
            Token::Equal => String::from_str("Equal"),
            Token::EqualEqual => String::from_str("EqualEqual"),
            Token::LParen => String::from_str("LParen"),
            Token::RParen => String::from_str("RParen"),
            Token::Comma => String::from_str("Comma"),
            Token::Newline => String::from_str("Newline"),
            Token::Eof => String::from_str("Eof"),
        },
    }
}

/// Whether two tokens are of the same kind; exact for tokens without payload.
fn same_kind(a: &Token, b: &Token) -> (r: bool)
    ensures
        !(b@ is Number || b@ is Str || b@ is Ident) ==> r == (a@ == b@),
{
    match (a, b) {
        (Token::Number(_), Token::Number(_)) => true,
        (Token::String(_), Token::String(_)) => true,
        (Token::Identifier(_), Token::Identifier(_)) => true,
        (Token::Print, Token::Print) => true,
        (Token::Let, Token::Let) => true,
        (Token::If, Token::If) => true,
        (Token::Else, Token::Else) => true,
        (Token::Endif, Token::Endif) => true,
        (Token::Assert, Token::Assert) => true,
        (Token::AssertNe, Token::AssertNe) => true,
        (Token::Plus, Token::Plus) => true,
        (Token::Minus, Token::Minus) => true,
        (Token::Star, Token::Star) => true,
        (Token::Slash, Token::Slash) => true,
        (Token::Equal, Token::Equal) => true,
        (Token::EqualEqual, Token::EqualEqual) => true,
        (Token::LParen, Token::LParen) => true,
        (Token::RParen, Token::RParen) => true,
        (Token::Comma, Token::Comma) => true,
        (Token::Newline, Token::Newline) => true,
        (Token::Eof, Token::Eof) => true,
        _ => false,
    }
}

/// A message made of `prefix` and the text of the token found.
fn message_at(prefix: &str, found: Option<&Token>) -> (r: String)
    ensures
        r@ == prefix@ + token_text(found_model(found)),
{
    let mut msg = String::from_str(prefix);
    let text = token_text_of(found);
    msg.append(text.as_str());
    msg
}

/// The message when `expected` was required and `found` came.
fn expected_message(expected: &Token, found: Option<&Token>) -> (r: String)
    ensures
        r@ == expected_but(expected@, found_model(found)),
{
    let mut msg = String::from_str("Expected ");
    let e = token_text_of(Some(expected));
    msg.append(e.as_str());
    msg.append(", got ");
    let f = token_text_of(found);
    msg.append(f.as_str());
    msg
}

impl Parser {
    pub closed spec fn wf(&self) -> bool {
        self.pos <= self.tokens@.len()
    }

    /// The models of the tokens being parsed.
    pub closed spec fn toks(&self) -> Seq<TokenModel> {
        tokens_view(self.tokens@)
    }

    /// The position of the current token.
    pub closed spec fn position(&self) -> int {
        self.pos as int
    }

    /// A parser at the first of `tokens`.
    pub fn new(tokens: Vec<Token>) -> (r: Self)
        ensures
            r.wf(),
            r.toks() == tokens_view(tokens@),
            r.position() == 0,
    {
        Parser { tokens, pos: 0 }
    }

    /// The current token; `None` past the end, where it counts as `Eof`.
    fn current(&self) -> (r: Option<&Token>)
        requires
            self.wf(),
        ensures
            match r {
                Some(t) => self.pos < self.tokens@.len() && *t == self.tokens@[self.pos as int] && t@ == tok(
                    self.toks(),
                    self.pos as int,
                ),
                None => self.pos == self.tokens@.len() && tok(self.toks(), self.pos as int) is Eof,
            },
    {
        if self.pos < self.tokens.len() {
            Some(&self.tokens[self.pos])
        } else {
            None
        }
    }

    fn advance(&mut self)
        requires
            old(self).wf(),
        ensures
            final(self).wf(),
            final(self).tokens == old(self).tokens,
            final(self).pos == if old(self).pos < old(self).tokens@.len() {
                old(self).pos + 1
            } else {
                old(self).pos as int
            },
    {
        if self.pos < self.tokens.len() {
            self.pos += 1;
        }
    }

    fn skip_newlines(&mut self)
        requires
            old(self).wf(),
        ensures
            final(self).wf(),
            final(self).tokens == old(self).tokens,
            final(self).pos == skip_newlines_from(old(self).toks(), old(self).pos as int),
            old(self).pos <= final(self).pos,
    {
        while matches!(self.current(), Some(Token::Newline))
            invariant
                self.wf(),
                self.tokens == old(self).tokens,
                old(self).pos <= self.pos,
                skip_newlines_from(self.toks(), self.pos as int) == skip_newlines_from(
                    old(self).toks(),
                    old(self).pos as int,
                ),
            decreases self.tokens@.len() - self.pos,
        {
            self.advance();
        }
    }

    fn expect(&mut self, expected: Token) -> (r: Result<(), String>)
        requires
            old(self).wf(),
            !(expected@ is Number || expected@ is Str || expected@ is Ident || expected@ is Eof),
        ensures
            final(self).wf(),
            final(self).tokens == old(self).tokens,
            if tok(old(self).toks(), old(self).pos as int) == expected@ {
                r is Ok && final(self).pos == old(self).pos + 1
            } else {
                r is Err && r->Err_0@ == expected_but(expected@, tok(old(self).toks(), old(self).pos as int))
                    && final(self).pos == old(self).pos
            },
    {
        match self.current() {
            Some(t) => {
                if same_kind(t, &expected) {
                    self.advance();
                    return Ok(());
                }
            },
            None => {},
        }
        Err(expected_message(&expected, self.current()))
    }

    fn parse_multiplicative(&mut self) -> (r: Result<Expr, String>)
        requires
            old(self).wf(),
        ensures
            final(self).wf(),
            final(self).tokens == old(self).tokens,
            parsed_as(multiplicative_at(old(self).toks(), old(self).pos as int), r, final(self).pos as int),
            r is Ok ==> old(self).pos < final(self).pos,
        decreases old(self).tokens@.len() - old(self).pos, 3int,
    {
        let ghost first = self.pos as int;
        let mut left = match self.parse_primary() {
            Ok(e) => e,
            Err(m) => return Err(m),
        };
        while matches!(self.current(), Some(Token::Star) | Some(Token::Slash))
            invariant
                self.wf(),
                self.tokens == old(self).tokens,
                first == old(self).pos,
                first < self.pos,
                multiplicative_rest(self.toks(), left@, self.pos as int) == multiplicative_at(self.toks(), first),
            decreases self.tokens@.len() - self.pos,
        {
            let op = if matches!(self.current(), Some(Token::Star)) {
                BinaryOp::Mul
            } else {
                BinaryOp::Div
            };
            self.advance();
            let right = match self.parse_primary() {
                Ok(e) => e,
                Err(m) => return Err(m),
            };
            left = Expr::Binary { left: Box::new(left), op, right: Box::new(right) };
        }
        Ok(left)
    }

    fn parse_additive(&mut self) -> (r: Result<Expr, String>)
        requires
            old(self).wf(),
        ensures
            final(self).wf(),
            final(self).tokens == old(self).tokens,
            parsed_as(additive_at(old(self).toks(), old(self).pos as int), r, final(self).pos as int),
            r is Ok ==> old(self).pos < final(self).pos,
        decreases old(self).tokens@.len() - old(self).pos, 4int,
    {
        let ghost first = self.pos as int;
        let mut left = match self.parse_multiplicative() {
            Ok(e) => e,
            Err(m) => return Err(m),
        };
        while matches!(self.current(), Some(Token::Plus) | Some(Token::Minus))
            invariant
                self.wf(),
                self.tokens == old(self).tokens,
                first == old(self).pos,
                first < self.pos,
                additive_rest(self.toks(), left@, self.pos as int) == additive_at(self.toks(), first),
            decreases self.tokens@.len() - self.pos,
        {
            let op = if matches!(self.current(), Some(Token::Plus)) {
                BinaryOp::Add
            } else {
                BinaryOp::Sub
            };
            self.advance();
            let right = match self.parse_multiplicative() {
                Ok(e) => e,
                Err(m) => return Err(m),
            };
            left = Expr::Binary { left: Box::new(left), op, right: Box::new(right) };
        }
        Ok(left)
    }

    fn parse_equality(&mut self) -> (r: Result<Expr, String>)
        requires
            old(self).wf(),
        ensures
            final(self).wf(),
            final(self).tokens == old(self).tokens,
            parsed_as(equality_at(old(self).toks(), old(self).pos as int), r, final(self).pos as int),
            r is Ok ==> old(self).pos < final(self).pos,
        decreases old(self).tokens@.len() - old(self).pos, 5int,
    {
        let ghost first = self.pos as int;
        let mut left = match self.parse_additive() {
            Ok(e) => e,
            Err(m) => return Err(m),
        };
        while matches!(self.current(), Some(Token::EqualEqual))
            invariant
                self.wf(),
                self.tokens == old(self).tokens,
                first == old(self).pos,
                first < self.pos,
                equality_rest(self.toks(), left@, self.pos as int) == equality_at(self.toks(), first),
            decreases self.tokens@.len() - self.pos,
        {
            let op = BinaryOp::Equal;
            self.advance();
            let right = match self.parse_additive() {
                Ok(e) => e,
                Err(m) => return Err(m),
            };
            left = Expr::Binary { left: Box::new(left), op, right: Box::new(right) };
        }
        Ok(left)
    }

    fn parse_expr(&mut self) -> (r: Result<Expr, String>)
        requires
            old(self).wf(),
        ensures
            final(self).wf(),
            final(self).tokens == old(self).tokens,
            parsed_as(expr_at(old(self).toks(), old(self).pos as int), r, final(self).pos as int),
            r is Ok ==> old(self).pos < final(self).pos,
        decreases old(self).tokens@.len() - old(self).pos, 6int,
    {
        self.parse_equality()
    }

    fn parse_primary(&mut self) -> (r: Result<Expr, String>)
        requires
            old(self).wf(),
        ensures
            final(self).wf(),
            final(self).tokens == old(self).tokens,
            parsed_as(primary_at(old(self).toks(), old(self).pos as int), r, final(self).pos as int),
            r is Ok ==> old(self).pos < final(self).pos,
        decreases old(self).tokens@.len() - old(self).pos, 2int,
    {
        match self.current() {
            Some(Token::Number(n)) => {
                let num = *n;
                self.advance();
                Ok(Expr::Number(num))
            },
            Some(Token::String(s)) => {
                let text = s.clone();
                self.advance();
                Ok(Expr::String(text))
            },
            Some(Token::Identifier(id)) => {
                let name = id.clone();
                self.advance();
                Ok(Expr::Variable(name))
            },
            Some(Token::Minus) => {
                self.advance();
                let e = match self.parse_primary() {
                    Ok(e) => e,
                    Err(m) => return Err(m),
                };
                if let Expr::Number(n) = e {
                    if n != i64::MIN {
                        return Ok(Expr::Number(-n));
                    }
                }
                let ghost inner = e@;
                let zero = Expr::Number(0);
                assert(zero@ == ExprModel::Num(0));
                let r = Expr::Binary { left: Box::new(zero), op: BinaryOp::Sub, right: Box::new(e) };
                assert(r@ == binary(ExprModel::Num(0), BinaryOp::Sub, inner));
                Ok(r)
            },
            Some(Token::LParen) => {
                self.advance();
                let e = match self.parse_expr() {
                    Ok(e) => e,
                    Err(m) => return Err(m),
                };
                match self.expect(Token::RParen) {
                    Ok(()) => Ok(e),
                    Err(m) => Err(m),
                }
            },
            found => Err(message_at("Unexpected token in expression: ", found)),
        }
    }
}

/// Whether a parse result agrees with what the grammar gives: the same tree
/// and end position, or an error exactly where the grammar has none.
pub open spec fn parsed_as(spec: Result<(ExprModel, int), Seq<char>>, r: Result<Expr, String>, end: int) -> bool {
    match spec {
        Ok((e, q)) => r is Ok && r->Ok_0@ == e && end == q,
        Err(m) => r is Err && r->Err_0@ == m,
    }
}

/// Whether a statement parse agrees with the grammar.
pub open spec fn stmt_parsed_as(spec: Result<(StmtModel, int), Seq<char>>, r: Result<Stmt, String>, end: int) -> bool {
    match spec {
        Ok((st, q)) => r is Ok && stmt_view(r->Ok_0) == st && end == q,
        Err(m) => r is Err && r->Err_0@ == m,
    }
}

/// Whether a statement-list parse agrees with the grammar.
pub open spec fn block_parsed_as(spec: Result<(Seq<StmtModel>, int), Seq<char>>, r: Result<Vec<Stmt>, String>, end: int) -> bool {
    match spec {
        Ok((b, q)) => r is Ok && stmts_view(r->Ok_0@) == b && end == q,
        Err(m) => r is Err && r->Err_0@ == m,
    }
}

/// Statements `pre` in front of what a list parse gives.
pub open spec fn prefixed(pre: Seq<StmtModel>, o: Result<(Seq<StmtModel>, int), Seq<char>>) -> Result<
    (Seq<StmtModel>, int),
    Seq<char>,
> {
    match o {
        Ok((b, q)) => Ok((pre + b, q)),
        Err(m) => Err(m),
    }
}

impl Parser {
    /// Parses a whole program from the current token: statements up to the end of input.
    pub fn parse(&mut self) -> (r: Result<Program, String>)
        requires
            old(self).wf(),
        ensures
            final(self).wf(),
            final(self).toks() == old(self).toks(),
            match program_at(old(self).toks(), old(self).position()) {
                Ok(b) => r is Ok && stmts_view(r->Ok_0@) == b,
                Err(m) => r is Err && r->Err_0@ == m,
            },
    {
        self.skip_newlines();
        self.parse_block(BlockEnd::Program)
    }

    fn at_block_end(&self, end: BlockEnd) -> (r: bool)
        requires
            self.wf(),
        ensures
            r == block_stops(tok(self.toks(), self.pos as int), end),
    {
        match self.current() {
            None => true,
            Some(t) => match end {
                BlockEnd::Program => matches!(t, Token::Eof),
                BlockEnd::Then => matches!(t, Token::Eof | Token::Else | Token::Endif),
                BlockEnd::Else => matches!(t, Token::Eof | Token::Endif),
            },
        }
    }

    fn parse_block(&mut self, end: BlockEnd) -> (r: Result<Vec<Stmt>, String>)
        requires
            old(self).wf(),
        ensures
            final(self).wf(),
            final(self).tokens == old(self).tokens,
            block_parsed_as(block_at(old(self).toks(), old(self).pos as int, end), r, final(self).pos as int),
            r is Ok ==> old(self).pos <= final(self).pos,
        decreases old(self).tokens@.len() - old(self).pos, 2int,
    {
        let ghost first = self.pos as int;
        let mut stmts: Vec<Stmt> = Vec::new();
        proof {
            assert(stmts_view(stmts@) =~= Seq::<StmtModel>::empty());
            if let Ok((b, _)) = block_at(self.toks(), first, end) {
                assert(Seq::<StmtModel>::empty() + b =~= b);
            }
        }
        while !self.at_block_end(end)
            invariant
                self.wf(),
                self.tokens == old(self).tokens,
                first == old(self).pos,
                first <= self.pos,
                prefixed(stmts_view(stmts@), block_at(self.toks(), self.pos as int, end)) == block_at(self.toks(), first, end),
            decreases self.tokens@.len() - self.pos,
        {
            let ghost p = self.pos as int;
            let st = match self.parse_stmt() {
                Ok(st) => st,
                Err(m) => return Err(m),
            };
            self.skip_newlines();
            proof {
                lemma_stmts_view_push(stmts@, st);
                let rest = block_at(self.toks(), self.pos as int, end);
                if let Ok((b, _)) = rest {
                    assert(stmts_view(stmts@).push(stmt_view(st)) + b =~= stmts_view(stmts@) + (seq![stmt_view(st)] + b));
                }
            }
            stmts.push(st);
        }
        proof {
            assert(stmts_view(stmts@) + Seq::<StmtModel>::empty() =~= stmts_view(stmts@));
        }
        Ok(stmts)
    }

    fn parse_stmt(&mut self) -> (r: Result<Stmt, String>)
        requires
            old(self).wf(),
        ensures
            final(self).wf(),
            final(self).tokens == old(self).tokens,
            stmt_parsed_as(stmt_at(old(self).toks(), old(self).pos as int), r, final(self).pos as int),
            r is Ok ==> old(self).pos < final(self).pos,
        decreases old(self).tokens@.len() - old(self).pos, 1int,
    {
        match self.current() {
            Some(Token::Print) => self.parse_print(),
            Some(Token::Let) => self.parse_let(),
            Some(Token::If) => self.parse_if(),
            Some(Token::Assert) => self.parse_assert(),
            Some(Token::AssertNe) => self.parse_assert_ne(),
            found => Err(message_at("Unexpected token: ", found)),
        }
    }

    fn parse_print(&mut self) -> (r: Result<Stmt, String>)
        requires
            old(self).wf(),
            tok(old(self).toks(), old(self).pos as int) is Print,
        ensures
            final(self).wf(),
            final(self).tokens == old(self).tokens,
            stmt_parsed_as(stmt_at(old(self).toks(), old(self).pos as int), r, final(self).pos as int),
            r is Ok ==> old(self).pos < final(self).pos,
        decreases old(self).tokens@.len() - old(self).pos, 0int,
    {
        match self.expect(Token::Print) {
            Ok(()) => {},
            Err(m) => return Err(m),
        }
        let expr = match self.parse_expr() {
            Ok(e) => e,
            Err(m) => return Err(m),
        };
        self.skip_newlines();
        Ok(Stmt::Print(expr))
    }

    fn parse_let(&mut self) -> (r: Result<Stmt, String>)
        requires
            old(self).wf(),
            tok(old(self).toks(), old(self).pos as int) is Let,
        ensures
            final(self).wf(),
            final(self).tokens == old(self).tokens,
            stmt_parsed_as(stmt_at(old(self).toks(), old(self).pos as int), r, final(self).pos as int),
            r is Ok ==> old(self).pos < final(self).pos,
        decreases old(self).tokens@.len() - old(self).pos, 0int,
    {
        match self.expect(Token::Let) {
            Ok(()) => {},
            Err(m) => return Err(m),
        }
        let name = match self.current() {
            Some(Token::Identifier(s)) => {
                let name = s.clone();
                self.advance();
                name
            },
            found => return Err(message_at("Expected identifier, got ", found)),
        };
        match self.expect(Token::Equal) {
            Ok(()) => {},
            Err(m) => return Err(m),
        }
        let value = match self.parse_expr() {
            Ok(e) => e,
            Err(m) => return Err(m),
        };
        self.skip_newlines();
        Ok(Stmt::Let { name, value })
    }

    fn parse_if(&mut self) -> (r: Result<Stmt, String>)
        requires
            old(self).wf(),
            tok(old(self).toks(), old(self).pos as int) is If,
        ensures
            final(self).wf(),
            final(self).tokens == old(self).tokens,
            stmt_parsed_as(stmt_at(old(self).toks(), old(self).pos as int), r, final(self).pos as int),
            r is Ok ==> old(self).pos < final(self).pos,
        decreases old(self).tokens@.len() - old(self).pos, 0int,
    {
        match self.expect(Token::If) {
            Ok(()) => {},
            Err(m) => return Err(m),
        }
        let condition = match self.parse_expr() {
            Ok(e) => e,
            Err(m) => return Err(m),
        };
        self.skip_newlines();
        let then_body = match self.parse_block(BlockEnd::Then) {
            Ok(b) => b,
            Err(m) => return Err(m),
        };
        let else_body = if matches!(self.current(), Some(Token::Else)) {
            self.advance();
            self.skip_newlines();
            match self.parse_block(BlockEnd::Else) {
                Ok(b) => Some(b),
                Err(m) => return Err(m),
            }
        } else {
            None
        };
        match self.expect(Token::Endif) {
            Ok(()) => {},
            Err(m) => return Err(m),
        }
        self.skip_newlines();
        Ok(Stmt::If { condition, then_body, else_body })
    }

    fn parse_operands(&mut self) -> (r: Result<(Expr, Expr), String>)
        requires
            old(self).wf(),
        ensures
            final(self).wf(),
            final(self).tokens == old(self).tokens,
            match operands_at(old(self).toks(), old(self).pos as int) {
                Ok((a, b, q)) => r is Ok && r->Ok_0.0@ == a && r->Ok_0.1@ == b && final(self).pos == q,
                Err(m) => r is Err && r->Err_0@ == m,
            },
            r is Ok ==> old(self).pos < final(self).pos,
        decreases old(self).tokens@.len() - old(self).pos, 0int,
    {
        match self.expect(Token::LParen) {
            Ok(()) => {},
            Err(m) => return Err(m),
        }
        let actual = match self.parse_expr() {
            Ok(e) => e,
            Err(m) => return Err(m),
        };
        match self.expect(Token::Comma) {
            Ok(()) => {},
            Err(m) => return Err(m),
        }
        let expected = match self.parse_expr() {
            Ok(e) => e,
            Err(m) => return Err(m),
        };
        match self.expect(Token::RParen) {
            Ok(()) => {},
            Err(m) => return Err(m),
        }
        Ok((actual, expected))
    }

    fn parse_assert(&mut self) -> (r: Result<Stmt, String>)
        requires
            old(self).wf(),
            tok(old(self).toks(), old(self).pos as int) is Assert,
        ensures
            final(self).wf(),
            final(self).tokens == old(self).tokens,
            stmt_parsed_as(stmt_at(old(self).toks(), old(self).pos as int), r, final(self).pos as int),
            r is Ok ==> old(self).pos < final(self).pos,
        decreases old(self).tokens@.len() - old(self).pos, 0int,
    {
        match self.expect(Token::Assert) {
            Ok(()) => {},
            Err(m) => return Err(m),
        }
        let (actual, expected) = match self.parse_operands() {
            Ok(pair) => pair,
            Err(m) => return Err(m),
        };
        self.skip_newlines();
        Ok(Stmt::Assert { actual, expected })
    }

    fn parse_assert_ne(&mut self) -> (r: Result<Stmt, String>)
        requires
            old(self).wf(),
            tok(old(self).toks(), old(self).pos as int) is AssertNe,
        ensures
            final(self).wf(),
            final(self).tokens == old(self).tokens,
            stmt_parsed_as(stmt_at(old(self).toks(), old(self).pos as int), r, final(self).pos as int),
            r is Ok ==> old(self).pos < final(self).pos,
        decreases old(self).tokens@.len() - old(self).pos, 0int,
    {
        match self.expect(Token::AssertNe) {
            Ok(()) => {},
            Err(m) => return Err(m),
        }
        let (actual, expected) = match self.parse_operands() {
            Ok(pair) => pair,
            Err(m) => return Err(m),
        };
        self.skip_newlines();
        Ok(Stmt::AssertNe { actual, expected })
    }
}

} // verus!
