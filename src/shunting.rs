//! Re-treeing a flat infix token stream by operator precedence (shunting-yard).
use vstd::prelude::*;
use crate::ast::{Expr, SExpr, sview, BinaryOperator, UnaryOperator, precedence_spec};

verus! {

/// One token of a flattened infix expression.
#[derive(Debug, PartialEq)]
pub enum ExprToken {
    OpenParen,
    CloseParen,
    Term(Expr),
    UnOp(UnaryOperator),
    BinOp(BinaryOperator),
}

/// A token as the verifier sees it.
pub enum SToken {
    OpenParen,
    CloseParen,
    Term(SExpr),
    UnOp(UnaryOperator),
    BinOp(BinaryOperator),
}

pub open spec fn tview(t: ExprToken) -> SToken {
    match t {
        ExprToken::OpenParen => SToken::OpenParen,
        ExprToken::CloseParen => SToken::CloseParen,
        ExprToken::Term(e) => SToken::Term(sview(e)),
        ExprToken::UnOp(u) => SToken::UnOp(u),
        ExprToken::BinOp(b) => SToken::BinOp(b),
    }
}

pub open spec fn tviews(ts: Seq<ExprToken>) -> Seq<SToken> {
    ts.map_values(|t: ExprToken| tview(t))
}

pub open spec fn sviews(es: Seq<Expr>) -> Seq<SExpr> {
    es.map_values(|e: Expr| sview(e))
}

/// The expression stack and the operator stack of the machine.
pub type YardState = (Seq<SExpr>, Seq<SToken>);

/// Completing `op`: a binary operator takes the two topmost expressions (right
/// on top), a unary one the topmost; `None` when they are missing or `op` is a
/// parenthesis.
pub open spec fn complete_spec(op: SToken, es: Seq<SExpr>) -> Option<Seq<SExpr>> {
    match op {
        SToken::BinOp(b) => if es.len() >= 2 {
            Some(es.subrange(0, es.len() - 2).push(SExpr::BinOp(
                Box::new(es[es.len() - 2]),
                Box::new(es[es.len() - 1]),
                b,
            )))
        } else {
            None
        },
        SToken::UnOp(u) => if es.len() >= 1 {
            Some(es.drop_last().push(SExpr::UnOp(Box::new(es.last()), u)))
        } else {
            None
        },
        _ => None,
    }
}

/// A closing parenthesis: complete operators down to the nearest open
/// parenthesis, then drop that parenthesis (if any).
pub open spec fn close_spec(es: Seq<SExpr>, ops: Seq<SToken>) -> Option<YardState>
    decreases ops.len(),
{
    if ops.len() == 0 {
        Some((es, ops))
    } else if ops.last() is OpenParen {
        Some((es, ops.drop_last()))
    } else {
        match complete_spec(ops.last(), es) {
            Some(es2) => close_spec(es2, ops.drop_last()),
            None => None,
        }
    }
}

/// True when the operator on top must be completed before pushing `b`: it is
/// unary, or binary and binds at least as tightly (left associativity).
pub open spec fn yields_to(top: SToken, b: BinaryOperator) -> bool {
    match top {
        SToken::BinOp(t) => precedence_spec(t) >= precedence_spec(b),
        SToken::UnOp(_) => true,
        _ => false,
    }
}

/// A binary operator: complete what yields to it, then push it.
pub open spec fn push_binop_spec(es: Seq<SExpr>, ops: Seq<SToken>, b: BinaryOperator) -> Option<YardState>
    decreases ops.len(),
{
    if ops.len() > 0 && yields_to(ops.last(), b) {
        match complete_spec(ops.last(), es) {
            Some(es2) => push_binop_spec(es2, ops.drop_last(), b),
            None => None,
        }
    } else {
        Some((es, ops.push(SToken::BinOp(b))))
    }
}

/// One token applied to the machine.
pub open spec fn step_spec(st: YardState, tok: SToken) -> Option<YardState> {
    match tok {
        SToken::OpenParen => Some((st.0, st.1.push(SToken::OpenParen))),
        SToken::CloseParen => close_spec(st.0, st.1),
        SToken::Term(e) => Some((st.0.push(e), st.1)),
        SToken::UnOp(u) => Some((st.0, st.1.push(SToken::UnOp(u)))),
        SToken::BinOp(b) => push_binop_spec(st.0, st.1, b),
    }
}

/// The machine after all of `toks`, from empty stacks.
pub open spec fn run_spec(toks: Seq<SToken>) -> Option<YardState>
    decreases toks.len(),
{
    if toks.len() == 0 {
        Some((Seq::empty(), Seq::empty()))
    } else {
        match run_spec(toks.drop_last()) {
            Some(st) => step_spec(st, toks.last()),
            None => None,
        }
    }
}

/// At input end: complete every operator left on the stack.
pub open spec fn drain_spec(es: Seq<SExpr>, ops: Seq<SToken>) -> Option<Seq<SExpr>>
    decreases ops.len(),
{
    if ops.len() == 0 {
        Some(es)
    } else {
        match complete_spec(ops.last(), es) {
            Some(es2) => drain_spec(es2, ops.drop_last()),
            None => None,
        }
    }
}

/// The expression that the machine leaves on top after draining; `None` when
/// the tokens do not form an expression.
pub open spec fn shunting_yard_spec(toks: Seq<SToken>) -> Option<SExpr> {
    match run_spec(toks) {
        Some(st) => match drain_spec(st.0, st.1) {
            Some(es) => if es.len() > 0 { Some(es.last()) } else { None },
            None => None,
        },
        None => None,
    }
}

fn complete_expr(op: ExprToken, expr_stack: &mut Vec<Expr>) -> (ok: bool)
    ensures
        ok == complete_spec(tview(op), sviews(old(expr_stack)@)) is Some,
        ok ==> sviews(final(expr_stack)@) == complete_spec(tview(op), sviews(old(expr_stack)@))->0,
{
    let ghost es = sviews(expr_stack@);
    match op {
        ExprToken::BinOp(b) => {
            if expr_stack.len() < 2 {
                return false;
            }
            let rhs = expr_stack.pop().unwrap();
            let lhs = expr_stack.pop().unwrap();
            expr_stack.push(Expr::BinOp { left: Box::new(lhs), right: Box::new(rhs), op: b });
            assert(sviews(expr_stack@) =~= es.subrange(0, es.len() - 2).push(SExpr::BinOp(
                Box::new(es[es.len() - 2]),
                Box::new(es[es.len() - 1]),
                b,
            )));
            true
        },
        ExprToken::UnOp(u) => {
            if expr_stack.len() < 1 {
                return false;
            }
            let e = expr_stack.pop().unwrap();
            expr_stack.push(Expr::UnOp { expr: Box::new(e), op: u });
            assert(sviews(expr_stack@) =~= es.drop_last().push(SExpr::UnOp(Box::new(es.last()), u)));
            true
        },
        _ => false,
    }
}

fn top_is_open(op_stack: &Vec<ExprToken>) -> (r: bool)
    requires
        op_stack@.len() > 0,
    ensures
        r == (tviews(op_stack@).last() is OpenParen),
{
    match &op_stack[op_stack.len() - 1] {
        ExprToken::OpenParen => true,
        _ => false,
    }
}

fn top_yields(op_stack: &Vec<ExprToken>, b: BinaryOperator) -> (r: bool)
    ensures
        r == (tviews(op_stack@).len() > 0 && yields_to(tviews(op_stack@).last(), b)),
{
    if op_stack.len() == 0 {
        return false;
    }
    match &op_stack[op_stack.len() - 1] {
        ExprToken::BinOp(t) => t.precedence() >= b.precedence(),
        ExprToken::UnOp(_) => true,
        _ => false,
    }
}

proof fn lemma_pop_views(ops: Seq<ExprToken>)
    requires
        ops.len() > 0,
    ensures
        tviews(ops.drop_last()) == tviews(ops).drop_last(),
        tview(ops.last()) == tviews(ops).last(),
{
    assert(tviews(ops.drop_last()) =~= tviews(ops).drop_last());
}

fn close_paren(expr_stack: &mut Vec<Expr>, op_stack: &mut Vec<ExprToken>) -> (ok: bool)
    ensures
        ok == close_spec(sviews(old(expr_stack)@), tviews(old(op_stack)@)) is Some,
        ok ==> (sviews(final(expr_stack)@), tviews(final(op_stack)@))
            == close_spec(sviews(old(expr_stack)@), tviews(old(op_stack)@))->0,
{
    loop
        invariant
            close_spec(sviews(expr_stack@), tviews(op_stack@))
                == close_spec(sviews(old(expr_stack)@), tviews(old(op_stack)@)),
        decreases op_stack@.len(),
    {
        if op_stack.len() == 0 {
            return true;
        }
        proof { lemma_pop_views(op_stack@); }
        if top_is_open(op_stack) {
            op_stack.pop();
            return true;
        }
        let op = op_stack.pop().unwrap();
        if !complete_expr(op, expr_stack) {
            return false;
        }
    }
}

fn push_binop(expr_stack: &mut Vec<Expr>, op_stack: &mut Vec<ExprToken>, b: BinaryOperator) -> (ok: bool)
    ensures
        ok == push_binop_spec(sviews(old(expr_stack)@), tviews(old(op_stack)@), b) is Some,
        ok ==> (sviews(final(expr_stack)@), tviews(final(op_stack)@))
            == push_binop_spec(sviews(old(expr_stack)@), tviews(old(op_stack)@), b)->0,
{
    while top_yields(op_stack, b)
        invariant
            push_binop_spec(sviews(expr_stack@), tviews(op_stack@), b)
                == push_binop_spec(sviews(old(expr_stack)@), tviews(old(op_stack)@), b),
        decreases op_stack@.len(),
    {
        proof { lemma_pop_views(op_stack@); }
        let op = op_stack.pop().unwrap();
        if !complete_expr(op, expr_stack) {
            return false;
        }
    }
    let ghost ops = op_stack@;
    op_stack.push(ExprToken::BinOp(b));
    assert(tviews(op_stack@) =~= tviews(ops).push(SToken::BinOp(b)));
    true
}

/// Turns a flat token stream into a single expression by precedence, binary
/// operators of equal precedence associating to the left. `None` when the
/// tokens do not form an expression (an operand is missing or a parenthesis
/// is left open).
pub fn shunting_yard(tokens: Vec<ExprToken>) -> (r: Option<Expr>)
    ensures
        r is Some <==> shunting_yard_spec(tviews(tokens@)) is Some,
        r matches Some(x) ==> sview(x) == shunting_yard_spec(tviews(tokens@))->0,
{
    let ghost toks = tviews(tokens@);
    // reverse the tokens so that popping yields them in order
    let mut rest = tokens;
    let mut pending: Vec<ExprToken> = Vec::new();
    while rest.len() > 0
        invariant
            tviews(rest@) + tviews(pending@).reverse() == toks,
            toks == tviews(tokens@),
        decreases rest@.len(),
    {
        let ghost before = pending@;
        let ghost rest0 = rest@;
        let t = rest.pop().unwrap();
        pending.push(t);
        assert(tviews(pending@).reverse() =~= seq![tview(t)] + tviews(before).reverse());
        assert(tviews(rest0) =~= tviews(rest@).push(tview(t)));
        assert(tviews(rest@) + tviews(pending@).reverse() =~= toks);
    }
    assert(tviews(pending@).reverse() =~= toks);

    let mut expr_stack: Vec<Expr> = Vec::new();
    let mut op_stack: Vec<ExprToken> = Vec::new();
    let ghost mut done: int = 0;
    assert(sviews(expr_stack@) =~= Seq::<SExpr>::empty());
    assert(tviews(op_stack@) =~= Seq::<SToken>::empty());
    assert(toks.subrange(0, 0) =~= Seq::<SToken>::empty());
    while pending.len() > 0
        invariant
            0 <= done <= toks.len(),
            toks == tviews(tokens@),
            pending@.len() == toks.len() - done,
            tviews(pending@).reverse() == toks.subrange(done, toks.len() as int),
            run_spec(toks.subrange(0, done)) == Some((sviews(expr_stack@), tviews(op_stack@))),
        decreases pending@.len(),
    {
        let ghost pend = pending@;
        let ghost es0 = expr_stack@;
        let ghost ops0 = op_stack@;
        let token = pending.pop().unwrap();
        proof {
            let pv = tviews(pend);
            assert(pv.reverse()[0] == tview(token));
            assert(toks.subrange(0, done + 1).drop_last() =~= toks.subrange(0, done));
            assert(toks.subrange(0, done + 1).last() == tview(token));
            assert(run_spec(toks.subrange(0, done + 1)) == step_spec((sviews(es0), tviews(ops0)), tview(token)));
            assert(tviews(pending@) =~= pv.drop_last());
            assert forall|j: int| 0 <= j < pending@.len() implies tviews(pending@).reverse()[j] == pv.reverse()[j + 1] by {}
            assert(tviews(pending@).reverse() =~= toks.subrange(done + 1, toks.len() as int));
            done = done + 1;
        }
        match token {
            ExprToken::OpenParen => {
                op_stack.push(ExprToken::OpenParen);
                assert(tviews(op_stack@) =~= tviews(ops0).push(SToken::OpenParen));
            },
            ExprToken::CloseParen => {
                if !close_paren(&mut expr_stack, &mut op_stack) {
                    proof { lemma_run_none_prefix(toks, done); }
                    return None;
                }
            },
            ExprToken::Term(expr) => {
                expr_stack.push(expr);
                assert(sviews(expr_stack@) =~= sviews(es0).push(sview(expr)));
            },
            ExprToken::UnOp(u) => {
                op_stack.push(ExprToken::UnOp(u));
                assert(tviews(op_stack@) =~= tviews(ops0).push(SToken::UnOp(u)));
            },
            ExprToken::BinOp(b) => {
                if !push_binop(&mut expr_stack, &mut op_stack, b) {
                    proof { lemma_run_none_prefix(toks, done); }
                    return None;
                }
            },
        }
    }
    assert(toks.subrange(0, done) =~= toks);
    let ghost final_es = sviews(expr_stack@);
    let ghost final_ops = tviews(op_stack@);
    while op_stack.len() > 0
        invariant
            drain_spec(sviews(expr_stack@), tviews(op_stack@)) == drain_spec(final_es, final_ops),
            run_spec(toks) == Some((final_es, final_ops)),
            toks == tviews(tokens@),
        decreases op_stack@.len(),
    {
        let ghost es0 = sviews(expr_stack@);
        let ghost ops0 = tviews(op_stack@);
        proof { lemma_pop_views(op_stack@); }
        let op = op_stack.pop().unwrap();
        if !complete_expr(op, &mut expr_stack) {
            assert(drain_spec(es0, ops0) is None);
            return None;
        }
    }
    assert(tviews(op_stack@) =~= Seq::<SToken>::empty());
    let ghost es = expr_stack@;
    let r = expr_stack.pop();
    proof {
        if es.len() > 0 {
            assert(sviews(es).last() == sview(es.last()));
        }
    }
    r
}

/// Once a prefix of the tokens fails, the whole stream fails.
proof fn lemma_run_none_prefix(toks: Seq<SToken>, k: int)
    requires
        0 <= k <= toks.len(),
        run_spec(toks.subrange(0, k)) is None,
    ensures
        run_spec(toks) is None,
    decreases toks.len() - k,
{
    if k < toks.len() {
        assert(toks.subrange(0, k + 1).drop_last() =~= toks.subrange(0, k));
        lemma_run_none_prefix(toks, k + 1);
    } else {
        assert(toks.subrange(0, k) =~= toks);
    }
}

/// `toks` alternates terms and binary operators, starting and ending with a
/// term.
pub open spec fn alternating(toks: Seq<SToken>) -> bool {
    &&& toks.len() % 2 == 1
    &&& forall|i: int| 0 <= i < toks.len() ==> (if i % 2 == 0 { #[trigger] toks[i] is Term } else { toks[i] is BinOp })
}

pub open spec fn all_binops(ops: Seq<SToken>) -> bool {
    forall|i: int| 0 <= i < ops.len() ==> #[trigger] ops[i] is BinOp
}

proof fn lemma_binop_ok(es: Seq<SExpr>, ops: Seq<SToken>, b: BinaryOperator)
    requires
        es.len() == ops.len() + 1,
        all_binops(ops),
    ensures
        push_binop_spec(es, ops, b) matches Some((es2, ops2)) && es2.len() == ops2.len() && all_binops(ops2),
    decreases ops.len(),
{
    if ops.len() > 0 && yields_to(ops.last(), b) {
        assert(ops.last() is BinOp);
        let es2 = complete_spec(ops.last(), es)->0;
        lemma_binop_ok(es2, ops.drop_last(), b);
    } else {
        let ops2 = ops.push(SToken::BinOp(b));
        assert forall|i: int| 0 <= i < ops2.len() implies #[trigger] ops2[i] is BinOp by {
            if i < ops.len() {
                assert(ops[i] is BinOp);
            }
        }
    }
}

proof fn lemma_drain_ok(es: Seq<SExpr>, ops: Seq<SToken>)
    requires
        es.len() == ops.len() + 1,
        all_binops(ops),
    ensures
        drain_spec(es, ops) matches Some(es2) && es2.len() == 1,
    decreases ops.len(),
{
    if ops.len() > 0 {
        assert(ops.last() is BinOp);
        let es2 = complete_spec(ops.last(), es)->0;
        lemma_drain_ok(es2, ops.drop_last());
    }
}

proof fn lemma_run_alternating(toks: Seq<SToken>, n: int)
    requires
        alternating(toks),
        0 <= n <= toks.len(),
    ensures
        run_spec(toks.subrange(0, n)) matches Some((es, ops)) && all_binops(ops)
            && es.len() == ops.len() + (if n % 2 == 1 { 1int } else { 0int }),
    decreases n,
{
    if n == 0 {
        assert(toks.subrange(0, 0) =~= Seq::<SToken>::empty());
    } else {
        lemma_run_alternating(toks, n - 1);
        let pre = toks.subrange(0, n);
        assert(pre.drop_last() =~= toks.subrange(0, n - 1));
        assert(pre.last() == toks[n - 1]);
        let (es, ops) = run_spec(toks.subrange(0, n - 1))->0;
        if (n - 1) % 2 == 0 {
            assert(toks[n - 1] is Term);
        } else {
            assert(toks[n - 1] is BinOp);
            lemma_binop_ok(es, ops, toks[n - 1]->BinOp_0);
        }
    }
}

/// The machine turns every alternating stream into an expression.
pub proof fn lemma_alternating_ok(toks: Seq<SToken>)
    requires
        alternating(toks),
    ensures
        shunting_yard_spec(toks) is Some,
{
    lemma_run_alternating(toks, toks.len() as int);
    assert(toks.subrange(0, toks.len() as int) =~= toks);
    let (es, ops) = run_spec(toks)->0;
    lemma_drain_ok(es, ops);
}

} // verus!
