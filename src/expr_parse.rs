//! The expression front end: terms (parenthesised expressions, `NOT term`,
//! literals, qualified and plain identifiers) separated by binary operators,
//! re-treed by precedence with the shunting-yard machine.
use vstd::prelude::*;
use crate::Error;
use crate::ast::{Expr, SExpr, sview, Identifier, BinaryOperator, UnaryOperator};
use crate::shunting::{ExprToken, SToken, tview, tviews, shunting_yard, shunting_yard_spec, alternating, lemma_alternating_ok};
use crate::scan::{
    skip_ws, kw_at, char_at, ident_spec, ident_run, uint_spec, digits_value, is_digit, digit_run, chars_of, string_of_range,
    skip_ws_at, ident_run_at, digit_run_at, char_at_exec, is_alpha_at, is_digit_at, kw_at_exec, uint_at,
    lemma_skip_ws, lemma_uint_end,
};
use crate::value_type::ValueType;
use crate::text::{push_decimal, string_of, decimal};
use vstd::string::StringExecFns;

verus! {

pub open spec fn kw_not() -> Seq<char> { seq!['n', 'o', 't'] }
pub open spec fn kw_null() -> Seq<char> { seq!['n', 'u', 'l', 'l'] }
pub open spec fn kw_true() -> Seq<char> { seq!['t', 'r', 'u', 'e'] }
pub open spec fn kw_false() -> Seq<char> { seq!['f', 'a', 'l', 's', 'e'] }
pub open spec fn kw_and() -> Seq<char> { seq!['a', 'n', 'd'] }
pub open spec fn kw_or() -> Seq<char> { seq!['o', 'r'] }

/// The first `"` at or after `i`, or the end of the text.
pub open spec fn quote_run(s: Seq<char>, i: int) -> int
    decreases s.len() - i,
{
    if 0 <= i < s.len() && s[i] != '"' { quote_run(s, i + 1) } else { i }
}

/// A binary operator at `p`: `and`, `or` (any case), `*`, `/`, `+`, `-`,
/// `=`, `!=`, `<=`, `>=`, `<`, `>`, tried in that order.
pub open spec fn binop_spec(s: Seq<char>, p: int) -> Option<(BinaryOperator, int)> {
    if kw_at(s, p, kw_and()) { Some((BinaryOperator::OpAnd, p + 3)) }
    else if kw_at(s, p, kw_or()) { Some((BinaryOperator::OpOr, p + 2)) }
    else if char_at(s, p, '*') { Some((BinaryOperator::OpMul, p + 1)) }
    else if char_at(s, p, '/') { Some((BinaryOperator::OpDiv, p + 1)) }
    else if char_at(s, p, '+') { Some((BinaryOperator::OpAdd, p + 1)) }
    else if char_at(s, p, '-') { Some((BinaryOperator::OpSub, p + 1)) }
    else if char_at(s, p, '=') { Some((BinaryOperator::OpEq, p + 1)) }
    else if char_at(s, p, '!') && char_at(s, p + 1, '=') { Some((BinaryOperator::OpNeq, p + 2)) }
    else if char_at(s, p, '<') && char_at(s, p + 1, '=') { Some((BinaryOperator::OpLte, p + 2)) }
    else if char_at(s, p, '>') && char_at(s, p + 1, '=') { Some((BinaryOperator::OpGte, p + 2)) }
    else if char_at(s, p, '<') { Some((BinaryOperator::OpLt, p + 1)) }
    else if char_at(s, p, '>') { Some((BinaryOperator::OpGt, p + 1)) }
    else { None }
}

/// The text of an integer literal: its decimal value, with `-` when negative.
pub open spec fn int_text(negative: bool, v: nat) -> Seq<char> {
    if negative && v != 0 { "-"@ + decimal(v) } else { decimal(v) }
}

/// A literal or identifier at `p`, tried in order: `NULL`, `TRUE`, `FALSE`
/// (any case), a float `digits.digits` (kept as written), an integer
/// `[-]digits` within `i64`, a double-quoted string, `qualifier.name`,
/// `name`. The tree and where it ends.
pub open spec fn leaf_spec(s: Seq<char>, p: int) -> Option<(SExpr, int)> {
    let q = if char_at(s, p, '-') { p + 1 } else { p };
    let ie = ident_run(s, p + 1);
    let dr = digit_run(s, p);
    if kw_at(s, p, kw_null()) {
        Some((SExpr::Literal(ValueType::Unknown, "null"@), p + 4))
    } else if kw_at(s, p, kw_true()) {
        Some((SExpr::Literal(ValueType::Bool, "true"@), p + 4))
    } else if kw_at(s, p, kw_false()) {
        Some((SExpr::Literal(ValueType::Bool, "false"@), p + 5))
    } else if 0 <= p < s.len() && is_digit(s[p]) && char_at(s, dr, '.') && 0 <= dr + 1 < s.len()
        && is_digit(s[dr + 1]) {
        Some((SExpr::Literal(ValueType::Float, s.subrange(p, digit_run(s, dr + 1))), digit_run(s, dr + 1)))
    } else if uint_spec(s, q) matches Some((v, e)) && v <= i64::MAX {
        Some((SExpr::Literal(ValueType::Int, int_text(q > p, digits_value(s.subrange(q, digit_run(s, q))))),
            digit_run(s, q)))
    } else if char_at(s, p, '"') && quote_run(s, p + 1) < s.len() {
        Some((SExpr::Literal(ValueType::Str(0), s.subrange(p + 1, quote_run(s, p + 1))), quote_run(s, p + 1) + 1))
    } else if ident_spec(s, p) is Some && char_at(s, ie, '.') && ident_spec(s, ie + 1) is Some {
        Some((SExpr::Id(s.subrange(ie + 1, ident_run(s, ie + 2)), Some(s.subrange(p, ie))), ident_run(s, ie + 2)))
    } else if ident_spec(s, p) is Some {
        Some((SExpr::Id(s.subrange(p, ie), None), ie))
    } else {
        None
    }
}

/// A term at `i`: `( expr )`, `NOT term`, or a literal or identifier.
pub open spec fn term_spec(s: Seq<char>, i: int) -> Option<(SExpr, int)>
    decreases s.len() - i, 0int,
{
    let p = skip_ws(s, i);
    if p < i {
        None
    } else if char_at(s, p, '(') {
        match expr_spec(s, p + 1) {
            Some((x, e)) => if char_at(s, skip_ws(s, e), ')') { Some((x, skip_ws(s, e) + 1)) } else { None },
            None => None,
        }
    } else if kw_at(s, p, kw_not()) {
        match term_spec(s, p + 3) {
            Some((x, e)) => Some((SExpr::UnOp(Box::new(x), UnaryOperator::OpNot), e)),
            None => leaf_spec(s, p),
        }
    } else {
        leaf_spec(s, p)
    }
}

/// An expression at `i`: a term, then as many `operator term` pairs as
/// follow, re-treed by the shunting-yard machine. The tree and where it ends.
pub open spec fn expr_spec(s: Seq<char>, i: int) -> Option<(SExpr, int)>
    decreases s.len() - i, 1int,
{
    match term_spec(s, i) {
        Some((x, e)) => if i < e <= s.len() {
            match expr_rest(s, e, seq![SToken::Term(x)]) {
                Some((toks, e2)) => match shunting_yard_spec(toks) {
                    Some(tree) => Some((tree, e2)),
                    None => None,
                },
                None => None,
            }
        } else {
            None
        },
        None => None,
    }
}

/// After the tokens `toks`, the last term ending at `e`: further `operator
/// term` pairs; stops before an operator that no term follows. The whole
/// token stream and where it ends.
pub open spec fn expr_rest(s: Seq<char>, e: int, toks: Seq<SToken>) -> Option<(Seq<SToken>, int)>
    decreases s.len() - e, 2int,
{
    match binop_spec(s, skip_ws(s, e)) {
        Some((op, q)) => if e < q <= s.len() {
            match term_spec(s, q) {
                Some((x, e2)) => if e < e2 <= s.len() {
                    expr_rest(s, e2, toks.push(SToken::BinOp(op)).push(SToken::Term(x)))
                } else {
                    Some((toks, e))
                },
                None => Some((toks, e)),
            }
        } else {
            Some((toks, e))
        },
        None => Some((toks, e)),
    }
}

/// The expression that the whole text is, with nothing but whitespace after it.
pub open spec fn expr_text(s: Seq<char>) -> Option<SExpr> {
    match expr_spec(s, 0) {
        Some((x, e)) => if skip_ws(s, e) == s.len() { Some(x) } else { None },
        None => None,
    }
}

fn binop_at(s: &Vec<char>, p: usize) -> (r: Option<(BinaryOperator, usize)>)
    requires
        p <= s@.len(),
    ensures
        match binop_spec(s@, p as int) {
            Some((op, q)) => r matches Some((op2, q2)) && op2 == op && q2 == q,
            None => r is None,
        },
        r matches Some((op, q)) ==> p < q <= s@.len(),
{
    let len = s.len();
    let k_and = ['a', 'n', 'd'];
    let k_or = ['o', 'r'];
    assert(k_and@ =~= kw_and());
    assert(k_or@ =~= kw_or());
    if kw_at_exec(s, p, &k_and) {
        Some((BinaryOperator::OpAnd, p + 3))
    } else if kw_at_exec(s, p, &k_or) {
        Some((BinaryOperator::OpOr, p + 2))
    } else if char_at_exec(s, p, '*') {
        Some((BinaryOperator::OpMul, p + 1))
    } else if char_at_exec(s, p, '/') {
        Some((BinaryOperator::OpDiv, p + 1))
    } else if char_at_exec(s, p, '+') {
        Some((BinaryOperator::OpAdd, p + 1))
    } else if char_at_exec(s, p, '-') {
        Some((BinaryOperator::OpSub, p + 1))
    } else if char_at_exec(s, p, '=') {
        Some((BinaryOperator::OpEq, p + 1))
    } else if char_at_exec(s, p, '!') && char_at_exec(s, p + 1, '=') {
        Some((BinaryOperator::OpNeq, p + 2))
    } else if char_at_exec(s, p, '<') && char_at_exec(s, p + 1, '=') {
        Some((BinaryOperator::OpLte, p + 2))
    } else if char_at_exec(s, p, '>') && char_at_exec(s, p + 1, '=') {
        Some((BinaryOperator::OpGte, p + 2))
    } else if char_at_exec(s, p, '<') {
        Some((BinaryOperator::OpLt, p + 1))
    } else if char_at_exec(s, p, '>') {
        Some((BinaryOperator::OpGt, p + 1))
    } else {
        None
    }
}

fn literal(value_type: ValueType, value: String) -> (r: Expr)
    ensures
        sview(r) == SExpr::Literal(value_type, value@),
{
    Expr::Literal { value_type, value }
}

fn quote_run_at(s: &Vec<char>, i: usize) -> (r: usize)
    requires
        i <= s@.len(),
    ensures
        r == quote_run(s@, i as int),
        i <= r <= s@.len(),
{
    let mut j = i;
    while j < s.len() && s[j] != '"'
        invariant
            i <= j <= s@.len(),
            quote_run(s@, j as int) == quote_run(s@, i as int),
        decreases s@.len() - j,
    {
        j += 1;
    }
    j
}

/// A literal or identifier at `p` (see `leaf_spec`).
fn leaf_at(s: &Vec<char>, p: usize) -> (r: Option<(Expr, usize)>)
    requires
        p <= s@.len(),
    ensures
        match leaf_spec(s@, p as int) {
            Some((x, e)) => r matches Some((y, e2)) && sview(y) == x && e2 == e,
            None => r is None,
        },
        r matches Some((x, e)) ==> p < e <= s@.len(),
{
    let len = s.len();
    let k_null = ['n', 'u', 'l', 'l'];
    let k_true = ['t', 'r', 'u', 'e'];
    let k_false = ['f', 'a', 'l', 's', 'e'];
    assert(k_null@ =~= kw_null());
    assert(k_true@ =~= kw_true());
    assert(k_false@ =~= kw_false());
    proof {
        reveal_strlit("null");
        reveal_strlit("true");
        reveal_strlit("false");
        reveal_strlit("-");
    }
    let q = if char_at_exec(s, p, '-') { p + 1 } else { p };
    if kw_at_exec(s, p, &k_null) {
        return Some((literal(ValueType::Unknown, string_of("null")), p + 4));
    }
    if kw_at_exec(s, p, &k_true) {
        return Some((literal(ValueType::Bool, string_of("true")), p + 4));
    }
    if kw_at_exec(s, p, &k_false) {
        return Some((literal(ValueType::Bool, string_of("false")), p + 5));
    }
    if is_digit_at(s, p) {
        let d = digit_run_at(s, p);
        if char_at_exec(s, d, '.') && is_digit_at(s, d + 1) {
            let e = digit_run_at(s, d + 1);
            proof { crate::scan::lemma_digit_run_digits(s@, p as int); }
            return Some((literal(ValueType::Float, string_of_range(s, p, e)), e));
        }
    }
    match uint_at(s, q) {
        Some((v, e)) => {
            proof { lemma_uint_end(s@, q as int); }
            if v <= 0x7fff_ffff_ffff_ffff {
                let mut text = String::new();
                if q > p && v != 0 {
                    text.append("-");
                }
                push_decimal(&mut text, v);
                assert(text@ =~= int_text(q > p, v as nat));
                return Some((literal(ValueType::Int, text), e));
            }
        },
        None => {},
    }
    if char_at_exec(s, p, '"') {
        let c = quote_run_at(s, p + 1);
        if c < s.len() {
            return Some((literal(ValueType::Str(0), string_of_range(s, p + 1, c)), c + 1));
        }
    }
    if is_alpha_at(s, p) {
        let ie = ident_run_at(s, p + 1);
        if char_at_exec(s, ie, '.') && is_alpha_at(s, ie + 1) {
            let e = ident_run_at(s, ie + 2);
            let name = string_of_range(s, ie + 1, e);
            let qualifier = string_of_range(s, p, ie);
            return Some((Expr::Id(Identifier { name, qualifier: Some(qualifier) }), e));
        }
        let name = string_of_range(s, p, ie);
        return Some((Expr::Id(Identifier { name, qualifier: None }), ie));
    }
    None
}

/// A term at `i` (see `term_spec`).
fn term_at(s: &Vec<char>, i: usize) -> (r: Option<(Expr, usize)>)
    requires
        i <= s@.len(),
    ensures
        match term_spec(s@, i as int) {
            Some((x, e)) => r matches Some((y, e2)) && sview(y) == x && e2 == e,
            None => r is None,
        },
        r matches Some((x, e)) ==> i < e <= s@.len(),
    decreases s@.len() - i, 0int,
{
    let len = s.len();
    let p = skip_ws_at(s, i);
    proof { lemma_skip_ws(s@, i as int); }
    let k_not = ['n', 'o', 't'];
    assert(k_not@ =~= kw_not());
    if char_at_exec(s, p, '(') {
        match expr_at(s, p + 1) {
            Some((x, e)) => {
                let c = skip_ws_at(s, e);
                proof { lemma_skip_ws(s@, e as int); }
                if char_at_exec(s, c, ')') {
                    Some((x, c + 1))
                } else {
                    None
                }
            },
            None => None,
        }
    } else if kw_at_exec(s, p, &k_not) {
        match term_at(s, p + 3) {
            Some((x, e)) => Some((Expr::UnOp { expr: Box::new(x), op: UnaryOperator::OpNot }, e)),
            None => leaf_at(s, p),
        }
    } else {
        leaf_at(s, p)
    }
}

/// An expression at `i` (see `expr_spec`), re-treed by precedence.
fn expr_at(s: &Vec<char>, i: usize) -> (r: Option<(Expr, usize)>)
    requires
        i <= s@.len(),
    ensures
        match expr_spec(s@, i as int) {
            Some((x, e)) => r matches Some((y, e2)) && sview(y) == x && e2 == e,
            None => r is None,
        },
        r matches Some((x, e)) ==> i < e <= s@.len(),
    decreases s@.len() - i, 1int,
{
    let len = s.len();
    let (first, e) = match term_at(s, i) {
        Some(t) => t,
        None => return None,
    };
    let ghost x0 = sview(first);
    let mut tokens: Vec<ExprToken> = Vec::new();
    tokens.push(ExprToken::Term(first));
    let mut end = e;
    assert(tviews(tokens@) =~= seq![SToken::Term(x0)]);
    assert(alternating(tviews(tokens@))) by {
        assert(tviews(tokens@).len() == 1);
    }
    loop
        invariant
            i < end <= s@.len(),
            len == s@.len(),
            term_spec(s@, i as int) == Some((x0, e as int)),
            i < e <= s@.len(),
            expr_rest(s@, end as int, tviews(tokens@)) == expr_rest(s@, e as int, seq![SToken::Term(x0)]),
            alternating(tviews(tokens@)),
        ensures
            i < end <= s@.len(),
            term_spec(s@, i as int) == Some((x0, e as int)),
            i < e <= s@.len(),
            expr_rest(s@, end as int, tviews(tokens@)) == Some((tviews(tokens@), end as int)),
            expr_rest(s@, end as int, tviews(tokens@)) == expr_rest(s@, e as int, seq![SToken::Term(x0)]),
            alternating(tviews(tokens@)),
        decreases s@.len() - end,
    {
        let p = skip_ws_at(s, end);
        proof { lemma_skip_ws(s@, end as int); }
        match binop_at(s, p) {
            Some((op, q)) => match term_at(s, q) {
                Some((x, e2)) => {
                    let ghost before = tviews(tokens@);
                    tokens.push(ExprToken::BinOp(op));
                    tokens.push(ExprToken::Term(x));
                    let ghost after = tviews(tokens@);
                    assert(after =~= before.push(SToken::BinOp(op)).push(SToken::Term(sview(x))));
                    assert forall|k: int| 0 <= k < after.len() implies
                        (if k % 2 == 0 { #[trigger] after[k] is Term } else { after[k] is BinOp }) by {
                        if k < before.len() {
                            assert(after[k] == before[k]);
                        }
                    }
                    end = e2;
                },
                None => break,
            },
            None => break,
        }
    }
    proof { lemma_alternating_ok(tviews(tokens@)); }
    match shunting_yard(tokens) {
        Some(x) => Some((x, end)),
        None => None,
    }
}

/// Parses an expression; a parse error when the text is none, or holds more
/// after it.
pub fn parse_expr(input: &str) -> (r: Result<Expr, Error>)
    ensures
        expr_text(input@) matches Some(x) ==> r matches Ok(y) && sview(y) == x,
        expr_text(input@) is None ==> r matches Err(Error::ParseError(_)),
{
    let s = chars_of(input);
    match expr_at(&s, 0) {
        Some((x, e)) => {
            let q = skip_ws_at(&s, e);
            if q == s.len() {
                Ok(x)
            } else {
                let mut msg = string_of("Parsed statement contained additional unparsed content: ");
                msg.append(input);
                Err(Error::ParseError(msg))
            }
        },
        None => {
            let mut msg = string_of("Parse error: ");
            msg.append(input);
            Err(Error::ParseError(msg))
        },
    }
}

} // verus!
