//! Expression trees and their operators.
use vstd::prelude::*;
use crate::Error;
use crate::text::{same_text, string_of};
use crate::value_type::ValueType;
use vstd::string::StringExecFns;

verus! {

/// A reference to a named item, optionally qualified (`qualifier.name`).
#[derive(Debug, PartialEq)]
pub struct Identifier {
    pub name: String,
    pub qualifier: Option<String>,
}

/// An expression tree.
#[derive(Debug, PartialEq)]
pub enum Expr {
    Id(Identifier),
    /// A literal with its value type and its text.
    Literal { value_type: ValueType, value: String },
    FunctionCall { name: String, args: Vec<Expr> },
    UnOp { expr: Box<Expr>, op: UnaryOperator },
    BinOp { left: Box<Expr>, right: Box<Expr>, op: BinaryOperator },
}

/// An expression tree as the verifier sees it: strings as character
/// sequences, a call's arguments as a sequence.
pub enum SExpr {
    Id(Seq<char>, Option<Seq<char>>),
    Literal(ValueType, Seq<char>),
    Call(Seq<char>, Seq<SExpr>),
    UnOp(Box<SExpr>, UnaryOperator),
    BinOp(Box<SExpr>, Box<SExpr>, BinaryOperator),
}

/// The view of an expression tree.
pub open spec fn sview(e: Expr) -> SExpr
    decreases e,
{
    match e {
        Expr::Id(id) => SExpr::Id(id.name@, match id.qualifier {
            Some(q) => Some(q@),
            None => None,
        }),
        Expr::Literal { value_type, value } => SExpr::Literal(value_type, value@),
        Expr::FunctionCall { name, args } => SExpr::Call(name@, sview_all(args@)),
        Expr::UnOp { expr, op } => SExpr::UnOp(Box::new(sview(*expr)), op),
        Expr::BinOp { left, right, op } => SExpr::BinOp(Box::new(sview(*left)), Box::new(sview(*right)), op),
    }
}

/// The views of a sequence of expression trees.
pub open spec fn sview_all(es: Seq<Expr>) -> Seq<SExpr>
    decreases es,
{
    if es.len() == 0 {
        Seq::empty()
    } else {
        sview_all(es.drop_last()).push(sview(es.last()))
    }
}

/// Binary operators, from tightest to loosest binding.
#[derive(PartialEq, Eq, Debug, Clone, Copy, Structural)]
pub enum BinaryOperator {
    OpMul,
    OpDiv,
    OpAdd,
    OpSub,
    OpEq,
    OpNeq,
    OpLt,
    OpGt,
    OpLte,
    OpGte,
    OpIs,
    OpLike,
    OpIn,
    OpAnd,
    OpOr,
}

/// Unary operators.
#[derive(PartialEq, Eq, Debug, Clone, Copy, Structural)]
pub enum UnaryOperator {
    OpNot,
}

/// Binding strength: multiplicative 5, additive 4, comparison 3, logical 2.
pub open spec fn precedence_spec(op: BinaryOperator) -> u8 {
    match op {
        BinaryOperator::OpMul | BinaryOperator::OpDiv => 5,
        BinaryOperator::OpAdd | BinaryOperator::OpSub => 4,
        BinaryOperator::OpAnd | BinaryOperator::OpOr => 2,
        _ => 3,
    }
}

/// The operator that the text `s` names, if any.
pub open spec fn binop_named(s: Seq<char>) -> Option<BinaryOperator> {
    if s == "*"@ { Some(BinaryOperator::OpMul) }
    else if s == "/"@ { Some(BinaryOperator::OpDiv) }
    else if s == "+"@ { Some(BinaryOperator::OpAdd) }
    else if s == "-"@ { Some(BinaryOperator::OpSub) }
    else if s == "="@ { Some(BinaryOperator::OpEq) }
    else if s == "!="@ { Some(BinaryOperator::OpNeq) }
    else if s == "<"@ { Some(BinaryOperator::OpLt) }
    else if s == ">"@ { Some(BinaryOperator::OpGt) }
    else if s == "<="@ { Some(BinaryOperator::OpLte) }
    else if s == ">="@ { Some(BinaryOperator::OpGte) }
    else if s == "is"@ { Some(BinaryOperator::OpIs) }
    else if s == "like"@ { Some(BinaryOperator::OpLike) }
    else if s == "in"@ { Some(BinaryOperator::OpIn) }
    else if s == "and"@ { Some(BinaryOperator::OpAnd) }
    else if s == "or"@ { Some(BinaryOperator::OpOr) }
    else { None }
}

fn invalid_operator(kind: &str, s: &str) -> (r: Error)
    ensures
        r is ParseError,
{
    let mut msg = string_of("invalid ");
    msg.append(kind);
    msg.append(" operator ");
    msg.append(s);
    Error::ParseError(msg)
}

impl BinaryOperator {
    pub fn precedence(&self) -> (r: u8)
        ensures
            r == precedence_spec(*self),
    {
        match self {
            BinaryOperator::OpMul | BinaryOperator::OpDiv => 5,
            BinaryOperator::OpAdd | BinaryOperator::OpSub => 4,
            BinaryOperator::OpEq | BinaryOperator::OpNeq | BinaryOperator::OpLt | BinaryOperator::OpGt
            | BinaryOperator::OpLte | BinaryOperator::OpGte | BinaryOperator::OpIs
            | BinaryOperator::OpLike | BinaryOperator::OpIn => 3,
            BinaryOperator::OpAnd | BinaryOperator::OpOr => 2,
        }
    }

    /// The operator named by `s` (`*`, `!=`, `and`, ...); a parse error otherwise.
    pub fn from_text(s: &str) -> (r: Result<BinaryOperator, Error>)
        ensures
            binop_named(s@) matches Some(op) ==> r == Ok::<BinaryOperator, Error>(op),
            binop_named(s@) is None ==> r matches Err(Error::ParseError(_)),
    {
        let names = ["*", "/", "+", "-", "=", "!=", "<", ">", "<=", ">=", "is", "like", "in", "and", "or"];
        let ops = [
            BinaryOperator::OpMul, BinaryOperator::OpDiv, BinaryOperator::OpAdd, BinaryOperator::OpSub,
            BinaryOperator::OpEq, BinaryOperator::OpNeq, BinaryOperator::OpLt, BinaryOperator::OpGt,
            BinaryOperator::OpLte, BinaryOperator::OpGte, BinaryOperator::OpIs, BinaryOperator::OpLike,
            BinaryOperator::OpIn, BinaryOperator::OpAnd, BinaryOperator::OpOr,
        ];
        proof {
            reveal_strlit("*"); reveal_strlit("/"); reveal_strlit("+"); reveal_strlit("-");
            reveal_strlit("="); reveal_strlit("!="); reveal_strlit("<"); reveal_strlit(">");
            reveal_strlit("<="); reveal_strlit(">="); reveal_strlit("is"); reveal_strlit("like");
            reveal_strlit("in"); reveal_strlit("and"); reveal_strlit("or");
        }
        let mut i: usize = 0;
        while i < 15
            invariant
                i <= 15,
                names@ == seq!["*", "/", "+", "-", "=", "!=", "<", ">", "<=", ">=", "is", "like", "in", "and", "or"],
                ops@ == seq![
                    BinaryOperator::OpMul, BinaryOperator::OpDiv, BinaryOperator::OpAdd, BinaryOperator::OpSub,
                    BinaryOperator::OpEq, BinaryOperator::OpNeq, BinaryOperator::OpLt, BinaryOperator::OpGt,
                    BinaryOperator::OpLte, BinaryOperator::OpGte, BinaryOperator::OpIs, BinaryOperator::OpLike,
                    BinaryOperator::OpIn, BinaryOperator::OpAnd, BinaryOperator::OpOr,
                ],
                forall|j: int| 0 <= j < i ==> s@ != (#[trigger] names@[j])@,
            decreases 15 - i,
        {
            if same_text(s, names[i]) {
                return Ok(ops[i]);
            }
            i += 1;
        }
        assert(s@ != names@[0]@ && s@ != names@[1]@ && s@ != names@[2]@ && s@ != names@[3]@);
        assert(s@ != names@[4]@ && s@ != names@[5]@ && s@ != names@[6]@ && s@ != names@[7]@);
        assert(s@ != names@[8]@ && s@ != names@[9]@ && s@ != names@[10]@ && s@ != names@[11]@);
        assert(s@ != names@[12]@ && s@ != names@[13]@ && s@ != names@[14]@);
        Err(invalid_operator("binary", s))
    }
}

impl UnaryOperator {
    /// The operator named by `s` (only `not`); a parse error otherwise.
    pub fn from_text(s: &str) -> (r: Result<UnaryOperator, Error>)
        ensures
            s@ == "not"@ ==> r == Ok::<UnaryOperator, Error>(UnaryOperator::OpNot),
            s@ != "not"@ ==> r matches Err(Error::ParseError(_)),
    {
        if same_text(s, "not") {
            Ok(UnaryOperator::OpNot)
        } else {
            Err(invalid_operator("unary", s))
        }
    }
}

impl core::str::FromStr for BinaryOperator {
    type Err = Error;

    fn from_str(s: &str) -> core::result::Result<BinaryOperator, Error> {
        BinaryOperator::from_text(s)
    }
}

impl core::str::FromStr for UnaryOperator {
    type Err = Error;

    fn from_str(s: &str) -> core::result::Result<UnaryOperator, Error> {
        UnaryOperator::from_text(s)
    }
}

impl Clone for Identifier {
    fn clone(&self) -> (r: Self)
        ensures
            r == *self,
    {
        let qualifier = match &self.qualifier {
            Some(q) => Some(q.clone()),
            None => None,
        };
        Identifier { name: self.name.clone(), qualifier }
    }
}

} // verus!

verus! {

/// True when no function call occurs in `e`.
pub open spec fn call_free(e: Expr) -> bool
    decreases e,
{
    match e {
        Expr::FunctionCall { .. } => false,
        Expr::UnOp { expr, .. } => call_free(*expr),
        Expr::BinOp { left, right, .. } => call_free(*left) && call_free(*right),
        _ => true,
    }
}

impl Clone for Expr {
    /// A copy of the tree: the same view, and equal outright where no
    /// function call (whose arguments sit in a `Vec`) occurs.
    fn clone(&self) -> (r: Self)
        ensures
            sview(r) == sview(*self),
            call_free(*self) ==> r == *self,
        decreases *self,
    {
        match self {
            Expr::Id(id) => {
                let c = id.clone();
                assert(c.name == id.name);
                assert(c.qualifier == id.qualifier);
                Expr::Id(c)
            },
            Expr::Literal { value_type, value } => {
                let t = value_type.clone();
                let v = value.clone();
                assert(t == *value_type);
                assert(v == *value);
                Expr::Literal { value_type: t, value: v }
            },
            Expr::FunctionCall { name, args } => {
                let mut v: Vec<Expr> = Vec::new();
                let mut i: usize = 0;
                while i < args.len()
                    invariant
                        i <= args@.len(),
                        *self is FunctionCall,
                        self->args == *args,
                        sview_all(v@) == sview_all(args@.subrange(0, i as int)),
                    decreases args@.len() - i,
                {
                    let ghost before = v@;
                    proof {
                        vstd::std_specs::vec::axiom_vec_index_decreases(*args, i as int);
                        assert(decreases_to!(*self => self->args));
                    }
                    let c = args[i].clone();
                    v.push(c);
                    proof {
                        assert(v@.drop_last() =~= before);
                        assert(args@.subrange(0, i + 1).drop_last() =~= args@.subrange(0, i as int));
                    }
                    i += 1;
                }
                assert(args@.subrange(0, i as int) =~= args@);
                Expr::FunctionCall { name: name.clone(), args: v }
            },
            Expr::UnOp { expr, op } => Expr::UnOp { expr: Box::new((**expr).clone()), op: *op },
            Expr::BinOp { left, right, op } => Expr::BinOp {
                left: Box::new((**left).clone()),
                right: Box::new((**right).clone()),
                op: *op,
            },
        }
    }
}

} // verus!
