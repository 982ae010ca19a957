use soupdb::ast::{BinaryOperator, Expr, Identifier, UnaryOperator};
use soupdb::command::Command;
use soupdb::expr_parse::parse_expr;
use soupdb::model::{Document, ModelType, Table};
use soupdb::parse::{parse_command, parse_ddl};
use soupdb::shunting::{shunting_yard, ExprToken};
use soupdb::tuple::{TupleDef, TupleEntry};
use soupdb::value_type::ValueType;
use soupdb::ast::BinaryOperator::{OpAdd, OpAnd, OpDiv, OpIn, OpIs, OpLike, OpLte, OpMul, OpNeq, OpOr, OpSub};
use soupdb::shunting::ExprToken::{BinOp, CloseParen, OpenParen, Term, UnOp};
use soupdb::Error;

fn lit(value_type: ValueType, value: &str) -> Expr {
    Expr::Literal { value_type, value: value.to_string() }
}

fn int_lit(value: &str) -> Expr {
    lit(ValueType::Int, value)
}

fn bin(left: Expr, op: BinaryOperator, right: Expr) -> Expr {
    Expr::BinOp { left: Box::new(left), op, right: Box::new(right) }
}

fn id(name: &str, qualifier: Option<&str>) -> Expr {
    Expr::Id(Identifier { name: name.to_string(), qualifier: qualifier.map(|q| q.to_string()) })
}

#[test]
fn mod_test_binop() {
    assert_eq!("+".parse::<BinaryOperator>().unwrap(), OpAdd);
    assert_eq!("!=".parse::<BinaryOperator>().unwrap(), OpNeq);
    assert_eq!("and".parse::<BinaryOperator>().unwrap(), OpAnd);
    assert!(OpMul.precedence() > OpAdd.precedence());
    assert!(OpMul.precedence() == OpDiv.precedence());
}

#[test]
fn mod_test_unop() {
    assert_eq!("not".parse::<UnaryOperator>().unwrap(), UnaryOperator::OpNot);
}

#[test]
fn expr_test_binop() {
    assert_eq!("+".parse::<BinaryOperator>().unwrap(), OpAdd);
    assert_eq!("!=".parse::<BinaryOperator>().unwrap(), OpNeq);
    assert_eq!("and".parse::<BinaryOperator>().unwrap(), OpAnd);
    assert!(OpMul.precedence() > OpAdd.precedence());
    assert!(OpMul.precedence() == OpDiv.precedence());
}

#[test]
fn expr_test_unop() {
    assert_eq!("not".parse::<UnaryOperator>().unwrap(), UnaryOperator::OpNot);
}

#[test]
fn operator_names_and_precedence() {
    assert_eq!(5, OpMul.precedence());
    assert_eq!(4, OpSub.precedence());
    assert_eq!(3, OpLike.precedence());
    assert_eq!(3, OpIn.precedence());
    assert_eq!(2, OpOr.precedence());
    assert_eq!("is".parse::<BinaryOperator>().unwrap(), OpIs);
    assert_eq!("<=".parse::<BinaryOperator>().unwrap(), OpLte);
    assert!(matches!("%".parse::<BinaryOperator>(), Err(Error::ParseError(_))));
    assert!(matches!("nope".parse::<UnaryOperator>(), Err(Error::ParseError(_))));
}

#[test]
fn test_shunting_yard() {
    let v1 = int_lit("1");
    let v2 = int_lit("2");
    let v3 = lit(ValueType::Float, "2.5");

    assert_eq!(shunting_yard(vec![Term(v1.clone())]), Some(v1.clone()));
    assert_eq!(shunting_yard(vec![OpenParen, Term(v2.clone()), CloseParen]), Some(v2.clone()));
    assert_eq!(
        shunting_yard(vec![OpenParen, Term(v1.clone()), CloseParen, BinOp(BinaryOperator::OpAdd), Term(v2.clone())]),
        Some(bin(v1.clone(), BinaryOperator::OpAdd, v2.clone()))
    );
    assert_eq!(
        shunting_yard(vec![Term(v1.clone()), OpenParen, BinOp(BinaryOperator::OpAdd), Term(v2.clone()), CloseParen]),
        Some(bin(v1.clone(), BinaryOperator::OpAdd, v2.clone()))
    );
    assert_eq!(
        shunting_yard(vec![Term(v1.clone()), BinOp(BinaryOperator::OpAdd), Term(v2.clone())]),
        Some(bin(v1.clone(), BinaryOperator::OpAdd, v2.clone()))
    );
    assert_eq!(
        shunting_yard(vec![OpenParen, Term(v1.clone()), BinOp(BinaryOperator::OpAdd), Term(v2.clone()), CloseParen]),
        Some(bin(v1.clone(), BinaryOperator::OpAdd, v2.clone()))
    );
    assert_eq!(
        shunting_yard(vec![OpenParen, Term(v2.clone()), BinOp(BinaryOperator::OpSub), Term(v1.clone()), CloseParen]),
        Some(bin(v2.clone(), BinaryOperator::OpSub, v1.clone()))
    );
    assert_eq!(
        shunting_yard(vec![Term(v1.clone()), BinOp(BinaryOperator::OpAdd), Term(v2.clone()), BinOp(BinaryOperator::OpMul), Term(v3.clone())]),
        Some(bin(v1.clone(), BinaryOperator::OpAdd, bin(v2.clone(), BinaryOperator::OpMul, v3.clone())))
    );
    assert_eq!(
        shunting_yard(vec![OpenParen, Term(v1.clone()), BinOp(BinaryOperator::OpAdd), Term(v2.clone()), CloseParen, BinOp(BinaryOperator::OpMul), Term(v3.clone())]),
        Some(bin(bin(v1.clone(), BinaryOperator::OpAdd, v2.clone()), BinaryOperator::OpMul, v3.clone()))
    );
    assert_eq!(
        shunting_yard(vec![UnOp(UnaryOperator::OpNot), Term(v3.clone())]),
        Some(Expr::UnOp { expr: Box::new(v3.clone()), op: UnaryOperator::OpNot })
    );
    assert_eq!(
        shunting_yard(vec![Term(v1.clone()), BinOp(BinaryOperator::OpAnd), UnOp(UnaryOperator::OpNot), Term(v2.clone())]),
        Some(bin(v1.clone(), BinaryOperator::OpAnd, Expr::UnOp { expr: Box::new(v2.clone()), op: UnaryOperator::OpNot }))
    );
    assert_eq!(
        shunting_yard(vec![UnOp(UnaryOperator::OpNot), Term(v1.clone()), BinOp(BinaryOperator::OpAnd), Term(v2.clone())]),
        Some(bin(Expr::UnOp { expr: Box::new(v1.clone()), op: UnaryOperator::OpNot }, BinaryOperator::OpAnd, v2.clone()))
    );
}

#[test]
fn shunting_yard_rejects_malformed_streams() {
    assert_eq!(shunting_yard(vec![]), None);
    assert_eq!(shunting_yard(vec![Term(int_lit("1")), BinOp(BinaryOperator::OpAdd)]), None);
    assert_eq!(shunting_yard(vec![OpenParen, Term(int_lit("1"))]), None);
}

#[test]
fn test_parse_create() {
    assert_eq!(
        parse_command("create TABLE my_table (col_1 int, col2 str, col3 nullable bool, d nullable str(10), column_5 vector(3) unsigned int);"),
        Ok(Command::CreateModel { name: "my_table".to_string(), schema: Box::new(ModelType::Table(Table { schema: TupleDef(vec![
            TupleEntry { name: "col_1".to_string(), value: ValueType::Int },
            TupleEntry { name: "col2".to_string(), value: ValueType::Str(0) },
            TupleEntry { name: "col3".to_string(), value: ValueType::Nullable(Box::new(ValueType::Bool)) },
            TupleEntry { name: "d".to_string(), value: ValueType::Nullable(Box::new(ValueType::Str(10))) },
            TupleEntry { name: "column_5".to_string(), value: ValueType::Vector(3, Box::new(ValueType::Uint)) },
        ]) })) })
    );
    assert_eq!(
        parse_command("CREATE DOCUMENT doc ;"),
        Ok(Command::CreateModel { name: "doc".to_string(), schema: Box::new(ModelType::Document(Document {})) })
    );
}

#[test]
fn parse_errors_are_reported() {
    assert!(matches!(parse_command("CREATE DOCUMENT doc ; extra"), Err(Error::ParseError(_))));
    assert!(matches!(parse_command("CREATE DOCUMENT doc"), Err(Error::ParseError(_))));
    assert!(matches!(parse_command("CREATE TABLE t (a unknowntype);"), Err(Error::ParseError(_))));
    assert!(matches!(parse_ddl("CREATE TABLE t (a int,);"), Err(Error::ParseError(_))));
    assert!(matches!(parse_command("CREATE TABLE t (a str(99999999999999999999));"), Err(Error::ParseError(_))));
    assert!(matches!(parse_expr("1 +"), Err(Error::ParseError(_))));
    assert!(matches!(parse_expr("(1"), Err(Error::ParseError(_))));
    assert!(matches!(parse_expr(""), Err(Error::ParseError(_))));
}

#[test]
fn parse_ddl_reads_every_kind() {
    let cmd = parse_ddl("create graph g (a int) (b float);").unwrap();
    match cmd {
        Command::CreateModel { name, schema } => {
            assert_eq!("g", name);
            assert!(matches!(*schema, ModelType::Graph(_)));
        }
        other => panic!("unexpected {:?}", other),
    }
    assert!(parse_ddl("create geohash h ();").is_ok());
    assert!(parse_ddl("  CREATE  TimeSeries ts (t float)  ;  ").is_ok());
}

#[test]
fn test_parse_expr() {
    assert_eq!(parse_expr("FALSE"), Ok(lit(ValueType::Bool, "false")));
    assert_eq!(parse_expr("1 + 2"), Ok(bin(int_lit("1"), BinaryOperator::OpAdd, int_lit("2"))));
    assert_eq!(
        parse_expr("1 + 2 * 3"),
        Ok(bin(int_lit("1"), BinaryOperator::OpAdd, bin(int_lit("2"), BinaryOperator::OpMul, int_lit("3"))))
    );
    assert_eq!(
        parse_expr("1 + 2 * 3 - (4 + 5) / 6-7.1"),
        Ok(bin(
            bin(
                bin(int_lit("1"), BinaryOperator::OpAdd, bin(int_lit("2"), BinaryOperator::OpMul, int_lit("3"))),
                BinaryOperator::OpSub,
                bin(bin(int_lit("4"), BinaryOperator::OpAdd, int_lit("5")), BinaryOperator::OpDiv, int_lit("6")),
            ),
            BinaryOperator::OpSub,
            lit(ValueType::Float, "7.1"),
        ))
    );
    // a bare identifier, as an expression and as a term
    assert_eq!(parse_expr("def"), Ok(id("def", None)));
    assert_eq!(parse_expr(" def "), Ok(id("def", None)));
    assert_eq!(parse_expr("def"), Ok(id("def", None)));
    assert_eq!(parse_expr("abc.def"), Ok(id("def", Some("abc"))));
    assert_eq!(parse_expr("1 + def"), Ok(bin(int_lit("1"), BinaryOperator::OpAdd, id("def", None))));
    assert_eq!(parse_expr("1 + abc.def"), Ok(bin(int_lit("1"), BinaryOperator::OpAdd, id("def", Some("abc")))));
}

#[test]
fn not_binds_to_its_term() {
    assert_eq!(
        parse_expr("NOT 1 AND 2"),
        Ok(bin(Expr::UnOp { expr: Box::new(int_lit("1")), op: UnaryOperator::OpNot }, BinaryOperator::OpAnd, int_lit("2")))
    );
}

#[test]
fn literals_of_every_kind() {
    assert_eq!(parse_expr("null"), Ok(lit(ValueType::Unknown, "null")));
    assert_eq!(parse_expr("True"), Ok(lit(ValueType::Bool, "true")));
    assert_eq!(parse_expr("\"a b\""), Ok(lit(ValueType::Str(0), "a b")));
    assert_eq!(parse_expr("-007"), Ok(int_lit("-7")));
    assert_eq!(parse_expr("-0"), Ok(int_lit("0")));
    assert_eq!(parse_expr("9223372036854775807"), Ok(int_lit("9223372036854775807")));
    assert!(parse_expr("9223372036854775808").is_err());
    assert_eq!(
        parse_expr("a <= b or c != d"),
        Ok(bin(
            bin(id("a", None), BinaryOperator::OpLte, id("b", None)),
            BinaryOperator::OpOr,
            bin(id("c", None), BinaryOperator::OpNeq, id("d", None)),
        ))
    );
    assert_eq!(parse_expr("1 - 2 - 3"), Ok(bin(bin(int_lit("1"), BinaryOperator::OpSub, int_lit("2")), BinaryOperator::OpSub, int_lit("3"))));
}
