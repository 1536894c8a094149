use std::rc::Rc;

use chic_consteval::ast::{BinOp, ExprNode, Expression, LiteralConst};
use chic_consteval::cache::ConstEvalConfig;
use chic_consteval::eval::ConstEvalContext;
use chic_consteval::layout::TypeLayoutTable;
use chic_consteval::symbols::{ConstSymbol, SymbolIndex, Visibility};
use chic_consteval::types::Ty;
use chic_consteval::values::ConstValue;

fn int_ty() -> Ty {
    Ty::Named { name: "int".to_string(), args: Vec::new() }
}

fn int_literal(v: i128) -> ExprNode {
    ExprNode::Literal(LiteralConst::without_numeric(ConstValue::Int(v)))
}

fn sum(left: ExprNode, right: ExprNode) -> ExprNode {
    ExprNode::Binary { op: BinOp::Add, left: Box::new(left), right: Box::new(right) }
}

fn context(symbol_index: SymbolIndex, fuel_limit: Option<usize>) -> ConstEvalContext {
    ConstEvalContext::with_config(
        symbol_index,
        TypeLayoutTable::new(8, 8),
        ConstEvalConfig { fuel_limit, enable_expression_memo: false },
    )
}

fn demo_const(name: &str, text: &str, node: ExprNode) -> ConstSymbol {
    ConstSymbol {
        qualified: format!("Demo::{name}"),
        name: name.to_string(),
        owner: None,
        namespace: Some("Demo".to_string()),
        ty: Rc::new(int_ty()),
        initializer: Rc::new(Expression::with_node(text.to_string(), None, node)),
        visibility: Visibility::Public,
        span: None,
        value: None,
    }
}

#[test]
fn enough_fuel_gives_the_value() {
    let mut ctx = context(SymbolIndex::new(), Some(3));
    let expr = Expression::with_node("1 + 2".to_string(), None, sum(int_literal(1), int_literal(2)));
    let result = ctx
        .evaluate_expression(&expr, None, None, None, None, &int_ty(), None)
        .expect("three steps fit a limit of three");
    assert!(matches!(result.value, ConstValue::Int(3)), "unexpected value: {:?}", result.value);
}

#[test]
fn fuel_error_only_once_fuel_is_used_up() {
    let mut ctx = context(SymbolIndex::new(), Some(2));
    let expr = Expression::with_node("1 + 2".to_string(), None, sum(int_literal(1), int_literal(2)));
    let err = ctx
        .evaluate_expression(&expr, None, None, None, None, &int_ty(), None)
        .expect_err("three steps do not fit a limit of two");
    assert!(err.message.contains("fuel limit of 2 exhausted"), "unexpected error: {}", err.message);
}

#[test]
fn no_fuel_limit_never_runs_out() {
    let mut ctx = context(SymbolIndex::new(), None);
    let mut node = int_literal(0);
    for i in 1..50 {
        node = sum(node, int_literal(i));
    }
    let expr = Expression::with_node("sum".to_string(), None, node);
    let result = ctx
        .evaluate_expression(&expr, None, None, None, None, &int_ty(), None)
        .expect("no limit, no fuel error");
    assert!(matches!(result.value, ConstValue::Int(1225)), "unexpected value: {:?}", result.value);
}

#[test]
fn expression_reads_an_evaluated_constant() {
    let mut symbol_index = SymbolIndex::new();
    symbol_index.constants.push(demo_const("A", "4", int_literal(4)));
    let mut ctx = context(symbol_index, Some(100));
    let a = ctx.evaluate_const("Demo::A", None).expect("constant evaluates");
    assert!(matches!(a.value, ConstValue::Int(4)), "unexpected value: {:?}", a.value);
    let expr = Expression::with_node(
        "A + 1".to_string(),
        None,
        sum(ExprNode::Identifier("A".to_string()), int_literal(1)),
    );
    let result = ctx
        .evaluate_expression(&expr, Some("Demo"), None, None, None, &int_ty(), None)
        .expect("constant read succeeds");
    assert!(matches!(result.value, ConstValue::Int(5)), "unexpected value: {:?}", result.value);
}

#[test]
fn constant_initializer_reads_another_constant() {
    let mut symbol_index = SymbolIndex::new();
    symbol_index.constants.push(demo_const("A", "4", int_literal(4)));
    symbol_index.constants.push(demo_const(
        "B",
        "A + 1",
        sum(ExprNode::Identifier("A".to_string()), int_literal(1)),
    ));
    let mut ctx = context(symbol_index, Some(100));
    let b = ctx.evaluate_const("Demo::B", None).expect("constant evaluates");
    assert!(matches!(b.value, ConstValue::Int(5)), "unexpected value: {:?}", b.value);
    let summary = ctx.evaluate_all();
    assert!(summary.errors.is_empty());
}

#[test]
fn member_path_reads_an_evaluated_constant() {
    let mut symbol_index = SymbolIndex::new();
    symbol_index.constants.push(demo_const("Limit", "7", int_literal(7)));
    let mut ctx = context(symbol_index, Some(100));
    ctx.evaluate_const("Demo::Limit", None).expect("constant evaluates");
    let node = ExprNode::Member {
        base: Box::new(ExprNode::Identifier("Demo".to_string())),
        member: "Limit".to_string(),
        null_conditional: false,
    };
    let expr = Expression::with_node("Demo.Limit".to_string(), None, node);
    let result = ctx
        .evaluate_expression(&expr, None, None, None, None, &int_ty(), None)
        .expect("member path resolves to the constant");
    assert!(matches!(result.value, ConstValue::Int(7)), "unexpected value: {:?}", result.value);
}
