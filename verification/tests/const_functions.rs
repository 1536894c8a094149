use std::rc::Rc;

use chic_consteval::ast::{
    BinOp, BindingModifier, Block, CallArgument, ExprNode, Expression, FunctionDecl,
    FunctionDeclSymbol, LiteralConst, Parameter, Signature, Statement, StatementKind,
    VariableDeclaration, VariableDeclarator, VariableModifier,
};
use chic_consteval::cache::{ConstEvalConfig, ConstFnCacheKey};
use chic_consteval::environment::EvalEnv;
use chic_consteval::eval::ConstEvalContext;
use chic_consteval::layout::TypeLayoutTable;
use chic_consteval::symbols::SymbolIndex;
use chic_consteval::types::Ty;
use chic_consteval::values::{ConstEvalResult, ConstValue, Span};

fn default_ctx() -> (SymbolIndex, TypeLayoutTable) {
    (SymbolIndex::new(), TypeLayoutTable::new(8, 8))
}

fn named(name: &str) -> Ty {
    Ty::Named { name: name.to_string(), args: Vec::new() }
}

fn make_param(name: &str, ty: &str) -> Parameter {
    Parameter {
        binding: BindingModifier::Value,
        name: name.to_string(),
        ty: named(ty),
        has_default: false,
    }
}

fn make_signature(params: Vec<Parameter>, return_type: &str) -> Signature {
    Signature { parameters: params, return_type: named(return_type) }
}

fn make_return_block(expr: ExprNode) -> Block {
    Block {
        statements: vec![Statement {
            span: None,
            kind: StatementKind::Return {
                expression: Some(Expression::with_node("ret".to_string(), None, expr)),
            },
        }],
        span: None,
    }
}

fn make_const_fn(
    name: &str,
    params: Vec<Parameter>,
    return_type: &str,
    body: Option<Block>,
) -> FunctionDeclSymbol {
    FunctionDeclSymbol {
        qualified: format!("Demo::{name}"),
        function: FunctionDecl {
            name: name.to_string(),
            signature: make_signature(params, return_type),
            body,
            is_async: false,
            is_constexpr: true,
            is_extern: false,
            generics: None,
        },
        owner: None,
        namespace: Some("Demo".to_string()),
        internal_name: format!("Demo::{name}#0"),
    }
}

fn int_literal(v: i128) -> ExprNode {
    ExprNode::Literal(LiteralConst::without_numeric(ConstValue::Int(v)))
}

fn demo_env(span: Option<Span>) -> EvalEnv {
    EvalEnv::new(Some("Demo".to_string()), None, span)
}

fn context_with(functions: Vec<FunctionDeclSymbol>) -> ConstEvalContext {
    let (mut symbol_index, layouts) = default_ctx();
    for f in functions {
        symbol_index.functions.push(Rc::new(f));
    }
    ConstEvalContext::with_config(symbol_index, layouts, ConstEvalConfig::default())
}

#[test]
fn evaluate_call_hits_function_cache() {
    let twice = make_const_fn(
        "Twice",
        vec![make_param("value", "int")],
        "int",
        Some(make_return_block(ExprNode::Binary {
            op: BinOp::Mul,
            left: Box::new(ExprNode::Identifier("value".to_string())),
            right: Box::new(int_literal(2)),
        })),
    );
    let (mut symbol_index, layouts) = default_ctx();
    symbol_index.functions.push(Rc::new(twice));
    let mut ctx = ConstEvalContext::with_config(
        symbol_index,
        layouts,
        ConstEvalConfig {
            fuel_limit: ConstEvalConfig::default().fuel_limit,
            enable_expression_memo: false,
        },
    );
    let callee = ExprNode::Identifier("Twice".to_string());
    let args = vec![CallArgument::positional(int_literal(2), None)];
    let mut env = demo_env(None);
    let first = ctx.evaluate_call(&callee, None, &args, &mut env).expect("first call succeeds");
    assert!(
        matches!(first.value, ConstValue::Int(v) if v == 4),
        "unexpected call result: {:?}",
        first.value
    );
    let second = ctx.evaluate_call(&callee, None, &args, &mut env).expect("cached call succeeds");
    assert!(
        matches!(second.value, ConstValue::Int(v) if v == 4),
        "unexpected cached result: {:?}",
        second.value
    );
    let summary = ctx.evaluate_all();
    assert_eq!(summary.metrics.fn_cache_hits, 1);
    assert_eq!(summary.metrics.fn_cache_misses, 1);
}

#[test]
fn const_value_label_orders_struct_fields() {
    let (symbol_index, layouts) = default_ctx();
    let ctx = ConstEvalContext::with_config(symbol_index, layouts, ConstEvalConfig::default());
    let value = ConstValue::Struct {
        type_path: "Demo.Point".to_string(),
        fields: vec![("B".to_string(), ConstValue::Int(2)), ("A".to_string(), ConstValue::Int(1))],
    };
    let label = ctx.const_value_label(&value);
    assert_eq!(label, "struct:Demo.Point{A=i:1,B=i:2}");
}

#[test]
fn const_value_label_formats_scalars_and_unknown() {
    let (symbol_index, layouts) = default_ctx();
    let ctx = ConstEvalContext::with_config(symbol_index, layouts, ConstEvalConfig::default());
    assert_eq!(ctx.const_value_label(&ConstValue::Null), "null");
    assert_eq!(ctx.const_value_label(&ConstValue::Unit), "unit");
    assert_eq!(ctx.const_value_label(&ConstValue::Unknown), "unknown");
    assert_eq!(ctx.const_value_label(&ConstValue::Char('x' as u16)), "char:'x'");
    assert_eq!(ctx.const_value_label(&ConstValue::Symbol("S".to_string())), "sym:S");
    assert_eq!(
        ctx.const_value_label(&ConstValue::Str { id: 1, value: "abc".to_string() }),
        "str:abc"
    );
    assert_eq!(ctx.const_value_label(&ConstValue::RawStr("body".to_string())), "raw:body");
}

#[test]
fn resolve_const_function_rejects_empty_segments() {
    let ctx = context_with(Vec::new());
    let err = ctx
        .resolve_const_function(None, None, &Vec::new(), &Vec::new(), None)
        .expect_err("empty segments should fail");
    assert!(err.message.contains("not a valid path"), "unexpected message: {}", err.message);
}

#[test]
fn resolve_const_function_prefers_constexpr_over_inferred() {
    let const_decl = make_const_fn(
        "Target",
        vec![make_param("value", "int")],
        "int",
        Some(make_return_block(ExprNode::Identifier("value".to_string()))),
    );
    let mut inferred_decl = make_const_fn(
        "Target",
        vec![make_param("value", "int")],
        "int",
        Some(make_return_block(ExprNode::Identifier("value".to_string()))),
    );
    inferred_decl.function.is_constexpr = false;
    let ctx = context_with(vec![inferred_decl, const_decl]);
    let args = vec![(None, ConstEvalResult::new(ConstValue::Int(1)))];
    let symbol = ctx
        .resolve_const_function(Some("Demo"), None, &vec!["Target".to_string()], &args, None)
        .expect("resolve prefers constexpr");
    assert!(symbol.function.is_constexpr);
}

#[test]
fn resolve_const_function_reports_ambiguous_overloads() {
    let first = make_const_fn(
        "Over",
        vec![make_param("value", "int")],
        "int",
        Some(make_return_block(ExprNode::Identifier("value".to_string()))),
    );
    let second = make_const_fn(
        "Over",
        vec![make_param("value", "int")],
        "int",
        Some(make_return_block(ExprNode::Binary {
            op: BinOp::Add,
            left: Box::new(ExprNode::Identifier("value".to_string())),
            right: Box::new(int_literal(1)),
        })),
    );
    let ctx = context_with(vec![first, second]);
    let args = vec![(None, ConstEvalResult::new(ConstValue::Int(2)))];
    let err = ctx
        .resolve_const_function(
            Some("Demo"),
            None,
            &vec!["Over".to_string()],
            &args,
            Some(Span::new(0, 1)),
        )
        .expect_err("ambiguous overloads rejected");
    assert!(err.message.contains("ambiguous"), "{}", err.message);
}

#[test]
fn execute_const_function_rejects_ref_binding() {
    let mut param = make_param("value", "int");
    param.binding = BindingModifier::Ref;
    let ref_arg = make_const_fn(
        "RefArg",
        vec![param],
        "int",
        Some(make_return_block(ExprNode::Identifier("value".to_string()))),
    );
    let mut ctx = context_with(vec![ref_arg]);
    let callee = ExprNode::Identifier("RefArg".to_string());
    let args = vec![CallArgument::positional(int_literal(2), None)];
    let mut env = demo_env(Some(Span::new(0, 1)));
    let err = ctx
        .evaluate_call(&callee, None, &args, &mut env)
        .expect_err("ref binding not allowed for const-eval");
    assert!(
        err.message.contains("cannot use `ref` binding"),
        "unexpected message: {}",
        err.message
    );
}

#[test]
fn execute_const_function_detects_recursion() {
    let looping = make_const_fn(
        "Loop",
        vec![make_param("value", "int")],
        "int",
        Some(make_return_block(ExprNode::Identifier("value".to_string()))),
    );
    let mut ctx = context_with(vec![looping]);
    ctx.fn_stack.push("Demo::Loop".to_string());
    let callee = ExprNode::Identifier("Loop".to_string());
    let args = vec![CallArgument::positional(int_literal(1), None)];
    let mut env = demo_env(Some(Span::new(5, 10)));
    let err = ctx
        .evaluate_call(&callee, None, &args, &mut env)
        .expect_err("cycle should be detected");
    assert!(err.message.contains("cycle detected"), "{}", err.message);
}

#[test]
fn execute_const_function_rejects_async_extern_and_generic() {
    let mut ctx = context_with(Vec::new());
    let mut env = demo_env(Some(Span::new(0, 1)));

    let mut symbol = make_const_fn("Check", Vec::new(), "int", None);
    symbol.function.is_async = true;
    let err = ctx
        .execute_const_function(Rc::new(symbol), Vec::new(), &mut env)
        .expect_err("async const-eval not allowed");
    assert!(err.message.contains("cannot be async"), "{}", err.message);

    let mut symbol = make_const_fn("Check", Vec::new(), "int", None);
    symbol.function.is_extern = true;
    let err = ctx
        .execute_const_function(Rc::new(symbol), Vec::new(), &mut env)
        .expect_err("extern const-eval not allowed");
    assert!(err.message.contains("cannot be extern"), "{}", err.message);

    let mut symbol = make_const_fn("Check", Vec::new(), "int", None);
    symbol.function.generics = Some(vec!["T".to_string()]);
    let err = ctx
        .execute_const_function(Rc::new(symbol), Vec::new(), &mut env)
        .expect_err("generic const-eval not allowed");
    assert!(err.message.contains("cannot be generic"), "{}", err.message);
}

fn named_symbol() -> FunctionDeclSymbol {
    make_const_fn(
        "Named",
        vec![make_param("expected", "int")],
        "int",
        Some(make_return_block(ExprNode::Identifier("expected".to_string()))),
    )
}

#[test]
fn execute_const_function_validates_arguments_and_body() {
    let mut ctx = context_with(Vec::new());
    let mut env = demo_env(Some(Span::new(3, 8)));
    let err = ctx
        .execute_const_function(Rc::new(named_symbol()), Vec::new(), &mut env)
        .expect_err("argument count mismatch should fail");
    assert!(err.message.contains("expects 1 arguments but received 0"));

    let err = ctx
        .execute_const_function(
            Rc::new(named_symbol()),
            vec![(Some("other".to_string()), ConstEvalResult::new(ConstValue::Int(1)))],
            &mut env,
        )
        .expect_err("unknown named argument should fail");
    assert!(err.message.contains("does not have parameter `other`"), "{}", err.message);

    let mut no_body = named_symbol();
    no_body.function.body = None;
    let err = ctx
        .execute_const_function(Rc::new(no_body), Vec::new(), &mut env)
        .expect_err("body required for const-eval");
    assert!(err.message.contains("requires a body"), "{}", err.message);
}

#[test]
fn evaluate_pure_function_body_requires_return_value() {
    let mut ctx = context_with(Vec::new());
    let symbol = make_const_fn("Empty", Vec::new(), "int", Some(Block { statements: Vec::new(), span: None }));
    let params: Vec<(String, ConstValue)> = Vec::new();
    let err = ctx
        .evaluate_pure_function_body(
            &symbol.function,
            symbol.function.body.as_ref().unwrap(),
            None,
            None,
            &params,
            Some(Span::new(10, 20)),
        )
        .expect_err("missing return should fail");
    assert!(err.message.contains("does not return a value"), "{}", err.message);
}

#[test]
fn const_fn_cache_key_handles_enum_and_decimal() {
    let call = make_const_fn("Call", vec![make_param("color", "Demo.Color")], "int", None);
    let ctx = context_with(Vec::new());
    let args = vec![(
        None,
        ConstEvalResult::new(ConstValue::Enum {
            type_path: "Demo.Color".to_string(),
            variant: "Red".to_string(),
            discriminant: 1,
        }),
    )];
    let key = ctx.const_fn_cache_key(&call, &args);
    let expected =
        ConstFnCacheKey::new("Demo::Call".to_string(), vec!["enum:Demo.Color::Red#1".to_string()]);
    assert_eq!(key, expected);
}

fn let_statement(name: &str, expr: ExprNode) -> Statement {
    Statement {
        span: None,
        kind: StatementKind::VariableDeclaration(VariableDeclaration {
            modifier: VariableModifier::Let,
            type_annotation: None,
            declarators: vec![VariableDeclarator {
                name: name.to_string(),
                initializer: Some(Expression::with_node("init".to_string(), None, expr)),
            }],
        }),
    }
}

#[test]
fn function_body_reads_its_local_bindings() {
    let mut body = make_return_block(ExprNode::Binary {
        op: BinOp::Add,
        left: Box::new(ExprNode::Identifier("doubled".to_string())),
        right: Box::new(int_literal(1)),
    });
    body.statements.insert(
        0,
        let_statement(
            "doubled",
            ExprNode::Binary {
                op: BinOp::Mul,
                left: Box::new(ExprNode::Identifier("value".to_string())),
                right: Box::new(int_literal(2)),
            },
        ),
    );
    let calc = make_const_fn("Calc", vec![make_param("value", "int")], "int", Some(body));
    let mut ctx = context_with(vec![calc]);
    let callee = ExprNode::Identifier("Calc".to_string());
    let args = vec![CallArgument::positional(int_literal(3), None)];
    let mut env = demo_env(None);
    let result = ctx.evaluate_call(&callee, None, &args, &mut env).expect("call succeeds");
    assert!(matches!(result.value, ConstValue::Int(7)), "unexpected result: {:?}", result.value);
}

#[test]
fn function_body_rejects_a_second_binding_of_a_name() {
    let mut body = make_return_block(int_literal(0));
    body.statements.insert(0, let_statement("x", int_literal(1)));
    body.statements.insert(0, let_statement("x", int_literal(2)));
    let dup = make_const_fn("Dup", Vec::new(), "int", Some(body));
    let mut ctx = context_with(vec![dup]);
    let callee = ExprNode::Identifier("Dup".to_string());
    let mut env = demo_env(None);
    let err = ctx.evaluate_call(&callee, None, &Vec::new(), &mut env).expect_err("redeclaration fails");
    assert!(err.message.contains("`x`"), "{}", err.message);
}
