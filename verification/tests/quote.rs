use chic_consteval::ast::{
    AssignOp, BinOp, CallArgument, CallArgumentModifier, CallArgumentName, CastSyntax, ExprNode,
    InlineBinding, InlineBindingKind, InterpolatedStringSegment, LambdaBody, LambdaExpr,
    LambdaParam, LiteralConst, NameOfOperand, NewExpr, NewInitializer, ObjectInitializerField,
    QuoteInterpolation, QuoteLiteral, QuoteSourceSpan, SizeOfOperand, UnOp,
};
use chic_consteval::cache::ConstEvalConfig;
use chic_consteval::environment::EvalEnv;
use chic_consteval::eval::ConstEvalContext;
use chic_consteval::layout::TypeLayoutTable;
use chic_consteval::symbols::SymbolIndex;
use chic_consteval::values::{ConstValue, Span};

fn context() -> ConstEvalContext {
    ConstEvalContext::with_config(
        SymbolIndex::new(),
        TypeLayoutTable::new(8, 8),
        ConstEvalConfig::default(),
    )
}

fn ident(name: &str) -> ExprNode {
    ExprNode::Identifier(name.to_string())
}

fn boxed(name: &str) -> Box<ExprNode> {
    Box::new(ident(name))
}

fn int_literal(v: i128) -> ExprNode {
    ExprNode::Literal(LiteralConst::without_numeric(ConstValue::Int(v)))
}

fn descriptor_list_items(list: &ConstValue) -> Vec<&ConstValue> {
    let mut current = list;
    let mut items = Vec::new();
    loop {
        let ConstValue::Struct { fields, .. } = current else {
            break;
        };
        let mut is_empty = false;
        let mut head = None;
        let mut tail = None;
        for (name, value) in fields {
            match name.as_str() {
                "IsEmpty" => is_empty = matches!(value, ConstValue::Bool(true)),
                "Head" => head = Some(value),
                "Tail" => tail = Some(value),
                _ => {}
            }
        }
        if is_empty {
            break;
        }
        if let Some(value) = head {
            items.push(value);
        }
        match tail {
            Some(next) => current = next,
            None => break,
        }
    }
    items
}

fn quote_node_summary(node: &ConstValue) -> (String, Option<String>, usize) {
    let ConstValue::Struct { fields, .. } = node else {
        panic!("quote node should be a struct");
    };
    let mut kind = None;
    let mut value = None;
    let mut children = None;
    for (name, field) in fields {
        match name.as_str() {
            "Kind" => {
                if let ConstValue::Enum { variant, .. } = field {
                    kind = Some(variant.clone());
                }
            }
            "Value" => match field {
                ConstValue::RawStr(text) => value = Some(Some(text.clone())),
                ConstValue::Null => value = Some(None),
                _ => {}
            },
            "Children" => children = Some(descriptor_list_items(field).len()),
            _ => {}
        }
    }
    (
        kind.expect("kind present"),
        value.expect("value present"),
        children.expect("children present"),
    )
}

fn field<'a>(fields: &'a [(String, ConstValue)], name: &str) -> &'a ConstValue {
    &fields.iter().find(|(n, _)| n == name).expect("field present").1
}

fn uint_field(value: &ConstValue, name: &str) -> Option<u128> {
    let ConstValue::Struct { fields, .. } = value else {
        return None;
    };
    match field(fields, name) {
        ConstValue::UInt(v) => Some(*v),
        _ => None,
    }
}

#[test]
fn quote_capture_list_deduplicates_identifiers() {
    let ctx = context();
    let expr = ExprNode::Binary {
        op: BinOp::Add,
        left: boxed("x"),
        right: Box::new(ExprNode::Binary { op: BinOp::Mul, left: boxed("x"), right: boxed("y") }),
    };
    let captures = ctx.build_quote_capture_list(&expr);
    assert_eq!(captures, vec!["x".to_string(), "y".to_string()]);
}

#[test]
fn quote_capture_list_collects_inline_bindings_and_new_initializers() {
    let ctx = context();
    let mut argument = CallArgument::named(
        CallArgumentName { text: "first".to_string(), span: None },
        ExprNode::New(NewExpr {
            type_path: "Demo.List".to_string(),
            args: Vec::new(),
            initializer: Some(NewInitializer::Collection { elements: vec![ident("elem")] }),
        }),
        None,
    );
    argument.inline_binding = Some(InlineBinding {
        kind: InlineBindingKind::Var,
        name: "binding".to_string(),
        initializer: Some(ident("init")),
    });
    let expr = ExprNode::Call { callee: boxed("Func"), args: vec![argument], generics: None };
    let captures = ctx.build_quote_capture_list(&expr);
    assert!(
        captures.contains(&"elem".to_string()) && captures.contains(&"init".to_string()),
        "captures missing elements: {:?}",
        captures
    );
}

#[test]
fn quote_capture_list_orders_callee_elements_and_bindings() {
    let ctx = context();
    let mut argument = CallArgument::named(
        CallArgumentName { text: "first".to_string(), span: None },
        ExprNode::New(NewExpr {
            type_path: "Demo.List".to_string(),
            args: Vec::new(),
            initializer: Some(NewInitializer::Collection { elements: vec![ident("elem"), ident("Func")] }),
        }),
        None,
    );
    argument.inline_binding = Some(InlineBinding {
        kind: InlineBindingKind::Var,
        name: "binding".to_string(),
        initializer: Some(ident("init")),
    });
    let expr = ExprNode::Call { callee: boxed("Func"), args: vec![argument], generics: None };
    assert_eq!(
        ctx.build_quote_capture_list(&expr),
        vec!["Func".to_string(), "elem".to_string(), "init".to_string()]
    );
}

fn span_and_hygiene_literal() -> QuoteLiteral {
    QuoteLiteral {
        expression: Box::new(ExprNode::Assign {
            op: AssignOp::AddAssign,
            target: boxed("lhs"),
            value: Box::new(ExprNode::Unary { op: UnOp::Neg, expr: boxed("rhs"), postfix: false }),
        }),
        source: "lhs += -rhs".to_string(),
        sanitized: "lhs += -rhs".to_string(),
        content_span: Some(QuoteSourceSpan { start: 1, end: 5 }),
        interpolations: vec![QuoteInterpolation {
            placeholder: "id".to_string(),
            expression: ExprNode::Quote(Box::new(QuoteLiteral {
                expression: boxed("inner"),
                source: "inner".to_string(),
                sanitized: "inner".to_string(),
                content_span: None,
                interpolations: Vec::new(),
                hygiene_anchor: 0,
            })),
            expression_text: "quote(inner)".to_string(),
            span: Some(QuoteSourceSpan { start: 0, end: 5 }),
        }],
        hygiene_anchor: 2,
    }
}

#[test]
fn evaluate_quote_literal_builds_span_and_hygiene() {
    let mut ctx = context();
    let literal = span_and_hygiene_literal();
    let mut env = EvalEnv::new(None, None, Some(Span::new(10, 25)));
    let result = ctx
        .evaluate_quote_literal(&literal, &mut env)
        .expect("quote literal evaluation succeeds")
        .value;
    let ConstValue::Struct { fields, .. } = &result else {
        panic!("quote literal should produce struct");
    };
    let span_value = field(fields, "Span");
    assert_eq!(uint_field(span_value, "Start"), Some(11));
    assert_eq!(uint_field(span_value, "End"), Some(15));

    let hygiene_value = field(fields, "Hygiene");
    let anchor = 12u128;
    let expected_seed = {
        let mut hash = (anchor as u64) ^ (literal.sanitized.len() as u64).rotate_left(13);
        hash ^= (literal.interpolations.len() as u64).rotate_left(27);
        for byte in literal.sanitized.as_bytes() {
            hash = hash.wrapping_mul(1099511628211).wrapping_add(*byte as u64);
        }
        hash
    };
    assert_eq!(uint_field(hygiene_value, "Anchor"), Some(anchor));
    assert_eq!(uint_field(hygiene_value, "Seed"), Some(expected_seed as u128));

    let captures = ctx.build_quote_capture_list(&ident("lhs"));
    assert_eq!(captures, vec!["lhs".to_string()]);
}

#[test]
fn evaluate_quote_literal_rejects_non_quote_interpolation() {
    let mut ctx = context();
    let literal = QuoteLiteral {
        expression: boxed("value"),
        source: "value".to_string(),
        sanitized: "value".to_string(),
        content_span: None,
        interpolations: vec![QuoteInterpolation {
            placeholder: "p".to_string(),
            expression: int_literal(1),
            expression_text: "1".to_string(),
            span: Some(QuoteSourceSpan { start: 0, end: 1 }),
        }],
        hygiene_anchor: 0,
    };
    let mut env = EvalEnv::new(None, None, Some(Span::new(1, 4)));
    let err = ctx
        .evaluate_quote_literal(&literal, &mut env)
        .expect_err("interpolation must be a quote");
    assert!(err.message.contains("must evaluate to `Std.Meta.Quote`"), "{}", err.message);
}

fn named_argument() -> CallArgument {
    let mut arg = CallArgument::named(
        CallArgumentName { text: "named".to_string(), span: None },
        int_literal(2),
        None,
    )
    .with_modifier(CallArgumentModifier::Ref);
    arg.inline_binding = Some(InlineBinding {
        kind: InlineBindingKind::Var,
        name: "tmp".to_string(),
        initializer: Some(int_literal(3)),
    });
    arg
}

#[test]
fn build_quote_node_value_maps_expression_kinds() {
    let ctx = context();
    let lambda_expr = ExprNode::Lambda(LambdaExpr {
        params: vec![LambdaParam { name: "p".to_string(), ty: Some("int".to_string()) }],
        captures: vec!["c".to_string()],
        body: LambdaBody::Expression(boxed("p")),
        is_async: false,
    });
    let lambda_block = ExprNode::Lambda(LambdaExpr {
        params: Vec::new(),
        captures: Vec::new(),
        body: LambdaBody::Block("{ return 1; }".to_string()),
        is_async: false,
    });
    let new_object = ExprNode::New(NewExpr {
        type_path: "Demo.Point".to_string(),
        args: vec![CallArgument::positional(ident("x"), None)],
        initializer: Some(NewInitializer::Object {
            fields: vec![ObjectInitializerField { name: "x".to_string(), value: ident("field") }],
        }),
    });
    let new_collection = ExprNode::New(NewExpr {
        type_path: "Demo.List".to_string(),
        args: Vec::new(),
        initializer: Some(NewInitializer::Collection { elements: vec![ident("item")] }),
    });
    let interpolated = ExprNode::InterpolatedString(vec![
        InterpolatedStringSegment::Text("hello".to_string()),
        InterpolatedStringSegment::Expr(ident("name")),
    ]);
    let quote = ExprNode::Quote(Box::new(QuoteLiteral {
        expression: boxed("q"),
        source: "q".to_string(),
        sanitized: "q".to_string(),
        content_span: None,
        interpolations: Vec::new(),
        hygiene_anchor: 1,
    }));

    let cases: Vec<(ExprNode, &str)> = vec![
        (ExprNode::Literal(LiteralConst::without_numeric(ConstValue::Bool(true))), "Literal"),
        (ident("x"), "Identifier"),
        (ExprNode::Unary { op: UnOp::Not, expr: boxed("x"), postfix: false }, "Unary"),
        (ExprNode::Binary { op: BinOp::Add, left: boxed("a"), right: boxed("b") }, "Binary"),
        (
            ExprNode::Conditional {
                condition: boxed("cond"),
                then_branch: boxed("lhs"),
                else_branch: boxed("rhs"),
            },
            "Conditional",
        ),
        (
            ExprNode::Cast {
                target: "int".to_string(),
                expr: boxed("number"),
                syntax: CastSyntax::Paren,
            },
            "Cast",
        ),
        (ExprNode::IsPattern { value: boxed("val"), pattern: "_".to_string() }, "Pattern"),
        (lambda_expr, "Lambda"),
        (lambda_block, "Lambda"),
        (ExprNode::Parenthesized(boxed("wrap")), "Tuple"),
        (ExprNode::Tuple(vec![ident("first"), ident("second")]), "Tuple"),
        (
            ExprNode::Assign {
                target: boxed("lhs"),
                op: AssignOp::NullCoalesceAssign,
                value: boxed("rhs"),
            },
            "Assign",
        ),
        (
            ExprNode::Member {
                base: boxed("obj"),
                member: "prop".to_string(),
                null_conditional: false,
            },
            "Member",
        ),
        (
            ExprNode::Call {
                callee: Box::new(ExprNode::Member {
                    base: boxed("service"),
                    member: "run".to_string(),
                    null_conditional: false,
                }),
                args: vec![named_argument()],
                generics: Some(vec!["T".to_string()]),
            },
            "Call",
        ),
        (ExprNode::Ref { expr: boxed("target"), readonly: true }, "Ref"),
        (new_object, "New"),
        (new_collection, "New"),
        (
            ExprNode::Index {
                base: boxed("arr"),
                indices: vec![int_literal(0)],
                null_conditional: false,
            },
            "Index",
        ),
        (ExprNode::Await { expr: boxed("future") }, "Await"),
        (ExprNode::TryPropagate { expr: boxed("fallible") }, "TryPropagate"),
        (ExprNode::Throw { expr: Some(boxed("err")) }, "Throw"),
        (ExprNode::Throw { expr: None }, "Throw"),
        (ExprNode::SizeOf(SizeOfOperand::Type("int".to_string())), "SizeOf"),
        (ExprNode::SizeOf(SizeOfOperand::Value(boxed("x"))), "SizeOf"),
        (ExprNode::AlignOf(SizeOfOperand::Type("int".to_string())), "AlignOf"),
        (ExprNode::AlignOf(SizeOfOperand::Value(boxed("x"))), "AlignOf"),
        (
            ExprNode::NameOf(NameOfOperand {
                segments: vec!["Demo".to_string(), "Foo".to_string()],
                text: "Demo.Foo".to_string(),
                span: None,
            }),
            "NameOf",
        ),
        (interpolated, "InterpolatedString"),
        (quote, "Quote"),
    ];

    for (expr, expected_kind) in cases {
        let node = ctx.build_quote_node_value(&expr);
        let (kind, _, children) = quote_node_summary(&node);
        assert_eq!(kind, expected_kind);
        if !matches!(
            expected_kind,
            "Literal" | "Identifier" | "SizeOf" | "AlignOf" | "NameOf" | "Throw"
        ) {
            assert!(children > 0, "expected children for kind {}", expected_kind);
        }
    }
}

#[test]
fn quote_helpers_cover_operator_symbols() {
    let ctx = context();
    for (op, symbol) in [
        (UnOp::Neg, "-"),
        (UnOp::UnaryPlus, "+"),
        (UnOp::Not, "!"),
        (UnOp::BitNot, "~"),
        (UnOp::Increment, "++"),
        (UnOp::Decrement, "--"),
        (UnOp::Deref, "*"),
        (UnOp::AddrOf, "&"),
        (UnOp::AddrOfMut, "&mut"),
    ] {
        let node = ctx.build_quote_node_value(&ExprNode::Unary { op, expr: boxed("x"), postfix: false });
        let (_, value, _) = quote_node_summary(&node);
        assert_eq!(value, Some(symbol.to_string()));
    }
    for (op, symbol) in [
        (BinOp::Sub, "-"),
        (BinOp::Mul, "*"),
        (BinOp::Div, "/"),
        (BinOp::Rem, "%"),
        (BinOp::BitAnd, "&"),
        (BinOp::BitOr, "|"),
        (BinOp::BitXor, "^"),
        (BinOp::Shl, "<<"),
        (BinOp::Shr, ">>"),
        (BinOp::Eq, "=="),
        (BinOp::Ne, "!="),
        (BinOp::Lt, "<"),
        (BinOp::Le, "<="),
        (BinOp::Gt, ">"),
        (BinOp::Ge, ">="),
        (BinOp::And, "&&"),
        (BinOp::Or, "||"),
        (BinOp::NullCoalesce, "??"),
    ] {
        let node = ctx.build_quote_node_value(&ExprNode::Binary { op, left: boxed("l"), right: boxed("r") });
        let (_, value, _) = quote_node_summary(&node);
        assert_eq!(value, Some(symbol.to_string()));
    }
    for (op, symbol) in [
        (AssignOp::Assign, "="),
        (AssignOp::AddAssign, "+="),
        (AssignOp::SubAssign, "-="),
        (AssignOp::MulAssign, "*="),
        (AssignOp::DivAssign, "/="),
        (AssignOp::RemAssign, "%="),
        (AssignOp::BitAndAssign, "&="),
        (AssignOp::BitOrAssign, "|="),
        (AssignOp::BitXorAssign, "^="),
        (AssignOp::ShlAssign, "<<="),
        (AssignOp::ShrAssign, ">>="),
        (AssignOp::NullCoalesceAssign, "??="),
    ] {
        let node = ctx.build_quote_node_value(&ExprNode::Assign { target: boxed("t"), op, value: boxed("v") });
        let (_, value, _) = quote_node_summary(&node);
        assert_eq!(value, Some(symbol.to_string()));
    }
}

#[test]
fn quote_node_of_postfix_increment_marks_post() {
    let ctx = context();
    let node = ctx.build_quote_node_value(&ExprNode::Unary {
        op: UnOp::Increment,
        expr: boxed("i"),
        postfix: true,
    });
    let (kind, value, children) = quote_node_summary(&node);
    assert_eq!(kind, "Unary");
    assert_eq!(value, Some("++(post)".to_string()));
    assert_eq!(children, 1);
}

#[test]
fn quote_argument_node_summarises_name_modifier_and_binding() {
    let ctx = context();
    let node = ctx.build_quote_argument_node(&named_argument());
    let (kind, value, children) = quote_node_summary(&node);
    assert_eq!(kind, "Argument");
    assert_eq!(value, Some("name=named,modifier=ref,binding=true".to_string()));
    assert_eq!(children, 1);
    let plain = ctx.build_quote_argument_node(&CallArgument::positional(ident("x"), None));
    assert_eq!(quote_node_summary(&plain).1, None);
}

#[test]
fn quote_capture_list_skips_slots_and_nested_quotes() {
    let ctx = context();
    let expr = ExprNode::Tuple(vec![
        ident("__chic_quote_slot0"),
        ident("b"),
        ExprNode::Quote(Box::new(QuoteLiteral {
            expression: boxed("hidden"),
            source: "hidden".to_string(),
            sanitized: "hidden".to_string(),
            content_span: None,
            interpolations: Vec::new(),
            hygiene_anchor: 0,
        })),
        ident("a"),
        ident("b"),
    ]);
    assert_eq!(ctx.build_quote_capture_list(&expr), vec!["b".to_string(), "a".to_string()]);
}

#[test]
fn quote_span_without_outer_span_is_relative() {
    let ctx = context();
    let value = ctx.build_quote_span_value(Some(QuoteSourceSpan { start: 3, end: 7 }), None);
    assert_eq!(uint_field(&value, "Start"), Some(3));
    assert_eq!(uint_field(&value, "End"), Some(7));
    let empty = ctx.build_quote_span_value(None, Some(Span::new(5, 9)));
    assert_eq!(uint_field(&empty, "Start"), Some(0));
    assert_eq!(uint_field(&empty, "End"), Some(0));
    let saturated = ctx.absolute_quote_span_values(
        QuoteSourceSpan { start: 1, end: 2 },
        Some(Span::new(usize::MAX, usize::MAX)),
    );
    assert_eq!(saturated, (usize::MAX, usize::MAX));
}
