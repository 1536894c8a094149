use std::rc::Rc;

use chic_consteval::ast::Expression;
use chic_consteval::cache::ConstEvalConfig;
use chic_consteval::environment::EvalEnv;
use chic_consteval::eval::ConstEvalContext;
use chic_consteval::layout::TypeLayoutTable;
use chic_consteval::reflection::{
    FieldDescriptor, MemberDescriptor, MemberKind, TypeDescriptor, TypeHandle, TypeKind,
    VisibilityDescriptor,
};
use chic_consteval::symbols::{
    ConstSymbol, FieldSymbol, PropertySymbol, StaticUsingCandidate, SymbolIndex, Visibility,
};
use chic_consteval::types::Ty;
use chic_consteval::values::{ConstValue, Span};

fn demo_env() -> EvalEnv {
    EvalEnv::new(Some("Demo".to_string()), None, Some(Span::new(0, 1)))
}

fn handle(name: &str) -> TypeHandle {
    TypeHandle { name: name.to_string(), type_id: None }
}

fn field_member(name: &str) -> MemberDescriptor {
    MemberDescriptor {
        name: name.to_string(),
        kind: MemberKind::Field,
        visibility: VisibilityDescriptor::Public,
        declaring_type: handle("Demo::Point"),
        attributes: Vec::new(),
        field: Some(FieldDescriptor { field_type: handle("int"), is_static: false, is_readonly: false, offset: None }),
        property: None,
        method: None,
        constructor: None,
        children: Vec::new(),
    }
}

fn point_descriptor() -> TypeDescriptor {
    TypeDescriptor {
        namespace: Some("Demo".to_string()),
        name: "Demo::Point".to_string(),
        full_name: "Demo::Point".to_string(),
        type_id: None,
        kind: TypeKind::Struct,
        visibility: VisibilityDescriptor::Public,
        is_generic: false,
        generic_arguments: Vec::new(),
        bases: Vec::new(),
        attributes: Vec::new(),
        underlying_type: None,
        members: vec![field_member("X"), field_member("Y")],
        layout: None,
        layout_hints: None,
        readonly: false,
    }
}

fn reflect_segments() -> Vec<String> {
    vec!["Std".to_string(), "Meta".to_string(), "reflect".to_string()]
}

#[test]
fn static_using_candidate_owner_reports_all_variants() {
    let field_symbol = FieldSymbol {
        ty: "int".to_string(),
        visibility: Visibility::Public,
        is_static: true,
        is_readonly: false,
        is_required: false,
        span: None,
        namespace: None,
    };
    let property_symbol = PropertySymbol {
        ty: "int".to_string(),
        is_static: true,
        accessors: Vec::new(),
        span: None,
        is_required: false,
        is_nullable: false,
        visibility: Visibility::Public,
        namespace: None,
    };
    let const_symbol = ConstSymbol {
        qualified: "Demo::Value".to_string(),
        name: "Value".to_string(),
        owner: Some("Demo::Constants".to_string()),
        namespace: Some("Demo".to_string()),
        ty: Rc::new(Ty::Named { name: "int".to_string(), args: Vec::new() }),
        initializer: Rc::new(Expression { text: "1".to_string(), span: None, node: None }),
        visibility: Visibility::Public,
        span: None,
        value: Some(ConstValue::Int(1)),
    };

    let field = StaticUsingCandidate::Field { owner: "Demo::FieldOwner".to_string(), symbol: field_symbol };
    let property =
        StaticUsingCandidate::Property { owner: "Demo::PropOwner".to_string(), symbol: property_symbol };
    let constant = StaticUsingCandidate::Const { owner: "Demo::ConstOwner".to_string(), symbol: const_symbol };

    assert_eq!(field.owner(), "Demo::FieldOwner");
    assert_eq!(property.owner(), "Demo::PropOwner");
    assert_eq!(constant.owner(), "Demo::ConstOwner");
}

#[test]
fn reflect_intrinsic_yields_descriptor_for_public_struct() {
    let mut symbol_index = SymbolIndex::new();
    symbol_index.reflections.push(("Demo::Point".to_string(), point_descriptor()));
    let ctx = ConstEvalContext::with_config(
        symbol_index,
        TypeLayoutTable::new(8, 8),
        ConstEvalConfig::default(),
    );
    let generics = vec!["Demo::Point".to_string()];
    let value = ctx
        .try_evaluate_reflect_intrinsic(&reflect_segments(), Some(&generics), &Vec::new(), &demo_env())
        .expect("intrinsic evaluation succeeds")
        .expect("reflect returns descriptor");
    match value {
        ConstValue::Struct { type_path, fields } => {
            assert_eq!(type_path, "Std::Meta::TypeDescriptor");
            let name_field = fields.iter().find(|(name, _)| name == "Name").expect("name field present");
            match &name_field.1 {
                ConstValue::RawStr(name) => assert_eq!(name, "Demo::Point"),
                other => panic!("unexpected name field value: {:?}", other),
            }
        }
        other => panic!("unexpected reflect result: {:?}", other),
    }
}

#[test]
fn reflect_intrinsic_requires_type_argument() {
    let ctx = ConstEvalContext::with_config(
        SymbolIndex::new(),
        TypeLayoutTable::new(8, 8),
        ConstEvalConfig::default(),
    );
    let err = ctx
        .try_evaluate_reflect_intrinsic(&reflect_segments(), None, &Vec::new(), &demo_env())
        .expect_err("missing type argument should fail");
    assert!(err.message.contains("requires a single type argument"), "unexpected error: {}", err.message);
}

#[test]
fn reflect_intrinsic_ignores_other_paths_and_checks_arity() {
    let ctx = ConstEvalContext::with_config(
        SymbolIndex::new(),
        TypeLayoutTable::new(8, 8),
        ConstEvalConfig::default(),
    );
    let other = vec!["Demo".to_string(), "reflect".to_string()];
    let none = ctx.try_evaluate_reflect_intrinsic(&other, None, &Vec::new(), &demo_env());
    assert!(matches!(none, Ok(None)));
    let two = vec!["A".to_string(), "B".to_string()];
    let err = ctx
        .try_evaluate_reflect_intrinsic(&reflect_segments(), Some(&two), &Vec::new(), &demo_env())
        .expect_err("two type arguments should fail");
    assert_eq!(err.message, "`reflect<T>()` expects exactly one type argument, found 2");
}
