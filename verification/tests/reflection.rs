use chic_consteval::cache::ConstEvalConfig;
use chic_consteval::environment::EvalEnv;
use chic_consteval::eval::ConstEvalContext;
use chic_consteval::layout::{FieldLayout, LayoutKind, TypeLayout, TypeLayoutTable};
use chic_consteval::reflection::{
    build_type_layout_descriptor, namespace_of_path, reflect_member_descriptor_value,
    reflect_parameter_descriptor_value, reflect_type_descriptor_value, AttributeArgument,
    AttributeDescriptor, MemberDescriptor, MemberKind, MethodDescriptor, ParameterDescriptor,
    ParameterMode, TypeDescriptor, TypeHandle, TypeKind, VisibilityDescriptor,
};
use chic_consteval::symbols::SymbolIndex;
use chic_consteval::values::{ConstValue, Span};

fn handle(name: &str) -> TypeHandle {
    TypeHandle { name: name.to_string(), type_id: None }
}

fn descriptor(name: &str, namespace: Option<&str>) -> TypeDescriptor {
    TypeDescriptor {
        namespace: namespace.map(|n| n.to_string()),
        name: name.to_string(),
        full_name: name.to_string(),
        type_id: Some(7),
        kind: TypeKind::Class,
        visibility: VisibilityDescriptor::Internal,
        is_generic: false,
        generic_arguments: Vec::new(),
        bases: vec![handle("Demo::Base")],
        attributes: Vec::new(),
        underlying_type: None,
        members: Vec::new(),
        layout: None,
        layout_hints: None,
        readonly: true,
    }
}

fn field<'a>(value: &'a ConstValue, name: &str) -> &'a ConstValue {
    match value {
        ConstValue::Struct { fields, .. } => &fields.iter().find(|(n, _)| n == name).expect("field present").1,
        other => panic!("expected a struct, found {:?}", other),
    }
}

fn type_of(value: &ConstValue) -> &str {
    match value {
        ConstValue::Struct { type_path, .. } => type_path.as_str(),
        other => panic!("expected a struct, found {:?}", other),
    }
}

fn list_items(list: &ConstValue) -> Vec<&ConstValue> {
    let mut out = Vec::new();
    let mut cell = list;
    loop {
        match field(cell, "IsEmpty") {
            ConstValue::Bool(true) => return out,
            ConstValue::Bool(false) => {
                out.push(field(cell, "Head"));
                cell = field(cell, "Tail");
            }
            other => panic!("unexpected list flag {:?}", other),
        }
    }
}

fn context(symbols: SymbolIndex, layouts: TypeLayoutTable) -> ConstEvalContext {
    ConstEvalContext::with_config(symbols, layouts, ConstEvalConfig::default())
}

fn env() -> EvalEnv {
    EvalEnv::new(Some("Demo".to_string()), None, Some(Span::new(2, 4)))
}

fn reflect(ctx: &ConstEvalContext, ty: &str) -> Result<Option<ConstValue>, String> {
    let segments = vec!["reflect".to_string()];
    ctx.try_evaluate_reflect_intrinsic(&segments, Some(&vec![ty.to_string()]), &Vec::new(), &env())
        .map_err(|e| e.message)
}

fn widget_layout() -> TypeLayout {
    TypeLayout {
        kind: LayoutKind::Struct,
        name: "Demo::Widget".to_string(),
        size: Some(16),
        align: Some(8),
        fields: vec![
            FieldLayout {
                name: "A".to_string(),
                ty: "int".to_string(),
                offset: Some(0),
                is_readonly: false,
                is_required: false,
                display_name: None,
            },
            FieldLayout {
                name: "B".to_string(),
                ty: "long".to_string(),
                offset: Some(8),
                is_readonly: true,
                is_required: false,
                display_name: None,
            },
        ],
        variants: Vec::new(),
        bases: Vec::new(),
    }
}

#[test]
fn type_descriptor_reflects_every_field_in_order() {
    let value = reflect_type_descriptor_value(&descriptor("Demo::Widget", Some("Demo")));
    assert_eq!(type_of(&value), "Std::Meta::TypeDescriptor");
    let names: Vec<&str> = match &value {
        ConstValue::Struct { fields, .. } => fields.iter().map(|(n, _)| n.as_str()).collect(),
        _ => unreachable!(),
    };
    assert_eq!(
        names,
        vec![
            "Namespace", "Name", "FullName", "TypeId", "Kind", "Visibility", "IsGeneric",
            "GenericArguments", "Bases", "Attributes", "UnderlyingType", "Members", "Layout",
            "LayoutHints", "Readonly"
        ]
    );
    assert!(matches!(field(&value, "TypeId"), ConstValue::UInt(7)));
    match field(&value, "Kind") {
        ConstValue::Enum { type_path, variant, discriminant } => {
            assert_eq!(type_path, "Std::Meta::TypeKind");
            assert_eq!(variant, "Class");
            assert_eq!(*discriminant, 2);
        }
        other => panic!("unexpected kind {:?}", other),
    }
    let bases = list_items(field(&value, "Bases"));
    assert_eq!(bases.len(), 1);
    assert_eq!(type_of(field(&value, "Bases")), "Std::Meta::DescriptorList<Std::Meta::TypeHandle>");
    assert!(matches!(field(bases[0], "Name"), ConstValue::RawStr(n) if n == "Demo::Base"));
    assert!(matches!(field(bases[0], "TypeId"), ConstValue::Null));
    assert!(matches!(field(&value, "Layout"), ConstValue::Null));
    assert!(matches!(field(&value, "Readonly"), ConstValue::Bool(true)));
}

#[test]
fn member_descriptor_reflects_nested_members() {
    let method = MethodDescriptor {
        return_type: handle("void"),
        parameters: vec![],
        is_static: true,
        is_virtual: false,
        is_override: false,
        is_abstract: false,
        is_async: true,
        throws: vec!["Demo::Oops".to_string()],
        extern_abi: None,
    };
    let child = MemberDescriptor {
        name: "Inner".to_string(),
        kind: MemberKind::Method,
        visibility: VisibilityDescriptor::Private,
        declaring_type: handle("Demo::Outer"),
        attributes: Vec::new(),
        field: None,
        property: None,
        method: Some(method),
        constructor: None,
        children: Vec::new(),
    };
    let outer = MemberDescriptor {
        name: "Outer".to_string(),
        kind: MemberKind::AssociatedType,
        visibility: VisibilityDescriptor::Public,
        declaring_type: handle("Demo"),
        attributes: vec![AttributeDescriptor {
            name: "Obsolete".to_string(),
            positional_args: vec![AttributeArgument { name: None, value: "\"old\"".to_string() }],
            named_args: vec![AttributeArgument { name: Some("Error".to_string()), value: "true".to_string() }],
        }],
        field: None,
        property: None,
        method: None,
        constructor: None,
        children: vec![child],
    };
    let value = reflect_member_descriptor_value(&outer);
    assert_eq!(type_of(&value), "Std::Meta::MemberDescriptor");
    assert!(matches!(field(&value, "Kind"), ConstValue::Enum { variant, discriminant: 8, .. } if variant == "AssociatedType"));
    assert!(matches!(field(&value, "Method"), ConstValue::Null));
    let children = list_items(field(&value, "Children"));
    assert_eq!(children.len(), 1);
    let inner = children[0];
    assert!(matches!(field(inner, "Name"), ConstValue::RawStr(n) if n == "Inner"));
    let m = field(inner, "Method");
    assert_eq!(type_of(m), "Std::Meta::MethodDescriptor");
    assert!(matches!(field(m, "IsAsync"), ConstValue::Bool(true)));
    let throws = list_items(field(m, "Throws"));
    assert!(matches!(throws[..], [ConstValue::RawStr(t)] if t == "Demo::Oops"));
    let attrs = list_items(field(&value, "Attributes"));
    let named = list_items(field(attrs[0], "NamedArgs"));
    assert!(matches!(field(named[0], "Name"), ConstValue::RawStr(n) if n == "Error"));
    let positional = list_items(field(attrs[0], "PositionalArgs"));
    assert!(matches!(field(positional[0], "Name"), ConstValue::Null));
}

#[test]
fn parameter_descriptor_reflects_mode_and_default() {
    let p = ParameterDescriptor {
        name: "count".to_string(),
        parameter_type: handle("int"),
        mode: ParameterMode::Out,
        has_default: true,
        default_value: Some("3".to_string()),
        attributes: Vec::new(),
    };
    let value = reflect_parameter_descriptor_value(&p);
    assert!(matches!(field(&value, "Mode"), ConstValue::Enum { variant, discriminant: 2, .. } if variant == "Out"));
    assert!(matches!(field(&value, "DefaultValue"), ConstValue::RawStr(d) if d == "3"));
    assert!(list_items(field(&value, "Attributes")).is_empty());
}

#[test]
fn layout_descriptor_comes_from_the_layout_table() {
    let mut layouts = TypeLayoutTable::new(8, 8);
    layouts.types.push(widget_layout());
    let d = build_type_layout_descriptor(&layouts, "Demo::Widget<int>").expect("base layout found");
    assert_eq!(d.size, Some(16));
    assert_eq!(d.align, Some(8));
    assert_eq!(d.fields.len(), 2);
    assert_eq!(d.fields[1].name, "B");
    assert_eq!(d.fields[1].offset, Some(8));
    assert_eq!(d.fields[1].readonly, Some(true));
    assert_eq!(d.fields[1].ty.as_ref().map(|h| h.name.as_str()), Some("long"));
    assert!(build_type_layout_descriptor(&layouts, "Demo::Missing").is_none());
    let mut union = widget_layout();
    union.kind = LayoutKind::Union;
    union.name = "Demo::U".to_string();
    let mut enumeration = widget_layout();
    enumeration.kind = LayoutKind::Enum;
    enumeration.name = "Demo::E".to_string();
    layouts.types.push(union);
    layouts.types.push(enumeration);
    let u = build_type_layout_descriptor(&layouts, "Demo::U").expect("union layout");
    assert!(u.fields.iter().all(|f| f.offset.is_none()));
    let e = build_type_layout_descriptor(&layouts, "Demo::E").expect("enum layout");
    assert!(e.fields.is_empty());
}

#[test]
fn namespace_is_everything_before_the_last_separator() {
    assert_eq!(namespace_of_path("Demo::Inner::Point"), Some("Demo::Inner".to_string()));
    assert_eq!(namespace_of_path("Point"), None);
    assert_eq!(namespace_of_path("a:::b"), Some("a:".to_string()));
}

#[test]
fn reflect_fills_in_namespace_full_name_and_layout() {
    let mut symbols = SymbolIndex::new();
    symbols.reflections.push(("Demo::Widget".to_string(), descriptor("Widget", None)));
    let mut layouts = TypeLayoutTable::new(8, 8);
    layouts.types.push(widget_layout());
    let ctx = context(symbols, layouts);
    let value = reflect(&ctx, "  Widget ").expect("reflect succeeds").expect("descriptor found");
    assert!(matches!(field(&value, "Namespace"), ConstValue::RawStr(n) if n == "Demo"));
    assert!(matches!(field(&value, "Name"), ConstValue::RawStr(n) if n == "Widget"));
    assert!(matches!(field(&value, "FullName"), ConstValue::RawStr(n) if n == "Demo::Widget"));
    let layout = field(&value, "Layout");
    assert_eq!(type_of(layout), "Std::Meta::TypeLayoutDescriptor");
    assert!(matches!(field(layout, "Size"), ConstValue::UInt(16)));
    let fields = list_items(field(layout, "Fields"));
    assert_eq!(fields.len(), 2);
    assert!(matches!(field(fields[0], "Offset"), ConstValue::UInt(0)));
}

#[test]
fn reflect_tries_dotted_and_plain_names() {
    let mut symbols = SymbolIndex::new();
    symbols.reflections.push(("Demo.Point".to_string(), descriptor("Point", Some("Demo"))));
    symbols.reflections.push(("List".to_string(), descriptor("List", None)));
    let ctx = context(symbols, TypeLayoutTable::new(8, 8));
    let value = reflect(&ctx, "Demo::Point").expect("reflect succeeds").expect("descriptor found");
    assert!(matches!(field(&value, "FullName"), ConstValue::RawStr(n) if n == "Demo::Point"));
    assert!(matches!(field(&value, "Namespace"), ConstValue::RawStr(n) if n == "Demo"));
    let list = reflect(&ctx, "List<int>").expect("reflect succeeds").expect("descriptor found");
    assert!(matches!(field(&list, "FullName"), ConstValue::RawStr(n) if n == "List<int>"));
    assert!(matches!(field(&list, "Namespace"), ConstValue::Null));
}

#[test]
fn reflect_reports_unexported_and_unknown_types() {
    let mut layouts = TypeLayoutTable::new(8, 8);
    layouts.types.push(widget_layout());
    let ctx = context(SymbolIndex::new(), layouts);
    assert_eq!(
        reflect(&ctx, "Widget").unwrap_err(),
        "`reflect<T>()` can only be used with public types; `Demo::Widget` is not exported"
    );
    assert_eq!(
        reflect(&ctx, "Gadget").unwrap_err(),
        "`reflect<T>()` could not find a descriptor for type `Gadget`"
    );
    assert_eq!(
        reflect(&ctx, "int[]").unwrap_err(),
        "`reflect<T>()` requires a named type; `int[]` is not supported"
    );
}
