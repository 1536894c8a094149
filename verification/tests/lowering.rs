use chic_consteval::lowering::{
    align_to, collect_async_frame_policy, collect_testcase_attributes, collect_type_param_names,
    find_attr, normalize_testcase_attribute_value, normalized_attr_name, parse_frame_limit,
    parse_no_capture, parse_numeric_literal, qualify, strip_generics, substitute_opaque_ty,
    type_expr_from_class, weak_import_outcome, conditional_return_check, with_receiver, ReceiverParam, Attribute, AttributeArgument, DefaultArgumentMap, DefaultArgumentValue,
    GenericParam, GenericParamKind, GenericParams, NoCaptureMode,
};
use chic_consteval::types::Ty;
use chic_consteval::values::{ConstValue, Span};

fn arg(value: &str) -> AttributeArgument {
    AttributeArgument { name: None, value: value.to_string(), span: None }
}

fn attr(name: &str, args: Vec<AttributeArgument>) -> Attribute {
    Attribute { name: name.to_string(), arguments: args, span: Some(Span::new(1, 2)) }
}

#[test]
fn numeric_literals_accept_radix_prefixes_quotes_and_underscores() {
    assert_eq!(parse_numeric_literal("4096"), Some(4096));
    assert_eq!(parse_numeric_literal(" \"1_024\" "), Some(1024));
    assert_eq!(parse_numeric_literal("'0x10'"), Some(16));
    assert_eq!(parse_numeric_literal("0b101"), Some(5));
    assert_eq!(parse_numeric_literal("0O17"), Some(15));
    assert_eq!(parse_numeric_literal("+7"), Some(7));
    assert_eq!(parse_numeric_literal("18446744073709551615"), Some(u64::MAX));
    assert_eq!(parse_numeric_literal("18446744073709551616"), None);
    assert_eq!(parse_numeric_literal("0x"), None);
    assert_eq!(parse_numeric_literal("_"), None);
    assert_eq!(parse_numeric_literal("12a"), None);
    assert_eq!(parse_numeric_literal("+"), None);
}

#[test]
fn frame_limit_reads_bytes_and_reports_errors() {
    let ok = parse_frame_limit(&attr("frame_limit", vec![arg(" 4096 ")])).expect("limit parses");
    assert_eq!(ok.0, 4096);
    let named = AttributeArgument { name: Some("BYTES".to_string()), value: "64".to_string(), span: None };
    let other = AttributeArgument { name: Some("other".to_string()), value: "1".to_string(), span: None };
    assert_eq!(parse_frame_limit(&attr("frame_limit", vec![other, named])).expect("named").0, 64);
    let missing = parse_frame_limit(&attr("frame_limit", Vec::new())).expect_err("no argument");
    assert_eq!(missing.0, "expected byte limit for `@frame_limit`, e.g., `@frame_limit(4096)`");
    let zero = parse_frame_limit(&attr("frame_limit", vec![arg("0")])).expect_err("zero");
    assert_eq!(zero.0, "`@frame_limit` must be greater than zero bytes");
    assert_eq!(zero.1, Some(Span::new(1, 2)));
    let bad = parse_frame_limit(&attr("frame_limit", vec![arg("lots")])).expect_err("not a number");
    assert_eq!(bad.0, "could not parse `lots` as a byte count for `@frame_limit` (expected integer literal)");
}

#[test]
fn no_capture_modes() {
    assert_eq!(parse_no_capture(&attr("no_capture", Vec::new())).unwrap().0, NoCaptureMode::Any);
    assert_eq!(parse_no_capture(&attr("no_capture", vec![arg("\"Move-Only\"")])).unwrap().0, NoCaptureMode::MoveOnly);
    assert_eq!(parse_no_capture(&attr("no_capture", vec![arg("''")])).unwrap().0, NoCaptureMode::Any);
    let err = parse_no_capture(&attr("no_capture", vec![arg("Copy")])).unwrap_err();
    assert_eq!(err.0, "unsupported mode `copy` for `@no_capture` (expected `move` or omitted)");
}

#[test]
fn async_frame_policy_checks_context_and_duplicates() {
    let attrs = vec![
        attr("stack_only", Vec::new()),
        attr("StackOnly", Vec::new()),
        attr("frame_limit", vec![arg("128")]),
        attr("no_capture", vec![arg("move")]),
        attr("inline", Vec::new()),
    ];
    let (policy, diags) = collect_async_frame_policy(&attrs, true, "ASYNC");
    assert!(policy.stack_only.is_some());
    assert_eq!(policy.frame_limit.map(|f| f.bytes), Some(128));
    assert_eq!(policy.no_capture.map(|n| n.mode), Some(NoCaptureMode::MoveOnly));
    assert_eq!(diags.len(), 1);
    assert_eq!(diags[0].message, "[ASYNC] duplicate `@stack_only` attribute");
    let (sync_policy, sync_diags) = collect_async_frame_policy(&attrs[..1], false, "ASYNC");
    assert!(sync_policy.stack_only.is_none());
    assert_eq!(
        sync_diags[0].message,
        "[ASYNC] `@stack_only` is only valid on async functions or testcases"
    );
}

#[test]
fn testcase_attributes_collect_sorted_categories_and_id() {
    let attrs = vec![
        attr("Tag", vec![arg("\"Slow\""), arg("fast"), arg("slow")]),
        attr("category", vec![arg("  ")]),
        attr("id", vec![arg("case-1")]),
        attr("test_id", vec![arg("case-2")]),
        attr("id", vec![arg("bad id!")]),
        attr("group", Vec::new()),
        attr("timeout", Vec::new()),
    ];
    let (categories, id, diags) = collect_testcase_attributes(&attrs);
    assert_eq!(categories, vec!["fast".to_string(), "slow".to_string()]);
    assert_eq!(id, Some("case-1".to_string()));
    let messages: Vec<&str> = diags.iter().map(|d| d.message.as_str()).collect();
    assert_eq!(
        messages,
        vec![
            "empty testcase category/tag argument",
            "duplicate testcase id attributes; keeping `case-1` and ignoring `case-2`",
            "testcase id `bad id!` contains unsupported characters; use letters, digits, '-', '_', or '.'",
            "testcase category/tag attributes require at least one argument",
            "attribute `@timeout` is not supported on testcase declarations",
        ]
    );
    assert_eq!(normalize_testcase_attribute_value("  'x'  "), "x");
    assert_eq!(normalize_testcase_attribute_value("\"x'"), "\"x'");
}

#[test]
fn attribute_names_are_normalized() {
    assert_eq!(normalized_attr_name("Frame_Limit-X"), "framelimitx");
    let attrs = vec![attr("inline", Vec::new()), attr("No_Capture", Vec::new())];
    assert_eq!(find_attr(&attrs, "nocapture").map(|a| a.name.as_str()), Some("No_Capture"));
    assert!(find_attr(&attrs, "stackonly").is_none());
}

#[test]
fn qualify_joins_namespace_and_name() {
    assert_eq!(qualify(Some("Demo.Inner"), "Point"), "Demo::Inner::Point");
    assert_eq!(qualify(Some("Demo"), "Demo::Point"), "Demo::Point");
    assert_eq!(qualify(Some("Demo"), ""), "Demo");
    assert_eq!(qualify(Some(""), "Point"), "Point");
    assert_eq!(qualify(None, "A.B"), "A.B");
}

#[test]
fn alignment_and_type_helpers() {
    assert_eq!(align_to(13, 8), 16);
    assert_eq!(align_to(16, 8), 16);
    assert_eq!(align_to(5, 1), 5);
    assert_eq!(align_to(0, 4), 0);
    let ty = type_expr_from_class("Demo::Inner::Point");
    assert_eq!(ty.base, vec!["Demo", "Inner", "Point"]);
    assert_eq!(strip_generics(" List<Map<K, V>>Tail "), "ListTail");
    let params = GenericParams {
        params: vec![
            GenericParam { name: "T".to_string(), kind: GenericParamKind::Type },
            GenericParam { name: "N".to_string(), kind: GenericParamKind::Const },
            GenericParam { name: "U".to_string(), kind: GenericParamKind::Type },
        ],
    };
    assert_eq!(collect_type_param_names(Some(&params)), vec!["T", "U"]);
    assert!(collect_type_param_names(None).is_empty());
}

#[test]
fn opaque_types_are_substituted_everywhere() {
    let opaque = || Ty::TraitObject { name: "Iterator".to_string(), opaque_impl: true };
    let target = Ty::Named {
        name: "Task".to_string(),
        args: vec![Ty::Nullable(Box::new(opaque())), Ty::Tuple(vec![opaque(), Ty::String])],
    };
    let concrete = Ty::Named { name: "Range".to_string(), args: Vec::new() };
    let r = substitute_opaque_ty(&target, &concrete);
    let Ty::Named { name, args } = r else { panic!("named type expected") };
    assert_eq!(name, "Task");
    assert!(matches!(&args[0], Ty::Nullable(inner) if matches!(inner.as_ref(), Ty::Named { name, .. } if name == "Range")));
    assert!(matches!(&args[1], Ty::Tuple(items) if matches!(&items[0], Ty::Named { name, .. } if name == "Range") && matches!(items[1], Ty::String)));
    let dyn_ty = Ty::TraitObject { name: "Shape".to_string(), opaque_impl: false };
    assert!(matches!(substitute_opaque_ty(&dyn_ty, &concrete), Ty::TraitObject { opaque_impl: false, .. }));
}

#[test]
fn default_arguments_are_recorded_per_function() {
    let mut map = DefaultArgumentMap::new();
    map.record("Demo::f#0".to_string(), vec![None, Some(DefaultArgumentValue::Const(ConstValue::Int(3)))]);
    assert!(map.value("Demo::f#0", 0).is_none());
    assert!(matches!(map.value("Demo::f#0", 1), Some(DefaultArgumentValue::Const(ConstValue::Int(3)))));
    assert!(map.value("Demo::f#0", 2).is_none());
    assert!(map.value("Demo::g#0", 0).is_none());
    map.record("Demo::f#0".to_string(), vec![Some(DefaultArgumentValue::Thunk {
        symbol: "Demo::f#default0".to_string(),
        metadata_count: 0,
        span: None,
    })]);
    assert!(matches!(map.value("Demo::f#0", 0), Some(DefaultArgumentValue::Thunk { .. })));
    assert!(map.value("Demo::f#0", 1).is_none());
}

#[test]
fn weak_and_weak_import_rules() {
    let w = Some(Span::new(1, 2));
    let wi = Some(Span::new(3, 4));
    let (diags, weak_import) = weak_import_outcome(Some(w), Some(wi), true, true, false);
    assert!(!weak_import);
    assert_eq!(diags.len(), 1);
    assert!(diags[0].message.starts_with("[MIRL0450]"));
    assert_eq!(diags[0].span, wi);
    let (diags, _) = weak_import_outcome(Some(w), Some(None), true, true, false);
    assert_eq!(diags[0].span, w);
    let (diags, weak_import) = weak_import_outcome(None, Some(wi), false, true, false);
    assert!(!weak_import);
    assert!(diags[0].message.starts_with("[MIRL0451]"));
    let (diags, _) = weak_import_outcome(None, Some(wi), true, true, true);
    assert!(diags[0].message.starts_with("[MIRL0452]"));
    let (diags, _) = weak_import_outcome(None, Some(wi), true, false, false);
    assert_eq!(diags[0].message, "[MIRL0453] `@weak_import` requires an explicit `@extern` ABI");
    let (diags, weak_import) = weak_import_outcome(None, Some(wi), true, true, false);
    assert!(weak_import && diags.is_empty());
    let (diags, weak_import) = weak_import_outcome(Some(w), None, false, false, true);
    assert!(!weak_import && diags.is_empty());
}

#[test]
fn conditional_requires_void_return() {
    let d = conditional_return_check(Some(Some(Span::new(5, 9))), false).expect("diagnostic");
    assert_eq!(d.message, "[MIRL0330] `@conditional` requires a void return type");
    assert_eq!(d.span, Some(Span::new(5, 9)));
    assert!(conditional_return_check(Some(None), true).is_none());
    assert!(conditional_return_check(None, false).is_none());
}

fn rparam(name: &str, ty: &str, ext: bool) -> ReceiverParam {
    ReceiverParam { name: name.to_string(), type_text: ty.to_string(), is_extension_this: ext }
}

fn shape(ps: &[ReceiverParam]) -> Vec<(String, String, bool)> {
    ps.iter().map(|p| (p.name.clone(), p.type_text.clone(), p.is_extension_this)).collect()
}

#[test]
fn methods_get_a_self_receiver() {
    let r = with_receiver(vec![rparam("x", "int", false)], true, false);
    assert_eq!(
        shape(&r),
        vec![("self".to_string(), "Self".to_string(), false), ("x".to_string(), "int".to_string(), false)]
    );
    let r = with_receiver(vec![rparam("This", "var", false), rparam("x", "int", false)], true, false);
    assert_eq!(shape(&r)[0], ("This".to_string(), "Self".to_string(), false));
    assert_eq!(r.len(), 2);
    let r = with_receiver(vec![rparam("other", "Demo", true)], true, false);
    assert_eq!(shape(&r), vec![("other".to_string(), "Demo".to_string(), true)]);
    let r = with_receiver(vec![rparam("x", "int", false)], true, true);
    assert_eq!(r.len(), 1);
    let r = with_receiver(Vec::new(), false, false);
    assert!(r.is_empty());
    let r = with_receiver(Vec::new(), true, false);
    assert_eq!(shape(&r), vec![("self".to_string(), "Self".to_string(), false)]);
}
