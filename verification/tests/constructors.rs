use chic_consteval::constructors::{
    check_constructor_field_initialization, collect_missing_fields, compute_predecessors,
    intersect_predecessors, is_runtime_managed_field, is_self_delegating_initializer,
    missing_fields_message, property_field_write, resolve_field_index, BasicBlock,
    ConstructorInitTarget, ConstructorInitializer, ConstructorKind, FieldLayout, MirBody,
    MirStatement, MirStatementKind, Operand, Place, ProjectionElem, PropertyAccessor,
    PropertyAccessorKind, StructLayout, Terminator,
};
use chic_consteval::values::Span;

const SELF: usize = 1;

fn field(name: &str) -> FieldLayout {
    FieldLayout { name: name.to_string(), display_name: None, is_required: false }
}

fn point() -> StructLayout {
    StructLayout { name: "Demo::Point".to_string(), fields: vec![field("x"), field("y")], is_class: false }
}

fn assign(name: &str) -> MirStatement {
    MirStatement {
        kind: MirStatementKind::Assign {
            place: Place { local: SELF, projection: vec![ProjectionElem::FieldNamed(name.to_string())] },
        },
    }
}

fn block(id: usize, statements: Vec<MirStatement>, terminator: Terminator) -> BasicBlock {
    BasicBlock { id, statements, terminator: Some(terminator) }
}

fn self_arg() -> Operand {
    Operand::Copy(Place { local: SELF, projection: vec![] })
}

fn messages(body: &MirBody, layout: &StructLayout, kind: ConstructorKind) -> Vec<String> {
    check_constructor_field_initialization(body, SELF, layout, kind, None, Some(Span::new(3, 9)), &vec![])
        .into_iter()
        .map(|d| {
            assert_eq!(d.span, Some(Span::new(3, 9)));
            d.message
        })
        .collect()
}

#[test]
fn constructor_assigning_every_field_reports_nothing() {
    let body = MirBody { blocks: vec![block(0, vec![assign("x"), assign("y")], Terminator::Return)] };
    assert!(messages(&body, &point(), ConstructorKind::Designated).is_empty());
}

#[test]
fn constructor_missing_one_field_names_it() {
    let body = MirBody { blocks: vec![block(0, vec![assign("x")], Terminator::Return)] };
    assert_eq!(
        messages(&body, &point(), ConstructorKind::Designated),
        vec!["constructor must assign field `y` before returning".to_string()]
    );
}

#[test]
fn constructor_missing_several_fields_lists_them() {
    let body = MirBody { blocks: vec![block(0, vec![], Terminator::Return)] };
    assert_eq!(
        messages(&body, &point(), ConstructorKind::Designated),
        vec!["constructor must assign fields x, y before returning".to_string()]
    );
}

#[test]
fn convenience_constructor_is_not_checked() {
    let body = MirBody { blocks: vec![block(0, vec![], Terminator::Return)] };
    assert!(messages(&body, &point(), ConstructorKind::Convenience).is_empty());
}

#[test]
fn field_assigned_on_one_branch_only_is_reported() {
    let body = MirBody {
        blocks: vec![
            block(0, vec![assign("y")], Terminator::SwitchInt { targets: vec![(0, 1)], otherwise: 2 }),
            block(1, vec![assign("x")], Terminator::Goto { target: 3 }),
            block(2, vec![], Terminator::Goto { target: 3 }),
            block(3, vec![], Terminator::Return),
        ],
    };
    assert_eq!(
        messages(&body, &point(), ConstructorKind::Designated),
        vec!["constructor must assign field `x` before returning".to_string()]
    );
}

#[test]
fn field_assigned_on_every_branch_is_accepted() {
    let body = MirBody {
        blocks: vec![
            block(0, vec![], Terminator::SwitchInt { targets: vec![(0, 1)], otherwise: 2 }),
            block(1, vec![assign("x"), assign("y")], Terminator::Goto { target: 3 }),
            block(2, vec![assign("y"), assign("x")], Terminator::Goto { target: 3 }),
            block(3, vec![], Terminator::Return),
        ],
    };
    assert!(messages(&body, &point(), ConstructorKind::Designated).is_empty());
}

#[test]
fn each_returning_block_reports_separately() {
    let body = MirBody {
        blocks: vec![
            block(0, vec![], Terminator::SwitchInt { targets: vec![(0, 1)], otherwise: 2 }),
            block(1, vec![assign("x")], Terminator::Return),
            block(2, vec![assign("y")], Terminator::Return),
        ],
    };
    assert_eq!(
        messages(&body, &point(), ConstructorKind::Designated),
        vec![
            "constructor must assign field `y` before returning".to_string(),
            "constructor must assign field `x` before returning".to_string(),
        ]
    );
}

#[test]
fn whole_self_assignment_initialises_every_field() {
    let whole = MirStatement {
        kind: MirStatementKind::Assign { place: Place { local: SELF, projection: vec![] } },
    };
    let body = MirBody { blocks: vec![block(0, vec![whole], Terminator::Return)] };
    assert!(messages(&body, &point(), ConstructorKind::Designated).is_empty());
}

#[test]
fn loop_header_starts_from_the_least_solution() {
    // The back edge keeps the header's entry set empty: iteration starts from nothing assigned.
    let body = MirBody {
        blocks: vec![
            block(0, vec![assign("x"), assign("y")], Terminator::Goto { target: 1 }),
            block(1, vec![], Terminator::SwitchInt { targets: vec![(0, 1)], otherwise: 2 }),
            block(2, vec![], Terminator::Return),
        ],
    };
    assert_eq!(
        messages(&body, &point(), ConstructorKind::Designated),
        vec!["constructor must assign fields x, y before returning".to_string()]
    );
}

#[test]
fn property_setter_call_assigns_its_backing_field() {
    let accessors = vec![PropertyAccessor {
        function: "Demo::Point::set_Y".to_string(),
        owner: "Demo::Point".to_string(),
        kind: PropertyAccessorKind::Setter,
        backing_field: Some("y".to_string()),
    }];
    let call = Terminator::Call {
        func: Operand::Pending("Demo::Point::set_Y".to_string()),
        args: vec![self_arg()],
        target: 1,
        unwind: None,
    };
    let body = MirBody {
        blocks: vec![block(0, vec![assign("x")], call), block(1, vec![], Terminator::Return)],
    };
    let diags = check_constructor_field_initialization(
        &body,
        SELF,
        &point(),
        ConstructorKind::Designated,
        None,
        None,
        &accessors,
    );
    assert!(diags.is_empty());
    let getter_only = vec![PropertyAccessor {
        function: "Demo::Point::set_Y".to_string(),
        owner: "Demo::Point".to_string(),
        kind: PropertyAccessorKind::Getter,
        backing_field: Some("y".to_string()),
    }];
    let diags = check_constructor_field_initialization(
        &body,
        SELF,
        &point(),
        ConstructorKind::Designated,
        None,
        None,
        &getter_only,
    );
    assert_eq!(diags.len(), 1);
    assert_eq!(diags[0].message, "constructor must assign field `y` before returning");
    assert_eq!(diags[0].span, None);
}

#[test]
fn delegating_to_self_initializer_assigns_everything() {
    let call = Terminator::Call {
        func: Operand::Pending("Demo::Point::init#self".to_string()),
        args: vec![self_arg()],
        target: 1,
        unwind: None,
    };
    assert!(is_self_delegating_initializer(&call, SELF));
    let body = MirBody { blocks: vec![block(0, vec![], call), block(1, vec![], Terminator::Return)] };
    let init = ConstructorInitializer { target: ConstructorInitTarget::SelfType };
    let diags = check_constructor_field_initialization(
        &body,
        SELF,
        &point(),
        ConstructorKind::Designated,
        Some(&init),
        None,
        &vec![],
    );
    assert!(diags.is_empty());
    let sup = ConstructorInitializer { target: ConstructorInitTarget::Super };
    let diags = check_constructor_field_initialization(
        &body,
        SELF,
        &point(),
        ConstructorKind::Designated,
        Some(&sup),
        None,
        &vec![],
    );
    assert_eq!(diags.len(), 1);
}

#[test]
fn class_tracks_only_required_fields_by_display_name() {
    let layout = StructLayout {
        name: "Demo::Widget".to_string(),
        fields: vec![
            field("$vtable"),
            FieldLayout { name: "<Name>k__Backing".to_string(), display_name: Some("Name".to_string()), is_required: true },
            field("count"),
        ],
        is_class: true,
    };
    assert!(is_runtime_managed_field(&layout.fields[0]));
    assert!(!is_runtime_managed_field(&layout.fields[1]));
    let body = MirBody { blocks: vec![block(0, vec![], Terminator::Return)] };
    assert_eq!(
        messages(&body, &layout, ConstructorKind::Designated),
        vec!["constructor must assign field `Name` before returning".to_string()]
    );
    let none_required = StructLayout {
        name: "Demo::Empty".to_string(),
        fields: vec![field("$vtable"), field("count")],
        is_class: true,
    };
    assert!(messages(&body, &none_required, ConstructorKind::Designated).is_empty());
}

#[test]
fn predecessors_follow_every_edge_in_block_order() {
    let body = MirBody {
        blocks: vec![
            block(0, vec![], Terminator::SwitchInt { targets: vec![(0, 2), (1, 1)], otherwise: 2 }),
            block(1, vec![], Terminator::Goto { target: 2 }),
            block(2, vec![], Terminator::Return),
            block(3, vec![], Terminator::Goto { target: 9 }),
        ],
    };
    let preds = compute_predecessors(&body);
    assert_eq!(preds, vec![vec![], vec![0], vec![0, 0, 1], vec![]]);
}

#[test]
fn intersection_of_predecessor_sets() {
    let outs = vec![vec![true, true, false], vec![true, false, false], vec![true, true, true]];
    assert_eq!(intersect_predecessors(&vec![0, 2], &outs, 3), vec![true, true, false]);
    assert_eq!(intersect_predecessors(&vec![0, 1, 2], &outs, 3), vec![true, false, false]);
    assert_eq!(intersect_predecessors(&vec![], &outs, 3), vec![false, false, false]);
}

#[test]
fn field_index_resolution_uses_first_field_step() {
    let names = vec!["x".to_string(), "y".to_string(), "x".to_string()];
    let by_name = Place { local: SELF, projection: vec![ProjectionElem::Deref, ProjectionElem::FieldNamed("x".to_string())] };
    assert_eq!(resolve_field_index(&by_name, &names), Some(2));
    let by_index = Place { local: SELF, projection: vec![ProjectionElem::Field(7)] };
    assert_eq!(resolve_field_index(&by_index, &names), Some(7));
    let union = Place {
        local: SELF,
        projection: vec![ProjectionElem::UnionField { index: 4, name: "z".to_string() }],
    };
    assert_eq!(resolve_field_index(&union, &names), Some(4));
    let none = Place { local: SELF, projection: vec![ProjectionElem::Index(0)] };
    assert_eq!(resolve_field_index(&none, &names), None);
}

#[test]
fn property_write_requires_owner_kind_and_self_receiver() {
    let accessors = vec![PropertyAccessor {
        function: "Demo::P::init_V".to_string(),
        owner: "Demo::P".to_string(),
        kind: PropertyAccessorKind::Init,
        backing_field: Some("v".to_string()),
    }];
    let names = vec!["u".to_string(), "v".to_string()];
    let func = Operand::Pending("Demo::P::init_V".to_string());
    assert_eq!(property_field_write(&func, &vec![self_arg()], &accessors, SELF, &names, "Demo::P"), Some(1));
    assert_eq!(property_field_write(&func, &vec![self_arg()], &accessors, SELF, &names, "Demo::Q"), None);
    let other = Operand::Move(Place { local: 5, projection: vec![] });
    assert_eq!(property_field_write(&func, &vec![other], &accessors, SELF, &names, "Demo::P"), None);
    assert_eq!(property_field_write(&func, &vec![], &accessors, SELF, &names, "Demo::P"), None);
}

#[test]
fn missing_field_messages_and_selection() {
    let fields = vec![
        FieldLayout { name: "a".to_string(), display_name: None, is_required: false },
        FieldLayout { name: "b".to_string(), display_name: Some("B".to_string()), is_required: true },
        FieldLayout { name: "c".to_string(), display_name: None, is_required: true },
    ];
    let refs: Vec<&FieldLayout> = fields.iter().collect();
    assert_eq!(collect_missing_fields(&vec![false, false, true], &refs), vec!["B".to_string()]);
    let optional: Vec<&FieldLayout> = vec![&fields[0]];
    assert_eq!(collect_missing_fields(&vec![false], &optional), vec!["a".to_string()]);
    assert_eq!(
        missing_fields_message(&vec!["a".to_string()]),
        "constructor must assign field `a` before returning"
    );
    assert_eq!(
        missing_fields_message(&vec!["a".to_string(), "b".to_string(), "c".to_string()]),
        "constructor must assign fields a, b, c before returning"
    );
}
