use chic_consteval::ast::{BinOp, UnOp};
use chic_consteval::cache::{ConstFnCacheKey, FunctionMemoCache};
use chic_consteval::environment::FunctionFrame;
use chic_consteval::ops::{binary_compare, const_equal, evaluate_unary};
use chic_consteval::values::{ConstEvalResult, ConstValue};

fn key(name: &str, arg: &str) -> ConstFnCacheKey {
    ConstFnCacheKey::new(name.to_string(), vec![arg.to_string()])
}

fn int_of(v: &ConstValue) -> i128 {
    match v {
        ConstValue::Int(x) => *x,
        other => panic!("expected an integer, found {:?}", other),
    }
}

fn bool_of(r: Result<ConstEvalResult, chic_consteval::values::ConstEvalError>) -> Option<bool> {
    match r {
        Ok(res) => match res.value {
            ConstValue::Bool(b) => Some(b),
            other => panic!("expected a bool, found {:?}", other),
        },
        Err(_) => None,
    }
}

#[test]
fn cache_read_after_write_returns_the_stored_result() {
    let mut cache = FunctionMemoCache::new(3);
    cache.insert(key("Demo::F", "i:1"), ConstEvalResult::new(ConstValue::Int(10)));
    cache.insert(key("Demo::F", "i:1"), ConstEvalResult::new(ConstValue::Int(11)));
    assert_eq!(cache.len(), 1);
    assert_eq!(int_of(&cache.get(&key("Demo::F", "i:1")).expect("stored").value), 11);
}

#[test]
fn cache_stays_within_capacity_and_evicts_least_recent() {
    let mut cache = FunctionMemoCache::new(2);
    cache.insert(key("Demo::A", "i:1"), ConstEvalResult::new(ConstValue::Int(1)));
    cache.insert(key("Demo::B", "i:2"), ConstEvalResult::new(ConstValue::Int(2)));
    cache.insert(key("Demo::A", "i:1"), ConstEvalResult::new(ConstValue::Int(3)));
    cache.insert(key("Demo::C", "i:3"), ConstEvalResult::new(ConstValue::Int(4)));
    assert_eq!(cache.len(), 2);
    assert!(cache.get(&key("Demo::B", "i:2")).is_none(), "least recently stored entry leaves");
    assert_eq!(int_of(&cache.get(&key("Demo::A", "i:1")).expect("kept").value), 3);
    assert_eq!(int_of(&cache.get(&key("Demo::C", "i:3")).expect("kept").value), 4);
}

#[test]
fn frame_declare_then_lookup_and_pop_discards_scope() {
    let mut frame = FunctionFrame::new();
    frame.push_scope();
    frame.declare("x", ConstValue::Int(1), false, None).expect("outer x");
    frame.push_scope();
    frame.declare("x", ConstValue::Int(2), true, None).expect("inner x shadows");
    frame.declare("y", ConstValue::Int(3), false, None).expect("inner y");
    assert_eq!(int_of(&frame.get_value("x").expect("x bound")), 2);
    assert!(frame.declare("y", ConstValue::Int(5), false, None).is_err(), "redeclaration rejected");
    frame.pop_scope();
    assert_eq!(int_of(&frame.get_value("x").expect("x bound")), 1);
    assert!(frame.get_value("y").is_none());
}

#[test]
fn const_equality_is_symmetric_on_examples() {
    let a = ConstValue::Struct {
        type_path: "Demo.P".to_string(),
        fields: vec![("A".to_string(), ConstValue::Int(1)), ("B".to_string(), ConstValue::RawStr("s".to_string()))],
    };
    let b = ConstValue::Struct {
        type_path: "Demo.P".to_string(),
        fields: vec![("A".to_string(), ConstValue::Int(1)), ("B".to_string(), ConstValue::RawStr("t".to_string()))],
    };
    assert_eq!(const_equal(&a, &b), const_equal(&b, &a));
    assert!(!const_equal(&a, &b));
    assert!(const_equal(&a, &a.duplicate()));
    let u = ConstValue::UInt(3);
    let i = ConstValue::Int(3);
    assert_eq!(const_equal(&u, &i), const_equal(&i, &u));
}

#[test]
fn comparisons_flip_on_examples() {
    let pairs = vec![
        (ConstValue::Int(1), ConstValue::Int(2)),
        (ConstValue::Int(2), ConstValue::Int(2)),
        (ConstValue::UInt(9), ConstValue::UInt(3)),
        (ConstValue::Bool(true), ConstValue::Int(1)),
    ];
    for (l, r) in pairs {
        let lt = bool_of(binary_compare(BinOp::Lt, ConstEvalResult::new(l.duplicate()), ConstEvalResult::new(r.duplicate()), None));
        let gt = bool_of(binary_compare(BinOp::Gt, ConstEvalResult::new(r.duplicate()), ConstEvalResult::new(l.duplicate()), None));
        assert_eq!(lt, gt);
        let le = bool_of(binary_compare(BinOp::Le, ConstEvalResult::new(l.duplicate()), ConstEvalResult::new(r.duplicate()), None));
        let ge = bool_of(binary_compare(BinOp::Ge, ConstEvalResult::new(r.duplicate()), ConstEvalResult::new(l.duplicate()), None));
        assert_eq!(le, ge);
    }
    assert_eq!(
        bool_of(binary_compare(BinOp::Lt, ConstEvalResult::new(ConstValue::Int(1)), ConstEvalResult::new(ConstValue::Int(2)), None)),
        Some(true)
    );
}

#[test]
fn negating_twice_gives_the_value_back() {
    for x in [0i128, 7, -42, i128::MAX] {
        let once = evaluate_unary(UnOp::Neg, false, ConstEvalResult::new(ConstValue::Int(x)), None).expect("negation");
        let twice = evaluate_unary(UnOp::Neg, false, once, None).expect("negation");
        assert_eq!(int_of(&twice.value), x);
    }
    assert!(evaluate_unary(UnOp::Neg, false, ConstEvalResult::new(ConstValue::Int(i128::MIN)), None).is_err());
}

#[test]
fn pop_scope_without_scopes_leaves_frame_unchanged() {
    let mut frame = FunctionFrame::new();
    frame.pop_scope();
    assert!(frame.declare("x", ConstValue::Int(1), false, None).is_err(), "still no scope");
    assert!(frame.get_value("x").is_none());
}
