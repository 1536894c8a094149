use chic_consteval::cache::{ConstFnCacheKey, FunctionMemoCache};
use chic_consteval::values::{ConstEvalResult, ConstValue};

fn result(value: ConstValue) -> ConstEvalResult {
    ConstEvalResult::new(value)
}

#[test]
fn memo_cache_returns_stored_entry() {
    let mut cache = FunctionMemoCache::new(4);
    let key = ConstFnCacheKey::new("Demo::Double".to_string(), vec!["i:2".to_string()]);
    cache.insert(key.duplicate(), result(ConstValue::Int(4)));
    assert_eq!(cache.len(), 1);
    let stored = cache.get(&key).expect("entry stored");
    match stored.value {
        ConstValue::Int(v) => assert_eq!(v, 4),
        _ => panic!("unexpected cached value {:?}", stored.value),
    }
}

#[test]
fn memo_cache_evicts_oldest_entries_when_capacity_exceeded() {
    let mut cache = FunctionMemoCache::new(2);
    let key_a = ConstFnCacheKey::new("Demo::A".to_string(), vec!["i:1".to_string()]);
    let key_b = ConstFnCacheKey::new("Demo::B".to_string(), vec!["i:2".to_string()]);
    let key_c = ConstFnCacheKey::new("Demo::C".to_string(), vec!["i:3".to_string()]);
    cache.insert(key_a.duplicate(), result(ConstValue::Int(1)));
    cache.insert(key_b.duplicate(), result(ConstValue::Int(2)));
    cache.insert(key_c.duplicate(), result(ConstValue::Int(3)));
    assert!(cache.get(&key_a).is_none(), "oldest entry should be evicted");
    assert!(cache.get(&key_b).is_some(), "newer entry should remain");
    assert!(cache.get(&key_c).is_some(), "latest entry should remain");
}
