use vstd::prelude::*;

use crate::ast::Expression;
use crate::text::{str_eq, views};
use crate::types::{Ty, canonical, canonical_name};
use crate::values::{ConstEvalError, ConstEvalResult, ResultModel};

verus! {

/// The key under which a compile-time function call is memoised: the function's
/// qualified name and a label for each argument.
#[derive(Debug, PartialEq, Eq)]
pub struct ConstFnCacheKey {
    pub name: String,
    pub args: Vec<String>,
}

/// The model of a cache key.
pub struct KeyModel {
    pub name: Seq<char>,
    pub args: Seq<Seq<char>>,
}

impl View for ConstFnCacheKey {
    type V = KeyModel;

    open spec fn view(&self) -> KeyModel {
        KeyModel { name: self.name@, args: views(self.args@) }
    }
}

fn strings_eq(a: &Vec<String>, b: &Vec<String>) -> (r: bool)
    ensures
        r == (views(a@) == views(b@)),
{
    if a.len() != b.len() {
        proof {
            assert(views(a@).len() != views(b@).len());
        }
        return false;
    }
    let mut i: usize = 0;
    while i < a.len()
        invariant
            a.len() == b.len(),
            i <= a.len(),
            forall|k: int| 0 <= k < i ==> views(a@)[k] == views(b@)[k],
        decreases a.len() - i,
    {
        if !str_eq(a[i].as_str(), b[i].as_str()) {
            assert(views(a@)[i as int] != views(b@)[i as int]);
            return false;
        }
        i = i + 1;
    }
    assert(views(a@) =~= views(b@));
    true
}

fn copy_strings(a: &Vec<String>) -> (r: Vec<String>)
    ensures
        r@ == a@,
{
    let mut out: Vec<String> = Vec::new();
    let mut i: usize = 0;
    while i < a.len()
        invariant
            i <= a.len(),
            out@ == a@.subrange(0, i as int),
        decreases a.len() - i,
    {
        out.push(a[i].clone());
        i = i + 1;
        assert(out@ =~= a@.subrange(0, i as int));
    }
    assert(a@.subrange(0, a.len() as int) =~= a@);
    out
}

impl ConstFnCacheKey {
    pub fn new(name: String, args: Vec<String>) -> (r: ConstFnCacheKey)
        ensures
            r.name == name,
            r.args == args,
    {
        ConstFnCacheKey { name, args }
    }

    /// Whether two keys name the same function with the same argument labels.
    pub fn same_as(&self, other: &ConstFnCacheKey) -> (r: bool)
        ensures
            r == (self@ == other@),
    {
        let n = str_eq(self.name.as_str(), other.name.as_str());
        let a = strings_eq(&self.args, &other.args);
        n && a
    }

    pub fn duplicate(&self) -> (r: ConstFnCacheKey)
        ensures
            r@ == self@,
    {
        ConstFnCacheKey { name: self.name.clone(), args: copy_strings(&self.args) }
    }
}

/// The model of the memo cache: entries from least to most recently stored.
pub type CacheModel = Seq<(KeyModel, ResultModel)>;

/// The position of `k` in the cache, if present.
pub open spec fn cache_find(m: CacheModel, k: KeyModel) -> Option<int> {
    if exists|i: int| 0 <= i < m.len() && m[i].0 == k {
        Some(choose|i: int| 0 <= i < m.len() && m[i].0 == k)
    } else {
        None
    }
}

/// Whether no key occurs twice.
pub open spec fn cache_unique(m: CacheModel) -> bool {
    forall|i: int, j: int| 0 <= i < m.len() && 0 <= j < m.len() && i != j ==> m[i].0 != m[j].0
}

/// The cache after storing `v` under `k` with room for `cap` entries: an existing
/// entry for `k` is replaced and becomes the most recent; a new entry is appended
/// and, when that exceeds the capacity, the least recent entry is dropped.
pub open spec fn cache_insert(m: CacheModel, k: KeyModel, v: ResultModel, cap: nat) -> CacheModel {
    match cache_find(m, k) {
        Some(i) => m.remove(i).push((k, v)),
        None => {
            let grown = m.push((k, v));
            if grown.len() > cap {
                grown.subrange(grown.len() - cap, grown.len() as int)
            } else {
                grown
            }
        },
    }
}

/// The last `cap` entries of `m` (all of them when it holds no more).
pub open spec fn keep_last(m: CacheModel, cap: nat) -> CacheModel {
    if m.len() > cap {
        m.subrange(m.len() - cap, m.len() as int)
    } else {
        m
    }
}

/// The models of a vector of cache entries.
pub open spec fn entries_model(v: Seq<(ConstFnCacheKey, ConstEvalResult)>) -> CacheModel {
    v.map_values(|p: (ConstFnCacheKey, ConstEvalResult)| (p.0@, p.1@))
}

/// Drops entries from the front until at most `cap` remain.
fn evict_oldest(entries: &mut Vec<(ConstFnCacheKey, ConstEvalResult)>, cap: usize)
    ensures
        entries_model(final(entries)@) == keep_last(entries_model(old(entries)@), cap as nat),
{
    let ghost m = entries_model(entries@);
    assert(m.subrange(0, m.len() as int) =~= m);
    while entries.len() > cap
        invariant
            entries_model(entries@) == m.subrange(m.len() - entries@.len(), m.len() as int),
            entries@.len() <= m.len(),
            m.len() > cap ==> entries@.len() >= cap,
            m.len() <= cap ==> entries@.len() == m.len(),
        decreases entries.len(),
    {
        let ghost prev = entries@;
        let _ = entries.remove(0);
        assert(entries@ =~= prev.subrange(1, prev.len() as int));
        assert(entries_model(entries@) =~= entries_model(prev).subrange(1, prev.len() as int));
        assert(entries_model(entries@) =~= m.subrange(m.len() - entries@.len(), m.len() as int));
    }
    proof {
        if m.len() <= cap {
            assert(m.subrange(0, m.len() as int) =~= m);
        }
    }
}

/// A bounded memo of compile-time function results, evicting the least recently
/// stored entry when full.
#[derive(Debug)]
pub struct FunctionMemoCache {
    entries: Vec<(ConstFnCacheKey, ConstEvalResult)>,
    capacity: usize,
}

impl FunctionMemoCache {
    /// The entries, least recently stored first.
    pub closed spec fn view(&self) -> CacheModel {
        self.entries@.map_values(|p: (ConstFnCacheKey, ConstEvalResult)| (p.0@, p.1@))
    }

    /// The most entries the cache keeps.
    pub closed spec fn cap(&self) -> nat {
        self.capacity as nat
    }

    /// Keys are unique and the cache is within its capacity.
    #[verifier::type_invariant]
    closed spec fn wf(&self) -> bool {
        cache_unique(self.view()) && self.entries@.len() <= self.capacity
    }

    /// An empty cache for at most `capacity` entries.
    pub fn new(capacity: usize) -> (r: FunctionMemoCache)
        ensures
            r.view().len() == 0,
            r.cap() == capacity,
    {
        FunctionMemoCache { entries: Vec::new(), capacity }
    }

    /// The number of entries.
    pub fn len(&self) -> (r: usize)
        ensures
            r == self.view().len(),
    {
        self.entries.len()
    }

    fn find(&self, key: &ConstFnCacheKey) -> (r: Option<usize>)
        ensures
            r matches Some(i) ==> cache_find(self.view(), key@) == Some(i as int) && i
                < self.view().len(),
            r is None ==> cache_find(self.view(), key@) is None,
    {
        proof {
            use_type_invariant(self);
        }
        let mut i: usize = 0;
        while i < self.entries.len()
            invariant
                i <= self.entries.len(),
                cache_unique(self.view()),
                forall|k: int| 0 <= k < i ==> self.view()[k].0 != key@,
            decreases self.entries.len() - i,
        {
            if self.entries[i].0.same_as(key) {
                proof {
                    assert(self.view()[i as int].0 == key@);
                    let j = choose|j: int| 0 <= j < self.view().len() && self.view()[j].0 == key@;
                    if j != i {
                        assert(self.view()[j].0 != self.view()[i as int].0);
                    }
                }
                return Some(i);
            }
            i = i + 1;
        }
        None
    }

    /// The result stored under `key`, if any.
    pub fn get(&self, key: &ConstFnCacheKey) -> (r: Option<&ConstEvalResult>)
        ensures
            r matches Some(v) ==> cache_find(self.view(), key@) matches Some(i) && self.view()[i].1
                == v@,
            r is None ==> cache_find(self.view(), key@) is None,
    {
        match self.find(key) {
            Some(i) => Some(&self.entries[i].1),
            None => None,
        }
    }

    /// Moves the entry for `key`, if any, to the most recent position.
    pub fn promote(&mut self, key: &ConstFnCacheKey)
        ensures
            cache_find(old(self).view(), key@) matches Some(i) ==> final(self).view() == old(
                self,
            ).view().remove(i).push(old(self).view()[i]),
            cache_find(old(self).view(), key@) is None ==> final(self).view() == old(self).view(),
            final(self).cap() == old(self).cap(),
    {
        proof {
            use_type_invariant(&*self);
        }
        match self.find(key) {
            Some(i) => {
                let mut entries: Vec<(ConstFnCacheKey, ConstEvalResult)> = Vec::new();
                std::mem::swap(&mut entries, &mut self.entries);
                let ghost before = entries@;
                let entry = entries.remove(i);
                entries.push(entry);
                proof {
                    let m = before.map_values(
                        |p: (ConstFnCacheKey, ConstEvalResult)| (p.0@, p.1@),
                    );
                    let n = entries@.map_values(
                        |p: (ConstFnCacheKey, ConstEvalResult)| (p.0@, p.1@),
                    );
                    assert(n =~= m.remove(i as int).push(m[i as int]));
                    assert forall|a: int, b: int|
                        0 <= a < n.len() && 0 <= b < n.len() && a != b implies n[a].0 != n[b].0 by {
                        let ia = if a == n.len() - 1 {
                            i as int
                        } else if a < i {
                            a
                        } else {
                            a + 1
                        };
                        let ib = if b == n.len() - 1 {
                            i as int
                        } else if b < i {
                            b
                        } else {
                            b + 1
                        };
                        assert(n[a] == m[ia]);
                        assert(n[b] == m[ib]);
                    }
                }
                self.entries = entries;
            },
            None => {},
        }
    }

    /// Drops the least recent entries until the cache is within its capacity.
    pub fn evict_if_needed(&mut self)
        ensures
            final(self).view() == keep_last(old(self).view(), old(self).cap()),
            final(self).cap() == old(self).cap(),
    {
        proof {
            use_type_invariant(&*self);
        }
        let mut entries: Vec<(ConstFnCacheKey, ConstEvalResult)> = Vec::new();
        std::mem::swap(&mut entries, &mut self.entries);
        evict_oldest(&mut entries, self.capacity);
        self.entries = entries;
    }

    /// Stores `value` under `key` (see `cache_insert`).
    pub fn insert(&mut self, key: ConstFnCacheKey, value: ConstEvalResult)
        ensures
            final(self).view() == cache_insert(old(self).view(), key@, value@, old(self).cap()),
            final(self).cap() == old(self).cap(),
            old(self).cap() >= 1 ==> (cache_find(final(self).view(), key@) matches Some(i)
                && final(self).view()[i] == (key@, value@)),
    {
        proof {
            use_type_invariant(&*self);
            if self.cap() >= 1 {
                crate::laws::law_cache_read_after_write(self.view(), key@, value@, self.cap());
            }
        }
        let found = self.find(&key);
        let mut entries: Vec<(ConstFnCacheKey, ConstEvalResult)> = Vec::new();
        std::mem::swap(&mut entries, &mut self.entries);
        let ghost before = entries@;
        let ghost m = before.map_values(|p: (ConstFnCacheKey, ConstEvalResult)| (p.0@, p.1@));
        let ghost kv = (key@, value@);
        match found {
            Some(i) => {
                let _ = entries.remove(i);
                entries.push((key, value));
                proof {
                    let n = entries@.map_values(
                        |p: (ConstFnCacheKey, ConstEvalResult)| (p.0@, p.1@),
                    );
                    assert(n =~= m.remove(i as int).push(kv));
                    assert forall|a: int, b: int|
                        0 <= a < n.len() && 0 <= b < n.len() && a != b implies n[a].0 != n[b].0 by {
                        if a == n.len() - 1 {
                            let ib = if b < i {
                                b
                            } else {
                                b + 1
                            };
                            assert(n[b] == m[ib]);
                            assert(m[ib].0 != m[i as int].0);
                        } else if b == n.len() - 1 {
                            let ia = if a < i {
                                a
                            } else {
                                a + 1
                            };
                            assert(n[a] == m[ia]);
                            assert(m[ia].0 != m[i as int].0);
                        } else {
                            let ia = if a < i {
                                a
                            } else {
                                a + 1
                            };
                            let ib = if b < i {
                                b
                            } else {
                                b + 1
                            };
                            assert(n[a] == m[ia]);
                            assert(n[b] == m[ib]);
                        }
                    }
                }
                self.entries = entries;
            },
            None => {
                entries.push((key, value));
                let ghost grown = m.push(kv);
                assert(entries@.map_values(|p: (ConstFnCacheKey, ConstEvalResult)| (p.0@, p.1@))
                    =~= grown);
                evict_oldest(&mut entries, self.capacity);
                proof {
                    let n = entries@.map_values(
                        |p: (ConstFnCacheKey, ConstEvalResult)| (p.0@, p.1@),
                    );
                    assert forall|a: int, b: int|
                        0 <= a < grown.len() && 0 <= b < grown.len() && a != b implies grown[a].0
                        != grown[b].0 by {
                        if a == grown.len() - 1 {
                            assert(m[b].0 != key@);
                        } else if b == grown.len() - 1 {
                            assert(m[a].0 != key@);
                        } else {
                            assert(grown[a] == m[a]);
                            assert(grown[b] == m[b]);
                        }
                    }
                    assert forall|a: int, b: int|
                        0 <= a < n.len() && 0 <= b < n.len() && a != b implies n[a].0 != n[b].0 by {
                        let off = grown.len() - n.len();
                        assert(n[a] == grown[a + off]);
                        assert(n[b] == grown[b + off]);
                    }
                }
                self.entries = entries;
            },
        }
    }
}

/// The key under which a constant expression's value is memoised.
#[derive(Debug)]
pub struct ExpressionMemoKey {
    pub expr_text: String,
    pub namespace: Option<String>,
    pub owner: Option<String>,
    pub target_ty: String,
}

/// The model of an optional string.
pub open spec fn opt_str(o: Option<String>) -> Option<Seq<char>> {
    match o {
        Some(s) => Some(s@),
        None => None,
    }
}

/// The model of an optional string slice.
pub open spec fn opt_slice(o: Option<&str>) -> Option<Seq<char>> {
    match o {
        Some(s) => Some(s@),
        None => None,
    }
}

/// The model of an expression key.
pub struct ExprKeyModel {
    pub expr_text: Seq<char>,
    pub namespace: Option<Seq<char>>,
    pub owner: Option<Seq<char>>,
    pub target_ty: Seq<char>,
}

impl View for ExpressionMemoKey {
    type V = ExprKeyModel;

    open spec fn view(&self) -> ExprKeyModel {
        ExprKeyModel {
            expr_text: self.expr_text@,
            namespace: opt_str(self.namespace),
            owner: opt_str(self.owner),
            target_ty: self.target_ty@,
        }
    }
}

fn opt_string(o: Option<&str>) -> (r: Option<String>)
    ensures
        opt_str(r) == opt_slice(o),
{
    match o {
        Some(s) => Some(String::from_str(s)),
        None => None,
    }
}

fn opt_eq(a: &Option<String>, b: &Option<String>) -> (r: bool)
    ensures
        r == (opt_str(*a) == opt_str(*b)),
{
    match (a, b) {
        (Some(x), Some(y)) => str_eq(x.as_str(), y.as_str()),
        (None, None) => true,
        _ => false,
    }
}

impl ExpressionMemoKey {
    /// The key of an expression evaluated in a namespace and owner, for a target type.
    pub fn new(expr: &Expression, namespace: Option<&str>, owner: Option<&str>, target_ty: &Ty) -> (r:
        ExpressionMemoKey)
        ensures
            r@ == (ExprKeyModel {
                expr_text: expr.text@,
                namespace: opt_slice(namespace),
                owner: opt_slice(owner),
                target_ty: canonical(*target_ty),
            }),
    {
        ExpressionMemoKey {
            expr_text: expr.text.clone(),
            namespace: opt_string(namespace),
            owner: opt_string(owner),
            target_ty: canonical_name(target_ty),
        }
    }

    /// Whether two keys are equal.
    pub fn same_as(&self, other: &ExpressionMemoKey) -> (r: bool)
        ensures
            r == (self@ == other@),
    {
        str_eq(self.expr_text.as_str(), other.expr_text.as_str()) && opt_eq(
            &self.namespace,
            &other.namespace,
        ) && opt_eq(&self.owner, &other.owner) && str_eq(
            self.target_ty.as_str(),
            other.target_ty.as_str(),
        )
    }
}

/// Settings of constant evaluation.
#[derive(Clone, Copy, Debug)]
pub struct ConstEvalConfig {
    /// How many evaluation steps are allowed; `None` for no limit.
    pub fuel_limit: Option<usize>,
    /// Whether the values of constant expressions are memoised.
    pub enable_expression_memo: bool,
}

/// Counters kept while evaluating constants.
#[derive(Clone, Copy, Debug)]
pub struct ConstEvalMetrics {
    pub expressions_requested: usize,
    pub expressions_evaluated: usize,
    pub memo_hits: usize,
    pub memo_misses: usize,
    pub fn_cache_hits: usize,
    pub fn_cache_misses: usize,
    pub fuel_consumed: usize,
    pub fuel_exhaustions: usize,
    pub fuel_limit: Option<usize>,
    pub cache_entries: usize,
}

/// The fuel limit of the default settings.
pub const DEFAULT_FUEL_LIMIT: usize = 100_000;

impl ConstEvalConfig {
    /// The default settings: a bounded number of steps, with expression memoisation.
    pub open spec fn default_spec() -> ConstEvalConfig {
        ConstEvalConfig { fuel_limit: Some(DEFAULT_FUEL_LIMIT), enable_expression_memo: true }
    }
}

impl Default for ConstEvalConfig {
    fn default() -> (r: ConstEvalConfig)
        ensures
            r == ConstEvalConfig::default_spec(),
    {
        ConstEvalConfig { fuel_limit: Some(DEFAULT_FUEL_LIMIT), enable_expression_memo: true }
    }
}

impl ConstEvalMetrics {
    /// All counters at zero, with the given fuel limit.
    pub open spec fn zero_spec(fuel_limit: Option<usize>) -> ConstEvalMetrics {
        ConstEvalMetrics {
            expressions_requested: 0,
            expressions_evaluated: 0,
            memo_hits: 0,
            memo_misses: 0,
            fn_cache_hits: 0,
            fn_cache_misses: 0,
            fuel_consumed: 0,
            fuel_exhaustions: 0,
            fuel_limit,
            cache_entries: 0,
        }
    }

    /// All counters at zero, with the given fuel limit.
    pub fn zero(fuel_limit: Option<usize>) -> (r: ConstEvalMetrics)
        ensures
            r == ConstEvalMetrics::zero_spec(fuel_limit),
            r.expressions_requested == 0,
            r.expressions_evaluated == 0,
            r.memo_hits == 0,
            r.memo_misses == 0,
            r.fn_cache_hits == 0,
            r.fn_cache_misses == 0,
            r.fuel_consumed == 0,
            r.fuel_exhaustions == 0,
            r.fuel_limit == fuel_limit,
            r.cache_entries == 0,
    {
        ConstEvalMetrics {
            expressions_requested: 0,
            expressions_evaluated: 0,
            memo_hits: 0,
            memo_misses: 0,
            fn_cache_hits: 0,
            fn_cache_misses: 0,
            fuel_consumed: 0,
            fuel_exhaustions: 0,
            fuel_limit,
            cache_entries: 0,
        }
    }
}

/// The outcome of evaluating all constants: the errors met and the counters.
#[derive(Debug)]
pub struct ConstEvalSummary {
    pub errors: Vec<ConstEvalError>,
    pub metrics: ConstEvalMetrics,
}

} // verus!
