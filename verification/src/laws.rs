use vstd::prelude::*;

use crate::ast::BinOp;
use crate::cache::{CacheModel, KeyModel, cache_find, cache_insert, cache_unique};
use crate::values::ResultModel;
use crate::environment::{BindingModel, FunctionFrame, ScopeModel, frame_declare, frame_lookup, scope_find};
use crate::ops::{compare_spec, const_eq, fields_eq, negate_spec};
use crate::values::ConstModel;

verus! {

/// A key just stored in the function memo is found there, with the stored result.
pub proof fn law_cache_read_after_write(m: CacheModel, k: KeyModel, v: ResultModel, cap: nat)
    requires
        cache_unique(m),
        cap >= 1,
    ensures
        cache_find(cache_insert(m, k, v, cap), k) matches Some(i) && cache_insert(m, k, v, cap)[i]
            == (k, v),
{
    let r = cache_insert(m, k, v, cap);
    assert(r.len() >= 1 && r[r.len() - 1] == (k, v)) by {
        match cache_find(m, k) {
            Some(i) => {},
            None => {
                let grown = m.push((k, v));
                if grown.len() > cap {
                    assert(r[r.len() - 1] == grown[grown.len() - 1]);
                }
            },
        }
    }
    assert(exists|i: int| 0 <= i < r.len() && r[i].0 == k) by {
        assert(r[r.len() - 1].0 == k);
    }
    lemma_insert_unique(m, k, v, cap);
    let i = choose|i: int| 0 <= i < r.len() && r[i].0 == k;
    if i != r.len() - 1 {
        assert(r[i].0 != r[r.len() - 1].0);
    }
}

/// Storing into the memo keeps its keys unique and, when it was within its capacity, keeps it
/// there.
pub proof fn law_cache_within_capacity(m: CacheModel, k: KeyModel, v: ResultModel, cap: nat)
    requires
        cache_unique(m),
        m.len() <= cap,
        cap >= 1,
    ensures
        cache_unique(cache_insert(m, k, v, cap)),
        cache_insert(m, k, v, cap).len() <= cap,
{
    lemma_insert_unique(m, k, v, cap);
}

/// Storing a new key into a full memo drops the least recently stored entry and keeps all the
/// others, with their results.
pub proof fn law_cache_evicts_least_recent(m: CacheModel, k: KeyModel, v: ResultModel, cap: nat)
    requires
        cache_unique(m),
        cap >= 1,
        m.len() == cap,
        cache_find(m, k) is None,
    ensures
        cache_find(cache_insert(m, k, v, cap), m[0].0) is None,
        forall|j: int|
            1 <= j < m.len() ==> (#[trigger] cache_find(cache_insert(m, k, v, cap), m[j].0) matches Some(
                i,
            ) && cache_insert(m, k, v, cap)[i] == m[j]),
{
    let r = cache_insert(m, k, v, cap);
    let grown = m.push((k, v));
    assert(r =~= grown.subrange(1, grown.len() as int));
    assert(!(exists|i: int| 0 <= i < r.len() && r[i].0 == m[0].0)) by {
        if exists|i: int| 0 <= i < r.len() && r[i].0 == m[0].0 {
            let i = choose|i: int| 0 <= i < r.len() && r[i].0 == m[0].0;
            if i < r.len() - 1 {
                assert(r[i] == m[i + 1]);
            } else {
                assert(r[i].0 == k);
                assert(m[0].0 == k);
                assert(cache_find(m, k) is Some);
            }
        }
    }
    lemma_insert_unique(m, k, v, cap);
    assert forall|j: int| 1 <= j < m.len() implies (#[trigger] cache_find(r, m[j].0) matches Some(i)
        && r[i] == m[j]) by {
        assert(r[j - 1] == m[j]);
        assert(exists|i: int| 0 <= i < r.len() && r[i].0 == m[j].0);
        let i = choose|i: int| 0 <= i < r.len() && r[i].0 == m[j].0;
        if i != j - 1 {
            assert(r[i].0 != r[j - 1].0);
        }
    }
}

proof fn lemma_insert_unique(m: CacheModel, k: KeyModel, v: ResultModel, cap: nat)
    requires
        cache_unique(m),
        cap >= 1,
    ensures
        cache_unique(cache_insert(m, k, v, cap)),
        m.len() <= cap ==> cache_insert(m, k, v, cap).len() <= cap,
{
    let r = cache_insert(m, k, v, cap);
    match cache_find(m, k) {
        Some(i) => {
            assert forall|a: int, b: int| 0 <= a < r.len() && 0 <= b < r.len() && a != b implies r[a].0
                != r[b].0 by {
                let ia = if a == r.len() - 1 {
                    i
                } else if a < i {
                    a
                } else {
                    a + 1
                };
                let ib = if b == r.len() - 1 {
                    i
                } else if b < i {
                    b
                } else {
                    b + 1
                };
                assert(m[i].0 == k);
                if a == r.len() - 1 {
                    assert(r[a].0 == k);
                } else {
                    assert(r[a] == m[ia]);
                }
                if b == r.len() - 1 {
                    assert(r[b].0 == k);
                } else {
                    assert(r[b] == m[ib]);
                }
            }
        },
        None => {
            let grown = m.push((k, v));
            assert forall|a: int, b: int|
                0 <= a < grown.len() && 0 <= b < grown.len() && a != b implies grown[a].0 != grown[b].0 by {
                if a == grown.len() - 1 {
                    assert(m[b].0 != k);
                } else if b == grown.len() - 1 {
                    assert(m[a].0 != k);
                } else {
                    assert(grown[a] == m[a]);
                    assert(grown[b] == m[b]);
                }
            }
            if grown.len() > cap {
                let off = grown.len() - cap;
                assert forall|a: int, b: int| 0 <= a < r.len() && 0 <= b < r.len() && a != b implies r[a].0
                    != r[b].0 by {
                    assert(r[a] == grown[a + off]);
                    assert(r[b] == grown[b + off]);
                }
            }
        },
    }
}

/// A variable declared in the innermost scope (where it was not declared yet) is what the name
/// then refers to.
pub proof fn law_frame_declare_then_lookup(scopes: Seq<ScopeModel>, name: Seq<char>, b: BindingModel)
    requires
        scopes.len() > 0,
        scope_find(scopes.last(), name) is None,
    ensures
        frame_lookup(frame_declare(scopes, name, b), name) == Some(b),
{
    let d = frame_declare(scopes, name, b);
    let last = d.last();
    assert(last == scopes.last().push((name, b)));
    assert(last[last.len() - 1].0 == name);
    let i = choose|i: int| 0 <= i < last.len() && last[i].0 == name;
    if i != last.len() - 1 {
        assert(last[i] == scopes.last()[i]);
        assert(scope_find(scopes.last(), name) is Some);
    }
}

/// The scopes after declaring each of `decls`, in order, in the innermost scope.
pub open spec fn declare_all(scopes: Seq<ScopeModel>, decls: Seq<(Seq<char>, BindingModel)>) -> Seq<ScopeModel>
    decreases decls.len(),
{
    if decls.len() == 0 {
        scopes
    } else {
        frame_declare(declare_all(scopes, decls.drop_last()), decls.last().0, decls.last().1)
    }
}

/// What a scope declares is gone once it is popped: pushing a scope, declaring any names in it
/// and popping it leaves every name bound as before.
pub proof fn law_frame_pop_discards_scope(
    scopes: Seq<ScopeModel>,
    decls: Seq<(Seq<char>, BindingModel)>,
    n: Seq<char>,
)
    ensures
        frame_lookup(declare_all(scopes.push(Seq::empty()), decls).drop_last(), n) == frame_lookup(scopes, n),
{
    lemma_declare_all_keeps_outer(scopes, decls);
}

/// The same of the frames themselves: a frame that `push_scope`, successful `declare` calls and
/// `pop_scope` made from `before` binds every name as `before` does.
pub proof fn law_frame_pop_restores(
    before: FunctionFrame,
    pushed: FunctionFrame,
    declared: FunctionFrame,
    after: FunctionFrame,
    decls: Seq<(Seq<char>, BindingModel)>,
    n: Seq<char>,
)
    requires
        pushed.view() == before.view().push(Seq::empty()),
        declared.view() == declare_all(pushed.view(), decls),
        after.view() == declared.view().drop_last(),
    ensures
        frame_lookup(after.view(), n) == frame_lookup(before.view(), n),
        after.lookup(n) == before.lookup(n),
{
    law_frame_pop_discards_scope(before.view(), decls, n);
}

proof fn lemma_declare_all_keeps_outer(scopes: Seq<ScopeModel>, decls: Seq<(Seq<char>, BindingModel)>)
    ensures
        declare_all(scopes.push(Seq::empty()), decls).len() == scopes.len() + 1,
        declare_all(scopes.push(Seq::empty()), decls).drop_last() == scopes,
    decreases decls.len(),
{
    let pushed = scopes.push(Seq::empty());
    if decls.len() == 0 {
        assert(pushed.drop_last() =~= scopes);
    } else {
        lemma_declare_all_keeps_outer(scopes, decls.drop_last());
        let prev = declare_all(pushed, decls.drop_last());
        assert(frame_declare(prev, decls.last().0, decls.last().1).drop_last() =~= prev.drop_last());
    }
}

/// Equality of constant values is symmetric.
pub proof fn law_const_eq_symmetric(a: ConstModel, b: ConstModel)
    ensures
        const_eq(a, b) == const_eq(b, a),
    decreases a, crate::ops::model_size(a),
{
    match (a, b) {
        (ConstModel::Struct { fields: fa, .. }, ConstModel::Struct { fields: fb, .. }) => {
            if fa.len() == fb.len() {
                lemma_fields_eq_symmetric(a, b, fa.len());
            }
        },
        _ => {},
    }
}

proof fn lemma_fields_eq_symmetric(a: ConstModel, b: ConstModel, n: nat)
    requires
        a is Struct,
        b is Struct,
        n <= a->fields.len(),
        a->fields.len() == b->fields.len(),
    ensures
        fields_eq(a, b, n) == fields_eq(b, a, n),
    decreases a, n,
{
    if n > 0 {
        lemma_fields_eq_symmetric(a, b, (n - 1) as nat);
        let fa = a->fields;
        assert(decreases_to!(a => fa));
        assert(decreases_to!(fa => fa[n - 1]));
        assert(decreases_to!(fa[n - 1] => fa[n - 1].1));
        law_const_eq_symmetric(fa[n - 1].1, b->fields[n - 1].1);
    }
}

/// `a < b` and `b > a` (and likewise `<=` and `>=`) give the same answer, or fail alike.
pub proof fn law_compare_flip(l: ConstModel, r: ConstModel)
    ensures
        compare_spec(BinOp::Lt, l, r) is Ok <==> compare_spec(BinOp::Gt, r, l) is Ok,
        compare_spec(BinOp::Lt, l, r) is Ok ==> compare_spec(BinOp::Lt, l, r) == compare_spec(
            BinOp::Gt,
            r,
            l,
        ),
        compare_spec(BinOp::Le, l, r) is Ok ==> compare_spec(BinOp::Le, l, r) == compare_spec(
            BinOp::Ge,
            r,
            l,
        ),
{
}

/// Negating a signed integer twice gives it back, except at the minimum, whose negation fails.
pub proof fn law_negate_twice(x: i128)
    ensures
        x != i128::MIN ==> (negate_spec(ConstModel::Int(x)) matches Ok(y) && negate_spec(y) == Ok::<
            ConstModel,
            Seq<char>,
        >(ConstModel::Int(x))),
        x == i128::MIN ==> negate_spec(ConstModel::Int(x)) is Err,
{
}

} // verus!
