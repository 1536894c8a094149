use vstd::prelude::*;

use std::rc::Rc;

use crate::ast::{Expression, FunctionDecl, FunctionDeclSymbol, NameOfOperand, Parameter, SizeOfOperand};
use crate::environment::EvalEnv;
use crate::cache::{ConstFnCacheKey, ExprKeyModel, ExpressionMemoKey, KeyModel};
use crate::debug::{debug_text, debug_value};
use crate::environment::named_lookup;
use crate::eval::{
    ConstEvalContext, const_cache_lookup, const_cache_model, expr_cache_lookup, sat_inc,
    saturating_inc,
};
use crate::labels::{label, value_label};
use crate::layout::{LayoutKind, TypeLayout, TypeLayoutTable, nullable_type_name, spec_layout_for, spec_ty_sa};
use crate::layout::opt_view;
use crate::symbols::overloads;
use crate::text::{eq_ignore_ascii_case, join, join_seq, namespace_chain, nat_text, ns_chain, owned, qualified, qualify_with, str_eq, str_eq_ignore_ascii_case, u128_text, views};
use crate::types::{Ty, canonical, canonical_name, parse_type_text, trim, trim_text, type_denoted, type_text_valid};
use crate::values::{ConstEvalError, ConstEvalResult, ConstModel, ConstValue, ResultModel, Span, error, error_text, field_models, lemma_struct_model};

verus! {

/// `s` with every `::` written `.`.
pub open spec fn colons_to_dots(s: Seq<char>) -> Seq<char>
    decreases s.len(),
{
    if s.len() < 2 {
        s
    } else if s[0] == ':' && s[1] == ':' {
        seq!['.'] + colons_to_dots(s.subrange(2, s.len() as int))
    } else {
        seq![s[0]] + colons_to_dots(s.drop_first())
    }
}

/// `s` with every `::` written `.`.
pub fn replace_colons(s: &str) -> (r: String)
    ensures
        r@ == colons_to_dots(s@),
{
    let v = crate::text::chars_of(s);
    let mut out: Vec<char> = Vec::new();
    let mut i: usize = 0;
    assert(v@.subrange(0, v.len() as int) =~= v@);
    assert(out@ + colons_to_dots(v@) =~= colons_to_dots(v@));
    while i < v.len()
        invariant
            v@ == s@,
            i <= v.len(),
            out@ + colons_to_dots(v@.subrange(i as int, v.len() as int)) == colons_to_dots(v@),
        decreases v.len() - i,
    {
        let ghost rest = v@.subrange(i as int, v.len() as int);
        if i + 1 < v.len() && v[i] == ':' && v[i + 1] == ':' {
            assert(rest.subrange(2, rest.len() as int) =~= v@.subrange(i + 2, v.len() as int));
            out.push('.');
            i = i + 2;
        } else {
            proof {
                if rest.len() >= 2 {
                    assert(rest.drop_first() =~= v@.subrange(i + 1, v.len() as int));
                } else {
                    assert(rest.len() == 1);
                    assert(colons_to_dots(rest) == rest);
                    assert(rest =~= seq![v@[i as int]]);
                    assert(v@.subrange(i + 1, v.len() as int) =~= Seq::<char>::empty());
                    assert(colons_to_dots(Seq::<char>::empty()) == Seq::<char>::empty());
                }
            }
            out.push(v[i]);
            i = i + 1;
        }
        assert(out@ + colons_to_dots(v@.subrange(i as int, v.len() as int)) =~= colons_to_dots(
            v@,
        ));
    }
    crate::text::string_of(&out)
}

/// The value of the enum variant `variant` of the enum layout named `name`.
pub open spec fn variant_in(t: TypeLayoutTable, name: Seq<char>, variant: Seq<char>) -> Option<ConstModel> {
    match spec_layout_for(t, name) {
        Some(l) => if l.kind == LayoutKind::Enum {
            match first_variant(l.variants@, variant) {
                Some(i) => Some(
                    ConstModel::Enum {
                        type_path: l.name@,
                        variant,
                        discriminant: l.variants@[i].discriminant,
                    },
                ),
                None => None,
            }
        } else {
            None
        },
        None => None,
    }
}

/// The position of the first variant named `name`.
pub open spec fn first_variant(vs: Seq<crate::layout::EnumVariantLayout>, name: Seq<char>) -> Option<int>
    decreases vs.len(),
{
    if vs.len() == 0 {
        None
    } else if vs[0].name@ == name {
        Some(0)
    } else {
        match first_variant(vs.drop_first(), name) {
            Some(i) => Some(i + 1),
            None => None,
        }
    }
}

/// The enum value a path `Type::Variant` (or `Type.Variant`) denotes, if any.
pub open spec fn enum_variant_of(t: TypeLayoutTable, segments: Seq<Seq<char>>) -> Option<ConstModel> {
    if segments.len() < 2 {
        None
    } else {
        let joined = join_seq(segments.drop_last(), "::"@);
        match variant_in(t, joined, segments.last()) {
            Some(v) => Some(v),
            None => variant_in(t, colons_to_dots(joined), segments.last()),
        }
    }
}

/// The value of a struct member.
pub open spec fn member_of(v: ConstModel, member: Seq<char>) -> Result<ConstModel, Seq<char>> {
    match v {
        ConstModel::Struct { type_path, fields } => match named_lookup(fields, member) {
            Some(f) => Ok(crate::values::normalised(f)),
            None => Err(
                "struct `"@ + type_path + "` does not have constant field `"@ + member + "`"@,
            ),
        },
        other => Err(
            "member `"@ + member + "` is not available on constant value "@ + debug_text(other),
        ),
    }
}

impl ConstEvalContext {
    /// The width of a pointer in bits.
    pub fn pointer_bits(&self) -> (r: u32)
        requires
            self.wf(),
        ensures
            r == self.type_layouts.pointer_size * 8,
            8 <= r <= 128,
    {
        proof {
            assert(self.type_layouts.wf());
        }
        (self.type_layouts.pointer_size * 8) as u32
    }

    /// What the constant cache records for `qualified`.
    pub fn const_cache_get(&self, qualified: &str) -> (r: Option<Option<ConstEvalResult>>)
        ensures
            match r {
                Some(Some(v)) => const_cache_lookup(const_cache_model(self.cache@), qualified@)
                    == Some(Some(v@)),
                Some(None) => const_cache_lookup(const_cache_model(self.cache@), qualified@) == Some(
                    None::<ResultModel>,
                ),
                None => const_cache_lookup(const_cache_model(self.cache@), qualified@) is None,
            },
    {
        let ghost m = const_cache_model(self.cache@);
        let mut i: usize = 0;
        assert(m.subrange(0, m.len() as int) =~= m);
        while i < self.cache.len()
            invariant
                i <= self.cache.len(),
                m == const_cache_model(self.cache@),
                const_cache_lookup(m, qualified@) == const_cache_lookup(
                    m.subrange(i as int, m.len() as int),
                    qualified@,
                ),
            decreases self.cache.len() - i,
        {
            let ghost rest = m.subrange(i as int, m.len() as int);
            if str_eq(self.cache[i].0.as_str(), qualified) {
                return match &self.cache[i].1 {
                    Some(v) => Some(Some(v.duplicate())),
                    None => Some(None),
                };
            }
            assert(rest.drop_first() =~= m.subrange(i + 1, m.len() as int));
            i = i + 1;
        }
        None
    }

    /// Records what evaluating `qualified` gave.
    pub fn const_cache_put(&mut self, qualified: &str, value: Option<ConstEvalResult>)
        ensures
            const_cache_lookup(const_cache_model(final(self).cache@), qualified@) == Some(
                crate::eval::opt_result_model(value),
            ),
            forall|p: Seq<char>|
                p != qualified@ ==> #[trigger] const_cache_lookup(const_cache_model(final(self).cache@), p)
                    == const_cache_lookup(const_cache_model(old(self).cache@), p),
            crate::eval::cache_kept(old(self).cache@, final(self).cache@),
            *final(self) == (ConstEvalContext { cache: final(self).cache, ..*old(self) }),
    {
        let ghost m = const_cache_model(self.cache@);
        let mut i: usize = 0;
        while i < self.cache.len()
            invariant
                i <= self.cache.len(),
                *self == *old(self),
                m == const_cache_model(self.cache@),
                forall|k: int| 0 <= k < i ==> m[k].0 != qualified@,
            decreases self.cache.len() - i,
        {
            if str_eq(self.cache[i].0.as_str(), qualified) {
                let ghost before = self.cache@;
                let entry = (owned(qualified), value);
                let ghost em = (entry.0@, crate::eval::opt_result_model(entry.1));
                self.cache.set(i, entry);
                proof {
                    let nm = const_cache_model(self.cache@);
                    assert(nm =~= m.update(i as int, em));
                    assert forall|k: int| 0 <= k < i implies nm[k].0 != qualified@ by {
                        assert(nm[k] == m[k]);
                    }
                    lemma_cache_lookup_at(nm, qualified@, i as int);
                    assert forall|p: Seq<char>| #[trigger] const_cache_lookup(m, p) is Some implies const_cache_lookup(nm, p) is Some by {
                        if p != qualified@ {
                            crate::eval::lemma_lookup_update(m, i as int, em, p);
                        }
                    }
                    assert forall|p: Seq<char>| p != qualified@ implies #[trigger] const_cache_lookup(nm, p)
                        == const_cache_lookup(m, p) by {
                        crate::eval::lemma_lookup_update(m, i as int, em, p);
                    }
                }
                return;
            }
            i = i + 1;
        }
        let entry = (owned(qualified), value);
        let ghost em = (entry.0@, crate::eval::opt_result_model(entry.1));
        self.cache.push(entry);
        proof {
            let nm = const_cache_model(self.cache@);
            assert(nm =~= m.push(em));
            assert forall|p: Seq<char>| #[trigger] const_cache_lookup(m, p) is Some implies const_cache_lookup(nm, p) is Some by {
                crate::eval::lemma_lookup_push(m, em, p);
            }
            assert forall|p: Seq<char>| p != qualified@ implies #[trigger] const_cache_lookup(nm, p)
                == const_cache_lookup(m, p) by {
                crate::eval::lemma_lookup_push_other(m, em, p);
            }
            assert forall|k: int| 0 <= k < i implies nm[k].0 != qualified@ by {
                assert(nm[k] == m[k]);
            }
            lemma_cache_lookup_at(nm, qualified@, i as int);
        }
    }

    /// The value memoised for an expression key.
    pub fn expression_cache_lookup(&self, key: &ExpressionMemoKey) -> (r: Option<ConstEvalResult>)
        ensures
            match r {
                Some(v) => expr_cache_lookup(self.expression_memo(), key@) == Some(v@),
                None => expr_cache_lookup(self.expression_memo(), key@) is None,
            },
    {
        let ghost m = self.expression_memo();
        let mut i: usize = 0;
        assert(m.subrange(0, m.len() as int) =~= m);
        while i < self.expression_cache.len()
            invariant
                i <= self.expression_cache.len(),
                m == self.expression_memo(),
                m.len() == self.expression_cache@.len(),
                expr_cache_lookup(m, key@) == expr_cache_lookup(
                    m.subrange(i as int, m.len() as int),
                    key@,
                ),
            decreases self.expression_cache.len() - i,
        {
            let ghost rest = m.subrange(i as int, m.len() as int);
            if self.expression_cache[i].0.same_as(key) {
                return Some(self.expression_cache[i].1.duplicate());
            }
            assert(rest.drop_first() =~= m.subrange(i + 1, m.len() as int));
            i = i + 1;
        }
        None
    }

    /// Memoises the value of an expression key, replacing an earlier value.
    pub fn expression_cache_store(&mut self, key: ExpressionMemoKey, value: ConstEvalResult)
        requires
            old(self).wf(),
        ensures
            final(self).wf(),
            expr_cache_lookup(final(self).expression_memo(), key@) == Some(value@),
            *final(self) == (ConstEvalContext {
                expression_cache: final(self).expression_cache,
                ..*old(self)
            }),
    {
        let ghost m = self.expression_memo();
        let mut i: usize = 0;
        while i < self.expression_cache.len()
            invariant
                i <= self.expression_cache.len(),
                *self == *old(self),
                old(self).wf(),
                m == self.expression_memo(),
                m.len() == self.expression_cache@.len(),
                forall|k: int| 0 <= k < i ==> m[k].0 != key@,
            decreases self.expression_cache.len() - i,
        {
            if self.expression_cache[i].0.same_as(&key) {
                let ghost kv = key@;
                let ghost vv = value@;
                self.expression_cache.set(i, (key, value));
                proof {
                    let nm = self.expression_memo();
                    assert forall|k: int| 0 <= k < i implies nm[k].0 != kv by {
                        assert(nm[k] == m[k]);
                    }
                    lemma_expr_lookup_at(nm, kv, vv, i as int);
                }
                return;
            }
            i = i + 1;
        }
        let ghost kv = key@;
        let ghost vv = value@;
        self.expression_cache.push((key, value));
        proof {
            let nm = self.expression_memo();
            assert forall|k: int| 0 <= k < i implies nm[k].0 != kv by {
                assert(nm[k] == m[k]);
            }
            lemma_expr_lookup_at(nm, kv, vv, i as int);
        }
    }

    /// Counts a request to evaluate an expression.
    pub fn record_expression_request(&mut self)
        ensures
            *final(self) == (ConstEvalContext {
                metrics: crate::cache::ConstEvalMetrics {
                    expressions_requested: sat_inc(old(self).metrics.expressions_requested),
                    ..old(self).metrics
                },
                ..*old(self)
            }),
    {
        self.metrics.expressions_requested = saturating_inc(self.metrics.expressions_requested);
    }

    /// Counts an expression that was evaluated.
    pub fn record_expression_eval(&mut self)
        ensures
            *final(self) == (ConstEvalContext {
                metrics: crate::cache::ConstEvalMetrics {
                    expressions_evaluated: sat_inc(old(self).metrics.expressions_evaluated),
                    ..old(self).metrics
                },
                ..*old(self)
            }),
    {
        self.metrics.expressions_evaluated = saturating_inc(self.metrics.expressions_evaluated);
    }

    /// Counts an answer taken from the expression memo.
    pub fn record_memo_hit(&mut self)
        ensures
            *final(self) == (ConstEvalContext {
                metrics: crate::cache::ConstEvalMetrics {
                    memo_hits: sat_inc(old(self).metrics.memo_hits),
                    ..old(self).metrics
                },
                ..*old(self)
            }),
    {
        self.metrics.memo_hits = saturating_inc(self.metrics.memo_hits);
    }

    /// Counts an expression that the memo did not answer.
    pub fn record_memo_miss(&mut self)
        ensures
            *final(self) == (ConstEvalContext {
                metrics: crate::cache::ConstEvalMetrics {
                    memo_misses: sat_inc(old(self).metrics.memo_misses),
                    ..old(self).metrics
                },
                ..*old(self)
            }),
    {
        self.metrics.memo_misses = saturating_inc(self.metrics.memo_misses);
    }

    /// Counts a call answered by the function memo.
    pub fn record_fn_cache_hit(&mut self)
        ensures
            *final(self) == (ConstEvalContext {
                metrics: crate::cache::ConstEvalMetrics {
                    fn_cache_hits: sat_inc(old(self).metrics.fn_cache_hits),
                    ..old(self).metrics
                },
                ..*old(self)
            }),
    {
        self.metrics.fn_cache_hits = saturating_inc(self.metrics.fn_cache_hits);
    }

    /// Counts a call that the function memo did not answer.
    pub fn record_fn_cache_miss(&mut self)
        ensures
            *final(self) == (ConstEvalContext {
                metrics: crate::cache::ConstEvalMetrics {
                    fn_cache_misses: sat_inc(old(self).metrics.fn_cache_misses),
                    ..old(self).metrics
                },
                ..*old(self)
            }),
    {
        self.metrics.fn_cache_misses = saturating_inc(self.metrics.fn_cache_misses);
    }

    /// The result memoised for a call key.
    pub fn const_fn_cache_lookup(&self, key: &ConstFnCacheKey) -> (r: Option<ConstEvalResult>)
        ensures
            match r {
                Some(v) => crate::cache::cache_find(self.fn_cache.view(), key@) matches Some(i)
                    && self.fn_cache.view()[i].1 == v@,
                None => crate::cache::cache_find(self.fn_cache.view(), key@) is None,
            },
    {
        match self.fn_cache.get(key) {
            Some(v) => Some(v.duplicate()),
            None => None,
        }
    }

    /// Memoises the result of a call.
    pub fn const_fn_cache_store(&mut self, key: ConstFnCacheKey, value: ConstEvalResult)
        requires
            old(self).wf(),
        ensures
            final(self).wf(),
            final(self).fn_cache.view() == crate::cache::cache_insert(
                old(self).fn_cache.view(),
                key@,
                value@,
                old(self).fn_cache.cap(),
            ),
            final(self).fn_cache.cap() == old(self).fn_cache.cap(),
            old(self).fn_cache.cap() >= 1 ==> (crate::cache::cache_find(final(self).fn_cache.view(), key@) matches Some(
                i,
            ) && final(self).fn_cache.view()[i] == (key@, value@)),
            *final(self) == (ConstEvalContext { fn_cache: final(self).fn_cache, ..*old(self) }),
    {
        let mut c = crate::cache::FunctionMemoCache::new(0);
        std::mem::swap(&mut c, &mut self.fn_cache);
        c.insert(key, value);
        self.fn_cache = c;
    }

    /// The label under which a value enters a call's memo key (see `label`).
    pub fn const_value_label(&self, value: &ConstValue) -> (r: String)
        ensures
            r@ == label(value@),
    {
        value_label(value)
    }

    /// The memo key of a call: the function's qualified name and the labels of the argument values.
    pub fn const_fn_cache_key(
        &self,
        symbol: &FunctionDeclSymbol,
        args: &Vec<(Option<String>, ConstEvalResult)>,
    ) -> (r: ConstFnCacheKey)
        ensures
            r@ == (KeyModel {
                name: symbol.qualified@,
                args: args@.map_values(|a: (Option<String>, ConstEvalResult)| label(a.1.value@)),
            }),
    {
        let mut labels: Vec<String> = Vec::new();
        let mut i: usize = 0;
        while i < args.len()
            invariant
                i <= args.len(),
                views(labels@) == args@.subrange(0, i as int).map_values(
                    |a: (Option<String>, ConstEvalResult)| label(a.1.value@),
                ),
            decreases args.len() - i,
        {
            let ghost prev = labels@;
            let l = value_label(&args[i].1.value);
            labels.push(l);
            assert(views(labels@) =~= views(prev).push(l@));
            i = i + 1;
            assert(views(labels@) =~= args@.subrange(0, i as int).map_values(
                |a: (Option<String>, ConstEvalResult)| label(a.1.value@),
            ));
        }
        assert(args@.subrange(0, args.len() as int) =~= args@);
        ConstFnCacheKey::new(symbol.qualified.clone(), labels)
    }

    /// Reads a member of a struct value.
    pub fn evaluate_struct_member(value: ConstValue, member: &str, span: Option<Span>) -> (r: Result<
        ConstEvalResult,
        ConstEvalError,
    >)
        ensures
            crate::ops::produces(r, member_of(value@, member@), span),
    {
        match &value {
            ConstValue::Struct { type_path, fields } => {
                proof {
                    lemma_struct_model(value);
                }
                match crate::environment::lookup_named(fields, member) {
                    Some(v) => Ok(ConstEvalResult::new(v)),
                    None => {
                        let mut m = owned("struct `");
                        m.append(type_path.as_str());
                        m.append("` does not have constant field `");
                        m.append(member);
                        m.append("`");
                        Err(error(m, span))
                    },
                }
            },
            _ => {
                let mut m = owned("member `");
                m.append(member);
                m.append("` is not available on constant value ");
                m.append(debug_value(&value).as_str());
                Err(error(m, span))
            },
        }
    }

    fn variant_of_layout(&self, name: &str, variant: &str) -> (r: Option<ConstValue>)
        ensures
            match r {
                Some(v) => variant_in(self.type_layouts, name@, variant@) == Some(v@),
                None => variant_in(self.type_layouts, name@, variant@) is None,
            },
    {
        match self.type_layouts.layout_for_name(name) {
            Some(layout) => {
                if layout.kind != LayoutKind::Enum {
                    return None;
                }
                let mut i: usize = 0;
                assert(layout.variants@.subrange(0, layout.variants@.len() as int) =~= layout.variants@);
                while i < layout.variants.len()
                    invariant
                        i <= layout.variants.len(),
                        spec_layout_for(self.type_layouts, name@) == Some(*layout),
                        layout.kind == LayoutKind::Enum,
                        first_variant(layout.variants@, variant@) == match first_variant(
                            layout.variants@.subrange(i as int, layout.variants@.len() as int),
                            variant@,
                        ) {
                            Some(k) => Some(k + i),
                            None => None::<int>,
                        },
                    decreases layout.variants.len() - i,
                {
                    let ghost rest = layout.variants@.subrange(
                        i as int,
                        layout.variants@.len() as int,
                    );
                    assert(rest[0] == layout.variants@[i as int]);
                    if str_eq(layout.variants[i].name.as_str(), variant) {
                        assert(first_variant(rest, variant@) == Some(0int));
                        return Some(
                            ConstValue::Enum {
                                type_path: layout.name.clone(),
                                variant: owned(variant),
                                discriminant: layout.variants[i].discriminant,
                            },
                        );
                    }
                    assert(rest.drop_first() =~= layout.variants@.subrange(
                        i + 1,
                        layout.variants@.len() as int,
                    ));
                    i = i + 1;
                }
                None
            },
            None => None,
        }
    }

    /// The enum value that a path `Type::Variant` names (see `enum_variant_of`).
    pub fn try_resolve_enum_variant(&self, segments: &Vec<String>) -> (r: Option<ConstValue>)
        ensures
            match r {
                Some(v) => enum_variant_of(self.type_layouts, views(segments@)) == Some(v@),
                None => enum_variant_of(self.type_layouts, views(segments@)) is None,
            },
    {
        if segments.len() < 2 {
            return None;
        }
        let mut type_segments: Vec<String> = Vec::new();
        let mut i: usize = 0;
        while i + 1 < segments.len()
            invariant
                i + 1 <= segments.len(),
                views(type_segments@) == views(segments@).drop_last().subrange(0, i as int),
            decreases segments.len() - i,
        {
            let ghost prev = type_segments@;
            type_segments.push(segments[i].clone());
            assert(views(type_segments@) =~= views(prev).push(segments@[i as int]@));
            i = i + 1;
            assert(views(type_segments@) =~= views(segments@).drop_last().subrange(0, i as int));
        }
        assert(views(type_segments@) =~= views(segments@).drop_last());
        let variant = segments[segments.len() - 1].as_str();
        assert(variant@ == views(segments@).last());
        let joined = join(&type_segments, "::");
        if let Some(v) = self.variant_of_layout(joined.as_str(), variant) {
            return Some(v);
        }
        let dotted = replace_colons(joined.as_str());
        self.variant_of_layout(dotted.as_str(), variant)
    }
}

proof fn lemma_cache_lookup_at(m: Seq<(Seq<char>, Option<ResultModel>)>, q: Seq<char>, i: int)
    requires
        0 <= i < m.len(),
        m[i].0 == q,
        forall|k: int| 0 <= k < i ==> m[k].0 != q,
    ensures
        const_cache_lookup(m, q) == Some(m[i].1),
    decreases i,
{
    if i > 0 {
        lemma_cache_lookup_at(m.drop_first(), q, i - 1);
    }
}

proof fn lemma_expr_lookup_at(m: Seq<(ExprKeyModel, ResultModel)>, k: ExprKeyModel, v: ResultModel, i: int)
    requires
        0 <= i < m.len(),
        m[i] == (k, v),
        forall|j: int| 0 <= j < i ==> m[j].0 != k,
    ensures
        expr_cache_lookup(m, k) == Some(v),
    decreases i,
{
    if i > 0 {
        lemma_expr_lookup_at(m.drop_first(), k, v, i - 1);
    }
}

/// The candidate names of a path seen from a namespace, before duplicates are dropped: the path
/// itself, then the path under each enclosing namespace, innermost first.
pub open spec fn raw_candidates(namespace: Option<Seq<char>>, joined: Seq<char>) -> Seq<Seq<char>> {
    match namespace {
        Some(ns) => seq![joined] + ns_chain(ns).map_values(|p: Seq<char>| qualify_with(p, joined)),
        None => seq![joined],
    }
}

/// `s` without its later repetitions.
pub open spec fn dedup_seq(s: Seq<Seq<char>>) -> Seq<Seq<char>>
    decreases s.len(),
{
    if s.len() == 0 {
        s
    } else {
        let d = dedup_seq(s.drop_last());
        if d.contains(s.last()) {
            d
        } else {
            d.push(s.last())
        }
    }
}

/// The names a path may have, seen from a namespace, each once.
pub open spec fn candidate_list(namespace: Option<Seq<char>>, segments: Seq<Seq<char>>) -> Seq<Seq<char>> {
    dedup_seq(raw_candidates(namespace, join_seq(segments, "::"@)))
}

/// Adds `candidate` to `results` unless it is already there.
pub fn push_candidate(candidate: &str, results: &mut Vec<String>)
    ensures
        views(final(results)@) == if views(old(results)@).contains(candidate@) {
            views(old(results)@)
        } else {
            views(old(results)@).push(candidate@)
        },
{
    let mut i: usize = 0;
    while i < results.len()
        invariant
            i <= results.len(),
            forall|k: int| 0 <= k < i ==> views(results@)[k] != candidate@,
        decreases results.len() - i,
    {
        if str_eq(results[i].as_str(), candidate) {
            assert(views(results@)[i as int] == candidate@);
            return;
        }
        i = i + 1;
    }
    let ghost prev = results@;
    results.push(owned(candidate));
    assert(views(results@) =~= views(prev).push(candidate@));
}

/// The names a path may have, seen from `namespace` (see `candidate_list`).
pub fn candidate_names(namespace: Option<&str>, segments: &Vec<String>) -> (r: Vec<String>)
    ensures
        views(r@) == candidate_list(opt_view(namespace), views(segments@)),
{
    let joined = join(segments, "::");
    let ghost raw = raw_candidates(opt_view(namespace), joined@);
    let mut results: Vec<String> = Vec::new();
    assert(views(results@) =~= Seq::<Seq<char>>::empty());
    push_candidate(joined.as_str(), &mut results);
    assert(raw[0] == joined@);
    assert(raw.subrange(0, 1) =~= seq![joined@]);
    assert(raw.subrange(0, 1).drop_last() =~= Seq::<Seq<char>>::empty());
    assert(views(results@) =~= seq![joined@]);
    proof {
        let one = raw.subrange(0, 1);
        assert(one.len() == 1);
        assert(dedup_seq(one.drop_last()) == one.drop_last());
        assert(!one.drop_last().contains(one.last()));
        assert(dedup_seq(one) == one.drop_last().push(one.last()));
        assert(one.drop_last().push(one.last()) =~= one);
    }
    assert(views(results@) == dedup_seq(raw.subrange(0, 1)));
    if let Some(ns) = namespace {
        let chain = namespace_chain(ns);
        let mut i: usize = 0;
        while i < chain.len()
            invariant
                i <= chain.len(),
                views(chain@) == ns_chain(ns@),
                raw == seq![joined@] + ns_chain(ns@).map_values(|p: Seq<char>| qualify_with(p, joined@)),
                views(results@) == dedup_seq(raw.subrange(0, i + 1)),
            decreases chain.len() - i,
        {
            let c = qualified(chain[i].as_str(), joined.as_str());
            assert(views(chain@)[i as int] == chain@[i as int]@);
            assert(raw.subrange(0, i + 2).drop_last() =~= raw.subrange(0, i + 1));
            assert(raw.subrange(0, i + 2).last() == c@);
            push_candidate(c.as_str(), &mut results);
            i = i + 1;
        }
        assert(raw.subrange(0, chain.len() + 1) =~= raw);
    } else {
        assert(raw.subrange(0, 1) =~= raw);
    }
    results
}

/// The names given to call arguments.
pub open spec fn arg_names(args: Seq<(Option<String>, ConstEvalResult)>) -> Seq<Option<Seq<char>>> {
    args.map_values(
        |a: (Option<String>, ConstEvalResult)|
            match a.0 {
                Some(n) => Some(n@),
                None => None,
            },
    )
}

/// Every named argument names, ignoring ASCII case, the parameter in its position.
pub open spec fn names_match(params: Seq<Parameter>, names: Seq<Option<Seq<char>>>) -> bool {
    forall|i: int|
        0 <= i < names.len() && (#[trigger] names[i]) is Some ==> i < params.len()
            && eq_ignore_ascii_case(names[i]->0, params[i].name@)
}

/// A function that takes as many parameters as there are arguments, with matching names.
pub open spec fn applicable(f: Rc<FunctionDeclSymbol>, names: Seq<Option<Seq<char>>>) -> bool {
    f.function.signature.parameters@.len() == names.len() && names_match(
        f.function.signature.parameters@,
        names,
    )
}

/// The applicable functions of `fs`: those marked `constexpr`, or (when `constexpr` is false) the
/// others that have a body.
pub open spec fn pick(fs: Seq<Rc<FunctionDeclSymbol>>, names: Seq<Option<Seq<char>>>, constexpr: bool) -> Seq<
    Rc<FunctionDeclSymbol>,
>
    decreases fs.len(),
{
    if fs.len() == 0 {
        fs
    } else {
        let p = pick(fs.drop_last(), names, constexpr);
        let f = fs.last();
        if applicable(f, names) && (if constexpr {
            f.function.is_constexpr
        } else {
            !f.function.is_constexpr && f.function.body is Some
        }) {
            p.push(f)
        } else {
            p
        }
    }
}

/// The picked overloads of every candidate name, in order.
pub open spec fn gather(
    fns: Seq<Rc<FunctionDeclSymbol>>,
    cands: Seq<Seq<char>>,
    names: Seq<Option<Seq<char>>>,
    constexpr: bool,
) -> Seq<Rc<FunctionDeclSymbol>>
    decreases cands.len(),
{
    if cands.len() == 0 {
        Seq::empty()
    } else {
        gather(fns, cands.drop_last(), names, constexpr) + pick(
            overloads(fns, cands.last()),
            names,
            constexpr,
        )
    }
}

/// The functions a call may run: the `constexpr` overloads found under the candidate names (and,
/// when there are none, under the owner type), else the other overloads with a body.
pub open spec fn call_matches(
    fns: Seq<Rc<FunctionDeclSymbol>>,
    namespace: Option<Seq<char>>,
    owner: Option<Seq<char>>,
    segments: Seq<Seq<char>>,
    names: Seq<Option<Seq<char>>>,
) -> Seq<Rc<FunctionDeclSymbol>> {
    let cands = candidate_list(namespace, segments);
    let ce = gather(fns, cands, names, true);
    let inf = gather(fns, cands, names, false);
    let joined = join_seq(segments, "::"@);
    let (ce2, inf2) = if ce.len() == 0 && owner is Some {
        let own = overloads(fns, qualify_with(owner->0, joined));
        (ce + pick(own, names, true), inf + pick(own, names, false))
    } else {
        (ce, inf)
    };
    if ce2.len() == 0 {
        inf2
    } else {
        ce2
    }
}

/// The function a compile-time call runs, or why there is none.
pub open spec fn resolution(
    fns: Seq<Rc<FunctionDeclSymbol>>,
    namespace: Option<Seq<char>>,
    owner: Option<Seq<char>>,
    segments: Seq<Seq<char>>,
    names: Seq<Option<Seq<char>>>,
) -> Result<Rc<FunctionDeclSymbol>, Seq<char>> {
    let m = call_matches(fns, namespace, owner, segments, names);
    let display = join_seq(segments, "::"@);
    if segments.len() == 0 {
        Err("call target is not a valid path"@)
    } else if m.len() == 0 {
        Err("`"@ + display + "` cannot be evaluated at compile time (no eligible function found)"@)
    } else if m.len() > 1 {
        Err(
            "compile-time call to `"@ + display + "` is ambiguous across "@ + nat_text(m.len())
                + " overloads"@,
        )
    } else {
        Ok(m[0])
    }
}

impl ConstEvalContext {
    /// Whether the named arguments name the parameters in their positions (ignoring ASCII case).
    pub fn named_arguments_match(function: &FunctionDecl, args: &Vec<(Option<String>, ConstEvalResult)>) -> (r:
        bool)
        ensures
            r == names_match(function.signature.parameters@, arg_names(args@)),
    {
        let ghost names = arg_names(args@);
        let ghost params = function.signature.parameters@;
        let mut i: usize = 0;
        while i < args.len()
            invariant
                i <= args.len(),
                names == arg_names(args@),
                params == function.signature.parameters@,
                forall|k: int|
                    0 <= k < i && (#[trigger] names[k]) is Some ==> k < params.len()
                        && eq_ignore_ascii_case(names[k]->0, params[k].name@),
            decreases args.len() - i,
        {
            if let Some(name) = &args[i].0 {
                assert(names[i as int] == Some(name@));
                if i < function.signature.parameters.len() {
                    if !str_eq_ignore_ascii_case(
                        name.as_str(),
                        function.signature.parameters[i].name.as_str(),
                    ) {
                        return false;
                    }
                } else {
                    return false;
                }
            }
            i = i + 1;
        }
        true
    }

    /// Sorts the applicable overloads into `constexpr` ones and other ones with a body.
    pub fn collect_matching_const_functions(
        functions: &Vec<Rc<FunctionDeclSymbol>>,
        args: &Vec<(Option<String>, ConstEvalResult)>,
        constexpr_matches: &mut Vec<Rc<FunctionDeclSymbol>>,
        inferred_matches: &mut Vec<Rc<FunctionDeclSymbol>>,
    )
        ensures
            final(constexpr_matches)@ == old(constexpr_matches)@ + pick(
                functions@,
                arg_names(args@),
                true,
            ),
            final(inferred_matches)@ == old(inferred_matches)@ + pick(
                functions@,
                arg_names(args@),
                false,
            ),
    {
        let ghost names = arg_names(args@);
        let ghost c0 = constexpr_matches@;
        let ghost i0 = inferred_matches@;
        let mut i: usize = 0;
        while i < functions.len()
            invariant
                i <= functions.len(),
                names == arg_names(args@),
                constexpr_matches@ == c0 + pick(functions@.subrange(0, i as int), names, true),
                inferred_matches@ == i0 + pick(functions@.subrange(0, i as int), names, false),
            decreases functions.len() - i,
        {
            let ghost sub = functions@.subrange(0, i + 1);
            assert(sub.drop_last() =~= functions@.subrange(0, i as int));
            assert(sub.last() == functions@[i as int]);
            let decl = &functions[i];
            if decl.function.signature.parameters.len() == args.len()
                && Self::named_arguments_match(&decl.function, args) {
                if decl.function.is_constexpr {
                    constexpr_matches.push(Rc::clone(decl));
                } else if decl.function.body.is_some() {
                    inferred_matches.push(Rc::clone(decl));
                }
            }
            assert(constexpr_matches@ =~= c0 + pick(sub, names, true));
            assert(inferred_matches@ =~= i0 + pick(sub, names, false));
            i = i + 1;
        }
        assert(functions@.subrange(0, functions.len() as int) =~= functions@);
    }

    /// Finds the one function a compile-time call runs (see `resolution`).
    pub fn resolve_const_function(
        &self,
        namespace: Option<&str>,
        owner: Option<&str>,
        segments: &Vec<String>,
        args: &Vec<(Option<String>, ConstEvalResult)>,
        span: Option<Span>,
    ) -> (r: Result<Rc<FunctionDeclSymbol>, ConstEvalError>)
        ensures
            match r {
                Ok(f) => resolution(
                    self.symbol_index.functions@,
                    opt_view(namespace),
                    opt_view(owner),
                    views(segments@),
                    arg_names(args@),
                ) == Ok::<Rc<FunctionDeclSymbol>, Seq<char>>(f),
                Err(e) => resolution(
                    self.symbol_index.functions@,
                    opt_view(namespace),
                    opt_view(owner),
                    views(segments@),
                    arg_names(args@),
                ) == Err::<Rc<FunctionDeclSymbol>, Seq<char>>(e.message@) && e.span == span,
            },
    {
        if segments.len() == 0 {
            return Err(error_text("call target is not a valid path", span));
        }
        let ghost fns = self.symbol_index.functions@;
        let ghost names = arg_names(args@);
        let cands = candidate_names(namespace, segments);
        let mut constexpr_matches: Vec<Rc<FunctionDeclSymbol>> = Vec::new();
        let mut inferred_matches: Vec<Rc<FunctionDeclSymbol>> = Vec::new();
        let mut k: usize = 0;
        while k < cands.len()
            invariant
                k <= cands.len(),
                fns == self.symbol_index.functions@,
                names == arg_names(args@),
                constexpr_matches@ == gather(fns, views(cands@).subrange(0, k as int), names, true),
                inferred_matches@ == gather(fns, views(cands@).subrange(0, k as int), names, false),
            decreases cands.len() - k,
        {
            let ghost sub = views(cands@).subrange(0, k + 1);
            assert(sub.drop_last() =~= views(cands@).subrange(0, k as int));
            assert(sub.last() == cands@[k as int]@);
            let functions = self.symbol_index.function_decls(cands[k].as_str());
            Self::collect_matching_const_functions(
                &functions,
                args,
                &mut constexpr_matches,
                &mut inferred_matches,
            );
            k = k + 1;
        }
        assert(views(cands@).subrange(0, cands.len() as int) =~= views(cands@));
        let joined = join(segments, "::");
        if constexpr_matches.len() == 0 {
            if let Some(o) = owner {
                let candidate = qualified(o, joined.as_str());
                let functions = self.symbol_index.function_decls(candidate.as_str());
                Self::collect_matching_const_functions(
                    &functions,
                    args,
                    &mut constexpr_matches,
                    &mut inferred_matches,
                );
            }
        }
        let matches = if constexpr_matches.len() == 0 {
            inferred_matches
        } else {
            constexpr_matches
        };
        if matches.len() == 0 {
            let mut m = owned("`");
            m.append(joined.as_str());
            m.append("` cannot be evaluated at compile time (no eligible function found)");
            return Err(error(m, span));
        }
        if matches.len() > 1 {
            let mut m = owned("compile-time call to `");
            m.append(joined.as_str());
            m.append("` is ambiguous across ");
            m.append(u128_text(matches.len() as u128).as_str());
            m.append(" overloads");
            return Err(error(m, span));
        }
        Ok(Rc::clone(&matches[0]))
    }
}

proof fn lemma_overloads_in(fns: Seq<Rc<FunctionDeclSymbol>>, n: Seq<char>, f: Rc<FunctionDeclSymbol>)
    requires
        overloads(fns, n).contains(f),
    ensures
        fns.contains(f),
    decreases fns.len(),
{
    if fns.len() > 0 {
        let o = overloads(fns.drop_last(), n);
        if fns.last().qualified@ == n && f == fns.last() {
            assert(fns[fns.len() - 1] == f);
        } else {
            if fns.last().qualified@ == n {
                let k = choose|k: int| 0 <= k < overloads(fns, n).len() && overloads(fns, n)[k] == f;
                assert(overloads(fns, n) == o.push(fns.last()));
                assert(k < o.len());
                assert(o[k] == f);
            }
            lemma_overloads_in(fns.drop_last(), n, f);
            let j = choose|j: int| 0 <= j < fns.drop_last().len() && fns.drop_last()[j] == f;
            assert(fns[j] == f);
        }
    }
}

proof fn lemma_pick_in(fs: Seq<Rc<FunctionDeclSymbol>>, names: Seq<Option<Seq<char>>>, ce: bool, f: Rc<FunctionDeclSymbol>)
    requires
        pick(fs, names, ce).contains(f),
    ensures
        fs.contains(f),
    decreases fs.len(),
{
    if fs.len() > 0 {
        let p = pick(fs.drop_last(), names, ce);
        if f == fs.last() {
            assert(fs[fs.len() - 1] == f);
        } else {
            let k = choose|k: int| 0 <= k < pick(fs, names, ce).len() && pick(fs, names, ce)[k] == f;
            if pick(fs, names, ce) != p {
                assert(pick(fs, names, ce) == p.push(fs.last()));
                assert(k < p.len());
                assert(p[k] == f);
            }
            lemma_pick_in(fs.drop_last(), names, ce, f);
            let j = choose|j: int| 0 <= j < fs.drop_last().len() && fs.drop_last()[j] == f;
            assert(fs[j] == f);
        }
    }
}

proof fn lemma_gather_in(
    fns: Seq<Rc<FunctionDeclSymbol>>,
    cands: Seq<Seq<char>>,
    names: Seq<Option<Seq<char>>>,
    ce: bool,
    f: Rc<FunctionDeclSymbol>,
)
    requires
        gather(fns, cands, names, ce).contains(f),
    ensures
        fns.contains(f),
    decreases cands.len(),
{
    if cands.len() > 0 {
        let a = gather(fns, cands.drop_last(), names, ce);
        let b = pick(overloads(fns, cands.last()), names, ce);
        let k = choose|k: int| 0 <= k < (a + b).len() && (a + b)[k] == f;
        if k < a.len() {
            assert(a[k] == f);
            lemma_gather_in(fns, cands.drop_last(), names, ce, f);
        } else {
            assert(b[k - a.len()] == f);
            lemma_pick_in(overloads(fns, cands.last()), names, ce, f);
            lemma_overloads_in(fns, cands.last(), f);
        }
    }
}

proof fn lemma_concat_in(a: Seq<Rc<FunctionDeclSymbol>>, b: Seq<Rc<FunctionDeclSymbol>>, f: Rc<FunctionDeclSymbol>)
    requires
        (a + b).contains(f),
    ensures
        a.contains(f) || b.contains(f),
{
    let k = choose|k: int| 0 <= k < (a + b).len() && (a + b)[k] == f;
    if k < a.len() {
        assert(a[k] == f);
    } else {
        assert(b[k - a.len()] == f);
    }
}

/// A function that a call resolves to is declared in the index.
pub proof fn lemma_resolution_declared(
    fns: Seq<Rc<FunctionDeclSymbol>>,
    namespace: Option<Seq<char>>,
    owner: Option<Seq<char>>,
    segments: Seq<Seq<char>>,
    names: Seq<Option<Seq<char>>>,
)
    ensures
        resolution(fns, namespace, owner, segments, names) matches Ok(f) ==> fns.contains(f)
            && crate::symbols::fn_names(fns).contains(f.qualified@),
{
    if resolution(fns, namespace, owner, segments, names) is Ok {
        let f = resolution(fns, namespace, owner, segments, names)->Ok_0;
        let m = call_matches(fns, namespace, owner, segments, names);
        assert(m[0] == f);
        assert(m.contains(f));
        let cands = candidate_list(namespace, segments);
        let ce = gather(fns, cands, names, true);
        let inf = gather(fns, cands, names, false);
        let joined = join_seq(segments, "::"@);
        if ce.len() == 0 && owner is Some {
            let own = overloads(fns, qualify_with(owner->0, joined));
            if (ce + pick(own, names, true)).len() == 0 {
                lemma_concat_in(inf, pick(own, names, false), f);
                if inf.contains(f) {
                    lemma_gather_in(fns, cands, names, false, f);
                } else {
                    lemma_pick_in(own, names, false, f);
                    lemma_overloads_in(fns, qualify_with(owner->0, joined), f);
                }
            } else {
                lemma_concat_in(ce, pick(own, names, true), f);
                if ce.contains(f) {
                    lemma_gather_in(fns, cands, names, true, f);
                } else {
                    lemma_pick_in(own, names, true, f);
                    lemma_overloads_in(fns, qualify_with(owner->0, joined), f);
                }
            }
        } else if ce.len() == 0 {
            lemma_gather_in(fns, cands, names, false, f);
        } else {
            lemma_gather_in(fns, cands, names, true, f);
        }
        let j = choose|j: int| 0 <= j < fns.len() && fns[j] == f;
        assert(crate::symbols::fn_names(fns)[j] == f.qualified@);
    }
}

/// The word for a size query in diagnostics.
pub open spec fn query_word(is_size: bool) -> Seq<char> {
    if is_size {
        "sizeof"@
    } else {
        "alignof"@
    }
}

/// The word for a size query's answer in diagnostics.
pub open spec fn answer_word(is_size: bool) -> Seq<char> {
    if is_size {
        "size"@
    } else {
        "alignment"@
    }
}

/// Whether `r` is the outcome of `sizeof` (or `alignof`) on `operand` against the layout table `t`.
pub open spec fn size_query_outcome(
    t: TypeLayoutTable,
    operand: SizeOfOperand,
    namespace: Option<Seq<char>>,
    is_size: bool,
    r: Result<crate::values::ResultModel, Seq<char>>,
) -> bool {
    match operand {
        SizeOfOperand::Type(text) => {
            let tr = trim(text@);
            if tr.len() == 0 {
                r == Err::<crate::values::ResultModel, Seq<char>>(
                    "`"@ + query_word(is_size) + "` requires a type operand"@,
                )
            } else if !type_text_valid(tr) {
                r == Err::<crate::values::ResultModel, Seq<char>>(
                    "`"@ + tr + "` is not a valid type for `"@ + query_word(is_size) + "`"@,
                )
            } else {
                exists|ty: Ty|
                    #![trigger type_denoted(tr, ty)]
                    type_denoted(tr, ty) && match spec_ty_sa(t, ty, namespace) {
                        Some(p) => r == Ok::<crate::values::ResultModel, Seq<char>>(
                            crate::values::ResultModel {
                                value: ConstModel::UInt(
                                    (if is_size {
                                        p.0
                                    } else {
                                        p.1
                                    }) as u128,
                                ),
                                literal: None,
                            },
                        ),
                        None => r == Err::<crate::values::ResultModel, Seq<char>>(
                            "cannot determine "@ + answer_word(is_size) + " for type `"@
                                + canonical(ty) + "`"@,
                        ),
                    }
            }
        },
        SizeOfOperand::Value(_) => r == Err::<crate::values::ResultModel, Seq<char>>(
            "`"@ + query_word(is_size) + "` in constant expressions must reference a type name"@,
        ),
    }
}

pub open spec fn result_outcome(r: Result<ConstEvalResult, ConstEvalError>) -> Result<
    crate::values::ResultModel,
    Seq<char>,
> {
    match r {
        Ok(v) => Ok(v@),
        Err(e) => Err(e.message@),
    }
}

/// Whether a context differs from another only in its layout table, which only gained entries.
pub open spec fn layouts_grown(a: ConstEvalContext, b: ConstEvalContext) -> bool {
    &&& b == (ConstEvalContext { type_layouts: b.type_layouts, ..a })
    &&& b.type_layouts.pointer_size == a.type_layouts.pointer_size
    &&& b.type_layouts.pointer_align == a.type_layouts.pointer_align
    &&& b.type_layouts.primitives == a.type_layouts.primitives
    &&& b.type_layouts.types@.len() >= a.type_layouts.types@.len()
    &&& b.type_layouts.types@.subrange(0, a.type_layouts.types@.len() as int)
        == a.type_layouts.types@
}

/// Adding layouts is a case of spending fuel (see `spent`).
pub(crate) proof fn lemma_grown_spent(a: ConstEvalContext, b: ConstEvalContext)
    requires
        layouts_grown(a, b),
    ensures
        crate::eval::spent(a, b),
        crate::eval::within(a, b, 0),
{
    crate::eval::lemma_spent_refl(a);
}

pub(crate) proof fn lemma_layouts_grown_refl(a: ConstEvalContext)
    ensures
        layouts_grown(a, a),
{
    assert(a.type_layouts.types@.subrange(0, a.type_layouts.types@.len() as int)
        =~= a.type_layouts.types@);
}

pub(crate) proof fn lemma_layouts_grown_trans(a: ConstEvalContext, b: ConstEvalContext, c: ConstEvalContext)
    requires
        layouts_grown(a, b),
        layouts_grown(b, c),
    ensures
        layouts_grown(a, c),
{
    assert(c.type_layouts.types@.subrange(0, a.type_layouts.types@.len() as int)
        =~= c.type_layouts.types@.subrange(0, b.type_layouts.types@.len() as int).subrange(
        0,
        a.type_layouts.types@.len() as int,
    ));
}

impl ConstEvalContext {
    /// Reserves a layout entry named `name` when there is none. The entry records no size or
    /// alignment: computing those is the layout engine's work.
    fn reserve_layout(&mut self, name: String)
        requires
            old(self).wf(),
        ensures
            final(self).wf(),
            layouts_grown(*old(self), *final(self)),
    {
        if !self.type_layouts.contains_type(name.as_str()) {
            self.type_layouts.types.push(
                TypeLayout {
                    kind: LayoutKind::Struct,
                    name,
                    size: None,
                    align: None,
                    fields: Vec::new(),
                    variants: Vec::new(),
                    bases: Vec::new(),
                },
            );
        }
        assert(self.type_layouts.types@.subrange(0, old(self).type_layouts.types@.len() as int)
            =~= old(self).type_layouts.types@);
    }

    /// Makes sure the layout table has entries for the tuple and nullable types inside `ty`.
    pub fn ensure_ty_layout(&mut self, ty: &Ty)
        requires
            old(self).wf(),
        ensures
            final(self).wf(),
            layouts_grown(*old(self), *final(self)),
        decreases ty,
    {
        match ty {
            Ty::Tuple(elements) => {
                self.reserve_layout(canonical_name(ty));
                let mut i: usize = 0;
                while i < elements.len()
                    invariant
                        i <= elements.len(),
                        *ty is Tuple,
                        ty->Tuple_0 == *elements,
                        self.wf(),
                        layouts_grown(*old(self), *self),
                    decreases elements.len() - i,
                {
                    proof {
                        assert(decreases_to!(*ty => *elements));
                        assert(decreases_to!(*elements => elements@));
                        assert(decreases_to!(elements@ => elements@[i as int]));
                    }
                    let ghost mid = *self;
                    self.ensure_ty_layout(&elements[i]);
                    proof {
                        lemma_layouts_grown_trans(*old(self), mid, *self);
                    }
                    i = i + 1;
                }
            },
            Ty::Array { element, .. } => self.ensure_ty_layout(element),
            Ty::Vec(inner) => self.ensure_ty_layout(inner),
            Ty::Nullable(inner) => {
                self.ensure_ty_layout(inner);
                let ghost mid = *self;
                self.reserve_layout(nullable_type_name(inner));
                proof {
                    lemma_layouts_grown_trans(*old(self), mid, *self);
                }
            },
            _ => {
                proof {
                    lemma_layouts_grown_refl(*self);
                }
            },
        }
    }

    fn evaluate_size_query(&mut self, operand: &SizeOfOperand, namespace: Option<&str>, span: Option<Span>, is_size: bool) -> (r:
        Result<ConstEvalResult, ConstEvalError>)
        requires
            old(self).wf(),
        ensures
            final(self).wf(),
            layouts_grown(*old(self), *final(self)),
            size_query_outcome(final(self).type_layouts, *operand, opt_view(namespace), is_size, result_outcome(r)),
            r matches Err(e) ==> e.span == span,
    {
        proof {
            lemma_layouts_grown_refl(*self);
        }
        let word = if is_size { "sizeof" } else { "alignof" };
        match operand {
            SizeOfOperand::Type(text) => {
                let trimmed = trim_text(text.as_str());
                if crate::text::chars_of(trimmed.as_str()).len() == 0 {
                    return Err(error(crate::text::cat3("`", word, "` requires a type operand"), span));
                }
                let ty = match parse_type_text(trimmed.as_str()) {
                    Some(t) => t,
                    None => {
                        let mut m = owned("`");
                        m.append(trimmed.as_str());
                        m.append("` is not a valid type for `");
                        m.append(word);
                        m.append("`");
                        return Err(error(m, span));
                    },
                };
                self.ensure_ty_layout(&ty);
                match self.type_layouts.size_and_align_for_ty(&ty, namespace) {
                    Some((size, align)) => {
                        let n = if is_size { size } else { align };
                        Ok(ConstEvalResult::new(ConstValue::UInt(n as u128)))
                    },
                    None => {
                        let mut m = owned("cannot determine ");
                        m.append(if is_size { "size" } else { "alignment" });
                        m.append(" for type `");
                        m.append(canonical_name(&ty).as_str());
                        m.append("`");
                        Err(error(m, span))
                    },
                }
            },
            SizeOfOperand::Value(_) => Err(
                error(
                    crate::text::cat3(
                        "`",
                        word,
                        "` in constant expressions must reference a type name",
                    ),
                    span,
                ),
            ),
        }
    }

    /// `sizeof(T)`: the size of a type, in bytes (see `size_query_outcome`).
    pub fn evaluate_sizeof(&mut self, operand: &SizeOfOperand, namespace: Option<&str>, span: Option<Span>) -> (r:
        Result<ConstEvalResult, ConstEvalError>)
        requires
            old(self).wf(),
        ensures
            final(self).wf(),
            layouts_grown(*old(self), *final(self)),
            size_query_outcome(final(self).type_layouts, *operand, opt_view(namespace), true, result_outcome(r)),
            r matches Err(e) ==> e.span == span,
    {
        self.evaluate_size_query(operand, namespace, span, true)
    }

    /// `alignof(T)`: the alignment of a type, in bytes (see `size_query_outcome`).
    pub fn evaluate_alignof(&mut self, operand: &SizeOfOperand, namespace: Option<&str>, span: Option<Span>) -> (r:
        Result<ConstEvalResult, ConstEvalError>)
        requires
            old(self).wf(),
        ensures
            final(self).wf(),
            layouts_grown(*old(self), *final(self)),
            size_query_outcome(final(self).type_layouts, *operand, opt_view(namespace), false, result_outcome(r)),
            r matches Err(e) ==> e.span == span,
    {
        self.evaluate_size_query(operand, namespace, span, false)
    }
}

/// The first candidate under which some function is declared.
pub open spec fn first_declared(fns: Seq<Rc<FunctionDeclSymbol>>, cands: Seq<Seq<char>>) -> Option<
    Seq<char>,
>
    decreases cands.len(),
{
    if cands.len() == 0 {
        None
    } else if overloads(fns, cands[0]).len() > 0 {
        Some(cands[0])
    } else {
        first_declared(fns, cands.drop_first())
    }
}

/// What `nameof(operand)` gives: the name of a parameter, of a type (its simple name), or of a
/// function with a single overload.
pub open spec fn nameof_outcome(
    t: TypeLayoutTable,
    fns: Seq<Rc<FunctionDeclSymbol>>,
    env: EvalEnv,
    operand: NameOfOperand,
) -> Result<ConstModel, Seq<char>> {
    let segs = views(operand.segments@);
    let text = operand.text@;
    let ns = crate::cache::opt_str(env.namespace);
    if segs.len() == 0 {
        Err("`nameof` requires an operand"@)
    } else if segs.len() == 1 && crate::environment::params_lookup(env.params, segs[0]) is Some {
        Ok(ConstModel::RawStr(segs[0]))
    } else {
        match crate::layout::spec_resolve_type(t, ns, crate::cache::opt_str(env.owner), text) {
            Some(n) => Ok(ConstModel::RawStr(crate::text::spec_simple_name(n))),
            None => match first_declared(fns, candidate_list(ns, segs)) {
                Some(c) => if overloads(fns, c).len() == 1 {
                    Ok(ConstModel::RawStr(segs.last()))
                } else {
                    Err(
                        "`nameof` operand `"@ + text + "` resolves to "@ + nat_text(
                            overloads(fns, c).len(),
                        ) + " overloads of `"@ + segs.last() + "`"@,
                    )
                },
                None => Err("cannot resolve symbol `"@ + text + "` for `nameof`"@),
            },
        }
    }
}

fn opt_slice_of(o: &Option<String>) -> (r: Option<&str>)
    ensures
        opt_view(r) == crate::cache::opt_str(*o),
{
    match o {
        Some(s) => Some(s.as_str()),
        None => None,
    }
}

impl ConstEvalContext {
    /// `nameof(operand)` (see `nameof_outcome`).
    #[verifier::loop_isolation(false)]
    #[verifier::rlimit(50)]
    pub fn evaluate_nameof(&self, operand: &NameOfOperand, env: &EvalEnv) -> (r: Result<
        ConstEvalResult,
        ConstEvalError,
    >)
        ensures
            crate::ops::produces(
                r,
                nameof_outcome(self.type_layouts, self.symbol_index.functions@, *env, *operand),
                env.span,
            ),
    {
        if operand.segments.len() == 0 {
            return Err(error_text("`nameof` requires an operand", env.span));
        }
        let display = operand.text.as_str();
        let ghost segs = views(operand.segments@);
        if operand.segments.len() == 1 {
            let candidate = operand.segments[0].as_str();
            assert(segs[0] == candidate@);
            if let Some(p) = &env.params {
                if crate::environment::contains_name(p, candidate) {
                    return Ok(ConstEvalResult::new(ConstValue::RawStr(owned(candidate))));
                }
            }
        }
        let ns = opt_slice_of(&env.namespace);
        if let Some(resolved) = self.type_layouts.resolve_type_layout_name(
            ns,
            opt_slice_of(&env.owner),
            display,
        ) {
            return Ok(
                ConstEvalResult::new(
                    ConstValue::RawStr(owned(crate::text::simple_name(resolved.as_str()))),
                ),
            );
        }
        let last = operand.segments[operand.segments.len() - 1].as_str();
        assert(last@ == segs.last());
        let cands = candidate_names(ns, &operand.segments);
        let mut k: usize = 0;
        assert(views(cands@).subrange(0, cands@.len() as int) =~= views(cands@));
        while k < cands.len()
            invariant
                k <= cands.len(),
                first_declared(self.symbol_index.functions@, views(cands@)) == first_declared(
                    self.symbol_index.functions@,
                    views(cands@).subrange(k as int, cands@.len() as int),
                ),
            decreases cands.len() - k,
        {
            let ghost rest = views(cands@).subrange(k as int, cands@.len() as int);
            assert(rest[0] == cands@[k as int]@);
            if let Some(count) = self.symbol_index.function_count(cands[k].as_str()) {
                assert(first_declared(self.symbol_index.functions@, rest) == Some(rest[0]));
                assert(views(cands@) == candidate_list(crate::cache::opt_str(env.namespace), segs));
                assert(first_declared(self.symbol_index.functions@, candidate_list(crate::cache::opt_str(env.namespace), segs)) == Some(cands@[k as int]@));
                assert(count == overloads(self.symbol_index.functions@, cands@[k as int]@).len());
                if count == 1 {
                    return Ok(ConstEvalResult::new(ConstValue::RawStr(owned(last))));
                }
                let mut m = owned("`nameof` operand `");
                m.append(display);
                m.append("` resolves to ");
                m.append(u128_text(count as u128).as_str());
                m.append(" overloads of `");
                m.append(last);
                m.append("`");
                return Err(error(m, env.span));
            }
            assert(rest.drop_first() =~= views(cands@).subrange(k + 1, cands@.len() as int));
            k = k + 1;
        }
        Err(error(crate::text::cat3("cannot resolve symbol `", display, "` for `nameof`"), env.span))
    }
}

} // verus!
