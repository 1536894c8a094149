use vstd::prelude::*;

use crate::cache::{
    ConstEvalConfig, ConstEvalMetrics, ConstEvalSummary, ConstFnCacheKey, ExprKeyModel,
    ExpressionMemoKey, FunctionMemoCache,
};
use crate::layout::TypeLayoutTable;
use crate::symbols::{SymbolIndex, const_names, fn_names};
use crate::text::{owned, str_eq, u128_text, views};
use crate::values::{ConstEvalError, ConstEvalResult, ConstModel, ResultModel, Span, error};

verus! {

/// How many names of `names` are not on `stack`.
pub open spec fn absent_count(names: Seq<Seq<char>>, stack: Seq<Seq<char>>) -> nat
    decreases names.len(),
{
    if names.len() == 0 {
        0
    } else {
        absent_count(names.drop_last(), stack) + if stack.contains(names.last()) {
            0nat
        } else {
            1nat
        }
    }
}

/// Pushing a name never adds to the count of absent names.
proof fn lemma_absent_push_le(names: Seq<Seq<char>>, stack: Seq<Seq<char>>, q: Seq<char>)
    ensures
        absent_count(names, stack.push(q)) <= absent_count(names, stack),
    decreases names.len(),
{
    if names.len() > 0 {
        lemma_absent_push_le(names.drop_last(), stack, q);
        if stack.contains(names.last()) {
            let k = choose|k: int| 0 <= k < stack.len() && stack[k] == names.last();
            assert(stack.push(q)[k] == names.last());
        }
    }
}

/// Pushing a name that is listed and not yet on the stack lowers the count.
pub proof fn lemma_absent_push_lt(names: Seq<Seq<char>>, stack: Seq<Seq<char>>, q: Seq<char>)
    requires
        names.contains(q),
        !stack.contains(q),
    ensures
        absent_count(names, stack.push(q)) < absent_count(names, stack),
    decreases names.len(),
{
    assert(stack.push(q)[stack.len() as int] == q);
    if names.last() == q {
        lemma_absent_push_le(names.drop_last(), stack, q);
    } else {
        let k = choose|k: int| 0 <= k < names.len() && names[k] == q;
        assert(names.drop_last()[k] == q);
        lemma_absent_push_lt(names.drop_last(), stack, q);
        if stack.contains(names.last()) {
            let j = choose|j: int| 0 <= j < stack.len() && stack[j] == names.last();
            assert(stack.push(q)[j] == names.last());
        }
    }
}

/// Pushing a name that is not listed leaves the count unchanged.
pub proof fn lemma_absent_push_absent(names: Seq<Seq<char>>, stack: Seq<Seq<char>>, q: Seq<char>)
    requires
        !names.contains(q),
    ensures
        absent_count(names, stack.push(q)) == absent_count(names, stack),
    decreases names.len(),
{
    if names.len() > 0 {
        assert(names.last() != q) by {
            assert(names[names.len() - 1] == names.last());
        }
        assert(!names.drop_last().contains(q)) by {
            if names.drop_last().contains(q) {
                let k = choose|k: int| 0 <= k < names.drop_last().len() && names.drop_last()[k] == q;
                assert(names[k] == q);
            }
        }
        lemma_absent_push_absent(names.drop_last(), stack, q);
        if stack.push(q).contains(names.last()) {
            let k = choose|k: int| 0 <= k < stack.push(q).len() && stack.push(q)[k] == names.last();
            assert(k < stack.len());
            assert(stack[k] == names.last());
        }
        if stack.contains(names.last()) {
            let k = choose|k: int| 0 <= k < stack.len() && stack[k] == names.last();
            assert(stack.push(q)[k] == names.last());
        }
    }
}

/// How many results the function memo keeps.
pub const FN_CACHE_CAPACITY: usize = 256;

/// The model of the constant cache: qualified names with what evaluating them gave.
pub open spec fn const_cache_model(c: Seq<(String, Option<ConstEvalResult>)>) -> Seq<
    (Seq<char>, Option<ResultModel>),
> {
    c.map_values(
        |e: (String, Option<ConstEvalResult>)|
            (
                e.0@,
                match e.1 {
                    Some(r) => Some(r@),
                    None => None,
                },
            ),
    )
}

/// What the constant cache records for `q` (the first entry of that name).
pub open spec fn const_cache_lookup(m: Seq<(Seq<char>, Option<ResultModel>)>, q: Seq<char>) -> Option<
    Option<ResultModel>,
>
    decreases m.len(),
{
    if m.len() == 0 {
        None
    } else if m[0].0 == q {
        Some(m[0].1)
    } else {
        const_cache_lookup(m.drop_first(), q)
    }
}

/// What the expression memo records for `k` (the first entry of that key).
pub open spec fn expr_cache_lookup(m: Seq<(ExprKeyModel, ResultModel)>, k: ExprKeyModel) -> Option<
    ResultModel,
>
    decreases m.len(),
{
    if m.len() == 0 {
        None
    } else if m[0].0 == k {
        Some(m[0].1)
    } else {
        expr_cache_lookup(m.drop_first(), k)
    }
}

/// Whether the cache `m` agrees with the constants on `q`: cached without a value only with a
/// recorded error (`has_errors`), and a cached value is the value its declaration holds, with
/// no literal.
pub open spec fn entry_sound(
    m: Seq<(Seq<char>, Option<ResultModel>)>,
    q: Seq<char>,
    has_errors: bool,
    constants: Seq<crate::symbols::ConstSymbol>,
) -> bool {
    match const_cache_lookup(m, q) {
        Some(None) => has_errors,
        Some(Some(v)) => holds_value(constants, q, v.value) && v.literal is None,
        None => true,
    }
}

/// Whether the constant cache `m` agrees with the constants on every name (see `entry_sound`).
#[verifier::opaque]
pub open spec fn cache_sound(
    m: Seq<(Seq<char>, Option<ResultModel>)>,
    has_errors: bool,
    constants: Seq<crate::symbols::ConstSymbol>,
) -> bool {
    forall|q: Seq<char>| #[trigger] entry_sound(m, q, has_errors, constants)
}

/// Whether the declaration that `q` names first holds a value that reads as `v`.
pub open spec fn holds_value(constants: Seq<crate::symbols::ConstSymbol>, q: Seq<char>, v: ConstModel) -> bool {
    exists|j: int|
        crate::symbols::first_at(constants, crate::symbols::named_const(q), j) && (constants[j].value matches Some(
            x,
        ) && crate::values::normalised(x@) == v)
}

/// A sound cache stays sound once an error is recorded.
pub proof fn lemma_cache_sound_more_errors(
    m: Seq<(Seq<char>, Option<ResultModel>)>,
    constants: Seq<crate::symbols::ConstSymbol>,
)
    requires
        cache_sound(m, false, constants),
    ensures
        cache_sound(m, true, constants),
{
    reveal(cache_sound);
    assert forall|q: Seq<char>| #[trigger] entry_sound(m, q, true, constants) by {
        assert(entry_sound(m, q, false, constants));
    }
}

/// An empty cache is sound.
pub proof fn lemma_cache_sound_empty(has_errors: bool, constants: Seq<crate::symbols::ConstSymbol>)
    ensures
        cache_sound(Seq::empty(), has_errors, constants),
{
    reveal(cache_sound);
}

/// A value read from a sound cache is the value its declaration holds.
pub proof fn lemma_cache_sound_lookup(
    m: Seq<(Seq<char>, Option<ResultModel>)>,
    has_errors: bool,
    constants: Seq<crate::symbols::ConstSymbol>,
    q: Seq<char>,
)
    requires
        cache_sound(m, has_errors, constants),
    ensures
        entry_sound(m, q, has_errors, constants),
{
    reveal(cache_sound);
}

/// Putting an entry for `q` that agrees with the constants keeps a cache sound.
pub proof fn lemma_cache_sound_put(
    m: Seq<(Seq<char>, Option<ResultModel>)>,
    n: Seq<(Seq<char>, Option<ResultModel>)>,
    q: Seq<char>,
    c: Option<ResultModel>,
    has_errors: bool,
    constants: Seq<crate::symbols::ConstSymbol>,
)
    requires
        cache_sound(m, has_errors, constants),
        const_cache_lookup(n, q) == Some(c),
        forall|p: Seq<char>| p != q ==> #[trigger] const_cache_lookup(n, p) == const_cache_lookup(m, p),
        match c {
            None => has_errors,
            Some(v) => holds_value(constants, q, v.value) && v.literal is None,
        },
    ensures
        cache_sound(n, has_errors, constants),
{
    reveal(cache_sound);
    assert forall|p: Seq<char>| #[trigger] entry_sound(n, p, has_errors, constants) by {
        if p != q {
            assert(const_cache_lookup(n, p) == const_cache_lookup(m, p));
            assert(entry_sound(m, p, has_errors, constants));
        }
    }
}

/// Giving the declaration that `q` names first a value keeps a sound cache sound, once the
/// cache holds that value for `q`.
pub proof fn lemma_cache_sound_set_value(
    m: Seq<(Seq<char>, Option<ResultModel>)>,
    n: Seq<(Seq<char>, Option<ResultModel>)>,
    has_errors: bool,
    pre: Seq<crate::symbols::ConstSymbol>,
    post: Seq<crate::symbols::ConstSymbol>,
    q: Seq<char>,
    k: int,
    v: ResultModel,
)
    requires
        cache_sound(m, has_errors, pre),
        pre.len() == post.len(),
        forall|j: int| 0 <= j < pre.len() ==> (#[trigger] post[j]).qualified == pre[j].qualified,
        forall|j: int| 0 <= j < pre.len() && j != k ==> post[j] == pre[j],
        crate::symbols::first_at(post, crate::symbols::named_const(q), k),
        post[k].value matches Some(x) && crate::values::normalised(x@) == v.value,
        v.literal is None,
        const_cache_lookup(n, q) == Some(Some(v)),
        forall|p: Seq<char>| p != q ==> #[trigger] const_cache_lookup(n, p) == const_cache_lookup(m, p),
    ensures
        cache_sound(n, has_errors, post),
{
    reveal(cache_sound);
    assert forall|p: Seq<char>| #[trigger] entry_sound(n, p, has_errors, post) by {
        if p == q {
            assert(crate::symbols::first_at(post, crate::symbols::named_const(p), k));
        } else {
            assert(const_cache_lookup(n, p) == const_cache_lookup(m, p));
            assert(entry_sound(m, p, has_errors, pre));
            if let Some(Some(w)) = const_cache_lookup(n, p) {
                let j = choose|j: int|
                    crate::symbols::first_at(pre, crate::symbols::named_const(p), j) && (
                    pre[j].value matches Some(x) && crate::values::normalised(x@) == w.value);
                assert(pre[j].qualified@ == p);
                assert(post[k].qualified@ == q);
                assert(j != k);
                assert(post[j] == pre[j]);
                assert forall|i: int| 0 <= i < j implies !crate::symbols::named_const(p)(#[trigger] post[i]) by {
                    assert(post[i].qualified == pre[i].qualified);
                    assert(!crate::symbols::named_const(p)(pre[i]));
                }
                assert(crate::symbols::first_at(post, crate::symbols::named_const(p), j));
            }
        }
    }
}

/// A lookup of another name ignores a pushed entry.
pub proof fn lemma_lookup_push_other(
    m: Seq<(Seq<char>, Option<ResultModel>)>,
    e: (Seq<char>, Option<ResultModel>),
    p: Seq<char>,
)
    requires
        p != e.0,
    ensures
        const_cache_lookup(m.push(e), p) == const_cache_lookup(m, p),
    decreases m.len(),
{
    if m.len() == 0 {
        assert(m.push(e).drop_first() =~= Seq::<(Seq<char>, Option<ResultModel>)>::empty());
    } else {
        assert(m.push(e).drop_first() =~= m.drop_first().push(e));
        if m[0].0 != p {
            lemma_lookup_push_other(m.drop_first(), e, p);
        }
    }
}

/// Whether the errors `b` keep the errors `a` as their beginning: errors are only added.
pub open spec fn errors_kept(a: Seq<ConstEvalError>, b: Seq<ConstEvalError>) -> bool {
    a.len() <= b.len() && forall|i: int| 0 <= i < a.len() ==> #[trigger] b[i] == a[i]
}

/// Every constant that `a` has an answer for, `b` has one for too.
pub open spec fn cache_kept(
    a: Seq<(String, Option<ConstEvalResult>)>,
    b: Seq<(String, Option<ConstEvalResult>)>,
) -> bool {
    forall|q: Seq<char>|
        #[trigger] const_cache_lookup(const_cache_model(a), q) is Some ==> const_cache_lookup(
            const_cache_model(b),
            q,
        ) is Some
}

/// Replacing an entry by one of the same name changes no other name's answer.
pub proof fn lemma_lookup_update(
    m: Seq<(Seq<char>, Option<ResultModel>)>,
    i: int,
    e: (Seq<char>, Option<ResultModel>),
    p: Seq<char>,
)
    requires
        0 <= i < m.len(),
        e.0 == m[i].0,
        p != m[i].0,
    ensures
        const_cache_lookup(m.update(i, e), p) == const_cache_lookup(m, p),
    decreases i,
{
    if i == 0 {
        assert(m.update(i, e).drop_first() =~= m.drop_first());
    } else {
        assert(m.update(i, e).drop_first() =~= m.drop_first().update(i - 1, e));
        lemma_lookup_update(m.drop_first(), i - 1, e, p);
    }
}

/// Appending an entry changes no answer that was there.
pub proof fn lemma_lookup_push(
    m: Seq<(Seq<char>, Option<ResultModel>)>,
    e: (Seq<char>, Option<ResultModel>),
    p: Seq<char>,
)
    requires
        const_cache_lookup(m, p) is Some,
    ensures
        const_cache_lookup(m.push(e), p) == const_cache_lookup(m, p),
    decreases m.len(),
{
    if m[0].0 != p {
        assert(m.push(e).drop_first() =~= m.drop_first().push(e));
        lemma_lookup_push(m.drop_first(), e, p);
    }
}

pub open spec fn opt_result_model(r: Option<ConstEvalResult>) -> Option<ResultModel> {
    match r {
        Some(v) => Some(v@),
        None => None,
    }
}

/// Whether `b` is `a` after spending fuel and adding layouts: everything else is kept, the
/// counters but those of fuel, the pointer size and the names on the call stack.
pub open spec fn spent(a: ConstEvalContext, b: ConstEvalContext) -> bool {
    &&& b == (ConstEvalContext {
        type_layouts: b.type_layouts,
        fuel_remaining: b.fuel_remaining,
        fn_stack: b.fn_stack,
        metrics: crate::cache::ConstEvalMetrics {
            fuel_consumed: b.metrics.fuel_consumed,
            fuel_exhaustions: b.metrics.fuel_exhaustions,
            ..a.metrics
        },
        ..a
    })
    &&& b.type_layouts.pointer_size == a.type_layouts.pointer_size
    &&& crate::text::views(b.fn_stack@) == crate::text::views(a.fn_stack@)
}

/// Spending no fuel is spending fuel.
pub proof fn lemma_spent_refl(a: ConstEvalContext)
    ensures
        spent(a, a),
{
    assert(a.metrics == crate::cache::ConstEvalMetrics {
        fuel_consumed: a.metrics.fuel_consumed,
        fuel_exhaustions: a.metrics.fuel_exhaustions,
        ..a.metrics
    });
}

/// Spending fuel twice is spending fuel.
pub proof fn lemma_spent_trans(a: ConstEvalContext, b: ConstEvalContext, c: ConstEvalContext)
    requires
        spent(a, b),
        spent(b, c),
    ensures
        spent(a, c),
{
}

/// Whether `e` is the error for running out of the fuel limit that `ctx` was made with, and the
/// fuel is indeed used up in the state `after`.
pub open spec fn fuel_error(ctx: ConstEvalContext, after: ConstEvalContext, e: ConstEvalError) -> bool {
    &&& ctx.config().fuel_limit is Some
    &&& e.message@ == fuel_message(nat_text_of(ctx.config().fuel_limit->0 as nat))
    &&& after.fuel_left() == Some(0usize)
}

/// Whether going from `a` to `b` spent at most `n` steps of fuel and gave none back.
pub open spec fn within(a: ConstEvalContext, b: ConstEvalContext, n: nat) -> bool {
    match a.fuel_remaining {
        Some(k) => b.fuel_remaining matches Some(j) && j <= k && k - j <= n,
        None => b.fuel_remaining is None,
    }
}

/// Whether `ctx` has more fuel left than `n` steps, or no fuel limit.
pub open spec fn enough_fuel(ctx: ConstEvalContext, n: nat) -> bool {
    ctx.fuel_left() matches Some(k) ==> k > n
}

/// Steps taken one after the other add up.
pub proof fn lemma_within_trans(a: ConstEvalContext, b: ConstEvalContext, c: ConstEvalContext, n: nat, m: nat, t: nat)
    requires
        within(a, b, n),
        within(b, c, m),
        n + m <= t,
    ensures
        within(a, c, t),
{
}

/// The text of a fuel-exhaustion error.
pub open spec fn fuel_message(limit: Seq<char>) -> Seq<char> {
    "constant evaluation aborted: fuel limit of "@ + limit
        + " exhausted; increase via chic.cfg (consteval.fuel_limit) or the --consteval-fuel CLI flag"@
}

/// Evaluates constants, compile-time functions and quote literals against a symbol index and a
/// layout table, with memoisation and an optional bound on the number of evaluation steps.
pub struct ConstEvalContext {
    pub symbol_index: SymbolIndex,
    pub type_layouts: TypeLayoutTable,
    pub cache: Vec<(String, Option<ConstEvalResult>)>,
    pub expression_cache: Vec<(ExpressionMemoKey, ConstEvalResult)>,
    pub fn_cache: FunctionMemoCache,
    pub const_stack: Vec<String>,
    pub fn_stack: Vec<String>,
    pub errors: Vec<ConstEvalError>,
    pub options: ConstEvalConfig,
    pub fuel_remaining: Option<usize>,
    pub metrics: ConstEvalMetrics,
}

impl ConstEvalContext {
    /// The layout table is usable, the metrics record the configured fuel limit, and fuel
    /// spent plus fuel left is the limit.
    pub open spec fn wf(&self) -> bool {
        &&& self.type_layouts.wf()
        &&& self.metrics.fuel_limit == self.options.fuel_limit
        &&& match self.options.fuel_limit {
            Some(limit) => self.fuel_remaining matches Some(left) && left
                + self.metrics.fuel_consumed == limit,
            None => self.fuel_remaining is None,
        }
        &&& cache_sound(const_cache_model(self.cache@), self.errors@.len() > 0, self.symbol_index.constants@)
    }

    /// The settings the context was made with.
    pub open spec fn config(&self) -> ConstEvalConfig {
        self.options
    }

    /// The counters.
    pub open spec fn stats(&self) -> ConstEvalMetrics {
        self.metrics
    }

    /// The fuel left, when fuel is limited.
    pub open spec fn fuel_left(&self) -> Option<usize> {
        self.fuel_remaining
    }

    /// The expression memo, oldest entry first.
    pub open spec fn expression_memo(&self) -> Seq<(ExprKeyModel, crate::values::ResultModel)> {
        self.expression_cache@.map_values(
            |e: (ExpressionMemoKey, ConstEvalResult)| (e.0@, e.1@),
        )
    }

    /// The function memo.
    pub open spec fn function_memo(&self) -> FunctionMemoCache {
        self.fn_cache
    }

    /// How many constants and functions could still be entered: those not currently being
    /// evaluated. Every nested evaluation of a constant or function lowers it.
    pub open spec fn rank(&self) -> nat {
        absent_count(const_names(self.symbol_index.constants@), views(self.const_stack@))
            + absent_count(fn_names(self.symbol_index.functions@), views(self.fn_stack@))
    }

    /// Whether two states have the same evaluation stacks and the same declared names.
    pub open spec fn same_shape(&self, other: &Self) -> bool {
        &&& views(self.const_stack@) == views(other.const_stack@)
        &&& views(self.fn_stack@) == views(other.fn_stack@)
        &&& const_names(self.symbol_index.constants@) == const_names(
            other.symbol_index.constants@,
        )
        &&& fn_names(self.symbol_index.functions@) == fn_names(other.symbol_index.functions@)
        &&& self.config() == other.config()
        &&& cache_kept(other.cache@, self.cache@)
        &&& errors_kept(other.errors@, self.errors@)
    }

    /// A context with the given settings.
    pub fn with_config(
        symbol_index: SymbolIndex,
        type_layouts: TypeLayoutTable,
        options: ConstEvalConfig,
    ) -> (r: ConstEvalContext)
        requires
            type_layouts.wf(),
        ensures
            r.wf(),
            r.symbol_index == symbol_index,
            r.type_layouts == type_layouts,
            r.config() == options,
            r.fuel_left() == options.fuel_limit,
            r.cache@.len() == 0,
            r.const_stack@.len() == 0,
            r.fn_stack@.len() == 0,
            r.errors@.len() == 0,
            r.expression_memo().len() == 0,
            r.function_memo().view().len() == 0,
            r.function_memo().cap() == FN_CACHE_CAPACITY,
            r.stats() == ConstEvalMetrics::zero_spec(options.fuel_limit),
    {
        let metrics = ConstEvalMetrics::zero(options.fuel_limit);
        let cache: Vec<(String, Option<ConstEvalResult>)> = Vec::new();
        proof {
            assert(const_cache_model(cache@) =~= Seq::<(Seq<char>, Option<ResultModel>)>::empty());
            lemma_cache_sound_empty(false, symbol_index.constants@);
        }
        ConstEvalContext {
            symbol_index,
            type_layouts,
            cache,
            expression_cache: Vec::new(),
            fn_cache: FunctionMemoCache::new(FN_CACHE_CAPACITY),
            const_stack: Vec::new(),
            fn_stack: Vec::new(),
            errors: Vec::new(),
            options,
            fuel_remaining: options.fuel_limit,
            metrics,
        }
    }

    /// A context with the default settings.
    pub fn new(symbol_index: SymbolIndex, type_layouts: TypeLayoutTable) -> (r: ConstEvalContext)
        requires
            type_layouts.wf(),
        ensures
            r.wf(),
            r.symbol_index == symbol_index,
            r.type_layouts == type_layouts,
            r.config() == ConstEvalConfig::default_spec(),
            r.cache@.len() == 0,
            r.errors@.len() == 0,
    {
        Self::with_config(symbol_index, type_layouts, ConstEvalConfig::default())
    }

    /// Whether constant expressions are memoised.
    pub fn should_memoise(&self) -> (r: bool)
        ensures
            r == self.config().enable_expression_memo,
    {
        self.options.enable_expression_memo
    }

    /// Takes one step of fuel, failing when the limit is used up.
    pub fn consume_fuel(&mut self, span: Option<Span>) -> (r: Result<(), ConstEvalError>)
        requires
            old(self).wf(),
        ensures
            final(self).wf(),
            final(self).symbol_index == old(self).symbol_index,
            final(self).type_layouts == old(self).type_layouts,
            final(self).cache == old(self).cache,
            final(self).const_stack == old(self).const_stack,
            final(self).fn_stack == old(self).fn_stack,
            final(self).errors == old(self).errors,
            final(self).config() == old(self).config(),
            final(self).expression_memo() == old(self).expression_memo(),
            final(self).function_memo() == old(self).function_memo(),
            spent(*old(self), *final(self)),
            within(*old(self), *final(self), 1),
            r matches Err(e) ==> fuel_error(*old(self), *final(self), e),
            match old(self).fuel_left() {
                None => r is Ok && *final(self) == *old(self),
                Some(left) => if left == 0 {
                    &&& r matches Err(e)
                    &&& e.message@ == fuel_message(
                        nat_text_of(old(self).config().fuel_limit->0 as nat),
                    )
                    &&& e.span == span
                    &&& final(self).fuel_left() == Some(0usize)
                    &&& final(self).stats().fuel_exhaustions == sat_inc(
                        old(self).stats().fuel_exhaustions,
                    )
                } else {
                    &&& r is Ok
                    &&& final(self).fuel_left() == Some((left - 1) as usize)
                    &&& final(self).stats().fuel_consumed == old(self).stats().fuel_consumed + 1
                },
            },
    {
        match self.fuel_remaining {
            None => Ok(()),
            Some(left) => {
                if left == 0 {
                    self.metrics.fuel_exhaustions = saturating_inc(self.metrics.fuel_exhaustions);
                    let limit = match self.options.fuel_limit {
                        Some(l) => l,
                        None => 0,
                    };
                    let mut m = owned("constant evaluation aborted: fuel limit of ");
                    m.append(u128_text(limit as u128).as_str());
                    m.append(
                        " exhausted; increase via chic.cfg (consteval.fuel_limit) or the --consteval-fuel CLI flag",
                    );
                    return Err(error(m, span));
                }
                self.fuel_remaining = Some(left - 1);
                self.metrics.fuel_consumed = self.metrics.fuel_consumed + 1;
                Ok(())
            },
        }
    }
}

/// The decimal text of a natural number.
pub open spec fn nat_text_of(n: nat) -> Seq<char> {
    crate::text::nat_text(n)
}

/// `x + 1`, or `x` when that would not fit.
pub open spec fn sat_inc(x: usize) -> usize {
    if x < usize::MAX {
        (x + 1) as usize
    } else {
        x
    }
}

/// Adds one to a counter, staying at the largest value once it is reached.
pub fn saturating_inc(x: usize) -> (r: usize)
    ensures
        r == sat_inc(x),
{
    if x < usize::MAX {
        x + 1
    } else {
        x
    }
}

} // verus!
