use vstd::prelude::*;

use std::rc::Rc;

use crate::ast::{
    QuoteLiteral, BindingModifier, CallArgument, ConstStatement, ExprNode, Expression, FunctionDecl,
    FunctionDeclSymbol, Statement, StatementKind, UnOp, VariableDeclaration, VariableModifier,
};
use crate::diagnostics::{expr_path_segments, statement_kind_name};
use crate::environment::{
    EvalEnv, FunctionFrame, ImmutableLocals, LocalScope, declared_last, env_resolve, lemma_declare_declares,
    lemma_declared_kept, named_lookup, params_lookup, same_bindings, same_place,
};
use crate::intrinsics::{descriptor_list, models, reflect_descriptor_list, reflect_string_list};
use crate::quote::{
    interpolation_fits, interpolations_fit, is_quote_literal_value, make_interpolation, make_quote_value,
    quote_model,
};
use crate::values::{ConstModel, LiteralModel, field_models, literal_model};
use crate::debug::debug_text;
use crate::eval::{ConstEvalContext, absent_count, fuel_error, fuel_message, nat_text_of, spent, within, enough_fuel};
use crate::cache::{ExprKeyModel, opt_slice};
use crate::eval::{expr_cache_lookup, sat_inc};
use crate::ops::{produces, type_conversion, binary_spec, convert_value_to_type, evaluate_binary, evaluate_unary, unary_spec};
use crate::symbols::{const_names, fn_names};
use crate::text::{cat3, contains_str, owned, str_eq, views};
use crate::types::{Ty, canonical, parse_type_text};
use crate::values::{ConstEvalError, ConstEvalResult, ConstValue, Span, duplicate_fields, error, error_text, normalised, or_span};

verus! {

/// Whether two local scopes are of the same kind (read-only locals also keep their values).
pub open spec fn kind_kept(a: LocalScope, b: LocalScope) -> bool {
    match (a, b) {
        (LocalScope::Absent, LocalScope::Absent) => true,
        (LocalScope::Immutable(x), LocalScope::Immutable(y)) => x == y,
        (LocalScope::Frame(x), LocalScope::Frame(y)) => same_bindings(y.view(), x.view()),
        _ => false,
    }
}

fn opt_owned(o: Option<&str>) -> (r: Option<String>)
    ensures
        match (o, r) {
            (Some(a), Some(b)) => a@ == b@,
            (None, None) => true,
            _ => false,
        },
{
    match o {
        Some(s) => Some(owned(s)),
        None => None,
    }
}

fn opt_str(o: &Option<String>) -> (r: Option<&str>)
    ensures
        crate::layout::opt_view(r) == crate::cache::opt_str(*o),
{
    match o {
        Some(s) => Some(s.as_str()),
        None => None,
    }
}

impl ConstEvalContext {
    /// The measure of a call that may enter the constant `q`.
    pub open spec fn const_entry(&self, q: Seq<char>) -> nat {
        if const_names(self.symbol_index.constants@).contains(q) && !views(
            self.const_stack@,
        ).contains(q) {
            2 * (absent_count(
                const_names(self.symbol_index.constants@),
                views(self.const_stack@).push(q),
            ) + absent_count(fn_names(self.symbol_index.functions@), views(self.fn_stack@))) + 1
        } else {
            2 * self.rank()
        }
    }

    /// The measure of a call that may enter the function `q`.
    pub open spec fn fn_entry(&self, q: Seq<char>) -> nat {
        if !fn_names(self.symbol_index.functions@).contains(q) {
            2 * self.rank() + 1
        } else if !views(self.fn_stack@).contains(q) {
            2 * (absent_count(const_names(self.symbol_index.constants@), views(self.const_stack@))
                + absent_count(
                fn_names(self.symbol_index.functions@),
                views(self.fn_stack@).push(q),
            )) + 1
        } else {
            2 * self.rank()
        }
    }

    proof fn lemma_const_entry(&self, q: Seq<char>)
        ensures
            self.const_entry(q) < 2 * self.rank() + 1,
            self.const_entry(q) >= 0,
    {
        if const_names(self.symbol_index.constants@).contains(q) && !views(
            self.const_stack@,
        ).contains(q) {
            crate::eval::lemma_absent_push_lt(
                const_names(self.symbol_index.constants@),
                views(self.const_stack@),
                q,
            );
        }
    }

    proof fn lemma_fn_entry(&self, q: Seq<char>)
        requires
            fn_names(self.symbol_index.functions@).contains(q),
        ensures
            self.fn_entry(q) < 2 * self.rank() + 1,
            self.fn_entry(q) >= 0,
    {
        if fn_names(self.symbol_index.functions@).contains(q) && !views(self.fn_stack@).contains(
            q,
        ) {
            crate::eval::lemma_absent_push_lt(
                fn_names(self.symbol_index.functions@),
                views(self.fn_stack@),
                q,
            );
        }
    }

    /// Evaluates the constant `qualified`, once: later calls answer from the cache. A constant
    /// met again while it is being evaluated is a cycle; the error is recorded and there is no
    /// value.
    #[verifier::spinoff_prover]
    pub fn evaluate_const(&mut self, qualified: &str, span: Option<Span>) -> (r: Option<
        ConstEvalResult,
    >)
        requires
            old(self).wf(),
        ensures
            final(self).wf(),
            final(self).same_shape(&*old(self)),
            crate::eval::const_cache_lookup(
                crate::eval::const_cache_model(old(self).cache@),
                qualified@,
            ) matches Some(c) ==> crate::eval::opt_result_model(r) == c && *final(self) == *old(
                self,
            ),
            crate::eval::const_cache_lookup(
                crate::eval::const_cache_model(final(self).cache@),
                qualified@,
            ) == Some(crate::eval::opt_result_model(r)),
            (crate::eval::const_cache_lookup(
                crate::eval::const_cache_model(old(self).cache@),
                qualified@,
            ) is None && views(old(self).const_stack@).contains(qualified@)) ==> (r is None
                && final(self).errors@.len() == old(self).errors@.len() + 1
                && final(self).errors@.drop_last() == old(self).errors@
                && final(self).errors@.last().message@ == "cycle detected while evaluating constant `"@
                + qualified@ + "`"@ && final(self).errors@.last().span == span
                && final(self).symbol_index == old(self).symbol_index),
            (crate::eval::const_cache_lookup(
                crate::eval::const_cache_model(old(self).cache@),
                qualified@,
            ) is None && !views(old(self).const_stack@).contains(qualified@)
                && crate::symbols::first_const(
                old(self).symbol_index.constants@,
                crate::symbols::named_const(qualified@),
            ) is None) ==> (r is None && final(self).errors@.len() == old(self).errors@.len() + 1
                && final(self).errors@.drop_last() == old(self).errors@
                && final(self).errors@.last().message@ == "internal error: unknown constant `"@
                + qualified@ + "`"@ && final(self).errors@.last().span == span
                && final(self).symbol_index == old(self).symbol_index),
            (crate::eval::const_cache_lookup(
                crate::eval::const_cache_model(old(self).cache@),
                qualified@,
            ) is None && !views(old(self).const_stack@).contains(qualified@)) ==> (r matches Some(v)
                ==> exists|j: int|
                #![trigger final(self).symbol_index.constants@[j]]
                crate::symbols::first_at(
                    final(self).symbol_index.constants@,
                    crate::symbols::named_const(qualified@),
                    j,
                ) && (final(self).symbol_index.constants@[j].value matches Some(x)
                    && crate::values::normalised(x@) == v.value@)),
            (crate::eval::const_cache_lookup(
                crate::eval::const_cache_model(old(self).cache@),
                qualified@,
            ) is None && !views(old(self).const_stack@).contains(qualified@)) ==> (crate::symbols::first_const(
                old(self).symbol_index.constants@,
                crate::symbols::named_const(qualified@),
            ) matches Some(j) ==> ({
                let c = old(self).symbol_index.constants@[j];
                &&& c.value matches Some(x) ==> (r matches Some(v) && v.value@ == crate::values::normalised(x@))
                &&& c.value is None ==> (init_outcome(
                    *old(self),
                    *c.initializer,
                    *c.ty,
                    c.namespace,
                    c.owner,
                    or_span_spec(c.initializer.span, c.span),
                ) matches Some(o) ==> within(*old(self), *final(self), expr_steps(*c.initializer)) && (enough_fuel(
                    *old(self),
                    expr_steps(*c.initializer),
                ) ==> const_result(r, old(self).errors@, final(self).errors@, o)) && (
                const_result(r, old(self).errors@, final(self).errors@, o) || const_fuel_failed(
                    r,
                    old(self).errors@,
                    final(self).errors@,
                    *old(self),
                    *final(self),
                )))
            })),
            r matches Some(v) ==> crate::eval::holds_value(final(self).symbol_index.constants@, qualified@, v.value@),
        decreases old(self).const_entry(qualified@), 5int, None::<ExprNode>, 0int,
    {
        if let Some(existing) = self.const_cache_get(qualified) {
            proof {
                crate::eval::lemma_cache_sound_lookup(
                    crate::eval::const_cache_model(self.cache@),
                    self.errors@.len() > 0,
                    self.symbol_index.constants@,
                    qualified@,
                );
            }
            return existing;
        }
        let mut on_stack = false;
        let mut i: usize = 0;
        while i < self.const_stack.len()
            invariant
                i <= self.const_stack.len(),
                on_stack == exists|k: int| 0 <= k < i && views(self.const_stack@)[k] == qualified@,
            decreases self.const_stack.len() - i,
        {
            assert(views(self.const_stack@)[i as int] == self.const_stack@[i as int]@);
            if str_eq(self.const_stack[i].as_str(), qualified) {
                on_stack = true;
            }
            i = i + 1;
        }
        if on_stack {
            let ghost prev = self.errors@;
            self.errors.push(
                error(cat3("cycle detected while evaluating constant `", qualified, "`"), span),
            );
            proof {
                if prev.len() == 0 {
                    crate::eval::lemma_cache_sound_more_errors(
                        crate::eval::const_cache_model(self.cache@),
                        self.symbol_index.constants@,
                    );
                }
            }
            let ghost m0 = crate::eval::const_cache_model(self.cache@);
            self.const_cache_put(qualified, None);
            proof {
                crate::eval::lemma_cache_sound_put(
                    m0,
                    crate::eval::const_cache_model(self.cache@),
                    qualified@,
                    None,
                    true,
                    self.symbol_index.constants@,
                );
            }
            return None;
        }
        let idx = match self.symbol_index.const_symbol(qualified) {
            Some(i) => i,
            None => {
                let ghost prev = self.errors@;
                self.errors.push(
                    error(cat3("internal error: unknown constant `", qualified, "`"), span),
                );
                proof {
                    if prev.len() == 0 {
                        crate::eval::lemma_cache_sound_more_errors(
                            crate::eval::const_cache_model(self.cache@),
                            self.symbol_index.constants@,
                        );
                    }
                }
                let ghost m0 = crate::eval::const_cache_model(self.cache@);
                self.const_cache_put(qualified, None);
                proof {
                    crate::eval::lemma_cache_sound_put(
                        m0,
                        crate::eval::const_cache_model(self.cache@),
                        qualified@,
                        None,
                        true,
                        self.symbol_index.constants@,
                    );
                }
                return None;
            },
        };
        proof {
            crate::symbols::lemma_first_const_some(
                self.symbol_index.constants@,
                crate::symbols::named_const(qualified@),
            );
            assert(const_names(self.symbol_index.constants@)[idx as int] == qualified@);
        }
        assert(crate::symbols::first_at(
            self.symbol_index.constants@,
            crate::symbols::named_const(qualified@),
            idx as int,
        ));
        if let Some(existing) = &self.symbol_index.constants[idx].value {
            let result = ConstEvalResult::new(existing.duplicate());
            let ghost m0 = crate::eval::const_cache_model(self.cache@);
            assert(crate::eval::holds_value(self.symbol_index.constants@, qualified@, result.value@));
            self.const_cache_put(qualified, Some(result.duplicate()));
            proof {
                crate::eval::lemma_cache_sound_put(
                    m0,
                    crate::eval::const_cache_model(self.cache@),
                    qualified@,
                    Some(result@),
                    self.errors@.len() > 0,
                    self.symbol_index.constants@,
                );
            }
            assert(self.symbol_index.constants@[idx as int].value matches Some(x)
                && crate::values::normalised(x@) == result.value@);
            assert(crate::symbols::first_at(
                self.symbol_index.constants@,
                crate::symbols::named_const(qualified@),
                idx as int,
            ));
            return Some(result);
        }
        let ty = Rc::clone(&self.symbol_index.constants[idx].ty);
        let init = Rc::clone(&self.symbol_index.constants[idx].initializer);
        let namespace = match &self.symbol_index.constants[idx].namespace {
            Some(s) => Some(s.clone()),
            None => None,
        };
        let owner = match &self.symbol_index.constants[idx].owner {
            Some(s) => Some(s.clone()),
            None => None,
        };
        let symbol_span = self.symbol_index.constants[idx].span;
        let ghost before = *self;
        self.const_stack.push(owned(qualified));
        assert(views(self.const_stack@) =~= views(before.const_stack@).push(qualified@));
        let result = self.evaluate_const_symbol(&init, &ty, namespace, owner, symbol_span);
        let ghost mid = self.const_stack@;
        let _ = self.const_stack.pop();
        assert(self.const_stack@ =~= mid.drop_last());
        assert(views(mid.drop_last()) =~= views(mid).drop_last());
        assert(views(self.const_stack@) =~= views(before.const_stack@));
        match result {
            Some(value) => {
                let ghost pre = self.symbol_index.constants@;
                proof {
                    crate::symbols::lemma_first_const_some(pre, crate::symbols::named_const(qualified@));
                }
                let ghost k = crate::symbols::first_const(pre, crate::symbols::named_const(qualified@))->0;
                let ghost m0 = crate::eval::const_cache_model(self.cache@);
                self.symbol_index.update_const_value(qualified, value.value.duplicate());
                proof {
                    let post = self.symbol_index.constants@;
                    assert forall|j: int| 0 <= j < k implies !crate::symbols::named_const(qualified@)(
                        #[trigger] post[j],
                    ) by {
                        assert(post[j].qualified == pre[j].qualified);
                        assert(!crate::symbols::named_const(qualified@)(pre[j]));
                    }
                    assert(post[k].qualified == pre[k].qualified);
                    assert(crate::symbols::first_at(post, crate::symbols::named_const(qualified@), k));
                }
                self.const_cache_put(qualified, Some(value.duplicate()));
                proof {
                    let post = self.symbol_index.constants@;
                    assert(post[k].value matches Some(x) && crate::values::normalised(x@) == value.value@);
                    assert(crate::symbols::first_at(post, crate::symbols::named_const(qualified@), k));
                    assert(const_names(post).len() == const_names(pre).len());
                    crate::eval::lemma_cache_sound_set_value(
                        m0,
                        crate::eval::const_cache_model(self.cache@),
                        self.errors@.len() > 0,
                        pre,
                        post,
                        qualified@,
                        k,
                        value@,
                    );
                }
                Some(value)
            },
            None => {
                let ghost m0 = crate::eval::const_cache_model(self.cache@);
                self.const_cache_put(qualified, None);
                proof {
                    crate::eval::lemma_cache_sound_put(
                        m0,
                        crate::eval::const_cache_model(self.cache@),
                        qualified@,
                        None,
                        true,
                        self.symbol_index.constants@,
                    );
                }
                None
            },
        }
    }

    fn evaluate_const_symbol(
        &mut self,
        init: &Expression,
        ty: &Ty,
        namespace: Option<String>,
        owner: Option<String>,
        symbol_span: Option<Span>,
    ) -> (r: Option<ConstEvalResult>)
        requires
            old(self).wf(),
        ensures
            final(self).wf(),
            final(self).same_shape(&*old(self)),
            r matches Some(v) ==> v.literal is None && crate::values::normalised(v.value@) == v.value@,
            r is None ==> final(self).errors@.len() > 0 && (or_span_spec(init.span, symbol_span) is Some
                ==> final(self).errors@.last().span is Some),
            init.node is None ==> (r is None && final(self).errors@.drop_last() == old(self).errors@
                && final(self).errors@.last().message@ == "initializer is not a parsable constant expression"@
                && final(self).errors@.last().span == or_span_spec(init.span, symbol_span)),
            init_outcome(*old(self), *init, *ty, namespace, owner, or_span_spec(init.span, symbol_span)) matches Some(
                o,
            ) ==> within(*old(self), *final(self), expr_steps(*init)) && (enough_fuel(*old(self), expr_steps(*init))
                ==> const_result(r, old(self).errors@, final(self).errors@, o)) && (const_result(
                r,
                old(self).errors@,
                final(self).errors@,
                o,
            ) || const_fuel_failed(r, old(self).errors@, final(self).errors@, *old(self), *final(self))),
        decreases 2 * old(self).rank() + 1, 4int, None::<ExprNode>, 0int,
    {
        let span = or_span(init.span, symbol_span);
        let ns = opt_str(&namespace);
        let ow = opt_str(&owner);
        assert(opt_slice(ns) == name_view(namespace) && opt_slice(ow) == name_view(owner));
        assert(crate::layout::opt_view(ns) == name_view(namespace) && crate::layout::opt_view(ow) == name_view(owner));
        assert(or_span_spec(init.span, span) == span);
        match self.evaluate_expression(
            init,
            ns,
            ow,
            None,
            None,
            ty,
            span,
        ) {
            Ok(result) => Some(result),
            Err(err) => {
                let ghost prev = self.errors@;
                self.errors.push(err.with_span_if_missing(span));
                assert(self.errors@.drop_last() =~= prev);
                proof {
                    if prev.len() == 0 {
                        crate::eval::lemma_cache_sound_more_errors(
                            crate::eval::const_cache_model(self.cache@),
                            self.symbol_index.constants@,
                        );
                    }
                }
                None
            },
        }
    }

    /// Evaluates an expression from a namespace and owner type, with optional read-only locals
    /// and parameters, and converts its value to `target_ty`. Without locals and parameters the
    /// value is memoised when the settings ask for it.
    pub fn evaluate_expression(
        &mut self,
        expr: &Expression,
        namespace: Option<&str>,
        owner: Option<&str>,
        locals: Option<Vec<(String, ConstValue)>>,
        params: Option<Vec<(String, ConstValue)>>,
        target_ty: &Ty,
        span: Option<Span>,
    ) -> (r: Result<ConstEvalResult, ConstEvalError>)
        requires
            old(self).wf(),
        ensures
            final(self).wf(),
            final(self).same_shape(&*old(self)),
            expr.node is None ==> (r matches Err(e) && e.message@
                == "initializer is not a parsable constant expression"@ && e.span == or_span_spec(
                expr.span,
                span,
            ) && final(self).errors == old(self).errors && final(self).fuel_left() == old(self).fuel_left()),
            r matches Ok(v) ==> v.literal is None && crate::values::normalised(v.value@) == v.value@,
            ({
                let key = expression_key(expr.text@, namespace, owner, *target_ty);
                let memo = old(self).config().enable_expression_memo && locals is None && params is None;
                let hit = memo && expr_cache_lookup(old(self).expression_memo(), key) is Some;
                &&& (expr.node is Some && hit) ==> (r matches Ok(v) && v.value@ == normalised(
                    expr_cache_lookup(old(self).expression_memo(), key)->0.value,
                ) && final(self).stats().memo_hits == sat_inc(old(self).stats().memo_hits)
                    && final(self).stats().expressions_evaluated == old(self).stats().expressions_evaluated
                    && final(self).fuel_left() == old(self).fuel_left() && final(self).errors == old(self).errors
                    && final(self).symbol_index == old(self).symbol_index)
                &&& (memo && r is Ok) ==> (expr_cache_lookup(final(self).expression_memo(), key) matches Some(
                    c,
                ) && normalised(c.value) == r->Ok_0.value@)
                &&& expr.node matches Some(n) ==> (!hit && pure_outcome(
                    n,
                    scope_names(
                        old(self).symbol_index.constants@,
                        crate::eval::const_cache_model(old(self).cache@),
                        locals,
                        params,
                        crate::layout::opt_view(namespace),
                        crate::layout::opt_view(owner),
                    ),
                ) is Some ==> final(self).errors == old(self).errors && within(
                    *old(self),
                    *final(self),
                    node_steps(n),
                ) && (enough_fuel(*old(self), node_steps(n)) ==> !(r matches Err(e) && fuel_error(
                    *old(self),
                    *final(self),
                    e,
                ))) && ((r matches Err(e) && fuel_error(*old(self), *final(self), e)) || produces(
                    r,
                    converted_outcome(
                        pure_outcome(n, scope_names(
                        old(self).symbol_index.constants@,
                        crate::eval::const_cache_model(old(self).cache@),
                        locals,
                        params,
                        crate::layout::opt_view(namespace),
                        crate::layout::opt_view(owner),
                    ))->0,
                        pure_literal(n),
                        *target_ty,
                        (old(self).type_layouts.pointer_size * 8) as u32,
                    ),
                    or_span_spec(expr.span, span),
                )))
            }),
        decreases 2 * old(self).rank() + 1, 1int, None::<ExprNode>, 0int,
    {
        self.ensure_ty_layout(target_ty);
        self.record_expression_request();
        let ghost key = expression_key(expr.text@, namespace, owner, *target_ty);
        assert(self.expression_memo() == old(self).expression_memo());
        assert(self.fuel_left() == old(self).fuel_left());
        assert(self.stats().memo_hits == old(self).stats().memo_hits);
        let node = match &expr.node {
            Some(n) => n,
            None => {
                return Err(
                    error_text(
                        "initializer is not a parsable constant expression",
                        or_span(expr.span, span),
                    ),
                );
            },
        };
        let eval_span = or_span(expr.span, span);
        let use_memo = self.should_memoise() && locals.is_none() && params.is_none();
        let memo_key = if use_memo {
            Some(crate::cache::ExpressionMemoKey::new(expr, namespace, owner, target_ty))
        } else {
            None
        };
        if let Some(key) = &memo_key {
            assert(key@ == expression_key(expr.text@, namespace, owner, *target_ty));
            if let Some(cached) = self.expression_cache_lookup(key) {
                self.record_memo_hit();
                return Ok(ConstEvalResult::with_literal(cached.value, None));
            }
        }
        let ghost look = bindings_lookup(locals, params);
        let mut env = EvalEnv {
            namespace: opt_owned(namespace),
            owner: opt_owned(owner),
            span: eval_span,
            params,
            locals: match locals {
                Some(l) => LocalScope::Immutable(ImmutableLocals::new(l)),
                None => LocalScope::Absent,
            },
        };
        assert(env_lookup(env) =~= look);
        assert(self.cache == old(self).cache && self.symbol_index == old(self).symbol_index);
        assert(name_view(env.namespace) == crate::layout::opt_view(namespace));
        assert(name_view(env.owner) == crate::layout::opt_view(owner));
        assert(names_lookup(self.symbol_index.constants@, crate::eval::const_cache_model(self.cache@), env) =~= scope_names(
            old(self).symbol_index.constants@,
            crate::eval::const_cache_model(old(self).cache@),
            locals,
            params,
            crate::layout::opt_view(namespace),
            crate::layout::opt_view(owner),
        ));
        let value = self.evaluate_node(node, &mut env)?;
        self.record_expression_eval();
        if memo_key.is_some() {
            self.record_memo_miss();
        }
        let bits = self.pointer_bits();
        let converted = convert_value_to_type(
            value.value,
            match &value.literal {
                Some(l) => Some(l),
                None => None,
            },
            target_ty,
            bits,
            eval_span,
        )?;
        let result = ConstEvalResult::with_literal(converted, None);
        if let Some(key) = memo_key {
            assert(key@ == expression_key(expr.text@, namespace, owner, *target_ty));
            self.expression_cache_store(key, result.duplicate());
        }
        Ok(result)
    }

    /// Evaluates an expression tree in an environment, taking one step of fuel per node.
    pub fn evaluate_node(&mut self, node: &ExprNode, env: &mut EvalEnv) -> (r: Result<
        ConstEvalResult,
        ConstEvalError,
    >)
        requires
            old(self).wf(),
        ensures
            final(self).wf(),
            final(self).same_shape(&*old(self)),
            same_place(*final(env), *old(env)),
            kind_kept(final(env).locals, old(env).locals),
            old(self).fuel_left() == Some(0usize) ==> (r matches Err(e) && e.message@
                == fuel_message(nat_text_of(old(self).config().fuel_limit->0 as nat)) && e.span
                == old(env).span),
            old(self).fuel_left() != Some(0usize) ==> match *node {
                ExprNode::Literal(l) => r matches Ok(v) && v.value@ == normalised(l.value@)
                    && crate::values::literal_model(v.literal) == crate::values::literal_model(
                    l.numeric,
                ),
                ExprNode::Identifier(name) => env_resolve(*old(env), name@) matches Some(x) ==> (
                r matches Ok(v) && v.value@ == normalised(x) && v.literal is None),
                ExprNode::Default { .. } | ExprNode::IndexFromEnd(_) | ExprNode::Range { .. }
                | ExprNode::Conditional { .. } | ExprNode::Switch { .. } | ExprNode::IsPattern {
                    ..
                } | ExprNode::Lambda(_) | ExprNode::Tuple(_) | ExprNode::ArrayLiteral(_)
                | ExprNode::Ref { .. } | ExprNode::New(_) | ExprNode::Index { .. }
                | ExprNode::Await { .. } | ExprNode::TryPropagate { .. } | ExprNode::Throw { .. }
                | ExprNode::InlineAsm(_) | ExprNode::InterpolatedString(_) => r matches Err(e)
                    && e.message@ == "expression is not allowed in a constant initializer"@
                    && e.span == old(env).span,
                ExprNode::Quote(lit) => (r matches Ok(v) ==> is_quote_literal_value(
                    v.value@,
                    *lit,
                    old(env).span,
                )) && (lit.interpolations@.len() == 0 ==> r is Ok),
                ExprNode::SizeOf(operand) => crate::lookup::size_query_outcome(
                    final(self).type_layouts,
                    operand,
                    crate::cache::opt_str(old(env).namespace),
                    true,
                    crate::lookup::result_outcome(r),
                ) && (r matches Err(e) ==> e.span == old(env).span),
                ExprNode::AlignOf(operand) => crate::lookup::size_query_outcome(
                    final(self).type_layouts,
                    operand,
                    crate::cache::opt_str(old(env).namespace),
                    false,
                    crate::lookup::result_outcome(r),
                ) && (r matches Err(e) ==> e.span == old(env).span),
                ExprNode::NameOf(operand) => produces(
                    r,
                    crate::lookup::nameof_outcome(
                        old(self).type_layouts,
                        old(self).symbol_index.functions@,
                        *old(env),
                        operand,
                    ),
                    old(env).span,
                ),
                _ => true,
            },
            (old(self).fuel_left() != Some(0usize) && *node is Member) ==> (crate::diagnostics::path_segments(
                *node,
            ) matches Some(segs) ==> (segs.len() > 0 ==> (path_target(
                old(self).symbol_index.constants@,
                name_view(old(env).namespace),
                segs,
            ) matches Some(i) ==> (crate::eval::const_cache_lookup(
                crate::eval::const_cache_model(old(self).cache@),
                old(self).symbol_index.constants@[i].qualified@,
            ) matches Some(Some(v)) ==> (r matches Ok(x) && x@ == v))))),
            *node matches ExprNode::Cast { target, expr, .. } ==> (pure_outcome(
                *expr,
                names_lookup(old(self).symbol_index.constants@, crate::eval::const_cache_model(old(self).cache@), *old(env)),
            ) matches Some(o) ==> within(*old(self), *final(self), node_steps(*node)) && (enough_fuel(
                *old(self),
                node_steps(*node),
            ) ==> !(r matches Err(e) && fuel_error(*old(self), *final(self), e))) && ((r matches Err(e)
                && fuel_error(*old(self), *final(self), e)) || match o {
                Err(m) => r matches Err(e) && e.message@ == m && e.span == old(env).span,
                Ok(v) => if !crate::types::type_text_valid(target@) {
                    r matches Err(e) && e.message@ == "`"@ + target@ + "` is not a valid cast target"@ && e.span
                        == old(env).span
                } else {
                    exists|ty: Ty|
                        #![trigger crate::types::type_denoted(target@, ty)]
                        crate::types::type_denoted(target@, ty) && produces(
                            r,
                            converted_outcome(
                                Ok(v),
                                pure_literal(*expr),
                                ty,
                                (old(self).type_layouts.pointer_size * 8) as u32,
                            ),
                            old(env).span,
                        )
                },
            })),
            *node matches ExprNode::Call { callee, args, generics } ==> (
            crate::diagnostics::path_segments(*callee) matches Some(segs) ==> (call_args_outcome(
                args,
                args@.len(),
                env_lookup(*old(env)),
            ) matches Some(ao) ==> (call_pure(*old(self), *old(env), segs, ao) ==> within(
                *old(self),
                *final(self),
                1 + call_steps(*old(self), *old(env), segs, args, ao),
            ) && (enough_fuel(*old(self), 1 + call_steps(*old(self), *old(env), segs, args, ao)) ==> !(
            r matches Err(e) && fuel_error(*old(self), *final(self), e)))) && ((r matches Err(e) && fuel_error(*old(self), *final(self), e)) || call_result(
                r,
                *old(self),
                *final(self),
                *old(env),
                segs,
                match generics {
                    Some(g) => Some(&g),
                    None => None,
                },
                ao,
            )))),
            pure_outcome(*node, names_lookup(old(self).symbol_index.constants@, crate::eval::const_cache_model(old(self).cache@), *old(env))) is Some ==> {
                &&& spent(*old(self), *final(self))
                &&& within(*old(self), *final(self), node_steps(*node))
                &&& enough_fuel(*old(self), node_steps(*node)) ==> !(r matches Err(e) && fuel_error(*old(self), *final(self), e))
                &&& *final(env) == *old(env)
                &&& (r matches Err(e) && fuel_error(*old(self), *final(self), e)) || pure_result(
                    r,
                    pure_outcome(*node, names_lookup(old(self).symbol_index.constants@, crate::eval::const_cache_model(old(self).cache@), *old(env)))->0,
                    pure_literal(*node),
                    old(env).span,
                )
            },
        decreases 2 * old(self).rank() + 1, 0int, *node, 2int,
    {
        self.consume_fuel(env.span)?;
        let ghost s1 = *self;
        match node {
            ExprNode::Literal(literal) => Ok(
                ConstEvalResult::with_literal(
                    literal.value.duplicate(),
                    match &literal.numeric {
                        Some(m) => Some(m.duplicate()),
                        None => None,
                    },
                ),
            ),
            ExprNode::Identifier(name) => {
                proof {
                    crate::eval::lemma_spent_refl(*self);
                }
                self.evaluate_identifier(name.as_str(), env, Ghost(*node))
            },
            ExprNode::Unary { op, expr, postfix } => {
                let value = self.evaluate_node(expr, env);
                proof {
                    if pure_outcome(**expr, names_lookup(old(self).symbol_index.constants@, crate::eval::const_cache_model(old(self).cache@), *old(env))) is Some {
                        crate::eval::lemma_spent_trans(*old(self), s1, *self);
                        crate::eval::lemma_within_trans(*old(self), s1, *self, 1, node_steps(**expr), node_steps(*node));
                    }
                }
                let value = value?;
                evaluate_unary(*op, *postfix, value, env.span)
            },
            ExprNode::Binary { op, left, right } => {
                let lhs = self.evaluate_node(left, env);
                proof {
                    if pure_outcome(**left, names_lookup(old(self).symbol_index.constants@, crate::eval::const_cache_model(old(self).cache@), *old(env))) is Some {
                        crate::eval::lemma_spent_trans(*old(self), s1, *self);
                        crate::eval::lemma_within_trans(*old(self), s1, *self, 1, node_steps(**left), node_steps(*node));
                    }
                }
                let lhs = lhs?;
                let ghost s2 = *self;
                let rhs = self.evaluate_node(right, env);
                proof {
                    if pure_outcome(**left, names_lookup(old(self).symbol_index.constants@, crate::eval::const_cache_model(old(self).cache@), *old(env))) is Some && pure_outcome(**right, names_lookup(old(self).symbol_index.constants@, crate::eval::const_cache_model(old(self).cache@), *old(env))) is Some {
                        crate::eval::lemma_spent_trans(*old(self), s2, *self);
                        crate::eval::lemma_within_trans(
                            *old(self),
                            s2,
                            *self,
                            (1 + node_steps(**left)) as nat,
                            node_steps(**right),
                            node_steps(*node),
                        );
                    }
                }
                let rhs = rhs?;
                evaluate_binary(*op, lhs, rhs, env.span)
            },
            ExprNode::Parenthesized(inner) => {
                let r = self.evaluate_node(inner, env);
                proof {
                    if pure_outcome(**inner, names_lookup(old(self).symbol_index.constants@, crate::eval::const_cache_model(old(self).cache@), *old(env))) is Some {
                        crate::eval::lemma_spent_trans(*old(self), s1, *self);
                        crate::eval::lemma_within_trans(*old(self), s1, *self, 1, node_steps(**inner), node_steps(*node));
                    }
                }
                r
            },
            ExprNode::Cast { target, expr, .. } => {
                let eval = self.evaluate_node(expr, env);
                proof {
                    if pure_outcome(**expr, names_lookup(old(self).symbol_index.constants@, crate::eval::const_cache_model(old(self).cache@), *old(env))) is Some {
                        crate::eval::lemma_spent_trans(*old(self), s1, *self);
                        crate::eval::lemma_within_trans(*old(self), s1, *self, 1, node_steps(**expr), node_steps(*node));
                    }
                }
                let eval = eval?;
                let ghost s2 = *self;
                let ty = match parse_type_text(target.as_str()) {
                    Some(t) => t,
                    None => {
                        return Err(
                            error(cat3("`", target.as_str(), "` is not a valid cast target"), env.span),
                        );
                    },
                };
                self.ensure_ty_layout(&ty);
                proof {
                    crate::lookup::lemma_grown_spent(s2, *self);
                    assert(self.fuel_remaining == s2.fuel_remaining);
                    if pure_outcome(**expr, names_lookup(old(self).symbol_index.constants@, crate::eval::const_cache_model(old(self).cache@), *old(env))) is Some {
                        crate::eval::lemma_spent_trans(*old(self), s2, *self);
                    }
                }
                let bits = self.pointer_bits();
                let converted = convert_value_to_type(
                    eval.value,
                    match &eval.literal {
                        Some(l) => Some(l),
                        None => None,
                    },
                    &ty,
                    bits,
                    env.span,
                )?;
                Ok(ConstEvalResult::new(converted))
            },
            ExprNode::Call { callee, args, generics } => {
                let g = match generics {
                    Some(g) => Some(g),
                    None => None,
                };
                proof {
                    assert(decreases_to!(*node => *args));
                }
                let r = self.evaluate_call(callee, g, args, env);
                proof {
                    if let Some(segs) = crate::diagnostics::path_segments(**callee) {
                        if let Some(ao) = call_args_outcome(*args, args@.len(), env_lookup(*old(env))) {
                            lemma_call_result_spent(r, *old(self), s1, *self, *old(env), segs, g, ao);
                            lemma_call_steps_spent(*old(self), s1, *old(env), segs, *args, ao);
                            if call_pure(*old(self), *old(env), segs, ao) {
                                crate::eval::lemma_within_trans(
                                    *old(self),
                                    s1,
                                    *self,
                                    1,
                                    call_steps(s1, *old(env), segs, *args, ao),
                                    1 + call_steps(*old(self), *old(env), segs, *args, ao),
                                );
                            }
                        }
                    }
                }
                r
            },
            ExprNode::Assign { target, op, value } => {
                proof {
                    assert(decreases_to!(*node => **value));
                }
                self.evaluate_assignment(target, *op, value, env, Ghost(*node))
            },
            ExprNode::Member { base, member, .. } => {
                if let Ok(segments) = expr_path_segments(node) {
                    match self.evaluate_path(&segments, env, Ghost(*node)) {
                        Ok(result) => {
                            return Ok(result);
                        },
                        Err(err) => {
                            if !contains_str(err.message.as_str(), "is not a constant value")
                                && !contains_str(
                                err.message.as_str(),
                                "does not resolve to a constant",
                            ) {
                                return Err(err);
                            }
                        },
                    }
                    if let Some(enum_const) = self.try_resolve_enum_variant(&segments) {
                        return Ok(ConstEvalResult::new(enum_const));
                    }
                }
                let base_value = self.evaluate_node(base, env)?;
                Self::evaluate_struct_member(base_value.value, member.as_str(), env.span)
            },
            ExprNode::SizeOf(operand) => {
                let ns = opt_str(&env.namespace);
                self.evaluate_sizeof(operand, ns, env.span)
            },
            ExprNode::AlignOf(operand) => {
                let ns = opt_str(&env.namespace);
                self.evaluate_alignof(operand, ns, env.span)
            },
            ExprNode::NameOf(operand) => self.evaluate_nameof(operand, env),
            ExprNode::Quote(literal) => {
                proof {
                    assert(decreases_to!(*node => **literal));
                }
                self.evaluate_quote_literal(literal, env)
            },
            _ => Err(error_text("expression is not allowed in a constant initializer", env.span)),
        }
    }
}

/// What an expression built from literals, names that `look` resolves, parentheses and unary
/// and binary operators evaluates to: its value, or the message of the first error met from
/// left to right. `None` for any other expression.
pub open spec fn pure_outcome(node: ExprNode, look: spec_fn(Seq<char>) -> Option<ConstModel>) -> Option<
    Result<ConstModel, Seq<char>>,
>
    decreases node,
{
    match node {
        ExprNode::Literal(l) => Some(Ok(normalised(l.value@))),
        ExprNode::Identifier(name) => match look(name@) {
            Some(x) => Some(Ok(normalised(x))),
            None => None,
        },
        ExprNode::Parenthesized(e) => pure_outcome(*e, look),
        ExprNode::Unary { op, expr, postfix } => match pure_outcome(*expr, look) {
            Some(Ok(v)) => Some(
                if op == UnOp::UnaryPlus {
                    Ok(v)
                } else {
                    unary_spec(op, postfix, v)
                },
            ),
            other => other,
        },
        ExprNode::Binary { op, left, right } => match pure_outcome(*left, look) {
            Some(Ok(a)) => match pure_outcome(*right, look) {
                Some(Ok(b)) => Some(binary_spec(op, a, b)),
                other => other,
            },
            other => other,
        },
        _ => None,
    }
}

/// The most steps of fuel evaluating an expression tree takes where it is pure (see
/// `pure_outcome`): one for each node.
pub open spec fn node_steps(node: ExprNode) -> nat
    decreases node,
{
    match node {
        ExprNode::Parenthesized(e) => 1 + node_steps(*e),
        ExprNode::Unary { expr, .. } => 1 + node_steps(*expr),
        ExprNode::Binary { left, right, .. } => 1 + node_steps(*left) + node_steps(*right),
        ExprNode::Cast { expr, .. } => 1 + node_steps(*expr),
        _ => 1,
    }
}

/// The most steps of fuel an expression of a function body takes (see `node_steps`).
pub open spec fn expr_steps(e: Expression) -> nat {
    match e.node {
        Some(n) => node_steps(n),
        None => 0,
    }
}

/// The most steps of fuel the first `n` initializers of a `const` statement take.
pub open spec fn const_decl_steps(c: ConstStatement, n: nat) -> nat
    decreases n,
{
    if n == 0 || n > c.declarators@.len() {
        0
    } else {
        const_decl_steps(c, (n - 1) as nat) + expr_steps(c.declarators@[n - 1].initializer)
    }
}

/// The most steps of fuel the first `n` initializers of a `let` or `var` statement take.
pub open spec fn var_decl_steps(d: VariableDeclaration, n: nat) -> nat
    decreases n,
{
    if n == 0 || n > d.declarators@.len() {
        0
    } else {
        var_decl_steps(d, (n - 1) as nat) + match d.declarators@[n - 1].initializer {
            Some(init) => expr_steps(init),
            None => 0,
        }
    }
}

/// The most steps of fuel running a statement takes where it is pure (see `stmt_outcome`):
/// those of every expression in it, both branches of an `if` counted.
pub open spec fn stmt_steps(st: Statement) -> nat
    decreases st, 0nat,
{
    match st.kind {
        StatementKind::ConstDeclaration(c) => const_decl_steps(c, c.declarators@.len()),
        StatementKind::VariableDeclaration(d) => var_decl_steps(d, d.declarators@.len()),
        StatementKind::Expression(e) => expr_steps(e),
        StatementKind::Return { expression } => match expression {
            Some(e) => expr_steps(e),
            None => 0,
        },
        StatementKind::Block(b) => {
            proof {
                assert(decreases_to!(st => st.kind));
                assert(decreases_to!(st.kind => b));
                assert(decreases_to!(b => b.statements));
            }
            block_steps(b.statements, b.statements@.len())
        },
        StatementKind::If(i) => {
            proof {
                assert(decreases_to!(st => st.kind));
                assert(decreases_to!(st.kind => i));
                assert(decreases_to!(i => *i.then_branch));
            }
            expr_steps(i.condition) + stmt_steps(*i.then_branch) + match i.else_branch {
                Some(b) => {
                    proof {
                        assert(decreases_to!(i => i.else_branch));
                        assert(decreases_to!(i.else_branch => *b));
                    }
                    stmt_steps(*b)
                },
                None => 0,
            }
        },
        _ => 0,
    }
}

/// The most steps of fuel the first `n` statements of `v` take.
pub open spec fn block_steps(v: Vec<Statement>, n: nat) -> nat
    decreases v, n,
{
    if n == 0 || n > v@.len() {
        0
    } else {
        proof {
            assert(decreases_to!(v => v@));
            assert(decreases_to!(v@ => v@[n - 1]));
        }
        block_steps(v, (n - 1) as nat) + stmt_steps(v@[n - 1])
    }
}

/// The most steps of fuel the first `n` arguments of a call take.
pub open spec fn args_steps(args: Vec<CallArgument>, n: nat) -> nat
    decreases n,
{
    if n == 0 || n > args@.len() {
        0
    } else {
        args_steps(args, (n - 1) as nat) + node_steps(args@[n - 1].value)
    }
}

/// The most steps of fuel the first `n` interpolations of a quote literal take.
pub open spec fn interpolation_steps(v: Seq<crate::ast::QuoteInterpolation>, n: nat) -> nat
    decreases n,
{
    if n == 0 || n > v.len() {
        0
    } else {
        interpolation_steps(v, (n - 1) as nat) + node_steps(v[n - 1].expression)
    }
}

/// The most steps of fuel running the body of a compile-time function takes.
pub open spec fn body_steps(f: &FunctionDeclSymbol) -> nat {
    match f.function.body {
        Some(b) => block_steps(b.statements, b.statements@.len()),
        None => 0,
    }
}

/// The function a call whose arguments gave `models` resolves to from the state `ctx`.
pub open spec fn callee_of(
    ctx: ConstEvalContext,
    env: EvalEnv,
    segs: Seq<Seq<char>>,
    models: Seq<(Option<Seq<char>>, ConstModel, Option<LiteralModel>)>,
) -> Result<Rc<FunctionDeclSymbol>, Seq<char>> {
    crate::lookup::resolution(
        ctx.symbol_index.functions@,
        name_view(env.namespace),
        name_view(env.owner),
        segs,
        models.map_values(|a: (Option<Seq<char>>, ConstModel, Option<LiteralModel>)| a.0),
    )
}

/// The most steps of fuel a call takes from the state `ctx`: its arguments, then the body of
/// the function it resolves to.
pub open spec fn call_steps(
    ctx: ConstEvalContext,
    env: EvalEnv,
    segs: Seq<Seq<char>>,
    args: Vec<CallArgument>,
    ao: Result<Seq<(Option<Seq<char>>, ConstModel, Option<LiteralModel>)>, Seq<char>>,
) -> nat {
    args_steps(args, args@.len()) + match ao {
        Ok(models) => match callee_of(ctx, env, segs, models) {
            Ok(f) => body_steps(&*f),
            Err(_) => 0,
        },
        Err(_) => 0,
    }
}

/// Whether a call whose arguments gave `ao` runs, if at all, a function whose body is pure for
/// its arguments (see `execution_outcome`).
pub open spec fn call_pure(
    ctx: ConstEvalContext,
    env: EvalEnv,
    segs: Seq<Seq<char>>,
    ao: Result<Seq<(Option<Seq<char>>, ConstModel, Option<LiteralModel>)>, Seq<char>>,
) -> bool {
    ao matches Ok(models) ==> (callee_of(ctx, env, segs, models) matches Ok(f) ==> execution_outcome(
        views(ctx.fn_stack@),
        *f,
        models,
        (ctx.type_layouts.pointer_size * 8) as u32,
        env.span,
    ) is Some)
}

/// The sums of steps grow with the number of items counted.
proof fn lemma_steps_grow(
    v: Vec<Statement>,
    args: Vec<CallArgument>,
    q: Seq<crate::ast::QuoteInterpolation>,
    c: ConstStatement,
    d: VariableDeclaration,
    m: nat,
    n: nat,
)
    requires
        m <= n,
    ensures
        block_steps(v, m) <= block_steps(v, n) || n > v@.len(),
        args_steps(args, m) <= args_steps(args, n) || n > args@.len(),
        interpolation_steps(q, m) <= interpolation_steps(q, n) || n > q.len(),
        const_decl_steps(c, m) <= const_decl_steps(c, n) || n > c.declarators@.len(),
        var_decl_steps(d, m) <= var_decl_steps(d, n) || n > d.declarators@.len(),
    decreases n - m,
{
    if m < n {
        lemma_steps_grow(v, args, q, c, d, m, (n - 1) as nat);
    }
}

/// The first of the namespace-level constants named by `cands`, from the `k`-th on.
pub open spec fn first_free(cs: Seq<crate::symbols::ConstSymbol>, cands: Seq<Seq<char>>, k: nat) -> Option<int>
    decreases cands.len() - k,
{
    if k >= cands.len() {
        None
    } else {
        match crate::symbols::first_const(cs, crate::symbols::free_const(cands[k as int])) {
            Some(i) => Some(i),
            None => first_free(cs, cands, k + 1),
        }
    }
}

/// The declaration a name denotes from a namespace and an owning type: a constant of the
/// owning type first, then the first namespace-level constant along the namespace chain.
pub open spec fn const_target(
    cs: Seq<crate::symbols::ConstSymbol>,
    namespace: Option<Seq<char>>,
    owner: Option<Seq<char>>,
    name: Seq<char>,
) -> Option<int> {
    match owner {
        Some(o) => match crate::symbols::first_const(cs, crate::symbols::owned_const(o, name)) {
            Some(i) => Some(i),
            None => first_free(cs, crate::symbols::free_candidates(namespace, name), 0),
        },
        None => first_free(cs, crate::symbols::free_candidates(namespace, name), 0),
    }
}

/// The value of the constant a name denotes (see `const_target`), where it has already been
/// evaluated: the value the constant cache holds for it.
pub open spec fn cached_const(
    cs: Seq<crate::symbols::ConstSymbol>,
    cache: Seq<(Seq<char>, Option<crate::values::ResultModel>)>,
    namespace: Option<Seq<char>>,
    owner: Option<Seq<char>>,
    name: Seq<char>,
) -> Option<ConstModel> {
    match const_target(cs, namespace, owner, name) {
        Some(i) => match crate::eval::const_cache_lookup(cache, cs[i].qualified@) {
            Some(Some(v)) => Some(v.value),
            _ => None,
        },
        None => None,
    }
}

/// The names an expression reads in `env`: a local first, then a parameter, then an evaluated
/// constant of the constants `cs` with the constant cache `cache`.
pub open spec fn names_lookup(
    cs: Seq<crate::symbols::ConstSymbol>,
    cache: Seq<(Seq<char>, Option<crate::values::ResultModel>)>,
    env: EvalEnv,
) -> spec_fn(Seq<char>) -> Option<ConstModel> {
    |n: Seq<char>|
        match env_resolve(env, n) {
            Some(x) => Some(x),
            None => cached_const(cs, cache, name_view(env.namespace), name_view(env.owner), n),
        }
}

/// The names of optional read-only locals and parameters, then the evaluated constants, from a
/// namespace and an owning type.
pub open spec fn scope_names(
    cs: Seq<crate::symbols::ConstSymbol>,
    cache: Seq<(Seq<char>, Option<crate::values::ResultModel>)>,
    locals: Option<Vec<(String, ConstValue)>>,
    params: Option<Vec<(String, ConstValue)>>,
    namespace: Option<Seq<char>>,
    owner: Option<Seq<char>>,
) -> spec_fn(Seq<char>) -> Option<ConstModel> {
    |n: Seq<char>|
        match bindings_lookup(locals, params)(n) {
            Some(x) => Some(x),
            None => cached_const(cs, cache, namespace, owner, n),
        }
}

/// The first namespace-level constant found at the `kk`-th candidate, none found before it.
proof fn lemma_first_free_at(cs: Seq<crate::symbols::ConstSymbol>, cands: Seq<Seq<char>>, k: nat, kk: int)
    requires
        k <= kk < cands.len(),
        crate::symbols::first_const(cs, crate::symbols::free_const(cands[kk])) is Some,
        forall|j: int|
            k <= j < kk ==> crate::symbols::first_const(cs, crate::symbols::free_const(#[trigger] cands[j])) is None,
    ensures
        first_free(cs, cands, k) == crate::symbols::first_const(cs, crate::symbols::free_const(cands[kk])),
    decreases kk - k,
{
    if k < kk {
        lemma_first_free_at(cs, cands, k + 1, kk);
    }
}

/// A name and the name qualified by a namespace and each enclosing one, innermost first.
pub open spec fn qualified_tries(namespace: Option<Seq<char>>, name: Seq<char>) -> Seq<Seq<char>> {
    seq![name] + match namespace {
        Some(ns) => crate::text::ns_chain(ns).map_values(qualify_under(name)),
        None => Seq::<Seq<char>>::empty(),
    }
}

/// Qualifying `name` by a namespace.
pub open spec fn qualify_under(name: Seq<char>) -> spec_fn(Seq<char>) -> Seq<char> {
    |c: Seq<char>| crate::text::qualify_with(c, name)
}

/// The first of the constants whose qualified name is one of `cands`, from the `k`-th on.
pub open spec fn first_named(cs: Seq<crate::symbols::ConstSymbol>, cands: Seq<Seq<char>>, k: nat) -> Option<int>
    decreases cands.len() - k,
{
    if k >= cands.len() {
        None
    } else {
        match crate::symbols::first_const(cs, crate::symbols::named_const(cands[k as int])) {
            Some(i) => Some(i),
            None => first_named(cs, cands, k + 1),
        }
    }
}

/// The first of the constants `name` declared on one of the types `owners`, from the `k`-th on.
pub open spec fn first_owned(
    cs: Seq<crate::symbols::ConstSymbol>,
    owners: Seq<Seq<char>>,
    name: Seq<char>,
    k: nat,
) -> Option<int>
    decreases owners.len() - k,
{
    if k >= owners.len() {
        None
    } else {
        match crate::symbols::first_const(cs, crate::symbols::owned_const(owners[k as int], name)) {
            Some(i) => Some(i),
            None => first_owned(cs, owners, name, k + 1),
        }
    }
}

/// The declaration a path `segs` denotes from a namespace: a constant with the joined path as
/// its qualified name (tried as is, then under the namespace and each enclosing one), else
/// the last segment as a constant of the type the other segments name (tried likewise).
pub open spec fn path_target(
    cs: Seq<crate::symbols::ConstSymbol>,
    namespace: Option<Seq<char>>,
    segs: Seq<Seq<char>>,
) -> Option<int> {
    match first_named(cs, qualified_tries(namespace, crate::text::join_seq(segs, "::"@)), 0) {
        Some(i) => Some(i),
        None => if segs.len() >= 2 {
            first_owned(
                cs,
                qualified_tries(namespace, crate::text::join_seq(segs.drop_last(), "::"@)),
                segs.last(),
                0,
            )
        } else {
            None
        },
    }
}

/// The first constant found at the `kk`-th qualified name, none found before it.
proof fn lemma_first_named_at(cs: Seq<crate::symbols::ConstSymbol>, cands: Seq<Seq<char>>, k: nat, kk: int)
    requires
        k <= kk < cands.len(),
        crate::symbols::first_const(cs, crate::symbols::named_const(cands[kk])) is Some,
        forall|j: int|
            k <= j < kk ==> crate::symbols::first_const(cs, crate::symbols::named_const(#[trigger] cands[j])) is None,
    ensures
        first_named(cs, cands, k) == crate::symbols::first_const(cs, crate::symbols::named_const(cands[kk])),
    decreases kk - k,
{
    if k < kk {
        lemma_first_named_at(cs, cands, k + 1, kk);
    }
}

/// No constant is found where none of the qualified names from the `k`-th on names one.
proof fn lemma_first_named_none(cs: Seq<crate::symbols::ConstSymbol>, cands: Seq<Seq<char>>, k: nat)
    requires
        forall|j: int|
            k <= j < cands.len() ==> crate::symbols::first_const(cs, crate::symbols::named_const(#[trigger] cands[j]))
                is None,
    ensures
        first_named(cs, cands, k) is None,
    decreases cands.len() - k,
{
    if k < cands.len() {
        lemma_first_named_none(cs, cands, k + 1);
    }
}

/// No owned constant is found where none of the types from the `k`-th on declares one.
proof fn lemma_first_owned_none(cs: Seq<crate::symbols::ConstSymbol>, owners: Seq<Seq<char>>, name: Seq<char>, k: nat)
    requires
        forall|j: int|
            k <= j < owners.len() ==> crate::symbols::first_const(
                cs,
                crate::symbols::owned_const(#[trigger] owners[j], name),
            ) is None,
    ensures
        first_owned(cs, owners, name, k) is None,
    decreases owners.len() - k,
{
    if k < owners.len() {
        lemma_first_owned_none(cs, owners, name, k + 1);
    }
}

/// The first owned constant found on the `kk`-th type, none found before it.
proof fn lemma_first_owned_at(
    cs: Seq<crate::symbols::ConstSymbol>,
    owners: Seq<Seq<char>>,
    name: Seq<char>,
    k: nat,
    kk: int,
)
    requires
        k <= kk < owners.len(),
        crate::symbols::first_const(cs, crate::symbols::owned_const(owners[kk], name)) is Some,
        forall|j: int|
            k <= j < kk ==> crate::symbols::first_const(cs, crate::symbols::owned_const(#[trigger] owners[j], name))
                is None,
    ensures
        first_owned(cs, owners, name, k) == crate::symbols::first_const(cs, crate::symbols::owned_const(owners[kk], name)),
    decreases kk - k,
{
    if k < kk {
        lemma_first_owned_at(cs, owners, name, k + 1, kk);
    }
}

/// No namespace-level constant is found where none of the candidates from the `k`-th on names
/// one.
proof fn lemma_first_free_none(cs: Seq<crate::symbols::ConstSymbol>, cands: Seq<Seq<char>>, k: nat)
    requires
        forall|j: int|
            k <= j < cands.len() ==> crate::symbols::first_const(cs, crate::symbols::free_const(#[trigger] cands[j]))
                is None,
    ensures
        first_free(cs, cands, k) is None,
    decreases cands.len() - k,
{
    if k < cands.len() {
        lemma_first_free_none(cs, cands, k + 1);
    }
}

/// A value the constant cache of a valid state holds is normalised and has no literal.
proof fn lemma_cached_normal(ctx: ConstEvalContext, q: Seq<char>)
    requires
        ctx.wf(),
    ensures
        crate::eval::const_cache_lookup(crate::eval::const_cache_model(ctx.cache@), q) matches Some(Some(v)) ==> (
        normalised(v.value) == v.value && v.literal is None),
{
    crate::eval::lemma_cache_sound_lookup(
        crate::eval::const_cache_model(ctx.cache@),
        ctx.errors@.len() > 0,
        ctx.symbol_index.constants@,
        q,
    );
    if let Some(Some(v)) = crate::eval::const_cache_lookup(crate::eval::const_cache_model(ctx.cache@), q) {
        let cs = ctx.symbol_index.constants@;
        let j = choose|j: int|
            crate::symbols::first_at(cs, crate::symbols::named_const(q), j) && (cs[j].value matches Some(x)
                && normalised(x@) == v.value);
        let x = cs[j].value->0;
        assert(normalised(normalised(x@)) == normalised(x@));
    }
}

/// A reading that agrees with a narrower one wherever that one has a name gives the same
/// outcome on every expression that is pure for the narrower one.
proof fn lemma_pure_outcome_wider(
    node: ExprNode,
    a: spec_fn(Seq<char>) -> Option<ConstModel>,
    b: spec_fn(Seq<char>) -> Option<ConstModel>,
)
    requires
        forall|n: Seq<char>| (#[trigger] a(n)) is Some ==> b(n) == a(n),
    ensures
        pure_outcome(node, a) is Some ==> pure_outcome(node, b) == pure_outcome(node, a),
    decreases node,
{
    match node {
        ExprNode::Parenthesized(e) => lemma_pure_outcome_wider(*e, a, b),
        ExprNode::Unary { expr, .. } => lemma_pure_outcome_wider(*expr, a, b),
        ExprNode::Binary { left, right, .. } => {
            lemma_pure_outcome_wider(*left, a, b);
            lemma_pure_outcome_wider(*right, a, b);
        },
        ExprNode::Identifier(name) => {
            if a(name@) is Some {
                assert(b(name@) == a(name@));
            }
        },
        _ => {},
    }
}

/// The names of an environment: a local first, then a parameter.
pub open spec fn env_lookup(env: EvalEnv) -> spec_fn(Seq<char>) -> Option<ConstModel> {
    |n: Seq<char>| env_resolve(env, n)
}

/// The names of optional read-only locals and parameters: a local first, then a parameter.
pub open spec fn bindings_lookup(
    locals: Option<Vec<(String, ConstValue)>>,
    params: Option<Vec<(String, ConstValue)>>,
) -> spec_fn(Seq<char>) -> Option<ConstModel> {
    |n: Seq<char>|
        match locals {
            Some(l) => match named_lookup(field_models(l@), n) {
                Some(v) => Some(v),
                None => params_lookup(params, n),
            },
            None => params_lookup(params, n),
        }
}

/// The names of a function body whose scopes are `view`: a local first, then a parameter.
pub open spec fn view_lookup(
    view: Seq<crate::environment::ScopeModel>,
    params: Seq<(Seq<char>, ConstModel)>,
) -> spec_fn(Seq<char>) -> Option<ConstModel> {
    |n: Seq<char>|
        match crate::environment::frame_lookup(view, n) {
            Some(b) => Some(b.value),
            None => named_lookup(params, n),
        }
}

/// The names of a function body: a local of the frame first, then a parameter.
pub open spec fn frame_lookup_fn(
    frame: FunctionFrame,
    params: Seq<(Seq<char>, ConstModel)>,
) -> spec_fn(Seq<char>) -> Option<ConstModel> {
    view_lookup(frame.view(), params)
}

/// What a function body's expression gives where it is pure for `look`: its value, or the
/// error's message and span (`span`, or the message for a missing expression).
pub open spec fn body_expr_outcome(
    e: Expression,
    look: spec_fn(Seq<char>) -> Option<ConstModel>,
    span: Option<Span>,
) -> Option<Result<ConstModel, (Seq<char>, Option<Span>)>> {
    match e.node {
        Some(n) => match pure_outcome(n, look) {
            Some(Ok(v)) => Some(Ok(v)),
            Some(Err(m)) => Some(Err((m, span))),
            None => None,
        },
        None => Some(Err(("expression is not a valid compile-time value"@, span))),
    }
}

/// What declaring `name` with the binding `b` in the innermost scope of `view` gives: the
/// scopes after it, or the error for no scope or a name already in the innermost scope.
pub open spec fn declare_outcome(
    view: Seq<crate::environment::ScopeModel>,
    name: Seq<char>,
    b: crate::environment::BindingModel,
) -> Result<Seq<crate::environment::ScopeModel>, (Seq<char>, Option<Span>)> {
    if view.len() == 0 {
        Err((crate::environment::no_scope_message(name), b.span))
    } else {
        match crate::environment::scope_find(view.last(), name) {
            Some(i) => Err(
                (
                    crate::environment::redeclared_message(name),
                    crate::values::span_or(view.last()[i].1.span, b.span),
                ),
            ),
            None => Ok(crate::environment::frame_declare(view, name, b)),
        }
    }
}

/// What declaring the first `n` constants of a `const` statement gives from the scopes `view`,
/// where each initializer is pure for the names declared so far: the scopes after them, or the
/// first error. `None` where an initializer is not pure.
pub open spec fn const_decls_outcome(
    c: ConstStatement,
    n: nat,
    view: Seq<crate::environment::ScopeModel>,
    params: Seq<(Seq<char>, ConstModel)>,
    bits: u32,
    fallback: Option<Span>,
) -> Option<Result<Seq<crate::environment::ScopeModel>, (Seq<char>, Option<Span>)>>
    decreases n,
{
    if n == 0 || n > c.declarators@.len() {
        Some(Ok(view))
    } else {
        match const_decls_outcome(c, (n - 1) as nat, view, params, bits, fallback) {
            Some(Ok(v)) => {
                let d = c.declarators@[n - 1];
                let span = crate::values::span_or(crate::values::span_or(d.initializer.span, d.span), fallback);
                match body_expr_outcome(d.initializer, view_lookup(v, params), span) {
                    Some(Ok(x)) => Some(
                        match decl_value(x, pure_literal(d.initializer.node->0), Some(c.ty), bits, false) {
                            Err(m) => Err((m, span)),
                            Ok(val) => declare_outcome(
                                v,
                                d.name@,
                                crate::environment::BindingModel { value: val, mutable: false, span },
                            ),
                        },
                    ),
                    Some(Err(e)) => Some(Err(e)),
                    None => None,
                }
            },
            other => other,
        }
    }
}

/// What declaring the first `n` variables of a `let` or `var` statement gives from the scopes
/// `view` (see `const_decls_outcome`); a variable without initializer is an error.
pub open spec fn var_decls_outcome(
    d: VariableDeclaration,
    n: nat,
    view: Seq<crate::environment::ScopeModel>,
    params: Seq<(Seq<char>, ConstModel)>,
    bits: u32,
    fallback: Option<Span>,
) -> Option<Result<Seq<crate::environment::ScopeModel>, (Seq<char>, Option<Span>)>>
    decreases n,
{
    if n == 0 || n > d.declarators@.len() {
        Some(Ok(view))
    } else {
        match var_decls_outcome(d, (n - 1) as nat, view, params, bits, fallback) {
            Some(Ok(v)) => {
                let x = d.declarators@[n - 1];
                match x.initializer {
                    None => Some(
                        Err(
                            (
                                "variable `"@ + x.name@ + "` in compile-time function requires an initializer"@,
                                fallback,
                            ),
                        ),
                    ),
                    Some(init) => {
                        let span = crate::values::span_or(init.span, fallback);
                        match body_expr_outcome(init, view_lookup(v, params), span) {
                            Some(Ok(y)) => Some(
                                match decl_value(y, pure_literal(init.node->0), d.type_annotation, bits, true) {
                                    Err(m) => Err((m, span)),
                                    Ok(val) => declare_outcome(
                                        v,
                                        x.name@,
                                        crate::environment::BindingModel {
                                            value: val,
                                            mutable: d.modifier == VariableModifier::Var,
                                            span,
                                        },
                                    ),
                                },
                            ),
                            Some(Err(e)) => Some(Err(e)),
                            None => None,
                        }
                    },
                }
            },
            other => other,
        }
    }
}

/// What running a statement from the scopes `view` gives where each expression it evaluates is
/// pure for the names in scope: `Some(v)` when it returns `v`, `None` when it finishes, with the
/// scopes after it; or the error's message and span. Declarations bind in the innermost scope;
/// a block runs its statements in a scope of its own, in order, until one returns; an `if`
/// runs the branch its `bool` condition picks, in a scope of its own. `None` where an
/// expression is not pure.
pub open spec fn stmt_outcome(
    st: Statement,
    view: Seq<crate::environment::ScopeModel>,
    params: Seq<(Seq<char>, ConstModel)>,
    bits: u32,
) -> Option<Result<(Option<ConstModel>, Seq<crate::environment::ScopeModel>), (Seq<char>, Option<Span>)>>
    decreases st, 0nat,
{
    let look = view_lookup(view, params);
    match st.kind {
        StatementKind::Empty => Some(Ok((None, view))),
        StatementKind::ConstDeclaration(c) => match const_decls_outcome(
            c,
            c.declarators@.len(),
            view,
            params,
            bits,
            st.span,
        ) {
            Some(Ok(v)) => Some(Ok((None, v))),
            Some(Err(e)) => Some(Err(e)),
            None => None,
        },
        StatementKind::VariableDeclaration(d) => match var_decls_outcome(
            d,
            d.declarators@.len(),
            view,
            params,
            bits,
            st.span,
        ) {
            Some(Ok(v)) => Some(Ok((None, v))),
            Some(Err(e)) => Some(Err(e)),
            None => None,
        },
        StatementKind::Expression(e) => match body_expr_outcome(e, look, crate::values::span_or(e.span, st.span)) {
            Some(Ok(_)) => Some(Ok((None, view))),
            Some(Err(x)) => Some(Err(x)),
            None => None,
        },
        StatementKind::Return { expression } => match expression {
            None => Some(Ok((Some(ConstModel::Unit), view))),
            Some(e) => match body_expr_outcome(e, look, crate::values::span_or(e.span, st.span)) {
                Some(Ok(v)) => Some(Ok((Some(v), view))),
                Some(Err(x)) => Some(Err(x)),
                None => None,
            },
        },
        StatementKind::Block(b) => {
            proof {
                assert(decreases_to!(st => st.kind));
                assert(decreases_to!(st.kind => b));
                assert(decreases_to!(b => b.statements));
            }
            match block_outcome(b.statements, b.statements@.len(), view.push(Seq::empty()), params, bits) {
                Some(Ok((x, v))) => Some(Ok((x, v.drop_last()))),
                other => other,
            }
        },
        StatementKind::If(i) => {
            proof {
                assert(decreases_to!(st => st.kind));
                assert(decreases_to!(st.kind => i));
                assert(decreases_to!(i => *i.then_branch));
            }
            let cond_span = crate::values::span_or(i.condition.span, st.span);
            match body_expr_outcome(i.condition, look, cond_span) {
                Some(Ok(ConstModel::Bool(flag))) => if flag {
                    match stmt_outcome(*i.then_branch, view.push(Seq::empty()), params, bits) {
                        Some(Ok((x, v))) => Some(Ok((x, v.drop_last()))),
                        other => other,
                    }
                } else {
                    match i.else_branch {
                        Some(b) => {
                            proof {
                                assert(decreases_to!(i => i.else_branch));
                                assert(decreases_to!(i.else_branch => *b));
                            }
                            match stmt_outcome(*b, view.push(Seq::empty()), params, bits) {
                                Some(Ok((x, v))) => Some(Ok((x, v.drop_last()))),
                                other => other,
                            }
                        },
                        None => Some(Ok((None, view))),
                    }
                },
                Some(Ok(other)) => Some(
                    Err(("compile-time function condition expected `bool`, found "@ + debug_text(other), cond_span)),
                ),
                Some(Err(x)) => Some(Err(x)),
                None => None,
            }
        },
        other => Some(
            Err(
                (
                    "`"@ + crate::diagnostics::kind_name(other)
                        + "` statements are not supported in compile-time function evaluation"@,
                    st.span,
                ),
            ),
        ),
    }
}

/// What running the first `n` statements of `v` from the scopes `view` gives (see
/// `stmt_outcome`): they run in order until one returns or fails.
pub open spec fn block_outcome(
    v: Vec<Statement>,
    n: nat,
    view: Seq<crate::environment::ScopeModel>,
    params: Seq<(Seq<char>, ConstModel)>,
    bits: u32,
) -> Option<Result<(Option<ConstModel>, Seq<crate::environment::ScopeModel>), (Seq<char>, Option<Span>)>>
    decreases v, n,
{
    if n == 0 || n > v@.len() {
        Some(Ok((None, view)))
    } else {
        proof {
            assert(decreases_to!(v => v@));
            assert(decreases_to!(v@ => v@[n - 1]));
        }
        match block_outcome(v, (n - 1) as nat, view, params, bits) {
            Some(Ok((None, w))) => stmt_outcome(v@[n - 1], w, params, bits),
            other => other,
        }
    }
}

/// Whether `r` and the scopes `after` are the statement outcome `o`.
pub open spec fn stmt_result(
    r: Result<Option<ConstValue>, ConstEvalError>,
    after: Seq<crate::environment::ScopeModel>,
    o: Result<(Option<ConstModel>, Seq<crate::environment::ScopeModel>), (Seq<char>, Option<Span>)>,
) -> bool {
    match r {
        Ok(x) => o == Ok::<(Option<ConstModel>, Seq<crate::environment::ScopeModel>), (Seq<char>, Option<Span>)>(
            (crate::environment::opt_model(x), after),
        ),
        Err(e) => o is Err && o->Err_0 == (e.message@, e.span),
    }
}

/// Once a block has returned or failed, later statements do not change its outcome; and a
/// block with an outcome has one after fewer statements.
proof fn lemma_block_outcome_prefix(
    v: Vec<Statement>,
    m: nat,
    n: nat,
    view: Seq<crate::environment::ScopeModel>,
    params: Seq<(Seq<char>, ConstModel)>,
    bits: u32,
)
    requires
        m <= n <= v@.len(),
    ensures
        block_outcome(v, n, view, params, bits) is Some ==> block_outcome(v, m, view, params, bits) is Some,
        block_outcome(v, m, view, params, bits) matches Some(o) && !(o matches Ok((None, _)))
            ==> block_outcome(v, n, view, params, bits) == block_outcome(v, m, view, params, bits),
    decreases n - m,
{
    if m < n {
        lemma_block_outcome_prefix(v, m, (n - 1) as nat, view, params, bits);
    }
}

/// Once a declarator fails, the declarations' outcome is that error; and an outcome after more
/// declarators means one after fewer.
proof fn lemma_const_decls_prefix(
    c: ConstStatement,
    m: nat,
    n: nat,
    view: Seq<crate::environment::ScopeModel>,
    params: Seq<(Seq<char>, ConstModel)>,
    bits: u32,
    fallback: Option<Span>,
)
    requires
        m <= n <= c.declarators@.len(),
    ensures
        const_decls_outcome(c, n, view, params, bits, fallback) is Some ==> const_decls_outcome(
            c,
            m,
            view,
            params,
            bits,
            fallback,
        ) is Some,
        const_decls_outcome(c, m, view, params, bits, fallback) matches Some(Err(e)) ==> const_decls_outcome(
            c,
            n,
            view,
            params,
            bits,
            fallback,
        ) == const_decls_outcome(c, m, view, params, bits, fallback),
    decreases n - m,
{
    if m < n {
        lemma_const_decls_prefix(c, m, (n - 1) as nat, view, params, bits, fallback);
    }
}

/// The same, for the variables of a `let` or `var` statement.
proof fn lemma_var_decls_prefix(
    d: VariableDeclaration,
    m: nat,
    n: nat,
    view: Seq<crate::environment::ScopeModel>,
    params: Seq<(Seq<char>, ConstModel)>,
    bits: u32,
    fallback: Option<Span>,
)
    requires
        m <= n <= d.declarators@.len(),
    ensures
        var_decls_outcome(d, n, view, params, bits, fallback) is Some ==> var_decls_outcome(
            d,
            m,
            view,
            params,
            bits,
            fallback,
        ) is Some,
        var_decls_outcome(d, m, view, params, bits, fallback) matches Some(Err(e)) ==> var_decls_outcome(
            d,
            n,
            view,
            params,
            bits,
            fallback,
        ) == var_decls_outcome(d, m, view, params, bits, fallback),
    decreases n - m,
{
    if m < n {
        lemma_var_decls_prefix(d, m, (n - 1) as nat, view, params, bits, fallback);
    }
}


/// What a compile-time function gives once its body has run with outcome `o`: the returned
/// value converted to the return type `ty` (a 32-bit integer read as an integer), the error
/// for a body that returns nothing, or the body's or the conversion's error.
pub open spec fn function_result(
    o: Result<Option<ConstModel>, (Seq<char>, Option<Span>)>,
    name: Seq<char>,
    ty: Ty,
    bits: u32,
    span: Option<Span>,
) -> Result<ConstModel, (Seq<char>, Option<Span>)> {
    match o {
        Ok(Some(v)) => match type_conversion(v, None, ty, bits) {
            Ok(c) => Ok(normalised(c)),
            Err(m) => Err((m, span)),
        },
        Ok(None) => Err(("compile-time function `"@ + name + "` does not return a value"@, span)),
        Err(x) => Err(x),
    }
}

/// What a body's outcome says it returned: `Some` of the value it returned, `None` when it ran
/// to its end, or its error.
pub open spec fn returned(
    o: Result<(Option<ConstModel>, Seq<crate::environment::ScopeModel>), (Seq<char>, Option<Span>)>,
) -> Result<Option<ConstModel>, (Seq<char>, Option<Span>)> {
    match o {
        Ok((x, _)) => Ok(x),
        Err(e) => Err(e),
    }
}

/// Whether `r` is the outcome `x`: its value, or its error's message and span.
pub open spec fn result_is(r: Result<ConstEvalResult, ConstEvalError>, x: Result<ConstModel, (Seq<char>, Option<Span>)>) -> bool {
    match r {
        Ok(v) => x == Ok::<ConstModel, (Seq<char>, Option<Span>)>(v.value@),
        Err(e) => x == Err::<ConstModel, (Seq<char>, Option<Span>)>((e.message@, e.span)),
    }
}

/// The literal that such an expression's value keeps: that of a literal, through parentheses
/// and unary plus.
pub open spec fn pure_literal(node: ExprNode) -> Option<LiteralModel>
    decreases node,
{
    match node {
        ExprNode::Literal(l) => literal_model(l.numeric),
        ExprNode::Parenthesized(e) => pure_literal(*e),
        ExprNode::Unary { op, expr, .. } => if op == UnOp::UnaryPlus {
            pure_literal(*expr)
        } else {
            None
        },
        _ => None,
    }
}

/// Whether `r` is what evaluating a pure expression gives: the outcome `o`, with the literal
/// `lit` on success and the span `span` on error.
pub open spec fn pure_result(
    r: Result<ConstEvalResult, ConstEvalError>,
    o: Result<ConstModel, Seq<char>>,
    lit: Option<LiteralModel>,
    span: Option<Span>,
) -> bool {
    match r {
        Ok(v) => o == Ok::<ConstModel, Seq<char>>(v.value@) && literal_model(v.literal) == lit,
        Err(e) => o == Err::<ConstModel, Seq<char>>(e.message@) && e.span == span,
    }
}

/// What converting the outcome `o` of an expression to `ty` gives: its error, or the converted
/// value (a 32-bit integer read as an integer) or the conversion's error.
pub open spec fn converted_outcome(
    o: Result<ConstModel, Seq<char>>,
    lit: Option<LiteralModel>,
    ty: Ty,
    bits: u32,
) -> Result<ConstModel, Seq<char>> {
    match o {
        Ok(v) => match type_conversion(v, lit, ty, bits) {
            Ok(c) => Ok(normalised(c)),
            Err(m) => Err(m),
        },
        Err(m) => Err(m),
    }
}

/// What evaluating a constant's initializer `init` of type `ty` gives where it is pure (the
/// names it reads are constants already evaluated, see `cached_const`) and the expression memo
/// does not decide: its value converted to `ty`, or the error's message and `span`; a missing
/// initializer is an error.
pub open spec fn init_outcome(
    ctx: ConstEvalContext,
    init: Expression,
    ty: Ty,
    namespace: Option<String>,
    owner: Option<String>,
    span: Option<Span>,
) -> Option<Result<ConstModel, (Seq<char>, Option<Span>)>> {
    let key = ExprKeyModel {
        expr_text: init.text@,
        namespace: name_view(namespace),
        owner: name_view(owner),
        target_ty: canonical(ty),
    };
    match init.node {
        None => Some(Err(("initializer is not a parsable constant expression"@, span))),
        Some(n) => if ctx.config().enable_expression_memo && expr_cache_lookup(ctx.expression_memo(), key) is Some {
            None
        } else {
            match pure_outcome(
                n,
                scope_names(
                    ctx.symbol_index.constants@,
                    crate::eval::const_cache_model(ctx.cache@),
                    None,
                    None,
                    name_view(namespace),
                    name_view(owner),
                ),
            ) {
                Some(o) => Some(
                    match converted_outcome(o, pure_literal(n), ty, (ctx.type_layouts.pointer_size * 8) as u32) {
                        Ok(v) => Ok(v),
                        Err(m) => Err((m, span)),
                    },
                ),
                None => None,
            }
        },
    }
}

/// Whether a constant evaluation gave no value and recorded running out of the fuel limit of
/// `ctx` as its one new error.
pub open spec fn const_fuel_failed(
    r: Option<ConstEvalResult>,
    before: Seq<ConstEvalError>,
    after: Seq<ConstEvalError>,
    ctx: ConstEvalContext,
    ctx_after: ConstEvalContext,
) -> bool {
    r is None && after.len() == before.len() + 1 && after.drop_last() == before && fuel_error(
        ctx,
        ctx_after,
        after.last(),
    )
}

/// Whether a constant evaluation's answer `r`, and the errors `before` and `after` it, agree
/// with the outcome `o`: the value, or no value and the error recorded last.
pub open spec fn const_result(
    r: Option<ConstEvalResult>,
    before: Seq<ConstEvalError>,
    after: Seq<ConstEvalError>,
    o: Result<ConstModel, (Seq<char>, Option<Span>)>,
) -> bool {
    match o {
        Ok(v) => r matches Some(x) && x.value@ == v && after == before,
        Err(e) => r is None && after.len() == before.len() + 1 && after.drop_last() == before
            && after.last().message@ == e.0 && after.last().span == e.1,
    }
}

/// Whether the first `n` interpolations of a quote literal, each pure for `look`, all evaluate
/// to quotes (`Ok`), or the first error: an interpolation's own error at `outer`, or the error
/// for one that is not a quote at its span. `None` where one of them is not pure.
pub open spec fn interpolations_outcome(
    v: Seq<crate::ast::QuoteInterpolation>,
    n: nat,
    look: spec_fn(Seq<char>) -> Option<ConstModel>,
    outer: Option<Span>,
) -> Option<Result<(), (Seq<char>, Option<Span>)>>
    decreases n,
{
    if n == 0 || n > v.len() {
        Some(Ok(()))
    } else {
        match interpolations_outcome(v, (n - 1) as nat, look, outer) {
            Some(Ok(())) => match pure_outcome(v[n - 1].expression, look) {
                Some(Ok(x)) => if crate::quote::is_quote_model(x) {
                    Some(Ok(()))
                } else {
                    Some(
                        Err(
                            (
                                crate::quote::interpolation_message(v[n - 1].placeholder@),
                                crate::values::span_or(crate::quote::source_span(v[n - 1].span, outer), outer),
                            ),
                        ),
                    )
                },
                Some(Err(m)) => Some(Err((m, outer))),
                None => None,
            },
            other => other,
        }
    }
}

/// Once an interpolation fails, the outcome is that error; and an outcome after more
/// interpolations means one after fewer.
proof fn lemma_interpolations_prefix(
    v: Seq<crate::ast::QuoteInterpolation>,
    m: nat,
    n: nat,
    look: spec_fn(Seq<char>) -> Option<ConstModel>,
    outer: Option<Span>,
)
    requires
        m <= n <= v.len(),
    ensures
        interpolations_outcome(v, n, look, outer) is Some ==> interpolations_outcome(v, m, look, outer) is Some,
        interpolations_outcome(v, m, look, outer) matches Some(Err(e)) ==> interpolations_outcome(v, n, look, outer)
            == interpolations_outcome(v, m, look, outer),
    decreases n - m,
{
    if m < n {
        lemma_interpolations_prefix(v, m, (n - 1) as nat, look, outer);
    }
}

/// The value a declaration binds for an initializer that gave `v`: converted to `ty` when
/// there is one (read as an integer if 32-bit, when `normalise`), or the conversion's error.
pub open spec fn decl_value(
    v: ConstModel,
    lit: Option<LiteralModel>,
    ty: Option<Ty>,
    bits: u32,
    normalise: bool,
) -> Result<ConstModel, Seq<char>> {
    match ty {
        Some(t) => match type_conversion(v, lit, t, bits) {
            Ok(c) => Ok(
                if normalise {
                    normalised(c)
                } else {
                    c
                },
            ),
            Err(m) => Err(m),
        },
        None => Ok(v),
    }
}

/// The memo key of an expression text read from a namespace and owner type for a target type.
pub open spec fn expression_key(text: Seq<char>, namespace: Option<&str>, owner: Option<&str>, ty: Ty) -> ExprKeyModel {
    ExprKeyModel {
        expr_text: text,
        namespace: opt_slice(namespace),
        owner: opt_slice(owner),
        target_ty: canonical(ty),
    }
}

pub open spec fn or_span_spec(a: Option<Span>, b: Option<Span>) -> Option<Span> {
    crate::values::span_or(a, b)
}

/// Why a compile-time function cannot be run with `nargs` arguments, checked before its
/// parameters: a call already in progress, `async`, `extern`, generic parameters, no body, or the
/// wrong number of arguments.
pub open spec fn call_precheck(stack: Seq<Seq<char>>, s: FunctionDeclSymbol, nargs: nat) -> Option<
    Seq<char>,
> {
    let q = s.qualified@;
    let f = s.function;
    if stack.contains(q) {
        Some("cycle detected while evaluating compile-time function `"@ + q + "`"@)
    } else if f.is_async {
        Some("compile-time function `"@ + q + "` cannot be async"@)
    } else if f.is_extern {
        Some("compile-time function `"@ + q + "` cannot be extern"@)
    } else if f.generics matches Some(g) && g@.len() > 0 {
        Some("compile-time function `"@ + q + "` cannot be generic"@)
    } else if f.body is None {
        Some("compile-time function `"@ + q + "` requires a body"@)
    } else if f.signature.parameters@.len() != nargs {
        Some(
            "compile-time function `"@ + q + "` expects "@ + crate::text::nat_text(
                f.signature.parameters@.len(),
            ) + " arguments but received "@ + crate::text::nat_text(nargs),
        )
    } else {
        None
    }
}

/// The literal metadata of an evaluated argument.
pub open spec fn arg_literal(a: (Option<String>, ConstEvalResult)) -> Option<crate::values::LiteralModel> {
    match a.1.literal {
        Some(l) => Some(l@),
        None => None,
    }
}

/// How the argument `a` binds to the parameter `p` of the compile-time function `q`: a `ref` or
/// `out` parameter, or a name that is not the parameter's (compared without ASCII case), gives
/// the error; otherwise the argument converted to the parameter's type, or the conversion's error.
pub open spec fn param_outcome(
    q: Seq<char>,
    p: crate::ast::Parameter,
    a: (Option<String>, ConstEvalResult),
    bits: u32,
) -> Result<ConstModel, Seq<char>> {
    param_model_outcome(q, p, arg_model(a), bits)
}

/// An evaluated argument as plain values: its name, its value and the literal it was written as.
pub open spec fn arg_model(a: (Option<String>, ConstEvalResult)) -> (Option<Seq<char>>, ConstModel, Option<
    LiteralModel,
>) {
    (
        match a.0 {
            Some(n) => Some(n@),
            None => None,
        },
        a.1.value@,
        arg_literal(a),
    )
}

/// How an argument, as plain values, binds to the parameter `p` of the compile-time function `q`
/// (see `param_outcome`).
pub open spec fn param_model_outcome(
    q: Seq<char>,
    p: crate::ast::Parameter,
    a: (Option<Seq<char>>, ConstModel, Option<LiteralModel>),
    bits: u32,
) -> Result<ConstModel, Seq<char>> {
    if p.binding == BindingModifier::Ref || p.binding == BindingModifier::Out {
        Err(
            "compile-time function `"@ + q + "` parameter `"@ + p.name@ + "` cannot use `"@ + (if p.binding
                == BindingModifier::Ref {
                "ref"@
            } else {
                "out"@
            }) + "` binding"@,
        )
    } else if a.0 is Some && !crate::text::eq_ignore_ascii_case(a.0->0, p.name@) {
        Err("compile-time function `"@ + q + "` does not have parameter `"@ + a.0->0 + "`"@)
    } else {
        crate::ops::type_conversion(a.1, a.2, p.ty, bits)
    }
}

/// The parameters a compile-time function's body sees: each parameter's name with its
/// argument converted to its type.
pub open spec fn bound_params(
    q: Seq<char>,
    params: Seq<crate::ast::Parameter>,
    args: Seq<(Option<Seq<char>>, ConstModel, Option<LiteralModel>)>,
    bits: u32,
) -> Seq<(Seq<char>, ConstModel)> {
    Seq::new(params.len(), |k: int| (params[k].name@, param_model_outcome(q, params[k], args[k], bits)->Ok_0))
}

/// The error of the first of the parameters from `k` on that its argument cannot bind to.
pub open spec fn first_param_error(
    q: Seq<char>,
    params: Seq<crate::ast::Parameter>,
    args: Seq<(Option<Seq<char>>, ConstModel, Option<LiteralModel>)>,
    bits: u32,
    k: nat,
) -> Option<Seq<char>>
    decreases params.len() - k,
{
    if k >= params.len() {
        None
    } else {
        match param_model_outcome(q, params[k as int], args[k as int], bits) {
            Err(m) => Some(m),
            Ok(_) => first_param_error(q, params, args, bits, k + 1),
        }
    }
}

/// What running the compile-time function `f` on arguments `args` gives, with the calls
/// `stack` in progress, where its body is pure (see `block_outcome`): the error of the checks
/// before its parameters (see `call_precheck`), of the first argument that cannot bind, or what
/// its body gives (see `function_result`); errors at `span`. `None` where the body is not pure.
pub open spec fn execution_outcome(
    stack: Seq<Seq<char>>,
    f: FunctionDeclSymbol,
    args: Seq<(Option<Seq<char>>, ConstModel, Option<LiteralModel>)>,
    bits: u32,
    span: Option<Span>,
) -> Option<Result<ConstModel, (Seq<char>, Option<Span>)>> {
    match call_precheck(stack, f, args.len()) {
        Some(m) => Some(Err((m, span))),
        None => match first_param_error(f.qualified@, f.function.signature.parameters@, args, bits, 0) {
            Some(m) => Some(Err((m, span))),
            None => match f.function.body {
                Some(b) => match block_outcome(
                    b.statements,
                    b.statements@.len(),
                    seq![Seq::empty()],
                    bound_params(f.qualified@, f.function.signature.parameters@, args, bits),
                    bits,
                ) {
                    Some(o) => Some(
                        function_result(returned(o), f.function.name@, f.function.signature.return_type, bits, span),
                    ),
                    None => None,
                },
                None => None,
            },
        },
    }
}

/// Once every argument before `k` binds, the first error from `k` on is the first error.
proof fn lemma_first_param_error(
    q: Seq<char>,
    params: Seq<crate::ast::Parameter>,
    args: Seq<(Option<Seq<char>>, ConstModel, Option<LiteralModel>)>,
    bits: u32,
    j: nat,
    k: nat,
)
    requires
        j <= k <= params.len(),
        forall|i: int| j <= i < k ==> (#[trigger] param_model_outcome(q, params[i], args[i], bits)) is Ok,
    ensures
        first_param_error(q, params, args, bits, j) == first_param_error(q, params, args, bits, k),
    decreases k - j,
{
    if j < k {
        lemma_first_param_error(q, params, args, bits, j + 1, k);
    }
}

/// The name written on a call argument.
pub open spec fn arg_name(a: CallArgument) -> Option<Seq<char>> {
    match a.name {
        Some(n) => Some(n.text@),
        None => None,
    }
}

/// The first `n` arguments of a call, each evaluated where its value is pure for `look`: their
/// names, values and literals, or the first error. `None` where one of them is not pure.
pub open spec fn call_args_outcome(
    v: Vec<CallArgument>,
    n: nat,
    look: spec_fn(Seq<char>) -> Option<ConstModel>,
) -> Option<Result<Seq<(Option<Seq<char>>, ConstModel, Option<LiteralModel>)>, Seq<char>>>
    decreases n,
{
    if n == 0 || n > v@.len() {
        Some(Ok(Seq::empty()))
    } else {
        match call_args_outcome(v, (n - 1) as nat, look) {
            Some(Ok(prev)) => match pure_outcome(v@[n - 1].value, look) {
                Some(Ok(x)) => Some(Ok(prev.push((arg_name(v@[n - 1]), x, pure_literal(v@[n - 1].value))))),
                Some(Err(m)) => Some(Err(m)),
                None => None,
            },
            other => other,
        }
    }
}

/// Once an argument fails, the arguments' outcome is that error; and arguments with an outcome
/// have one after fewer of them.
proof fn lemma_call_args_prefix(
    v: Vec<CallArgument>,
    m: nat,
    n: nat,
    look: spec_fn(Seq<char>) -> Option<ConstModel>,
)
    requires
        m <= n <= v@.len(),
    ensures
        call_args_outcome(v, n, look) is Some ==> call_args_outcome(v, m, look) is Some,
        call_args_outcome(v, m, look) matches Some(Err(e)) ==> call_args_outcome(v, n, look) == call_args_outcome(
            v,
            m,
            look,
        ),
    decreases n - m,
{
    if m < n {
        lemma_call_args_prefix(v, m, (n - 1) as nat, look);
    }
}

/// A name held as an optional string, as plain characters.
pub open spec fn name_view(o: Option<String>) -> Option<Seq<char>> {
    match o {
        Some(s) => Some(s@),
        None => None,
    }
}

/// The error of a `reflect<T>()` call with the type arguments `generics` and `nargs` value
/// arguments, when its arguments are wrong; `None` when they are a single valid type.
pub open spec fn reflect_call_error(generics: Option<&Vec<String>>, nargs: nat) -> Option<Seq<char>> {
    match generics {
        None => Some("`reflect<T>()` requires a single type argument"@),
        Some(g) => if g@.len() != 1 {
            Some("`reflect<T>()` expects exactly one type argument, found "@ + crate::text::nat_text(g@.len()))
        } else if nargs > 0 {
            Some("`reflect<T>()` does not accept value arguments"@)
        } else if !crate::types::type_text_valid(crate::types::trim(g@[0]@)) {
            Some("`"@ + crate::types::trim(g@[0]@) + "` is not a valid type argument for `reflect<T>()`"@)
        } else {
            None
        },
    }
}

/// A call's outcome stated from a state is stated from any state that only had less fuel spent.
proof fn lemma_call_result_spent(
    r: Result<ConstEvalResult, ConstEvalError>,
    a: ConstEvalContext,
    b: ConstEvalContext,
    after: ConstEvalContext,
    env: EvalEnv,
    segs: Seq<Seq<char>>,
    generics: Option<&Vec<String>>,
    ao: Result<Seq<(Option<Seq<char>>, ConstModel, Option<LiteralModel>)>, Seq<char>>,
)
    requires
        spent(a, b),
        (r matches Err(e) && fuel_error(b, after, e)) || call_result(r, b, after, env, segs, generics, ao),
    ensures
        (r matches Err(e) && fuel_error(a, after, e)) || call_result(r, a, after, env, segs, generics, ao),
{
}

/// A call's steps and whether it is pure are the same from any state that only had less fuel
/// spent.
proof fn lemma_call_steps_spent(
    a: ConstEvalContext,
    b: ConstEvalContext,
    env: EvalEnv,
    segs: Seq<Seq<char>>,
    args: Vec<CallArgument>,
    ao: Result<Seq<(Option<Seq<char>>, ConstModel, Option<LiteralModel>)>, Seq<char>>,
)
    requires
        spent(a, b),
    ensures
        call_steps(a, env, segs, args, ao) == call_steps(b, env, segs, args, ao),
        call_pure(a, env, segs, ao) == call_pure(b, env, segs, ao),
{
}

/// Whether `r` is what a call whose arguments gave `ao` returns, made in `env` from the state
/// `before` and leaving the state `after` (where the callee is no `reflect<T>()`): the first
/// argument's error; the decimal intrinsic's error; the error of resolving the callee (see
/// `resolution`); the memoised result of the same function on arguments with the same labels,
/// counted as a memo hit; or else, counted as a miss, what running the function gives (see
/// `execution_outcome`), which the memo then holds.
pub open spec fn call_result(
    r: Result<ConstEvalResult, ConstEvalError>,
    before: ConstEvalContext,
    after: ConstEvalContext,
    env: EvalEnv,
    segs: Seq<Seq<char>>,
    generics: Option<&Vec<String>>,
    ao: Result<Seq<(Option<Seq<char>>, ConstModel, Option<LiteralModel>)>, Seq<char>>,
) -> bool {
    match ao {
        Err(m) => r matches Err(e) && e.message@ == m && e.span == env.span,
        Ok(models) => if crate::intrinsics::is_reflect_path(segs) {
            reflect_call_error(generics, models.len()) matches Some(m) ==> (r matches Err(e) && e.message@ == m
                && e.span == env.span)
        } else {
            match crate::intrinsics::decimal_call_outcome(
            segs,
            models.len(),
        ) {
            Some(m) => r matches Err(e) && e.message@ == m && e.span == env.span,
            None => match crate::lookup::resolution(
                before.symbol_index.functions@,
                name_view(env.namespace),
                name_view(env.owner),
                segs,
                models.map_values(|a: (Option<Seq<char>>, ConstModel, Option<LiteralModel>)| a.0),
            ) {
                Err(m) => r matches Err(e) && e.message@ == m && e.span == env.span,
                Ok(f) => {
                    let key = crate::cache::KeyModel {
                        name: f.qualified@,
                        args: models.map_values(
                            |a: (Option<Seq<char>>, ConstModel, Option<LiteralModel>)| crate::labels::label(a.1),
                        ),
                    };
                    match crate::cache::cache_find(before.fn_cache.view(), key) {
                        Some(i) => r matches Ok(v) && v@ == before.fn_cache.view()[i].1 && after.stats().fn_cache_hits
                            == sat_inc(before.stats().fn_cache_hits),
                        None => execution_outcome(
                            views(before.fn_stack@),
                            *f,
                            models,
                            (before.type_layouts.pointer_size * 8) as u32,
                            env.span,
                        ) matches Some(x) ==> {
                            &&& result_is(r, x)
                            &&& after.stats().fn_cache_misses == sat_inc(before.stats().fn_cache_misses)
                            &&& r matches Ok(v) ==> (before.fn_cache.cap() >= 1 ==> (crate::cache::cache_find(
                                after.fn_cache.view(),
                                key,
                            ) matches Some(j) && after.fn_cache.view()[j].1 == v@))
                        },
                    }
                },
            },
        }},
    }
}

/// When the arguments before `k` all bind, the first error is the first one from `k` on.
proof fn lemma_bound_prefix(
    q: Seq<char>,
    params: Seq<crate::ast::Parameter>,
    args: Seq<(Option<String>, ConstEvalResult)>,
    bits: u32,
    k: nat,
)
    requires
        k <= params.len(),
        k <= args.len(),
        forall|j: int| 0 <= j < k ==> (#[trigger] param_outcome(q, params[j], args[j], bits)) is Ok,
    ensures
        first_param_error(q, params, args.map_values(|a: (Option<String>, ConstEvalResult)| arg_model(a)), bits, 0)
            == first_param_error(q, params, args.map_values(|a: (Option<String>, ConstEvalResult)| arg_model(a)), bits, k),
        k < args.len() ==> args.map_values(|a: (Option<String>, ConstEvalResult)| arg_model(a))[k as int]
            == arg_model(args[k as int]),
{
    let models = args.map_values(|a: (Option<String>, ConstEvalResult)| arg_model(a));
    assert forall|i: int| 0 <= i < k implies (#[trigger] param_model_outcome(q, params[i], models[i], bits)) is Ok by {
        assert(models[i] == arg_model(args[i]));
        assert(param_outcome(q, params[i], args[i], bits) is Ok);
    }
    lemma_first_param_error(q, params, models, bits, 0, k);
}

fn function_message(q: &str, rest: &str) -> (m: String)
    ensures
        m@ == "compile-time function `"@ + q@ + rest@,
{
    cat3("compile-time function `", q, rest)
}

impl ConstEvalContext {
    #[verifier::rlimit(60)]
    #[verifier::spinoff_prover]
    fn evaluate_identifier(&mut self, name: &str, env: &mut EvalEnv, Ghost(node): Ghost<ExprNode>) -> (r:
        Result<ConstEvalResult, ConstEvalError>)
        requires
            old(self).wf(),
        ensures
            final(self).wf(),
            final(self).same_shape(&*old(self)),
            *final(env) == *old(env),
            env_resolve(*old(env), name@) matches Some(x) ==> (r matches Ok(v) && v.value@
                == normalised(x) && v.literal is None && *final(self) == *old(self)),
            env_resolve(*old(env), name@) is None ==> (cached_const(
                old(self).symbol_index.constants@,
                crate::eval::const_cache_model(old(self).cache@),
                name_view(old(env).namespace),
                name_view(old(env).owner),
                name@,
            ) matches Some(x) ==> (r matches Ok(v) && v.value@ == normalised(x) && v.literal is None
                && *final(self) == *old(self))),
        decreases 2 * old(self).rank() + 1, 0int, node, 1int,
    {
        if let Some(value) = env.resolve_identifier(name) {
            return Ok(ConstEvalResult::new(value));
        }
        let span = env.span;
        if let Some(owner) = &env.owner {
            if let Some(i) = self.symbol_index.type_const(owner.as_str(), name) {
                proof {
                    crate::symbols::lemma_first_const_some(
                        self.symbol_index.constants@,
                        crate::symbols::owned_const(owner@, name@),
                    );
                }
                let q = self.symbol_index.constants[i].qualified.clone();
                proof {
                    self.lemma_const_entry(q@);
                    lemma_cached_normal(*self, q@);
                }
                return match self.evaluate_const(q.as_str(), span) {
                    Some(v) => Ok(v),
                    None => Err(error(cat3("could not evaluate constant `", q.as_str(), "`"), span)),
                };
            }
        }
        let env_ns = opt_str(&env.namespace);
        if let Some(i) = self.symbol_index.namespace_const(env_ns, name) {
            proof {
                let ns = crate::layout::opt_view(env_ns);
                let k = choose|k: int|
                    0 <= k < crate::symbols::free_candidates(ns, name@).len() && crate::symbols::first_const(
                        self.symbol_index.constants@,
                        crate::symbols::free_const(crate::symbols::free_candidates(ns, name@)[k]),
                    ) == Some(i as int) && forall|j: int|
                        0 <= j < k ==> crate::symbols::first_const(
                            self.symbol_index.constants@,
                            crate::symbols::free_const(#[trigger] crate::symbols::free_candidates(ns, name@)[j]),
                        ) is None;
                crate::symbols::lemma_first_const_some(
                    self.symbol_index.constants@,
                    crate::symbols::free_const(crate::symbols::free_candidates(ns, name@)[k]),
                );
                lemma_first_free_at(self.symbol_index.constants@, crate::symbols::free_candidates(ns, name@), 0, k);
            }
            let q = self.symbol_index.constants[i].qualified.clone();
            proof {
                self.lemma_const_entry(q@);
                lemma_cached_normal(*self, q@);
            }
            return match self.evaluate_const(q.as_str(), span) {
                Some(v) => Ok(v),
                None => Err(error(cat3("could not evaluate constant `", q.as_str(), "`"), span)),
            };
        }
        proof {
            lemma_first_free_none(
                self.symbol_index.constants@,
                crate::symbols::free_candidates(crate::layout::opt_view(env_ns), name@),
                0,
            );
        }
        Err(error(cat3("identifier `", name, "` is not a constant value"), span))
    }

    fn evaluate_const_at(&mut self, i: usize, span: Option<Span>, Ghost(node): Ghost<ExprNode>) -> (r:
        Result<ConstEvalResult, ConstEvalError>)
        requires
            old(self).wf(),
            i < old(self).symbol_index.constants@.len(),
        ensures
            final(self).wf(),
            final(self).same_shape(&*old(self)),
            crate::eval::const_cache_lookup(
                crate::eval::const_cache_model(final(self).cache@),
                old(self).symbol_index.constants@[i as int].qualified@,
            ) == Some(
                match r {
                    Ok(v) => Some(v@),
                    Err(_) => None::<crate::values::ResultModel>,
                },
            ),
            r matches Err(e) ==> e.message@ == "could not evaluate constant `"@
                + old(self).symbol_index.constants@[i as int].qualified@ + "`"@ && e.span == span,
            crate::eval::const_cache_lookup(
                crate::eval::const_cache_model(old(self).cache@),
                old(self).symbol_index.constants@[i as int].qualified@,
            ) matches Some(Some(v)) ==> (r matches Ok(x) && x@ == v && *final(self) == *old(self)),
        decreases 2 * old(self).rank() + 1, 0int, node, 0int,
    {
        let q = self.symbol_index.constants[i].qualified.clone();
        proof {
            assert(const_names(self.symbol_index.constants@)[i as int] == q@);
            self.lemma_const_entry(q@);
        }
        match self.evaluate_const(q.as_str(), span) {
            Some(v) => Ok(v),
            None => Err(error(cat3("could not evaluate constant `", q.as_str(), "`"), span)),
        }
    }

    /// `name`, then `name` qualified by the namespace and each enclosing one (see
    /// `qualified_tries`).
    fn qualified_candidates(&self, namespace: &Option<String>, name: &String) -> (r: Vec<String>)
        ensures
            views(r@) == qualified_tries(name_view(*namespace), name@),
    {
        let mut candidates: Vec<String> = Vec::new();
        candidates.push(name.clone());
        proof {
            assert(views(candidates@) =~= seq![name@]);
        }
        if let Some(ns) = namespace {
            let chain = crate::text::namespace_chain(ns.as_str());
            let ghost f = qualify_under(name@);
            let mut c: usize = 0;
            while c < chain.len()
                invariant
                    c <= chain.len(),
                    views(chain@) == crate::text::ns_chain(ns@),
                    f == qualify_under(name@),
                    views(candidates@) == seq![name@] + views(chain@).take(c as int).map_values(f),
                decreases chain.len() - c,
            {
                let ghost prev = candidates@;
                candidates.push(crate::text::qualified(chain[c].as_str(), name.as_str()));
                proof {
                    assert(views(chain@)[c as int] == chain@[c as int]@);
                    assert(views(candidates@) =~= views(prev).push(f(views(chain@)[c as int])));
                    assert(views(chain@).take(c + 1).map_values(f) =~= views(chain@).take(c as int).map_values(f).push(
                        f(views(chain@)[c as int]),
                    ));
                }
                c = c + 1;
            }
            assert(views(chain@).take(c as int) =~= views(chain@));
            assert(views(candidates@) =~= qualified_tries(name_view(*namespace), name@));
        } else {
            assert(views(candidates@) =~= qualified_tries(name_view(*namespace), name@));
        }
        candidates
    }

    fn evaluate_path(&mut self, segments: &Vec<String>, env: &mut EvalEnv, Ghost(node): Ghost<ExprNode>) -> (r:
        Result<ConstEvalResult, ConstEvalError>)
        requires
            old(self).wf(),
        ensures
            final(self).wf(),
            final(self).same_shape(&*old(self)),
            *final(env) == *old(env),
            segments@.len() == 0 ==> (r matches Err(e) && e.message@ == "invalid constant path"@
                && e.span == old(env).span),
            segments@.len() > 0 ==> (path_target(
                old(self).symbol_index.constants@,
                name_view(old(env).namespace),
                views(segments@),
            ) matches Some(i) ==> (crate::eval::const_cache_lookup(
                crate::eval::const_cache_model(old(self).cache@),
                old(self).symbol_index.constants@[i].qualified@,
            ) matches Some(Some(v)) ==> (r matches Ok(x) && x@ == v && *final(self) == *old(self)))),
        decreases 2 * old(self).rank() + 1, 0int, node, 1int,
    {
        let span = env.span;
        if segments.len() == 0 {
            return Err(error_text("invalid constant path", span));
        }
        let joined = crate::text::join(segments, "::");
        let ghost cs = self.symbol_index.constants@;
        let ghost tries = qualified_tries(name_view(env.namespace), joined@);
        assert(joined@ == crate::text::join_seq(views(segments@), "::"@));
        assert(tries == qualified_tries(name_view(old(env).namespace), crate::text::join_seq(views(segments@), "::"@)));
        let candidates = self.qualified_candidates(&env.namespace, &joined);
        let mut k: usize = 0;
        while k < candidates.len()
            invariant
                k <= candidates.len(),
                segments@.len() > 0,
                self.wf(),
                self.same_shape(&*old(self)),
                *self == *old(self),
                cs == self.symbol_index.constants@,
                views(candidates@) == tries,
                tries == qualified_tries(
                    name_view(old(env).namespace),
                    crate::text::join_seq(views(segments@), "::"@),
                ),
                forall|j: int|
                    0 <= j < k ==> crate::symbols::first_const(cs, crate::symbols::named_const(#[trigger] tries[j]))
                        is None,
            decreases candidates.len() - k,
        {
            assert(views(candidates@)[k as int] == candidates@[k as int]@);
            if let Some(i) = self.symbol_index.const_symbol(candidates[k].as_str()) {
                proof {
                    crate::symbols::lemma_first_const_some(
                        self.symbol_index.constants@,
                        crate::symbols::named_const(candidates@[k as int]@),
                    );
                    lemma_first_named_at(cs, tries, 0, k as int);
                }
                return self.evaluate_const_at(i, span, Ghost(node));
            }
            k = k + 1;
        }
        proof {
            lemma_first_named_none(cs, tries, 0);
        }
        if segments.len() >= 2 {
            let mut owner_segments: Vec<String> = Vec::new();
            let mut j: usize = 0;
            while j + 1 < segments.len()
                invariant
                    j + 1 <= segments.len(),
                    views(owner_segments@) == views(segments@).take(j as int),
                decreases segments.len() - j,
            {
                let ghost prev = owner_segments@;
                owner_segments.push(segments[j].clone());
                proof {
                    assert(views(owner_segments@) =~= views(prev).push(segments@[j as int]@));
                    assert(views(segments@).take(j + 1) =~= views(segments@).take(j as int).push(
                        views(segments@)[j as int],
                    ));
                }
                j = j + 1;
            }
            assert(views(segments@).take(j as int) =~= views(segments@).drop_last());
            let const_name = segments[segments.len() - 1].as_str();
            assert(const_name@ == views(segments@).last());
            let owner_joined = crate::text::join(&owner_segments, "::");
            let ghost otries = qualified_tries(name_view(env.namespace), owner_joined@);
            assert(owner_joined@ == crate::text::join_seq(views(segments@).drop_last(), "::"@));
            assert(*env == *old(env));
            let owners = self.qualified_candidates(&env.namespace, &owner_joined);
            let mut k: usize = 0;
            while k < owners.len()
                invariant
                    k <= owners.len(),
                    segments@.len() > 0,
                    self.wf(),
                    self.same_shape(&*old(self)),
                    *self == *old(self),
                    cs == self.symbol_index.constants@,
                    views(owners@) == otries,
                    segments@.len() >= 2,
                    const_name@ == views(segments@).last(),
                    first_named(cs, tries, 0) is None,
                    tries == qualified_tries(
                        name_view(old(env).namespace),
                        crate::text::join_seq(views(segments@), "::"@),
                    ),
                    otries == qualified_tries(
                        name_view(old(env).namespace),
                        crate::text::join_seq(views(segments@).drop_last(), "::"@),
                    ),
                    forall|j: int|
                        0 <= j < k ==> crate::symbols::first_const(
                            cs,
                            crate::symbols::owned_const(#[trigger] otries[j], const_name@),
                        ) is None,
                decreases owners.len() - k,
            {
                assert(views(owners@)[k as int] == owners@[k as int]@);
                if let Some(i) = self.symbol_index.type_const(owners[k].as_str(), const_name) {
                    proof {
                        crate::symbols::lemma_first_const_some(
                            self.symbol_index.constants@,
                            crate::symbols::owned_const(owners@[k as int]@, const_name@),
                        );
                        lemma_first_owned_at(cs, otries, const_name@, 0, k as int);
                    }
                    return self.evaluate_const_at(i, span, Ghost(node));
                }
                k = k + 1;
            }
            proof {
                lemma_first_owned_none(cs, otries, const_name@, 0);
            }
        }
        Err(error(cat3("path `", joined.as_str(), "` does not resolve to a constant"), span))
    }

    fn evaluate_assignment(
        &mut self,
        target: &ExprNode,
        op: crate::ast::AssignOp,
        value: &ExprNode,
        env: &mut EvalEnv,
        Ghost(node): Ghost<ExprNode>,
    ) -> (r: Result<ConstEvalResult, ConstEvalError>)
        requires
            old(self).wf(),
            decreases_to!(node => *value),
        ensures
            final(self).wf(),
            final(self).same_shape(&*old(self)),
            same_place(*final(env), *old(env)),
            kind_kept(final(env).locals, old(env).locals),
            !(target is Identifier) ==> (r matches Err(e) && e.message@
                == "compile-time function assignments must target local variables"@ && e.span
                == old(env).span && *final(env) == *old(env) && *final(self) == *old(self)),
            (op == crate::ast::AssignOp::NullCoalesceAssign && target is Identifier) ==> match env_resolve(
                *old(env),
                target->Identifier_0@,
            ) {
                None => r matches Err(e) && e.message@ == "identifier `"@ + target->Identifier_0@
                    + "` is not declared in this scope of compile-time function"@ && e.span == old(env).span
                    && *final(env) == *old(env) && *final(self) == *old(self),
                Some(c) => c != ConstModel::Null ==> (r matches Ok(v) && v.value@ == crate::values::normalised(c)
                    && *final(env) == *old(env) && *final(self) == *old(self)),
            },
        decreases 2 * old(self).rank() + 1, 0int, node, 0int,
    {
        let name = match target {
            ExprNode::Identifier(name) => name.as_str(),
            _ => {
                return Err(
                    error_text(
                        "compile-time function assignments must target local variables",
                        env.span,
                    ),
                );
            },
        };
        if op == crate::ast::AssignOp::NullCoalesceAssign {
            let current = match env.resolve_identifier(name) {
                Some(v) => v,
                None => {
                    return Err(
                        error(
                            cat3(
                                "identifier `",
                                name,
                                "` is not declared in this scope of compile-time function",
                            ),
                            env.span,
                        ),
                    );
                },
            };
            match current {
                ConstValue::Null => {},
                other => {
                    return Ok(ConstEvalResult::new(other));
                },
            }
            let rhs = self.evaluate_node(value, env)?;
            env.assign_identifier(name, rhs.value.duplicate())?;
            return Ok(ConstEvalResult::new(rhs.value));
        }
        let rhs = self.evaluate_node(value, env)?;
        let new_value = if op == crate::ast::AssignOp::Assign {
            rhs.value
        } else {
            let current = match env.resolve_identifier(name) {
                Some(v) => v,
                None => {
                    return Err(
                        error(
                            cat3(
                                "identifier `",
                                name,
                                "` is not declared in this scope of compile-time function",
                            ),
                            env.span,
                        ),
                    );
                },
            };
            let bin_op = match op {
                crate::ast::AssignOp::AddAssign => crate::ast::BinOp::Add,
                crate::ast::AssignOp::SubAssign => crate::ast::BinOp::Sub,
                crate::ast::AssignOp::MulAssign => crate::ast::BinOp::Mul,
                crate::ast::AssignOp::DivAssign => crate::ast::BinOp::Div,
                crate::ast::AssignOp::RemAssign => crate::ast::BinOp::Rem,
                crate::ast::AssignOp::BitAndAssign => crate::ast::BinOp::BitAnd,
                crate::ast::AssignOp::BitOrAssign => crate::ast::BinOp::BitOr,
                crate::ast::AssignOp::BitXorAssign => crate::ast::BinOp::BitXor,
                crate::ast::AssignOp::ShlAssign => crate::ast::BinOp::Shl,
                _ => crate::ast::BinOp::Shr,
            };
            evaluate_binary(bin_op, ConstEvalResult::new(current), rhs, env.span)?.value
        };
        env.assign_identifier(name, new_value.duplicate())?;
        Ok(ConstEvalResult::new(new_value))
    }

    /// Evaluates a call: the arguments first, then a `reflect<T>()` or decimal intrinsic, else
    /// the one eligible compile-time function, answered from the function memo when it holds the
    /// same function with the same argument values.
    pub fn evaluate_call(
        &mut self,
        callee: &ExprNode,
        generics: Option<&Vec<String>>,
        args: &Vec<CallArgument>,
        env: &mut EvalEnv,
    ) -> (r: Result<ConstEvalResult, ConstEvalError>)
        requires
            old(self).wf(),
        ensures
            final(self).wf(),
            final(self).same_shape(&*old(self)),
            same_place(*final(env), *old(env)),
            kind_kept(final(env).locals, old(env).locals),
            crate::diagnostics::path_segments(*callee) is None ==> (r matches Err(e) && e.message@
                == crate::diagnostics::not_a_path_message() && e.span == old(env).span),
            crate::diagnostics::path_segments(*callee) matches Some(segs) ==> (call_args_outcome(
                *args,
                args@.len(),
                env_lookup(*old(env)),
            ) matches Some(ao) ==> (call_pure(*old(self), *old(env), segs, ao) ==> within(
                *old(self),
                *final(self),
                call_steps(*old(self), *old(env), segs, *args, ao),
            ) && (enough_fuel(*old(self), call_steps(*old(self), *old(env), segs, *args, ao)) ==> !(
            r matches Err(e) && fuel_error(*old(self), *final(self), e)))) && ((r matches Err(e) && fuel_error(*old(self), *final(self), e)) || call_result(
                r,
                *old(self),
                *final(self),
                *old(env),
                segs,
                generics,
                ao,
            ))),
        decreases 2 * old(self).rank() + 1, 0int, *args, 0int,
    {
        let segments = match expr_path_segments(callee) {
            Ok(s) => s,
            Err(message) => {
                return Err(error(message, env.span));
            },
        };
        let mut evaluated: Vec<(Option<String>, ConstEvalResult)> = Vec::new();
        let ghost look = env_lookup(*old(env));
        let ghost pure = call_args_outcome(*args, args@.len(), look) is Some;
        proof {
            crate::eval::lemma_spent_refl(*self);
        }
        assert(evaluated@.map_values(|a: (Option<String>, ConstEvalResult)| arg_model(a)) =~= Seq::<
            (Option<Seq<char>>, ConstModel, Option<LiteralModel>),
        >::empty());
        let mut i: usize = 0;
        while i < args.len()
            invariant
                i <= args.len(),
                crate::diagnostics::path_segments(*callee) is Some,
                self.wf(),
                self.same_shape(&*old(self)),
                same_place(*env, *old(env)),
                kind_kept(env.locals, old(env).locals),
                look == env_lookup(*old(env)),
                pure == (call_args_outcome(*args, args@.len(), look) is Some),
                pure ==> within(*old(self), *self, args_steps(*args, i as nat)),
                pure ==> (spent(*old(self), *self) && *env == *old(env) && call_args_outcome(*args, i as nat, look)
                    == Some(Ok::<Seq<(Option<Seq<char>>, ConstModel, Option<LiteralModel>)>, Seq<char>>(
                    evaluated@.map_values(|a: (Option<String>, ConstEvalResult)| arg_model(a)),
                ))),
            decreases args.len() - i,
        {
            proof {
                assert(decreases_to!(*args => args@));
                assert(decreases_to!(args@ => args@[i as int]));
                assert(decreases_to!(args@[i as int] => args@[i as int].value));
                if pure {
                    lemma_call_args_prefix(*args, (i + 1) as nat, args@.len(), look);
                }
            }
            let ghost s0 = *self;
            proof {
                lemma_pure_outcome_wider(
                    args@[i as int].value,
                    env_lookup(*env),
                    names_lookup(self.symbol_index.constants@, crate::eval::const_cache_model(self.cache@), *env),
                );
            }
            let result = self.evaluate_node(&args[i].value, env);
            proof {
                if pure {
                    crate::eval::lemma_spent_trans(*old(self), s0, *self);
                    lemma_steps_grow(
                        arbitrary(),
                        *args,
                        Seq::empty(),
                        arbitrary(),
                        arbitrary(),
                        (i + 1) as nat,
                        args@.len(),
                    );
                    crate::eval::lemma_within_trans(
                        *old(self),
                        s0,
                        *self,
                        args_steps(*args, i as nat),
                        node_steps(args@[i as int].value),
                        args_steps(*args, (i + 1) as nat),
                    );
                }
            }
            let result = match result {
                Ok(v) => v,
                Err(e) => {
                    return Err(e);
                },
            };
            let name = match &args[i].name {
                Some(n) => Some(n.text.clone()),
                None => None,
            };
            let ghost prev = evaluated@;
            evaluated.push((name, result));
            proof {
                assert(evaluated@.map_values(|a: (Option<String>, ConstEvalResult)| arg_model(a)) =~= prev.map_values(
                    |a: (Option<String>, ConstEvalResult)| arg_model(a),
                ).push(arg_model(evaluated@.last())));
            }
            i = i + 1;
        }
        let ghost models = evaluated@.map_values(|a: (Option<String>, ConstEvalResult)| arg_model(a));
        proof {
            assert(crate::lookup::arg_names(evaluated@) =~= models.map_values(
                |a: (Option<Seq<char>>, ConstModel, Option<LiteralModel>)| a.0,
            ));
            assert(evaluated@.map_values(|a: (Option<String>, ConstEvalResult)| crate::labels::label(a.1.value@))
                =~= models.map_values(
                |a: (Option<Seq<char>>, ConstModel, Option<LiteralModel>)| crate::labels::label(a.1),
            ));
        }
        if let Some(value) = self.try_evaluate_reflect_intrinsic(&segments, generics, &evaluated, env)? {
            return Ok(ConstEvalResult::new(value));
        }
        if let Some(value) = self.try_evaluate_decimal_intrinsic(&segments, &evaluated, env.span)? {
            return Ok(ConstEvalResult::new(value));
        }
        let call_ns = opt_str(&env.namespace);
        let call_owner = opt_str(&env.owner);
        let symbol = self.resolve_const_function(
            call_ns,
            call_owner,
            &segments,
            &evaluated,
            env.span,
        )?;
        proof {
            crate::lookup::lemma_resolution_declared(
                self.symbol_index.functions@,
                crate::layout::opt_view(call_ns),
                crate::layout::opt_view(call_owner),
                views(segments@),
                crate::lookup::arg_names(evaluated@),
            );
        }
        let cache_key = self.const_fn_cache_key(&symbol, &evaluated);
        if let Some(result) = self.const_fn_cache_lookup(&cache_key) {
            self.record_fn_cache_hit();
            return Ok(result);
        }
        self.record_fn_cache_miss();
        proof {
            self.lemma_fn_entry(symbol.qualified@);
        }
        let ghost s_run = *self;
        let ghost sym = symbol;
        let ghost bsteps = body_steps(&*symbol);
        let result = self.execute_const_function(symbol, evaluated, env);
        proof {
            if pure && call_pure(*old(self), *old(env), views(segments@), Ok(models)) {
                assert(callee_of(*old(self), *old(env), views(segments@), models) == Ok::<
                    Rc<FunctionDeclSymbol>,
                    Seq<char>,
                >(sym));
                crate::eval::lemma_within_trans(
                    *old(self),
                    s_run,
                    *self,
                    args_steps(*args, args@.len()),
                    bsteps,
                    call_steps(*old(self), *old(env), views(segments@), *args, Ok(models)),
                );
            }
        }
        let result = result?;
        self.const_fn_cache_store(cache_key, result.duplicate());
        Ok(result)
    }

    /// Runs a compile-time function on evaluated arguments: checks it can run (see
    /// `call_precheck`), binds each argument to its parameter after converting it to the
    /// parameter's type, and evaluates the body.
    pub fn execute_const_function(
        &mut self,
        symbol: Rc<FunctionDeclSymbol>,
        args: Vec<(Option<String>, ConstEvalResult)>,
        caller_env: &mut EvalEnv,
    ) -> (r: Result<ConstEvalResult, ConstEvalError>)
        requires
            old(self).wf(),
        ensures
            final(self).wf(),
            final(self).same_shape(&*old(self)),
            *final(caller_env) == *old(caller_env),
            call_precheck(views(old(self).fn_stack@), *symbol, args@.len()) matches Some(m) ==> (
            r matches Err(e) && e.message@ == m && e.span == old(caller_env).span && *final(self)
                == *old(self)),
            call_precheck(views(old(self).fn_stack@), *symbol, args@.len()) is None ==> forall|k: int|
                0 <= k < args@.len() && (#[trigger] param_outcome(
                    symbol.qualified@,
                    symbol.function.signature.parameters@[k],
                    args@[k],
                    (old(self).type_layouts.pointer_size * 8) as u32,
                )) is Err && (forall|j: int|
                    0 <= j < k ==> param_outcome(
                        symbol.qualified@,
                        symbol.function.signature.parameters@[j],
                        args@[j],
                        (old(self).type_layouts.pointer_size * 8) as u32,
                    ) is Ok) ==> (r matches Err(e) && e.message@ == param_outcome(
                    symbol.qualified@,
                    symbol.function.signature.parameters@[k],
                    args@[k],
                    (old(self).type_layouts.pointer_size * 8) as u32,
                )->Err_0 && e.span == old(caller_env).span),
            execution_outcome(
                views(old(self).fn_stack@),
                *symbol,
                args@.map_values(|a: (Option<String>, ConstEvalResult)| arg_model(a)),
                (old(self).type_layouts.pointer_size * 8) as u32,
                old(caller_env).span,
            ) matches Some(x) ==> {
                &&& spent(*old(self), *final(self))
                &&& within(*old(self), *final(self), body_steps(&*symbol))
                &&& enough_fuel(*old(self), body_steps(&*symbol)) ==> !(r matches Err(e) && fuel_error(*old(self), *final(self), e))
                &&& (r matches Err(e) && fuel_error(*old(self), *final(self), e)) || result_is(r, x)
            },
        decreases old(self).fn_entry(symbol.qualified@), 5int, None::<ExprNode>, 0int,
    {
        proof {
            crate::eval::lemma_spent_refl(*self);
        }
        let q = symbol.qualified.as_str();
        let mut on_stack = false;
        let mut i: usize = 0;
        while i < self.fn_stack.len()
            invariant
                i <= self.fn_stack.len(),
                on_stack == exists|k: int| 0 <= k < i && views(self.fn_stack@)[k] == q@,
            decreases self.fn_stack.len() - i,
        {
            assert(views(self.fn_stack@)[i as int] == self.fn_stack@[i as int]@);
            if str_eq(self.fn_stack[i].as_str(), q) {
                on_stack = true;
            }
            i = i + 1;
        }
        let span = caller_env.span;
        if on_stack {
            return Err(error(cat3("cycle detected while evaluating compile-time function `", q, "`"), span));
        }
        let function = &symbol.function;
        if function.is_async {
            return Err(error(function_message(q, "` cannot be async"), span));
        }
        if function.is_extern {
            return Err(error(function_message(q, "` cannot be extern"), span));
        }
        if let Some(g) = &function.generics {
            if g.len() > 0 {
                return Err(error(function_message(q, "` cannot be generic"), span));
            }
        }
        let body = match &function.body {
            Some(b) => b,
            None => {
                return Err(error(function_message(q, "` requires a body"), span));
            },
        };
        let params = &function.signature.parameters;
        if params.len() != args.len() {
            let mut m = function_message(q, "` expects ");
            m.append(crate::text::u128_text(params.len() as u128).as_str());
            m.append(" arguments but received ");
            m.append(crate::text::u128_text(args.len() as u128).as_str());
            return Err(error(m, span));
        }
        let mut scope_params: Vec<(String, ConstValue)> = Vec::new();
        let mut index: usize = 0;
        while index < params.len()
            invariant
                index <= params.len(),
                params.len() == args.len(),
                call_precheck(views(old(self).fn_stack@), *symbol, args@.len()) is None,
                self.wf(),
                self.same_shape(&*old(self)),
                *caller_env == *old(caller_env),
                span == old(caller_env).span,
                q@ == symbol.qualified@,
                params@ == symbol.function.signature.parameters@,
                self.type_layouts.pointer_size == old(self).type_layouts.pointer_size,
                self.fn_stack == old(self).fn_stack,
                spent(*old(self), *self),
                within(*old(self), *self, 0),
                field_models(scope_params@) == bound_params(
                    symbol.qualified@,
                    params@,
                    args@.map_values(|a: (Option<String>, ConstEvalResult)| arg_model(a)),
                    (old(self).type_layouts.pointer_size * 8) as u32,
                ).take(index as int),
                forall|j: int|
                    0 <= j < index ==> (#[trigger] param_outcome(
                        symbol.qualified@,
                        params@[j],
                        args@[j],
                        (old(self).type_layouts.pointer_size * 8) as u32,
                    )) is Ok,
            decreases params.len() - index,
        {
            let param = &params[index];
            if param.binding == BindingModifier::Ref || param.binding == BindingModifier::Out {
                let mut m = function_message(q, "` parameter `");
                m.append(param.name.as_str());
                m.append("` cannot use `");
                m.append(if param.binding == BindingModifier::Ref { "ref" } else { "out" });
                m.append("` binding");
                assert(m@ =~= param_outcome(
                    symbol.qualified@,
                    params@[index as int],
                    args@[index as int],
                    (old(self).type_layouts.pointer_size * 8) as u32,
                )->Err_0);
                proof {
                    lemma_bound_prefix(
                    symbol.qualified@,
                    params@,
                    args@,
                    (old(self).type_layouts.pointer_size * 8) as u32,
                    index as nat,
                );
                }
                return Err(error(m, span));
            }
            if let Some(name) = &args[index].0 {
                if !crate::text::str_eq_ignore_ascii_case(name.as_str(), param.name.as_str()) {
                    let mut m = function_message(q, "` does not have parameter `");
                    m.append(name.as_str());
                    m.append("`");
                    assert(m@ =~= param_outcome(
                        symbol.qualified@,
                        params@[index as int],
                        args@[index as int],
                        (old(self).type_layouts.pointer_size * 8) as u32,
                    )->Err_0);
                    proof {
                        lemma_bound_prefix(
                    symbol.qualified@,
                    params@,
                    args@,
                    (old(self).type_layouts.pointer_size * 8) as u32,
                    index as nat,
                );
                    }
                    return Err(error(m, span));
                }
            }
            let ghost s0 = *self;
            self.ensure_ty_layout(&param.ty);
            proof {
                crate::lookup::lemma_grown_spent(s0, *self);
                crate::eval::lemma_spent_trans(*old(self), s0, *self);
                crate::eval::lemma_within_trans(*old(self), s0, *self, 0, 0, 0);
            }
            let bits = self.pointer_bits();
            let coerced = match convert_value_to_type(
                args[index].1.value.duplicate(),
                match &args[index].1.literal {
                    Some(l) => Some(l),
                    None => None,
                },
                &param.ty,
                bits,
                span,
            ) {
                Ok(v) => v,
                Err(e) => {
                    proof {
                        lemma_bound_prefix(
                    symbol.qualified@,
                    params@,
                    args@,
                    (old(self).type_layouts.pointer_size * 8) as u32,
                    index as nat,
                );
                    }
                    return Err(e.with_span_if_missing(span));
                },
            };
            let ghost prev = scope_params@;
            scope_params.push((param.name.clone(), coerced));
            proof {
                crate::values::lemma_field_models_push(prev, scope_params@.last());
                assert(scope_params@ == prev.push(scope_params@.last()));
                let bound = bound_params(
                    symbol.qualified@,
                    params@,
                    args@.map_values(|a: (Option<String>, ConstEvalResult)| arg_model(a)),
                    (old(self).type_layouts.pointer_size * 8) as u32,
                );
                assert(bound.take(index + 1) =~= bound.take(index as int).push(bound[index as int]));
            }
            index = index + 1;
        }
        proof {
            let bound = bound_params(
                symbol.qualified@,
                params@,
                args@.map_values(|a: (Option<String>, ConstEvalResult)| arg_model(a)),
                (old(self).type_layouts.pointer_size * 8) as u32,
            );
            assert(bound.take(params@.len() as int) =~= bound);
            lemma_bound_prefix(
                symbol.qualified@,
                params@,
                args@,
                (old(self).type_layouts.pointer_size * 8) as u32,
                params@.len(),
            );
        }
        let fn_namespace = match &symbol.namespace {
            Some(ns) => Some(ns.as_str()),
            None => opt_str(&caller_env.namespace),
        };
        let fn_owner = opt_str(&symbol.owner);
        let ghost before = *self;
        self.fn_stack.push(symbol.qualified.clone());
        assert(views(self.fn_stack@) =~= views(before.fn_stack@).push(q@));
        proof {
            if !fn_names(self.symbol_index.functions@).contains(q@) {
                crate::eval::lemma_absent_push_absent(
                    fn_names(self.symbol_index.functions@),
                    views(before.fn_stack@),
                    q@,
                );
            }
        }
        let ghost pushed = *self;
        let result = self.evaluate_pure_function_body(
            function,
            body,
            fn_namespace,
            fn_owner,
            &scope_params,
            span,
        );
        let ghost mid = self.fn_stack@;
        let ghost after_body = *self;
        proof {
            if block_outcome(
                body.statements,
                body.statements@.len(),
                seq![Seq::empty()],
                field_models(scope_params@),
                (pushed.type_layouts.pointer_size * 8) as u32,
            ) is Some {
                crate::eval::lemma_within_trans(
                    *old(self),
                    pushed,
                    after_body,
                    0,
                    block_steps(body.statements, body.statements@.len()),
                    block_steps(body.statements, body.statements@.len()),
                );
            }
        }
        let _ = self.fn_stack.pop();
        assert(self.fn_stack@ =~= mid.drop_last());
        assert(views(mid.drop_last()) =~= views(mid).drop_last());
        assert(views(self.fn_stack@) =~= views(before.fn_stack@));

        result
    }

    /// Runs a function body in a fresh frame and converts what it returns to the return type.
    pub fn evaluate_pure_function_body(
        &mut self,
        function: &FunctionDecl,
        body: &crate::ast::Block,
        namespace: Option<&str>,
        owner: Option<&str>,
        params: &Vec<(String, ConstValue)>,
        span: Option<Span>,
    ) -> (r: Result<ConstEvalResult, ConstEvalError>)
        requires
            old(self).wf(),
        ensures
            final(self).wf(),
            final(self).same_shape(&*old(self)),
            r matches Ok(v) ==> v.literal is None,
            body.statements@.len() == 0 ==> (r matches Err(e) && e.message@ == "compile-time function `"@
                + function.name@ + "` does not return a value"@ && e.span == span),
            block_outcome(
                body.statements,
                body.statements@.len(),
                seq![Seq::empty()],
                field_models(params@),
                (old(self).type_layouts.pointer_size * 8) as u32,
            ) matches Some(o) ==> {
                &&& spent(*old(self), *final(self))
                &&& within(*old(self), *final(self), block_steps(body.statements, body.statements@.len()))
                &&& enough_fuel(*old(self), block_steps(body.statements, body.statements@.len())) ==> !(r matches Err(e) && fuel_error(*old(self), *final(self), e))
                &&& (r matches Err(e) && fuel_error(*old(self), *final(self), e)) || result_is(
                    r,
                    function_result(
                        returned(o),
                        function.name@,
                        function.signature.return_type,
                        (old(self).type_layouts.pointer_size * 8) as u32,
                        span,
                    ),
                )
            },
        decreases 2 * old(self).rank() + 1, 4int, None::<ExprNode>, 0int,
    {
        let mut frame = FunctionFrame::new();
        frame.push_scope();
        assert(frame.view() =~= seq![Seq::<(Seq<char>, crate::environment::BindingModel)>::empty()]);
        let result = self.evaluate_block_statements(
            &body.statements,
            function,
            namespace,
            owner,
            params,
            &mut frame,
        )?;
        let ghost s1 = *self;
        frame.pop_scope();
        let value = match result {
            Some(v) => v,
            None => {
                return Err(
                    error(
                        cat3(
                            "compile-time function `",
                            function.name.as_str(),
                            "` does not return a value",
                        ),
                        span,
                    ),
                );
            },
        };
        self.ensure_ty_layout(&function.signature.return_type);
        proof {
            crate::lookup::lemma_grown_spent(s1, *self);
            if block_outcome(
                body.statements,
                body.statements@.len(),
                seq![Seq::empty()],
                field_models(params@),
                (old(self).type_layouts.pointer_size * 8) as u32,
            ) is Some {
                crate::eval::lemma_spent_trans(*old(self), s1, *self);
            }
        }
        let bits = self.pointer_bits();
        match convert_value_to_type(value, None, &function.signature.return_type, bits, span) {
            Ok(converted) => Ok(ConstEvalResult::new(converted)),
            Err(e) => Err(e.with_span_if_missing(span)),
        }
    }

    /// Runs statements in order until one returns a value.
    pub fn evaluate_block_statements(
        &mut self,
        statements: &Vec<Statement>,
        function: &FunctionDecl,
        namespace: Option<&str>,
        owner: Option<&str>,
        params: &Vec<(String, ConstValue)>,
        frame: &mut FunctionFrame,
    ) -> (r: Result<Option<ConstValue>, ConstEvalError>)
        requires
            old(self).wf(),
        ensures
            r is Ok ==> final(frame).view().len() == old(frame).view().len(),
            final(self).wf(),
            final(self).same_shape(&*old(self)),
            statements@.len() == 0 ==> r == Ok::<Option<ConstValue>, ConstEvalError>(None),
            block_outcome(
                *statements,
                statements@.len(),
                old(frame).view(),
                field_models(params@),
                (old(self).type_layouts.pointer_size * 8) as u32,
            ) matches Some(o) ==> {
                &&& (r matches Err(e) && fuel_error(*old(self), *final(self), e)) || stmt_result(r, final(frame).view(), o)
                &&& spent(*old(self), *final(self))
                &&& within(*old(self), *final(self), block_steps(*statements, statements@.len()))
                &&& enough_fuel(*old(self), block_steps(*statements, statements@.len())) ==> !(r matches Err(e) && fuel_error(*old(self), *final(self), e))
            },
        decreases 2 * old(self).rank() + 1, 3int, *statements, 1int,
    {
        let ghost pv = field_models(params@);
        let ghost bits0 = (old(self).type_layouts.pointer_size * 8) as u32;
        let ghost pure = block_outcome(
            *statements,
            statements@.len(),
            old(frame).view(),
            pv,
            bits0,
        ) is Some;
        proof {
            crate::eval::lemma_spent_refl(*self);
        }
        let mut i: usize = 0;
        while i < statements.len()
            invariant
                i <= statements.len(),
                self.wf(),
                self.same_shape(&*old(self)),
                frame.view().len() == old(frame).view().len(),
                pv == field_models(params@),
                bits0 == (old(self).type_layouts.pointer_size * 8) as u32,
                pure == (block_outcome(
                    *statements,
                    statements@.len(),
                    old(frame).view(),
                    pv,
                    bits0,
                ) is Some),
                pure ==> within(*old(self), *self, block_steps(*statements, i as nat)),
                pure ==> (spent(*old(self), *self) && block_outcome(
                    *statements,
                    i as nat,
                    old(frame).view(),
                    pv,
                    bits0,
                ) == Some(
                    Ok::<(Option<ConstModel>, Seq<crate::environment::ScopeModel>), (Seq<char>, Option<Span>)>(
                        (None, frame.view()),
                    ),
                )),
            decreases statements.len() - i,
        {
            proof {
                assert(decreases_to!(*statements => statements@));
                assert(decreases_to!(statements@ => statements@[i as int]));
                if pure {
                    lemma_block_outcome_prefix(*statements, (i + 1) as nat, statements@.len(), old(frame).view(), pv, bits0);
                }
            }
            let ghost s0 = *self;
            let step = self.evaluate_statement(&statements[i], function, namespace, owner, params, frame);
            proof {
                if pure {
                    crate::eval::lemma_spent_trans(*old(self), s0, *self);
                    lemma_steps_grow(
                        *statements,
                        arbitrary(),
                        arbitrary(),
                        arbitrary(),
                        arbitrary(),
                        (i + 1) as nat,
                        statements@.len(),
                    );
                    crate::eval::lemma_within_trans(
                        *old(self),
                        s0,
                        *self,
                        block_steps(*statements, i as nat),
                        stmt_steps(statements@[i as int]),
                        block_steps(*statements, (i + 1) as nat),
                    );
                }
            }
            match step {
                Err(e) => {
                    return Err(e);
                },
                Ok(Some(result)) => {
                    return Ok(Some(result));
                },
                Ok(None) => {},
            }
            i = i + 1;
        }
        Ok(None)
    }

    /// Runs one statement; `Some` when it returns a value.
    pub fn evaluate_statement(
        &mut self,
        statement: &Statement,
        function: &FunctionDecl,
        namespace: Option<&str>,
        owner: Option<&str>,
        params: &Vec<(String, ConstValue)>,
        frame: &mut FunctionFrame,
    ) -> (r: Result<Option<ConstValue>, ConstEvalError>)
        requires
            old(self).wf(),
        ensures
            r is Ok ==> final(frame).view().len() == old(frame).view().len(),
            final(self).wf(),
            final(self).same_shape(&*old(self)),
            statement.kind is Empty ==> r == Ok::<Option<ConstValue>, ConstEvalError>(None),
            statement.kind == (StatementKind::Return { expression: None }) ==> r == Ok::<
                Option<ConstValue>,
                ConstEvalError,
            >(Some(ConstValue::Unit)),
            statement.kind is Return ==> (r matches Ok(x) ==> x is Some),
            (statement.kind is ConstDeclaration || statement.kind is VariableDeclaration
                || statement.kind is Expression) ==> (r matches Ok(x) ==> x is None),
            match statement.kind {
                StatementKind::ConstDeclaration(_) | StatementKind::VariableDeclaration(_)
                | StatementKind::Expression(_) | StatementKind::Return { .. }
                | StatementKind::Block(_) | StatementKind::Empty | StatementKind::If(_) => true,
                other => r matches Err(e) && e.message@ == "`"@ + crate::diagnostics::kind_name(
                    other,
                ) + "` statements are not supported in compile-time function evaluation"@
                    && e.span == statement.span && *final(self) == *old(self) && *final(frame) == *old(frame),
            },
            stmt_outcome(
                *statement,
                old(frame).view(),
                field_models(params@),
                (old(self).type_layouts.pointer_size * 8) as u32,
            ) matches Some(o) ==> {
                &&& (r matches Err(e) && fuel_error(*old(self), *final(self), e)) || stmt_result(r, final(frame).view(), o)
                &&& spent(*old(self), *final(self))
                &&& within(*old(self), *final(self), stmt_steps(*statement))
                &&& enough_fuel(*old(self), stmt_steps(*statement)) ==> !(r matches Err(e) && fuel_error(*old(self), *final(self), e))
            },
        decreases 2 * old(self).rank() + 1, 3int, *statement, 0int,
    {
        proof {
            crate::eval::lemma_spent_refl(*self);
        }
        match &statement.kind {
            StatementKind::Block(block) => {
                proof {
                    assert(decreases_to!(*statement => statement.kind));
                    assert(decreases_to!(statement.kind => *block));
                    assert(decreases_to!(*block => block.statements));
                }
                frame.push_scope();
                let result = self.evaluate_block_statements(
                    &block.statements,
                    function,
                    namespace,
                    owner,
                    params,
                    frame,
                )?;
                frame.pop_scope();
                Ok(result)
            },
            StatementKind::Empty => Ok(None),
            StatementKind::ConstDeclaration(const_stmt) => {
                self.evaluate_const_declaration(
                    const_stmt,
                    namespace,
                    owner,
                    params,
                    frame,
                    statement.span,
                )?;
                Ok(None)
            },
            StatementKind::VariableDeclaration(decl) => {
                self.evaluate_variable_declaration(
                    decl,
                    namespace,
                    owner,
                    params,
                    frame,
                    statement.span,
                )?;
                Ok(None)
            },
            StatementKind::Expression(expr) => {
                let _ = self.evaluate_expression_in_frame(
                    expr,
                    frame,
                    params,
                    namespace,
                    owner,
                    or_span(expr.span, statement.span),
                )?;
                Ok(None)
            },
            StatementKind::Return { expression } => {
                let value = match expression {
                    Some(expr) => self.evaluate_expression_in_frame(
                        expr,
                        frame,
                        params,
                        namespace,
                        owner,
                        or_span(expr.span, statement.span),
                    )?.value,
                    None => ConstValue::Unit,
                };
                Ok(Some(value))
            },
            StatementKind::If(if_stmt) => {
                let cond_span = or_span(if_stmt.condition.span, statement.span);
                let condition = self.evaluate_expression_in_frame(
                    &if_stmt.condition,
                    frame,
                    params,
                    namespace,
                    owner,
                    cond_span,
                )?.value;
                let ghost s1 = *self;
                let flag = match condition {
                    ConstValue::Bool(b) => b,
                    other => {
                        let mut m = owned("compile-time function condition expected `bool`, found ");
                        m.append(crate::debug::debug_value(&other).as_str());
                        return Err(error(m, cond_span));
                    },
                };
                proof {
                    assert(decreases_to!(*statement => statement.kind));
                    assert(decreases_to!(statement.kind => *if_stmt));
                    assert(decreases_to!(*if_stmt => *if_stmt.then_branch));
                }
                if flag {
                    frame.push_scope();
                    let result = self.evaluate_statement(
                        &if_stmt.then_branch,
                        function,
                        namespace,
                        owner,
                        params,
                        frame,
                    );
                    proof {
                        if stmt_outcome(
                            *statement,
                            old(frame).view(),
                            field_models(params@),
                            (old(self).type_layouts.pointer_size * 8) as u32,
                        ) is Some {
                            crate::eval::lemma_spent_trans(*old(self), s1, *self);
                            crate::eval::lemma_within_trans(
                                *old(self),
                                s1,
                                *self,
                                expr_steps(if_stmt.condition),
                                (stmt_steps(*statement) - expr_steps(if_stmt.condition)) as nat,
                                stmt_steps(*statement),
                            );
                        }
                    }
                    let result = result?;
                    frame.pop_scope();
                    Ok(result)
                } else if let Some(else_branch) = &if_stmt.else_branch {
                    proof {
                        assert(decreases_to!(*if_stmt => if_stmt.else_branch));
                        assert(decreases_to!(if_stmt.else_branch => **else_branch));
                    }
                    frame.push_scope();
                    let result = self.evaluate_statement(
                        else_branch,
                        function,
                        namespace,
                        owner,
                        params,
                        frame,
                    );
                    proof {
                        if stmt_outcome(
                            *statement,
                            old(frame).view(),
                            field_models(params@),
                            (old(self).type_layouts.pointer_size * 8) as u32,
                        ) is Some {
                            crate::eval::lemma_spent_trans(*old(self), s1, *self);
                            crate::eval::lemma_within_trans(
                                *old(self),
                                s1,
                                *self,
                                expr_steps(if_stmt.condition),
                                (stmt_steps(*statement) - expr_steps(if_stmt.condition)) as nat,
                                stmt_steps(*statement),
                            );
                        }
                    }
                    let result = result?;
                    frame.pop_scope();
                    Ok(result)
                } else {
                    Ok(None)
                }
            },
            other => {
                let mut m = owned("`");
                m.append(statement_kind_name(other));
                m.append("` statements are not supported in compile-time function evaluation");
                Err(error(m, statement.span))
            },
        }
    }

    /// Declares the constants of a `const` statement in the innermost scope, each converted to the
    /// declared type.
    pub fn evaluate_const_declaration(
        &mut self,
        const_stmt: &ConstStatement,
        namespace: Option<&str>,
        owner: Option<&str>,
        params: &Vec<(String, ConstValue)>,
        frame: &mut FunctionFrame,
        fallback_span: Option<Span>,
    ) -> (r: Result<(), ConstEvalError>)
        requires
            old(self).wf(),
        ensures
            final(frame).view().len() == old(frame).view().len(),
            const_stmt.declarators@.len() == 0 ==> (r is Ok && final(frame).view() == old(frame).view()),
            r is Ok ==> forall|k: int|
                0 <= k < const_stmt.declarators@.len() ==> declared_last(
                    final(frame).view(),
                    #[trigger] const_stmt.declarators@[k].name@,
                    false,
                ),
            final(self).wf(),
            final(self).same_shape(&*old(self)),
            (const_decls_outcome(
                *const_stmt,
                const_stmt.declarators@.len(),
                old(frame).view(),
                field_models(params@),
                (old(self).type_layouts.pointer_size * 8) as u32,
                fallback_span,
            ) matches Some(o) ==> {
                &&& (r matches Err(x) && fuel_error(*old(self), *final(self), x)) || match o {
                    Ok(v) => r is Ok && final(frame).view() == v,
                    Err(e) => r matches Err(x) && x.message@ == e.0 && x.span == e.1,
                }
                &&& spent(*old(self), *final(self))
                &&& within(*old(self), *final(self), const_decl_steps(*const_stmt, const_stmt.declarators@.len()))
                &&& enough_fuel(*old(self), const_decl_steps(*const_stmt, const_stmt.declarators@.len())) ==> !(r matches Err(e) && fuel_error(*old(self), *final(self), e))
            }),
        decreases 2 * old(self).rank() + 1, 2int, None::<ExprNode>, 0int,
    {
        let ty = &const_stmt.ty;
        self.ensure_ty_layout(ty);
        proof {
            crate::lookup::lemma_grown_spent(*old(self), *self);
        }
        let ghost pv = field_models(params@);
        let ghost bits0 = (old(self).type_layouts.pointer_size * 8) as u32;
        let ghost pure = const_decls_outcome(
            *const_stmt,
            const_stmt.declarators@.len(),
            old(frame).view(),
            pv,
            bits0,
            fallback_span,
        ) is Some;
        let mut i: usize = 0;
        while i < const_stmt.declarators.len()
            invariant
                i <= const_stmt.declarators.len(),
                self.wf(),
                self.same_shape(&*old(self)),
                frame.view().len() == old(frame).view().len(),
                i == 0 ==> frame.view() == old(frame).view(),
                forall|k: int|
                    0 <= k < i ==> declared_last(frame.view(), #[trigger] const_stmt.declarators@[k].name@, false),
                *ty == const_stmt.ty,
                pv == field_models(params@),
                bits0 == (old(self).type_layouts.pointer_size * 8) as u32,
                pure == (const_decls_outcome(
                    *const_stmt,
                    const_stmt.declarators@.len(),
                    old(frame).view(),
                    pv,
                    bits0,
                    fallback_span,
                ) is Some),
                pure ==> within(*old(self), *self, const_decl_steps(*const_stmt, i as nat)),
                pure ==> (spent(*old(self), *self) && const_decls_outcome(
                    *const_stmt,
                    i as nat,
                    old(frame).view(),
                    pv,
                    bits0,
                    fallback_span,
                ) == Some(Ok::<Seq<crate::environment::ScopeModel>, (Seq<char>, Option<Span>)>(frame.view()))),
            decreases const_stmt.declarators.len() - i,
        {
            proof {
                if pure {
                    lemma_const_decls_prefix(
                        *const_stmt,
                        (i + 1) as nat,
                        const_stmt.declarators@.len(),
                        old(frame).view(),
                        pv,
                        bits0,
                        fallback_span,
                    );
                }
            }
            let declarator = &const_stmt.declarators[i];
            let span = or_span(or_span(declarator.initializer.span, declarator.span), fallback_span);
            let ghost before = frame.view();
            let ghost s0 = *self;
            let result = self.evaluate_expression_in_frame(
                &declarator.initializer,
                frame,
                params,
                namespace,
                owner,
                span,
            );
            proof {
                if pure {
                    crate::eval::lemma_spent_trans(*old(self), s0, *self);
                    lemma_steps_grow(
                        arbitrary(),
                        arbitrary(),
                        arbitrary(),
                        *const_stmt,
                        arbitrary(),
                        (i + 1) as nat,
                        const_stmt.declarators@.len(),
                    );
                    crate::eval::lemma_within_trans(
                        *old(self),
                        s0,
                        *self,
                        const_decl_steps(*const_stmt, i as nat),
                        expr_steps(declarator.initializer),
                        const_decl_steps(*const_stmt, (i + 1) as nat),
                    );
                }
            }
            let result = match result {
                Ok(v) => v,
                Err(e) => {
                    return Err(e);
                },
            };
            let bits = self.pointer_bits();
            let lit = match &result.literal {
                Some(l) => Some(l),
                None => None,
            };
            assert(crate::ops::lit_model(lit) == literal_model(result.literal));
            let converted = match convert_value_to_type(result.value, lit, ty, bits, span) {
                Ok(v) => v,
                Err(e) => {
                    return Err(e.with_span_if_missing(span));
                },
            };
            let ghost pre = frame.view();
            let ghost cv = converted@;
            proof {
                assert forall|k: int| 0 <= k < i implies declared_last(
                    pre,
                    #[trigger] const_stmt.declarators@[k].name@,
                    false,
                ) by {
                    lemma_declared_kept(before, pre, const_stmt.declarators@[k].name@, false);
                }
            }
            match frame.declare(declarator.name.as_str(), converted, false, span) {
                Ok(()) => {},
                Err(e) => {
                    return Err(e);
                },
            }
            proof {
                lemma_declare_declares(
                    pre,
                    declarator.name@,
                    crate::environment::BindingModel { value: cv, mutable: false, span },
                );
            }
            i = i + 1;
        }
        Ok(())
    }

    /// Declares the variables of a `let` or `var` statement in the innermost scope, converted to
    /// the declared type when there is one.
    #[verifier::rlimit(40)]
    #[verifier::spinoff_prover]
    pub fn evaluate_variable_declaration(
        &mut self,
        decl: &VariableDeclaration,
        namespace: Option<&str>,
        owner: Option<&str>,
        params: &Vec<(String, ConstValue)>,
        frame: &mut FunctionFrame,
        fallback_span: Option<Span>,
    ) -> (r: Result<(), ConstEvalError>)
        requires
            old(self).wf(),
        ensures
            final(frame).view().len() == old(frame).view().len(),
            decl.declarators@.len() == 0 ==> (r is Ok && final(frame).view() == old(frame).view()),
            decl.declarators@.len() > 0 && decl.declarators@[0].initializer is None ==> (r matches Err(e)
                && e.message@ == "variable `"@ + decl.declarators@[0].name@
                + "` in compile-time function requires an initializer"@ && e.span == fallback_span
                && final(frame).view() == old(frame).view()),
            r is Ok ==> forall|k: int|
                0 <= k < decl.declarators@.len() ==> declared_last(
                    final(frame).view(),
                    #[trigger] decl.declarators@[k].name@,
                    decl.modifier == VariableModifier::Var,
                ),
            final(self).wf(),
            final(self).same_shape(&*old(self)),
            (var_decls_outcome(
                *decl,
                decl.declarators@.len(),
                old(frame).view(),
                field_models(params@),
                (old(self).type_layouts.pointer_size * 8) as u32,
                fallback_span,
            ) matches Some(o) ==> {
                &&& (r matches Err(x) && fuel_error(*old(self), *final(self), x)) || match o {
                    Ok(v) => r is Ok && final(frame).view() == v,
                    Err(e) => r matches Err(x) && x.message@ == e.0 && x.span == e.1,
                }
                &&& spent(*old(self), *final(self))
                &&& within(*old(self), *final(self), var_decl_steps(*decl, decl.declarators@.len()))
                &&& enough_fuel(*old(self), var_decl_steps(*decl, decl.declarators@.len())) ==> !(r matches Err(e) && fuel_error(*old(self), *final(self), e))
            }),
        decreases 2 * old(self).rank() + 1, 2int, None::<ExprNode>, 0int,
    {
        let mutable = decl.modifier == VariableModifier::Var;
        if let Some(ty) = &decl.type_annotation {
            self.ensure_ty_layout(ty);
            proof {
                crate::lookup::lemma_grown_spent(*old(self), *self);
            }
        } else {
            proof {
                crate::eval::lemma_spent_refl(*self);
            }
        }
        let ghost pv = field_models(params@);
        let ghost bits0 = (old(self).type_layouts.pointer_size * 8) as u32;
        let ghost pure = var_decls_outcome(
            *decl,
            decl.declarators@.len(),
            old(frame).view(),
            pv,
            bits0,
            fallback_span,
        ) is Some;
        let mut i: usize = 0;
        while i < decl.declarators.len()
            invariant
                i <= decl.declarators.len(),
                self.wf(),
                self.same_shape(&*old(self)),
                frame.view().len() == old(frame).view().len(),
                mutable == (decl.modifier == VariableModifier::Var),
                i == 0 ==> frame.view() == old(frame).view(),
                i > 0 ==> decl.declarators@[0].initializer is Some,
                forall|k: int|
                    0 <= k < i ==> declared_last(frame.view(), #[trigger] decl.declarators@[k].name@, mutable),
                pv == field_models(params@),
                bits0 == (old(self).type_layouts.pointer_size * 8) as u32,
                pure == (var_decls_outcome(
                    *decl,
                    decl.declarators@.len(),
                    old(frame).view(),
                    pv,
                    bits0,
                    fallback_span,
                ) is Some),
                pure ==> within(*old(self), *self, var_decl_steps(*decl, i as nat)),
                pure ==> (spent(*old(self), *self) && var_decls_outcome(
                    *decl,
                    i as nat,
                    old(frame).view(),
                    pv,
                    bits0,
                    fallback_span,
                ) == Some(Ok::<Seq<crate::environment::ScopeModel>, (Seq<char>, Option<Span>)>(frame.view()))),
            decreases decl.declarators.len() - i,
        {
            proof {
                if pure {
                    lemma_var_decls_prefix(
                        *decl,
                        (i + 1) as nat,
                        decl.declarators@.len(),
                        old(frame).view(),
                        pv,
                        bits0,
                        fallback_span,
                    );
                }
            }
            let declarator = &decl.declarators[i];
            let initializer = match &declarator.initializer {
                Some(init) => init,
                None => {
                    proof {
                        lemma_steps_grow(
                            arbitrary(),
                            arbitrary(),
                            arbitrary(),
                            arbitrary(),
                            *decl,
                            i as nat,
                            decl.declarators@.len(),
                        );
                    }
                    return Err(
                        error(
                            cat3(
                                "variable `",
                                declarator.name.as_str(),
                                "` in compile-time function requires an initializer",
                            ),
                            fallback_span,
                        ),
                    );
                },
            };
            let span = or_span(initializer.span, fallback_span);
            let ghost before = frame.view();
            let ghost s0 = *self;
            let result = self.evaluate_expression_in_frame(initializer, frame, params, namespace, owner, span);
            proof {
                if pure {
                    crate::eval::lemma_spent_trans(*old(self), s0, *self);
                    lemma_steps_grow(
                        arbitrary(),
                        arbitrary(),
                        arbitrary(),
                        arbitrary(),
                        *decl,
                        (i + 1) as nat,
                        decl.declarators@.len(),
                    );
                    crate::eval::lemma_within_trans(
                        *old(self),
                        s0,
                        *self,
                        var_decl_steps(*decl, i as nat),
                        expr_steps(*initializer),
                        var_decl_steps(*decl, (i + 1) as nat),
                    );
                }
            }
            let result = match result {
                Ok(v) => v,
                Err(e) => {
                    return Err(e);
                },
            };
            let ghost rv = result.value@;
            let ghost rl = literal_model(result.literal);
            let value = match &decl.type_annotation {
                Some(ty) => {
                    let bits = self.pointer_bits();
                    let lit = match &result.literal {
                        Some(l) => Some(l),
                        None => None,
                    };
                    assert(crate::ops::lit_model(lit) == rl);
                    match convert_value_to_type(result.value, lit, ty, bits, span) {
                        Ok(v) => ConstEvalResult::with_literal(v, None).value,
                        Err(e) => {
                            return Err(e.with_span_if_missing(span));
                        },
                    }
                },
                None => result.value,
            };
            let ghost pre = frame.view();
            let ghost vv = value@;
            proof {
                assert forall|k: int| 0 <= k < i implies declared_last(
                    pre,
                    #[trigger] decl.declarators@[k].name@,
                    mutable,
                ) by {
                    lemma_declared_kept(before, pre, decl.declarators@[k].name@, mutable);
                }
            }
            match frame.declare(declarator.name.as_str(), value, mutable, span) {
                Ok(()) => {},
                Err(e) => {
                    return Err(e);
                },
            }
            proof {
                lemma_declare_declares(
                    pre,
                    declarator.name@,
                    crate::environment::BindingModel { value: vv, mutable, span },
                );
            }
            i = i + 1;
        }
        Ok(())
    }

    /// Evaluates an expression inside a function body, with its parameters and the frame's locals.
    pub fn evaluate_expression_in_frame(
        &mut self,
        expr: &Expression,
        frame: &mut FunctionFrame,
        params: &Vec<(String, ConstValue)>,
        namespace: Option<&str>,
        owner: Option<&str>,
        span: Option<Span>,
    ) -> (r: Result<ConstEvalResult, ConstEvalError>)
        requires
            old(self).wf(),
        ensures
            same_bindings(old(frame).view(), final(frame).view()),
            final(self).wf(),
            final(self).same_shape(&*old(self)),
            expr.node is None ==> (r matches Err(e) && e.message@
                == "expression is not a valid compile-time value"@ && e.span == or_span_spec(
                expr.span,
                span,
            ) && *final(self) == *old(self) && *final(frame) == *old(frame)),
            expr.node matches Some(n) ==> (pure_outcome(
                n,
                frame_lookup_fn(*old(frame), field_models(params@)),
            ) is Some ==> {
                &&& spent(*old(self), *final(self))
                &&& within(*old(self), *final(self), node_steps(n))
                &&& enough_fuel(*old(self), node_steps(n)) ==> !(r matches Err(e) && fuel_error(*old(self), *final(self), e))
                &&& *final(frame) == *old(frame)
                &&& (r matches Err(e) && fuel_error(*old(self), *final(self), e)) || pure_result(
                    r,
                    pure_outcome(n, frame_lookup_fn(*old(frame), field_models(params@)))->0,
                    pure_literal(n),
                    or_span_spec(expr.span, span),
                )
            }),
        decreases 2 * old(self).rank() + 1, 1int, None::<ExprNode>, 0int,
    {
        let node = match &expr.node {
            Some(n) => n,
            None => {
                return Err(
                    error_text("expression is not a valid compile-time value", or_span(expr.span, span)),
                );
            },
        };
        let mut f = FunctionFrame::new();
        std::mem::swap(&mut f, frame);
        let mut env = EvalEnv {
            namespace: opt_owned(namespace),
            owner: opt_owned(owner),
            span: or_span(expr.span, span),
            params: Some(duplicate_fields(params)),
            locals: LocalScope::Frame(f),
        };
        assert(env_lookup(env) =~= frame_lookup_fn(*old(frame), field_models(params@)));
        proof {
            lemma_pure_outcome_wider(
                *node,
                env_lookup(env),
                names_lookup(self.symbol_index.constants@, crate::eval::const_cache_model(self.cache@), env),
            );
        }
        let r = self.evaluate_node(node, &mut env);
        match env.locals {
            LocalScope::Frame(g) => {
                *frame = g;
            },
            _ => {},
        }
        r
    }
}

impl ConstEvalContext {
    /// Evaluates every declared constant that is not yet cached, then hands over the errors met
    /// and the counters (with the number of memoised expressions and calls).
    pub fn evaluate_all(&mut self) -> (r: crate::cache::ConstEvalSummary)
        requires
            old(self).wf(),
        ensures
            (ConstEvalContext { errors: r.errors, ..*final(self) }).wf(),
            (ConstEvalContext { errors: r.errors, ..*final(self) }).same_shape(&*old(self)),
            r.metrics.fuel_limit == old(self).config().fuel_limit,
            r.errors@.len() == 0 ==> forall|q: Seq<char>|
                const_names(old(self).symbol_index.constants@).contains(q) ==> exists|v: ConstModel|
                    #[trigger] crate::eval::holds_value(final(self).symbol_index.constants@, q, v),
            forall|q: Seq<char>|
                const_names(old(self).symbol_index.constants@).contains(q)
                    ==> #[trigger] crate::eval::const_cache_lookup(
                    crate::eval::const_cache_model(final(self).cache@),
                    q,
                ) is Some,
            r.metrics == final(self).metrics,
            r.metrics.cache_entries == if final(self).expression_cache@.len() + final(self).fn_cache.view().len()
                <= usize::MAX {
                (final(self).expression_cache@.len() + final(self).fn_cache.view().len()) as usize
            } else {
                usize::MAX
            },
            final(self).errors@.len() == 0,
            (forall|q: Seq<char>|
                const_names(old(self).symbol_index.constants@).contains(q) ==> #[trigger] crate::eval::const_cache_lookup(
                    crate::eval::const_cache_model(old(self).cache@),
                    q,
                ) is Some) ==> r.errors@ == old(self).errors@,
    {
        let names = self.symbol_index.constant_names();
        let ghost all = const_names(self.symbol_index.constants@);
        let ghost cached = forall|q: Seq<char>|
            const_names(old(self).symbol_index.constants@).contains(q) ==> #[trigger] crate::eval::const_cache_lookup(
                crate::eval::const_cache_model(old(self).cache@),
                q,
            ) is Some;
        let mut i: usize = 0;
        while i < names.len()
            invariant
                i <= names.len(),
                views(names@) == all,
                all == const_names(old(self).symbol_index.constants@),
                self.wf(),
                self.same_shape(&*old(self)),
                cached == (forall|q: Seq<char>|
                    const_names(old(self).symbol_index.constants@).contains(q) ==> #[trigger] crate::eval::const_cache_lookup(
                        crate::eval::const_cache_model(old(self).cache@),
                        q,
                    ) is Some),
                cached ==> *self == *old(self),
                forall|k: int|
                    0 <= k < i ==> crate::eval::const_cache_lookup(
                        crate::eval::const_cache_model(self.cache@),
                        #[trigger] all[k],
                    ) is Some,
            decreases names.len() - i,
        {
            assert(views(names@)[i as int] == names@[i as int]@);
            proof {
                if cached {
                    assert(all.contains(all[i as int]));
                }
            }
            if self.const_cache_get(names[i].as_str()).is_none() {
                let _ = self.evaluate_const(names[i].as_str(), None);
            }
            i = i + 1;
        }
        let memo = self.expression_cache.len();
        let calls = self.fn_cache.len();
        self.metrics.cache_entries = if memo <= usize::MAX - calls {
            memo + calls
        } else {
            usize::MAX
        };
        let ghost m = crate::eval::const_cache_model(self.cache@);
        let ghost had_errors = self.errors@.len() > 0;
        proof {
            assert forall|q: Seq<char>| #[trigger] crate::eval::entry_sound(m, q, had_errors, self.symbol_index.constants@) by {
                crate::eval::lemma_cache_sound_lookup(m, had_errors, self.symbol_index.constants@, q);
            }
        }
        let mut errors: Vec<crate::values::ConstEvalError> = Vec::new();
        std::mem::swap(&mut errors, &mut self.errors);
        proof {
            if errors@.len() == 0 {
                assert forall|q: Seq<char>| const_names(old(self).symbol_index.constants@).contains(q) implies exists|
                    v: ConstModel,
                | #[trigger] crate::eval::holds_value(self.symbol_index.constants@, q, v) by {
                    let k = choose|k: int| 0 <= k < all.len() && all[k] == q;
                    assert(crate::eval::entry_sound(m, q, had_errors, self.symbol_index.constants@));
                    let c = crate::eval::const_cache_lookup(m, q)->0->0;
                    assert(crate::eval::holds_value(self.symbol_index.constants@, q, c.value));
                }
            }
        }
        assert forall|q: Seq<char>| const_names(old(self).symbol_index.constants@).contains(q) implies #[trigger] crate::eval::const_cache_lookup(
            crate::eval::const_cache_model(self.cache@),
            q,
        ) is Some by {
            let k = choose|k: int| 0 <= k < all.len() && all[k] == q;
        }
        crate::cache::ConstEvalSummary { errors, metrics: self.metrics }
    }
}

impl ConstEvalContext {
    /// Evaluates a quote literal to its `Std::Meta::Quote` value (see `quote_model`); each
    /// interpolation is evaluated and must give a quote.
    pub fn evaluate_quote_literal(&mut self, literal: &QuoteLiteral, env: &mut EvalEnv) -> (r: Result<
        ConstEvalResult,
        ConstEvalError,
    >)
        requires
            old(self).wf(),
        ensures
            final(self).wf(),
            final(self).same_shape(&*old(self)),
            same_place(*final(env), *old(env)),
            kind_kept(final(env).locals, old(env).locals),
            r matches Ok(v) ==> is_quote_literal_value(v.value@, *literal, old(env).span),
            literal.interpolations@.len() == 0 ==> r is Ok,
            interpolations_outcome(
                literal.interpolations@,
                literal.interpolations@.len(),
                env_lookup(*old(env)),
                old(env).span,
            ) matches Some(o) ==> within(
                *old(self),
                *final(self),
                interpolation_steps(literal.interpolations@, literal.interpolations@.len()),
            ) && (enough_fuel(*old(self), interpolation_steps(literal.interpolations@, literal.interpolations@.len()))
                ==> !(r matches Err(x) && fuel_error(*old(self), *final(self), x))) && ((r matches Err(x) && fuel_error(*old(self), *final(self), x)) || match o {
                Ok(_) => r is Ok,
                Err(e) => r matches Err(x) && x.message@ == e.0 && x.span == e.1,
            }),
        decreases 2 * old(self).rank() + 1, 0int, *literal, 1int,
    {
        let span_value = self.build_quote_span_value(literal.content_span, env.span);
        let hygiene_value = self.build_quote_hygiene_value(literal, env.span);
        let interpolation_list = self.build_quote_interpolations(literal, env)?;
        let ghost items = choose|items: Seq<ConstModel>|
            #![trigger descriptor_list("Std::Meta::QuoteInterpolation"@, items)]
            interpolation_list@ == descriptor_list("Std::Meta::QuoteInterpolation"@, items)
                && interpolations_fit(items, literal.interpolations@, env.span);
        let captures = self.build_quote_capture_list(&literal.expression);
        let capture_list = reflect_string_list(&captures);
        let root = self.build_quote_node_value(&literal.expression);
        let value = make_quote_value(literal, span_value, hygiene_value, capture_list, interpolation_list, root);
        proof {
            let m = quote_model(*literal, env.span, items, views(captures@), root@);
            assert(views(captures@).map_values(|c: Seq<char>| ConstModel::RawStr(c)) =~= views(
                captures@,
            ).map_values(|s: Seq<char>| ConstModel::RawStr(s)));
            assert(m->fields =~= value@->fields);
            assert(value@ == m);
        }
        Ok(ConstEvalResult::new(value))
    }

    /// Evaluates the interpolations of a quote literal to their `Std::Meta::QuoteInterpolation`
    /// list; an interpolation that does not evaluate to a quote is an error.
    pub fn build_quote_interpolations(&mut self, literal: &QuoteLiteral, env: &mut EvalEnv) -> (r:
        Result<ConstValue, ConstEvalError>)
        requires
            old(self).wf(),
        ensures
            final(self).wf(),
            final(self).same_shape(&*old(self)),
            same_place(*final(env), *old(env)),
            kind_kept(final(env).locals, old(env).locals),
            r matches Ok(v) ==> exists|items: Seq<ConstModel>|
                #![trigger descriptor_list("Std::Meta::QuoteInterpolation"@, items)]
                v@ == descriptor_list("Std::Meta::QuoteInterpolation"@, items) && interpolations_fit(
                    items,
                    literal.interpolations@,
                    old(env).span,
                ),
            literal.interpolations@.len() == 0 ==> r is Ok,
            interpolations_outcome(
                literal.interpolations@,
                literal.interpolations@.len(),
                env_lookup(*old(env)),
                old(env).span,
            ) matches Some(o) ==> within(
                *old(self),
                *final(self),
                interpolation_steps(literal.interpolations@, literal.interpolations@.len()),
            ) && (enough_fuel(*old(self), interpolation_steps(literal.interpolations@, literal.interpolations@.len()))
                ==> !(r matches Err(x) && fuel_error(*old(self), *final(self), x))) && ((r matches Err(x) && fuel_error(*old(self), *final(self), x)) || match o {
                Ok(_) => r is Ok,
                Err(e) => r matches Err(x) && x.message@ == e.0 && x.span == e.1,
            }),
        decreases 2 * old(self).rank() + 1, 0int, *literal, 0int,
    {
        let mut values: Vec<ConstValue> = Vec::new();
        proof {
            crate::eval::lemma_spent_refl(*self);
        }
        let ghost look = env_lookup(*old(env));
        let ghost pure = interpolations_outcome(
            literal.interpolations@,
            literal.interpolations@.len(),
            look,
            old(env).span,
        ) is Some;
        let mut i: usize = 0;
        while i < literal.interpolations.len()
            invariant
                i <= literal.interpolations.len(),
                self.wf(),
                self.same_shape(&*old(self)),
                same_place(*env, *old(env)),
                kind_kept(env.locals, old(env).locals),
                look == env_lookup(*old(env)),
                pure == (interpolations_outcome(
                    literal.interpolations@,
                    literal.interpolations@.len(),
                    look,
                    old(env).span,
                ) is Some),
                pure ==> within(*old(self), *self, interpolation_steps(literal.interpolations@, i as nat)),
                pure ==> (spent(*old(self), *self) && *env == *old(env) && interpolations_outcome(
                    literal.interpolations@,
                    i as nat,
                    look,
                    old(env).span,
                ) == Some(Ok::<(), (Seq<char>, Option<Span>)>(()))),
                interpolations_fit(
                    models(values@),
                    literal.interpolations@.subrange(0, i as int),
                    old(env).span,
                ),
            decreases literal.interpolations.len() - i,
        {
            proof {
                assert(decreases_to!(*literal => literal.interpolations));
                assert(decreases_to!(literal.interpolations => literal.interpolations@));
                assert(decreases_to!(literal.interpolations@ => literal.interpolations@[i as int]));
                assert(decreases_to!(literal.interpolations@[i as int] => literal.interpolations@[i as int].expression));
            }
            proof {
                if pure {
                    lemma_interpolations_prefix(
                        literal.interpolations@,
                        (i + 1) as nat,
                        literal.interpolations@.len(),
                        look,
                        old(env).span,
                    );
                }
            }
            let interpolation = &literal.interpolations[i];
            let ghost s0 = *self;
            proof {
                lemma_pure_outcome_wider(
                    interpolation.expression,
                    env_lookup(*env),
                    names_lookup(self.symbol_index.constants@, crate::eval::const_cache_model(self.cache@), *env),
                );
            }
            let result = self.evaluate_node(&interpolation.expression, env);
            proof {
                if pure {
                    crate::eval::lemma_spent_trans(*old(self), s0, *self);
                    lemma_steps_grow(
                        arbitrary(),
                        arbitrary(),
                        literal.interpolations@,
                        arbitrary(),
                        arbitrary(),
                        (i + 1) as nat,
                        literal.interpolations@.len(),
                    );
                    crate::eval::lemma_within_trans(
                        *old(self),
                        s0,
                        *self,
                        interpolation_steps(literal.interpolations@, i as nat),
                        node_steps(literal.interpolations@[i as int].expression),
                        interpolation_steps(literal.interpolations@, (i + 1) as nat),
                    );
                }
            }
            let result = match result {
                Ok(v) => v,
                Err(e) => {
                    return Err(e);
                },
            };
            if !self.is_quote_value(&result.value) {
                let span = or_span(self.quote_span_to_span(interpolation.span, env.span), env.span);
                return Err(
                    error(
                        cat3(
                            "quote interpolation `",
                            interpolation.placeholder.as_str(),
                            "` must evaluate to `Std.Meta.Quote`",
                        ),
                        span,
                    ),
                );
            }
            let span_value = self.build_quote_span_value(interpolation.span, env.span);
            let ghost qm = result.value@;
            let item = make_interpolation(&interpolation.placeholder, result.value, span_value);
            let ghost prev = values@;
            values.push(item);
            proof {
                assert(models(values@) =~= models(prev).push(item@));
                let done = literal.interpolations@.subrange(0, i + 1);
                assert(done =~= literal.interpolations@.subrange(0, i as int).push(literal.interpolations@[i as int]));
                assert(item@->fields[1].1 == qm);
                assert(interpolation_fits(item@, literal.interpolations@[i as int], old(env).span));
                assert forall|j: int| 0 <= j < models(values@).len() implies interpolation_fits(
                    #[trigger] models(values@)[j],
                    done[j],
                    old(env).span,
                ) by {
                    if j < i {
                        assert(models(values@)[j] == models(prev)[j]);
                    }
                }
            }
            i = i + 1;
        }
        assert(literal.interpolations@.subrange(0, literal.interpolations@.len() as int) =~= literal.interpolations@);
        Ok(reflect_descriptor_list("Std::Meta::QuoteInterpolation", values))
    }
}

} // verus!
