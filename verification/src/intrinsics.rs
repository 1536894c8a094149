use vstd::prelude::*;

use crate::environment::EvalEnv;
use crate::eval::ConstEvalContext;
use crate::layout::opt_view;
use crate::reflection::{first_reflection, found_key, opt_text, reflect_found_type, reflect_outcome};
use crate::lookup::{colons_to_dots, replace_colons};
use crate::text::{cat3, chars_of, nat_text, owned, str_eq, string_of, u128_text, views};
use crate::types::{Ty, canonical, canonical_name, parse_type_text, trim, trim_text, type_denoted, type_text_valid};
use crate::values::{ConstEvalError, ConstEvalResult, ConstModel, ConstValue, Span, error, error_text, field_models, lemma_struct_model};

verus! {

/// The operation of a decimal intrinsic.
#[derive(Clone, Copy, Debug, PartialEq, Eq, Structural)]
pub enum DecimalIntrinsicKind {
    Add,
    Sub,
    Mul,
    Div,
    Rem,
    Fma,
}

/// Where a decimal intrinsic takes its rounding mode from.
#[derive(Clone, Copy, Debug, PartialEq, Eq, Structural)]
pub enum DecimalRoundingSource {
    DefaultTiesToEven,
    Argument(usize),
}

/// Where a decimal intrinsic takes its vectorisation hint from.
#[derive(Clone, Copy, Debug, PartialEq, Eq, Structural)]
pub enum DecimalVectorizeSource {
    DefaultNone,
    ForceDecimal,
    Argument(usize),
}

/// The shape of a decimal intrinsic: its operation, how many decimal operands it takes, and
/// where its rounding mode and vectorisation hint come from.
#[derive(Clone, Copy, Debug, PartialEq, Eq, Structural)]
pub struct DecimalIntrinsicDescriptor {
    pub kind: DecimalIntrinsicKind,
    pub decimal_args: usize,
    pub rounding: DecimalRoundingSource,
    pub vectorize: DecimalVectorizeSource,
}

/// The number of arguments a decimal intrinsic expects.
pub open spec fn expected_args(d: DecimalIntrinsicDescriptor) -> int {
    d.decimal_args + (if d.rounding is Argument {
        1int
    } else {
        0int
    }) + (if d.vectorize is Argument {
        1int
    } else {
        0int
    })
}

impl DecimalIntrinsicDescriptor {
    /// The decimal operands, plus one for a rounding argument and one for a vectorisation argument.
    pub fn expected_arg_count(self) -> (r: usize)
        requires
            self.decimal_args <= 3,
        ensures
            r == expected_args(self),
    {
        let mut count = self.decimal_args;
        if let DecimalRoundingSource::Argument(_) = self.rounding {
            count = count + 1;
        }
        if let DecimalVectorizeSource::Argument(_) = self.vectorize {
            count = count + 1;
        }
        count
    }
}

/// The operation a method name starts with (all are three letters long).
pub open spec fn decimal_op(name: Seq<char>) -> Option<DecimalIntrinsicKind> {
    if name == "Add"@ {
        Some(DecimalIntrinsicKind::Add)
    } else if name == "Sub"@ {
        Some(DecimalIntrinsicKind::Sub)
    } else if name == "Mul"@ {
        Some(DecimalIntrinsicKind::Mul)
    } else if name == "Div"@ {
        Some(DecimalIntrinsicKind::Div)
    } else if name == "Rem"@ {
        Some(DecimalIntrinsicKind::Rem)
    } else if name == "Fma"@ {
        Some(DecimalIntrinsicKind::Fma)
    } else {
        None
    }
}

/// The descriptor of a decimal intrinsic method: an operation followed by nothing (defaults),
/// `WithOptions` (rounding and vectorisation arguments after the operands), `Vectorized`
/// (decimal vectorisation) or `VectorizedWithRounding` (the same, with a rounding argument).
/// `Fma` takes three operands, the others two.
pub open spec fn decimal_descriptor(method: Seq<char>) -> Option<DecimalIntrinsicDescriptor> {
    if method.len() < 3 {
        None
    } else {
        match decimal_op(method.subrange(0, 3)) {
            None => None,
            Some(kind) => {
                let n: usize = if kind == DecimalIntrinsicKind::Fma {
                    3
                } else {
                    2
                };
                let suffix = method.subrange(3, method.len() as int);
                if suffix == ""@ {
                    Some(
                        DecimalIntrinsicDescriptor {
                            kind,
                            decimal_args: n,
                            rounding: DecimalRoundingSource::DefaultTiesToEven,
                            vectorize: DecimalVectorizeSource::DefaultNone,
                        },
                    )
                } else if suffix == "WithOptions"@ {
                    Some(
                        DecimalIntrinsicDescriptor {
                            kind,
                            decimal_args: n,
                            rounding: DecimalRoundingSource::Argument(n),
                            vectorize: DecimalVectorizeSource::Argument((n + 1) as usize),
                        },
                    )
                } else if suffix == "Vectorized"@ {
                    Some(
                        DecimalIntrinsicDescriptor {
                            kind,
                            decimal_args: n,
                            rounding: DecimalRoundingSource::DefaultTiesToEven,
                            vectorize: DecimalVectorizeSource::ForceDecimal,
                        },
                    )
                } else if suffix == "VectorizedWithRounding"@ {
                    Some(
                        DecimalIntrinsicDescriptor {
                            kind,
                            decimal_args: n,
                            rounding: DecimalRoundingSource::Argument(n),
                            vectorize: DecimalVectorizeSource::ForceDecimal,
                        },
                    )
                } else {
                    None
                }
            },
        }
    }
}

fn prefix_text(v: &Vec<char>, from: usize, to: usize) -> (r: String)
    requires
        from <= to <= v.len(),
    ensures
        r@ == v@.subrange(from as int, to as int),
{
    let mut out: Vec<char> = Vec::new();
    let mut i = from;
    while i < to
        invariant
            from <= i <= to <= v.len(),
            out@ == v@.subrange(from as int, i as int),
        decreases to - i,
    {
        out.push(v[i]);
        i = i + 1;
        assert(out@ =~= v@.subrange(from as int, i as int));
    }
    string_of(&out)
}

/// The descriptor of a decimal intrinsic method (see `decimal_descriptor`).
pub fn decimal_intrinsic_descriptor(method: &str) -> (r: Option<DecimalIntrinsicDescriptor>)
    ensures
        r == decimal_descriptor(method@),
{
    let v = chars_of(method);
    if v.len() < 3 {
        return None;
    }
    let head = prefix_text(&v, 0, 3);
    let tail = prefix_text(&v, 3, v.len());
    let h = head.as_str();
    let kind = if str_eq(h, "Add") {
        DecimalIntrinsicKind::Add
    } else if str_eq(h, "Sub") {
        DecimalIntrinsicKind::Sub
    } else if str_eq(h, "Mul") {
        DecimalIntrinsicKind::Mul
    } else if str_eq(h, "Div") {
        DecimalIntrinsicKind::Div
    } else if str_eq(h, "Rem") {
        DecimalIntrinsicKind::Rem
    } else if str_eq(h, "Fma") {
        DecimalIntrinsicKind::Fma
    } else {
        return None;
    };
    let n: usize = if kind == DecimalIntrinsicKind::Fma {
        3
    } else {
        2
    };
    let t = tail.as_str();
    if str_eq(t, "") {
        Some(
            DecimalIntrinsicDescriptor {
                kind,
                decimal_args: n,
                rounding: DecimalRoundingSource::DefaultTiesToEven,
                vectorize: DecimalVectorizeSource::DefaultNone,
            },
        )
    } else if str_eq(t, "WithOptions") {
        Some(
            DecimalIntrinsicDescriptor {
                kind,
                decimal_args: n,
                rounding: DecimalRoundingSource::Argument(n),
                vectorize: DecimalVectorizeSource::Argument(n + 1),
            },
        )
    } else if str_eq(t, "Vectorized") {
        Some(
            DecimalIntrinsicDescriptor {
                kind,
                decimal_args: n,
                rounding: DecimalRoundingSource::DefaultTiesToEven,
                vectorize: DecimalVectorizeSource::ForceDecimal,
            },
        )
    } else if str_eq(t, "VectorizedWithRounding") {
        Some(
            DecimalIntrinsicDescriptor {
                kind,
                decimal_args: n,
                rounding: DecimalRoundingSource::Argument(n),
                vectorize: DecimalVectorizeSource::ForceDecimal,
            },
        )
    } else {
        None
    }
}

/// Whether a path names `Std::Numeric::Decimal::Intrinsics::<method>` (possibly with more segments).
pub open spec fn is_decimal_path(segs: Seq<Seq<char>>) -> bool {
    segs.len() >= 5 && segs[0] == "Std"@ && segs[1] == "Numeric"@ && segs[2] == "Decimal"@
        && segs[3] == "Intrinsics"@
}

/// What a call of a decimal intrinsic gives: nothing for other paths; otherwise an error, since
/// decimal arithmetic is not available to this evaluator once the method and the argument count
/// are checked.
pub open spec fn decimal_call_outcome(segs: Seq<Seq<char>>, nargs: nat) -> Option<Seq<char>> {
    if !is_decimal_path(segs) {
        None
    } else {
        match decimal_descriptor(segs[4]) {
            None => Some("unsupported decimal intrinsic `"@ + segs[4] + "`"@),
            Some(d) => if nargs != expected_args(d) {
                Some(
                    "`Std::Numeric::Decimal::Intrinsics::"@ + segs[4] + "` expects "@ + nat_text(
                        expected_args(d) as nat,
                    ) + " arguments but received "@ + nat_text(nargs) + ""@,
                )
            } else {
                Some(
                    "decimal intrinsic `"@ + segs[4]
                        + "` cannot be evaluated: decimal arithmetic is not supported"@,
                )
            },
        }
    }
}

/// Whether a path names the `reflect<T>()` intrinsic.
pub open spec fn is_reflect_path(segs: Seq<Seq<char>>) -> bool {
    (segs.len() == 1 && segs[0] == "reflect"@) || (segs.len() == 3 && segs[0] == "Std"@ && segs[1]
        == "Meta"@ && segs[2] == "reflect"@) || (segs.len() == 4 && segs[0] == "Std"@ && segs[1]
        == "Meta"@ && segs[2] == "Reflection"@ && segs[3] == "reflect"@)
}

/// `name` up to its first `<`.
pub open spec fn before_generics(name: Seq<char>) -> Seq<char>
    decreases name.len(),
{
    if name.len() == 0 {
        name
    } else if name[0] == '<' {
        Seq::empty()
    } else {
        seq![name[0]] + before_generics(name.drop_first())
    }
}

/// `name` up to its first `<`.
pub fn strip_generics_text(name: &str) -> (r: String)
    ensures
        r@ == before_generics(name@),
{
    let v = chars_of(name);
    let mut i: usize = 0;
    assert(v@.subrange(0, 0) =~= Seq::<char>::empty());
    assert(v@.subrange(0, v.len() as int) =~= v@);
    while i < v.len() && v[i] != '<'
        invariant
            i <= v.len(),
            v@ == name@,
            before_generics(name@) == v@.subrange(0, i as int) + before_generics(
                v@.subrange(i as int, v.len() as int),
            ),
        decreases v.len() - i,
    {
        let ghost rest = v@.subrange(i as int, v.len() as int);
        assert(rest.drop_first() =~= v@.subrange(i + 1, v.len() as int));
        assert(v@.subrange(0, i + 1) =~= v@.subrange(0, i as int) + seq![v@[i as int]]);
        i = i + 1;
    }
    proof {
        if i < v.len() {
            assert(v@.subrange(i as int, v.len() as int)[0] == '<');
        } else {
            assert(v@.subrange(i as int, v.len() as int) =~= Seq::<char>::empty());
        }
    }
    prefix_text(&v, 0, i)
}

/// The list value that reflection uses for a sequence of descriptors of `element_type`: a chain
/// of `Std::Meta::DescriptorList<element_type>` cells (`IsEmpty`, `Head`, `Tail`) ending in an
/// empty cell.
pub open spec fn descriptor_list(element_type: Seq<char>, items: Seq<ConstModel>) -> ConstModel
    decreases items.len(),
{
    let list_type = "Std::Meta::DescriptorList<"@ + element_type + ">"@;
    if items.len() == 0 {
        ConstModel::Struct {
            type_path: list_type,
            fields: seq![
                ("IsEmpty"@, ConstModel::Bool(true)),
                ("Head"@, ConstModel::Unknown),
                ("Tail"@, ConstModel::Null),
            ],
        }
    } else {
        ConstModel::Struct {
            type_path: list_type,
            fields: seq![
                ("IsEmpty"@, ConstModel::Bool(false)),
                ("Head"@, items[0]),
                ("Tail"@, descriptor_list(element_type, items.drop_first())),
            ],
        }
    }
}

fn list_cell(list_type: &str, is_empty: bool, head: ConstValue, tail: ConstValue) -> (r: ConstValue)
    ensures
        r@ == (ConstModel::Struct {
            type_path: list_type@,
            fields: seq![
                ("IsEmpty"@, ConstModel::Bool(is_empty)),
                ("Head"@, head@),
                ("Tail"@, tail@),
            ],
        }),
{
    let mut fields: Vec<(String, ConstValue)> = Vec::new();
    let ghost hm = head@;
    let ghost tm = tail@;
    fields.push((owned("IsEmpty"), ConstValue::Bool(is_empty)));
    fields.push((owned("Head"), head));
    fields.push((owned("Tail"), tail));
    let r = ConstValue::Struct { type_path: owned(list_type), fields };
    proof {
        lemma_struct_model(r);
        assert(field_models(r->fields@) =~= seq![
            ("IsEmpty"@, ConstModel::Bool(is_empty)),
            ("Head"@, hm),
            ("Tail"@, tm),
        ]);
    }
    r
}

/// The models of a sequence of values.
pub open spec fn models(v: Seq<ConstValue>) -> Seq<ConstModel> {
    v.map_values(|x: ConstValue| x@)
}

/// Builds the descriptor list of `values` (see `descriptor_list`).
pub fn reflect_descriptor_list(element_type: &str, values: Vec<ConstValue>) -> (r: ConstValue)
    ensures
        r@ == descriptor_list(element_type@, models(values@)),
{
    let list_type = cat3("Std::Meta::DescriptorList<", element_type, ">");
    let ghost items = models(values@);
    let mut tail = list_cell(list_type.as_str(), true, ConstValue::Unknown, ConstValue::Null);
    let mut values = values;
    assert(items.subrange(items.len() as int, items.len() as int) =~= Seq::<ConstModel>::empty());
    while values.len() > 0
        invariant
            values@.len() <= items.len(),
            models(values@) == items.subrange(0, values@.len() as int),
            tail@ == descriptor_list(
                element_type@,
                items.subrange(values@.len() as int, items.len() as int),
            ),
            list_type@ == "Std::Meta::DescriptorList<"@ + element_type@ + ">"@,
        decreases values.len(),
    {
        let ghost n = values@.len();
        let value = values.pop().unwrap();
        assert(items[n - 1] == value@) by {
            assert(items.subrange(0, n as int)[n - 1] == value@);
        }
        assert(items.subrange(n - 1, items.len() as int).drop_first() =~= items.subrange(
            n as int,
            items.len() as int,
        ));
        tail = list_cell(list_type.as_str(), false, value, tail);
        assert(models(values@) =~= items.subrange(0, values@.len() as int));
    }
    assert(items.subrange(0, items.len() as int) =~= items);
    tail
}

/// Builds the descriptor list of a list of strings (each as a raw string).
pub fn reflect_string_list(values: &Vec<String>) -> (r: ConstValue)
    ensures
        r@ == descriptor_list(
            "string"@,
            views(values@).map_values(|s: Seq<char>| ConstModel::RawStr(s)),
        ),
{
    let mut items: Vec<ConstValue> = Vec::new();
    let mut i: usize = 0;
    while i < values.len()
        invariant
            i <= values.len(),
            models(items@) == views(values@).subrange(0, i as int).map_values(
                |s: Seq<char>| ConstModel::RawStr(s),
            ),
        decreases values.len() - i,
    {
        let ghost prev = items@;
        let item = ConstValue::RawStr(values[i].clone());
        assert(views(values@)[i as int] == values@[i as int]@);
        items.push(item);
        assert(models(items@) =~= models(prev).push(item@));
        assert(models(items@) =~= views(values@).subrange(0, i + 1).map_values(
            |s: Seq<char>| ConstModel::RawStr(s),
        ));
        i = i + 1;
    }
    assert(views(values@).subrange(0, values.len() as int) =~= views(values@));
    reflect_descriptor_list("string", items)
}

/// An enum value of the given type, variant and discriminant.
pub fn enum_const(type_path: &str, variant: &str, discriminant: i128) -> (r: ConstValue)
    ensures
        r@ == (ConstModel::Enum { type_path: type_path@, variant: variant@, discriminant }),
{
    ConstValue::Enum { type_path: owned(type_path), variant: owned(variant), discriminant }
}

impl ConstEvalContext {
    /// Recognises a call of a decimal intrinsic (see `decimal_call_outcome`).
    pub fn try_evaluate_decimal_intrinsic(
        &self,
        segments: &Vec<String>,
        args: &Vec<(Option<String>, ConstEvalResult)>,
        span: Option<Span>,
    ) -> (r: Result<Option<ConstValue>, ConstEvalError>)
        ensures
            match decimal_call_outcome(views(segments@), args@.len()) {
                None => r == Ok::<Option<ConstValue>, ConstEvalError>(None),
                Some(m) => r matches Err(e) && e.message@ == m && e.span == span,
            },
    {
        let ghost segs = views(segments@);
        if segments.len() < 5 {
            return Ok(None);
        }
        assert(segs[0] == segments@[0]@ && segs[1] == segments@[1]@ && segs[2] == segments@[2]@
            && segs[3] == segments@[3]@ && segs[4] == segments@[4]@);
        if !str_eq(segments[0].as_str(), "Std") || !str_eq(segments[1].as_str(), "Numeric")
            || !str_eq(segments[2].as_str(), "Decimal") || !str_eq(
            segments[3].as_str(),
            "Intrinsics",
        ) {
            return Ok(None);
        }
        let method = segments[4].as_str();
        let descriptor = match decimal_intrinsic_descriptor(method) {
            Some(d) => d,
            None => {
                return Err(error(cat3("unsupported decimal intrinsic `", method, "`"), span));
            },
        };
        let expected = descriptor.expected_arg_count();
        if args.len() != expected {
            let mut m = owned("`Std::Numeric::Decimal::Intrinsics::");
            m.append(method);
            m.append("` expects ");
            m.append(u128_text(expected as u128).as_str());
            m.append(" arguments but received ");
            m.append(u128_text(args.len() as u128).as_str());
            m.append("");
            return Err(error(m, span));
        }
        Err(
            error(
                cat3(
                    "decimal intrinsic `",
                    method,
                    "` cannot be evaluated: decimal arithmetic is not supported",
                ),
                span,
            ),
        )
    }

    /// Recognises a call of `reflect<T>()` and answers it with the reflection descriptor recorded
    /// for `T`.
    pub fn try_evaluate_reflect_intrinsic(
        &self,
        segments: &Vec<String>,
        generics: Option<&Vec<String>>,
        args: &Vec<(Option<String>, ConstEvalResult)>,
        env: &EvalEnv,
    ) -> (r: Result<Option<ConstValue>, ConstEvalError>)
        ensures
            !is_reflect_path(views(segments@)) ==> r == Ok::<Option<ConstValue>, ConstEvalError>(
                None,
            ),
            is_reflect_path(views(segments@)) ==> match generics {
                None => r matches Err(e) && e.message@
                    == "`reflect<T>()` requires a single type argument"@ && e.span == env.span,
                Some(g) => if g@.len() != 1 {
                    r matches Err(e) && e.message@
                        == "`reflect<T>()` expects exactly one type argument, found "@ + nat_text(
                        g@.len(),
                    ) && e.span == env.span
                } else if args@.len() > 0 {
                    r matches Err(e) && e.message@
                        == "`reflect<T>()` does not accept value arguments"@ && e.span == env.span
                } else if !type_text_valid(trim(g@[0]@)) {
                    r matches Err(e) && e.message@ == "`"@ + trim(g@[0]@)
                        + "` is not a valid type argument for `reflect<T>()`"@ && e.span
                        == env.span
                } else {
                    exists|ty: Ty|
                        #![trigger type_denoted(trim(g@[0]@), ty)]
                        type_denoted(trim(g@[0]@), ty) && if ty is Named {
                            match reflect_outcome(
                                self.symbol_index.reflections@,
                                self.type_layouts,
                                opt_text(env.namespace),
                                opt_text(env.owner),
                                canonical(ty),
                            ) {
                                Ok(m) => r matches Ok(Some(v)) && v@ == m,
                                Err(msg) => r matches Err(e) && e.message@ == msg && e.span == env.span,
                            }
                        } else {
                            r matches Err(e) && e.message@ == "`reflect<T>()` requires a named type; `"@
                                + trim(g@[0]@) + "` is not supported"@ && e.span == env.span
                        }
                },
            },
            r matches Err(e) ==> e.span == env.span,
    {
        let ghost segs = views(segments@);
        let is_reflect = if segments.len() == 1 {
            assert(segs[0] == segments@[0]@);
            str_eq(segments[0].as_str(), "reflect")
        } else if segments.len() == 3 {
            assert(segs[0] == segments@[0]@ && segs[1] == segments@[1]@ && segs[2]
                == segments@[2]@);
            str_eq(segments[0].as_str(), "Std") && str_eq(segments[1].as_str(), "Meta") && str_eq(
                segments[2].as_str(),
                "reflect",
            )
        } else if segments.len() == 4 {
            assert(segs[0] == segments@[0]@ && segs[1] == segments@[1]@ && segs[2]
                == segments@[2]@ && segs[3] == segments@[3]@);
            str_eq(segments[0].as_str(), "Std") && str_eq(segments[1].as_str(), "Meta") && str_eq(
                segments[2].as_str(),
                "Reflection",
            ) && str_eq(segments[3].as_str(), "reflect")
        } else {
            false
        };
        if !is_reflect {
            return Ok(None);
        }
        let type_arguments = match generics {
            Some(g) => g,
            None => {
                return Err(error_text("`reflect<T>()` requires a single type argument", env.span));
            },
        };
        if type_arguments.len() != 1 {
            let mut m = owned("`reflect<T>()` expects exactly one type argument, found ");
            m.append(u128_text(type_arguments.len() as u128).as_str());
            return Err(error(m, env.span));
        }
        if args.len() > 0 {
            return Err(error_text("`reflect<T>()` does not accept value arguments", env.span));
        }
        let type_text = trim_text(type_arguments[0].as_str());
        assert(is_reflect_path(segs));
        assert(generics == Some(type_arguments));
        assert(type_text@ == trim(type_arguments@[0]@));
        let ty = match parse_type_text(type_text.as_str()) {
            Some(t) => t,
            None => {
                assert(!type_text_valid(trim(type_arguments@[0]@)));
                return Err(
                    error(
                        cat3(
                            "`",
                            type_text.as_str(),
                            "` is not a valid type argument for `reflect<T>()`",
                        ),
                        env.span,
                    ),
                );
            },
        };
        let named = match &ty {
            Ty::Named { .. } => canonical_name(&ty),
            _ => {
                return Err(
                    error(
                        cat3(
                            "`reflect<T>()` requires a named type; `",
                            type_text.as_str(),
                            "` is not supported",
                        ),
                        env.span,
                    ),
                );
            },
        };
        let ns = match &env.namespace {
            Some(s) => Some(s.as_str()),
            None => None,
        };
        let owner = match &env.owner {
            Some(s) => Some(s.as_str()),
            None => None,
        };
        let canonical_path = match self.type_layouts.resolve_type_layout_name(
            ns,
            owner,
            named.as_str(),
        ) {
            Some(resolved) => resolved,
            None => named.clone(),
        };
        let ghost refl = self.symbol_index.reflections@;
        let ghost cp = canonical_path@;
        let mut descriptor = self.symbol_index.reflection_descriptor(canonical_path.as_str());
        if descriptor.is_none() {
            let alternate = replace_colons(canonical_path.as_str());
            if !str_eq(alternate.as_str(), canonical_path.as_str()) {
                descriptor = self.symbol_index.reflection_descriptor(alternate.as_str());
            }
        }
        if descriptor.is_none() {
            descriptor = self.symbol_index.reflection_descriptor(named.as_str());
        }
        if descriptor.is_none() {
            let base = strip_generics_text(canonical_path.as_str());
            if !str_eq(base.as_str(), canonical_path.as_str()) {
                descriptor = self.symbol_index.reflection_descriptor(base.as_str());
            }
        }
        proof {
            assert(ty is Named);
        }
        match descriptor {
            Some(d) => {
                assert(found_key(refl, cp, named@) is Some);
                assert(*d == refl[first_reflection(refl, found_key(refl, cp, named@)->0)].1);
                Ok(Some(reflect_found_type(d, canonical_path.as_str(), &self.type_layouts)))
            },
            None => {
                assert(found_key(refl, cp, named@) is None);
                let m = if self.type_layouts.contains_type(canonical_path.as_str()) {
                    cat3(
                        "`reflect<T>()` can only be used with public types; `",
                        canonical_path.as_str(),
                        "` is not exported",
                    )
                } else {
                    cat3(
                        "`reflect<T>()` could not find a descriptor for type `",
                        canonical_path.as_str(),
                        "`",
                    )
                };
                Err(error(m, env.span))
            },
        }
    }
}

} // verus!
