use vstd::prelude::*;

use crate::text::owned;

verus! {

/// A source span, as byte offsets.
#[derive(Clone, Copy, Debug, PartialEq, Eq, Structural)]
pub struct Span {
    pub start: usize,
    pub end: usize,
}

impl Span {
    pub fn new(start: usize, end: usize) -> (s: Span)
        ensures
            s.start == start,
            s.end == end,
    {
        Span { start, end }
    }
}

/// The first span that is present.
pub open spec fn span_or(a: Option<Span>, b: Option<Span>) -> Option<Span> {
    if a is Some {
        a
    } else {
        b
    }
}

/// `a` when it is present, else `b` (as `Option::or`).
pub fn or_span(a: Option<Span>, b: Option<Span>) -> (r: Option<Span>)
    ensures
        r == span_or(a, b),
{
    match a {
        Some(s) => Some(s),
        None => b,
    }
}

/// Metadata of a numeric literal that matters to diagnostics.
#[derive(Debug)]
pub struct NumericLiteralMetadata {
    /// Whether the literal was written with an explicit type suffix.
    pub explicit_suffix: bool,
    /// The suffix, as written.
    pub suffix: Option<String>,
}

/// The model of a literal's metadata.
pub struct LiteralModel {
    pub explicit_suffix: bool,
    pub suffix: Option<Seq<char>>,
}

impl View for NumericLiteralMetadata {
    type V = LiteralModel;

    open spec fn view(&self) -> LiteralModel {
        LiteralModel {
            explicit_suffix: self.explicit_suffix,
            suffix: match self.suffix {
                Some(s) => Some(s@),
                None => None,
            },
        }
    }
}

impl NumericLiteralMetadata {
    pub fn duplicate(&self) -> (r: Self)
        ensures
            r@ == self@,
    {
        NumericLiteralMetadata {
            explicit_suffix: self.explicit_suffix,
            suffix: match &self.suffix {
                Some(s) => Some(s.clone()),
                None => None,
            },
        }
    }
}

/// A compile-time constant value.
#[derive(Debug)]
pub enum ConstValue {
    Int(i128),
    Int32(i128),
    UInt(u128),
    Bool(bool),
    Char(u16),
    Str { id: u32, value: String },
    RawStr(String),
    Symbol(String),
    Enum { type_path: String, variant: String, discriminant: i128 },
    Struct { type_path: String, fields: Vec<(String, ConstValue)> },
    Null,
    Unit,
    Unknown,
}

/// The mathematical model of a constant value: strings are character sequences.
pub enum ConstModel {
    Int(i128),
    Int32(i128),
    UInt(u128),
    Bool(bool),
    Char(u16),
    Str { id: u32, value: Seq<char> },
    RawStr(Seq<char>),
    Symbol(Seq<char>),
    Enum { type_path: Seq<char>, variant: Seq<char>, discriminant: i128 },
    Struct { type_path: Seq<char>, fields: Seq<(Seq<char>, ConstModel)> },
    Null,
    Unit,
    Unknown,
}

/// The number of fields of a struct value, plus one; zero for other values.
pub open spec fn value_width(v: ConstValue) -> nat {
    match v {
        ConstValue::Struct { fields, .. } => fields@.len() + 1,
        _ => 0,
    }
}

/// The model of a value.
pub open spec fn value_model(v: ConstValue) -> ConstModel
    decreases v, value_width(v),
{
    match v {
        ConstValue::Int(x) => ConstModel::Int(x),
        ConstValue::Int32(x) => ConstModel::Int32(x),
        ConstValue::UInt(x) => ConstModel::UInt(x),
        ConstValue::Bool(b) => ConstModel::Bool(b),
        ConstValue::Char(c) => ConstModel::Char(c),
        ConstValue::Str { id, value } => ConstModel::Str { id, value: value@ },
        ConstValue::RawStr(s) => ConstModel::RawStr(s@),
        ConstValue::Symbol(s) => ConstModel::Symbol(s@),
        ConstValue::Enum { type_path, variant, discriminant } => ConstModel::Enum {
            type_path: type_path@,
            variant: variant@,
            discriminant,
        },
        ConstValue::Struct { type_path, fields } => ConstModel::Struct {
            type_path: type_path@,
            fields: fields_model(v, fields@.len()),
        },
        ConstValue::Null => ConstModel::Null,
        ConstValue::Unit => ConstModel::Unit,
        ConstValue::Unknown => ConstModel::Unknown,
    }
}

/// The models of the first `n` fields of the struct value `v`.
pub open spec fn fields_model(v: ConstValue, n: nat) -> Seq<(Seq<char>, ConstModel)>
    decreases v, n,
{
    match v {
        ConstValue::Struct { fields, .. } => {
            if n == 0 || n > fields@.len() {
                Seq::empty()
            } else {
                proof {
                    assert(decreases_to!(v => fields));
                    assert(decreases_to!(fields => fields@));
                    assert(decreases_to!(fields@ => fields@[n - 1]));
                    assert(decreases_to!(fields@[n - 1] => fields@[n - 1].1));
                }
                fields_model(v, (n - 1) as nat).push(
                    (fields@[n - 1].0@, value_model(fields@[n - 1].1)),
                )
            }
        },
        _ => Seq::empty(),
    }
}

impl View for ConstValue {
    type V = ConstModel;

    open spec fn view(&self) -> ConstModel {
        value_model(*self)
    }
}

/// The models of a vector of named fields.
pub open spec fn field_models(fields: Seq<(String, ConstValue)>) -> Seq<(Seq<char>, ConstModel)> {
    fields.map_values(|p: (String, ConstValue)| (p.0@, p.1@))
}

/// The models of fields after a push.
pub proof fn lemma_field_models_push(s: Seq<(String, ConstValue)>, x: (String, ConstValue))
    ensures
        field_models(s.push(x)) == field_models(s).push((x.0@, x.1@)),
{
    assert(field_models(s.push(x)) =~= field_models(s).push((x.0@, x.1@)));
}

proof fn lemma_fields_model_len(v: ConstValue, n: nat)
    ensures
        v is Struct && n <= v->fields@.len() ==> fields_model(v, n).len() == n,
    decreases n,
{
    if n > 0 {
        lemma_fields_model_len(v, (n - 1) as nat);
    }
}

/// The model of a struct value lists the models of its fields, in order.
pub proof fn lemma_struct_model(v: ConstValue)
    requires
        v is Struct,
    ensures
        v@ == (ConstModel::Struct {
            type_path: v->Struct_type_path@,
            fields: field_models(v->fields@),
        }),
{
    lemma_fields_model_prefix(v, v->fields@.len());
    assert(field_models(v->fields@).subrange(0, v->fields@.len() as int) =~= field_models(
        v->fields@,
    ));
}

proof fn lemma_fields_model_prefix(v: ConstValue, n: nat)
    requires
        v is Struct,
        n <= v->fields@.len(),
    ensures
        fields_model(v, n) == field_models(v->fields@).subrange(0, n as int),
    decreases n,
{
    if n > 0 {
        lemma_fields_model_prefix(v, (n - 1) as nat);
        assert(fields_model(v, n) =~= field_models(v->fields@).subrange(0, n as int));
    } else {
        assert(fields_model(v, n) =~= field_models(v->fields@).subrange(0, n as int));
    }
}

impl ConstValue {
    /// A copy of this value with the same model.
    pub fn duplicate(&self) -> (r: ConstValue)
        ensures
            r@ == self@,
        decreases self,
    {
        match self {
            ConstValue::Int(x) => ConstValue::Int(*x),
            ConstValue::Int32(x) => ConstValue::Int32(*x),
            ConstValue::UInt(x) => ConstValue::UInt(*x),
            ConstValue::Bool(b) => ConstValue::Bool(*b),
            ConstValue::Char(c) => ConstValue::Char(*c),
            ConstValue::Str { id, value } => ConstValue::Str { id: *id, value: value.clone() },
            ConstValue::RawStr(s) => ConstValue::RawStr(s.clone()),
            ConstValue::Symbol(s) => ConstValue::Symbol(s.clone()),
            ConstValue::Enum { type_path, variant, discriminant } => ConstValue::Enum {
                type_path: type_path.clone(),
                variant: variant.clone(),
                discriminant: *discriminant,
            },
            ConstValue::Struct { type_path, fields } => {
                let mut out: Vec<(String, ConstValue)> = Vec::new();
                let mut i: usize = 0;
                while i < fields.len()
                    invariant
                        i <= fields.len(),
                        *self is Struct,
                        self->fields == *fields,
                        field_models(out@) == field_models(fields@).subrange(0, i as int),
                    decreases fields.len() - i,
                {
                    proof {
                        assert(decreases_to!(*self => *fields));
                        assert(decreases_to!(*fields => fields@));
                        assert(decreases_to!(fields@ => fields@[i as int]));
                        assert(decreases_to!(fields@[i as int] => fields@[i as int].1));
                    }
                    let name = fields[i].0.clone();
                    let value = fields[i].1.duplicate();
                    let ghost prev = out@;
                    out.push((name, value));
                    proof {
                        lemma_field_models_push(prev, (name, value));
                    }
                    i = i + 1;
                    assert(field_models(out@) =~= field_models(fields@).subrange(0, i as int));
                }
                assert(field_models(fields@).subrange(0, fields@.len() as int) =~= field_models(
                    fields@,
                ));
                let r = ConstValue::Struct { type_path: type_path.clone(), fields: out };
                proof {
                    lemma_struct_model(*self);
                    lemma_struct_model(r);
                }
                r
            },
            ConstValue::Null => ConstValue::Null,
            ConstValue::Unit => ConstValue::Unit,
            ConstValue::Unknown => ConstValue::Unknown,
        }
    }
}

/// Copies a vector of named fields, keeping their models.
pub fn duplicate_fields(fields: &Vec<(String, ConstValue)>) -> (r: Vec<(String, ConstValue)>)
    ensures
        field_models(r@) == field_models(fields@),
{
    let mut out: Vec<(String, ConstValue)> = Vec::new();
    let mut i: usize = 0;
    while i < fields.len()
        invariant
            i <= fields.len(),
            field_models(out@) == field_models(fields@).subrange(0, i as int),
        decreases fields.len() - i,
    {
        let name = fields[i].0.clone();
        let value = fields[i].1.duplicate();
        let ghost prev = out@;
        out.push((name, value));
        proof {
            lemma_field_models_push(prev, (name, value));
        }
        i = i + 1;
        assert(field_models(out@) =~= field_models(fields@).subrange(0, i as int));
    }
    assert(field_models(fields@).subrange(0, fields@.len() as int) =~= field_models(fields@));
    out
}

/// The model of an evaluation result.
pub struct ResultModel {
    pub value: ConstModel,
    pub literal: Option<LiteralModel>,
}

/// A constant value together with the literal it was written as, when known.
#[derive(Debug)]
pub struct ConstEvalResult {
    pub value: ConstValue,
    pub literal: Option<NumericLiteralMetadata>,
}

/// The model of an optional literal.
pub open spec fn literal_model(l: Option<NumericLiteralMetadata>) -> Option<LiteralModel> {
    match l {
        Some(m) => Some(m@),
        None => None,
    }
}

impl View for ConstEvalResult {
    type V = ResultModel;

    open spec fn view(&self) -> ResultModel {
        ResultModel { value: self.value@, literal: literal_model(self.literal) }
    }
}

/// `Int32` values are stored as `Int`; every other value is kept.
pub open spec fn normalised(v: ConstModel) -> ConstModel {
    match v {
        ConstModel::Int32(x) => ConstModel::Int(x),
        other => other,
    }
}

impl ConstEvalResult {
    fn normalise(value: ConstValue) -> (r: ConstValue)
        ensures
            r@ == normalised(value@),
    {
        match value {
            ConstValue::Int32(v) => ConstValue::Int(v),
            other => other,
        }
    }

    /// A result with a normalised value and no literal metadata.
    pub fn new(value: ConstValue) -> (r: ConstEvalResult)
        ensures
            r.value@ == normalised(value@),
            r.literal is None,
    {
        ConstEvalResult { value: Self::normalise(value), literal: None }
    }

    /// A result with a normalised value and the given literal metadata.
    pub fn with_literal(value: ConstValue, literal: Option<NumericLiteralMetadata>) -> (r:
        ConstEvalResult)
        ensures
            r.value@ == normalised(value@),
            r.literal == literal,
    {
        ConstEvalResult { value: Self::normalise(value), literal }
    }

    pub fn duplicate(&self) -> (r: ConstEvalResult)
        ensures
            r@ == self@,
    {
        ConstEvalResult {
            value: self.value.duplicate(),
            literal: match &self.literal {
                Some(m) => Some(m.duplicate()),
                None => None,
            },
        }
    }
}

/// An error raised while evaluating a constant.
#[derive(Debug)]
pub struct ConstEvalError {
    pub message: String,
    pub span: Option<Span>,
}

impl ConstEvalError {
    /// Keeps the error's span, or takes `span` when the error has none.
    pub fn with_span_if_missing(self, span: Option<Span>) -> (r: ConstEvalError)
        ensures
            r.message == self.message,
            r.span == span_or(self.span, span),
    {
        let mut e = self;
        if e.span.is_none() {
            e.span = span;
        }
        e
    }

    pub fn duplicate(&self) -> (r: ConstEvalError)
        ensures
            r.message@ == self.message@,
            r.span == self.span,
    {
        ConstEvalError { message: self.message.clone(), span: self.span }
    }
}

/// An error with the given message and span.
pub fn error(message: String, span: Option<Span>) -> (e: ConstEvalError)
    ensures
        e.message@ == message@,
        e.span == span,
{
    ConstEvalError { message, span }
}

/// An error whose message is the literal text `message`.
pub fn error_text(message: &str, span: Option<Span>) -> (e: ConstEvalError)
    ensures
        e.message@ == message@,
        e.span == span,
{
    ConstEvalError { message: owned(message), span }
}

} // verus!
