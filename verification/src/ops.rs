use vstd::prelude::*;

use crate::ast::{BinOp, UnOp};
use crate::debug::{debug_text, debug_value};
use crate::text::{contains_seq, contains_str, i128_text, int_text, lower_seq, nat_text, owned, simple_name, spec_simple_name, str_eq, to_ascii_lower, u128_text};
use crate::types::{Ty, canonical, canonical_name};
use crate::values::{ConstEvalError, ConstEvalResult, ConstModel, ConstValue, LiteralModel, NumericLiteralMetadata, Span, error, error_text, field_models, lemma_struct_model};

verus! {

/// What an operation yields: a value, or the message of the error it reports.
pub open spec fn outcome(r: Result<ConstEvalResult, ConstEvalError>) -> Result<ConstModel, Seq<char>> {
    match r {
        Ok(v) => Ok(v.value@),
        Err(e) => Err(e.message@),
    }
}

/// `r` yields `expected`, carries no literal metadata, and reports errors at `span`.
pub open spec fn produces(
    r: Result<ConstEvalResult, ConstEvalError>,
    expected: Result<ConstModel, Seq<char>>,
    span: Option<Span>,
) -> bool {
    &&& outcome(r) == expected
    &&& (r matches Ok(v) ==> v.literal is None)
    &&& (r matches Err(e) ==> e.span == span)
}

/// The same, for operations that yield a bare value.
pub open spec fn value_outcome(r: Result<ConstValue, ConstEvalError>) -> Result<ConstModel, Seq<char>> {
    match r {
        Ok(v) => Ok(v@),
        Err(e) => Err(e.message@),
    }
}

pub open spec fn yields(
    r: Result<ConstValue, ConstEvalError>,
    expected: Result<ConstModel, Seq<char>>,
    span: Option<Span>,
) -> bool {
    &&& value_outcome(r) == expected
    &&& (r matches Err(e) ==> e.span == span)
}

/// `prefix`, then the two operands as they are shown in diagnostics.
pub open spec fn operands_message(prefix: Seq<char>, l: ConstModel, r: ConstModel) -> Seq<char> {
    prefix + ", got "@ + debug_text(l) + " and "@ + debug_text(r)
}

fn operands_text(prefix: &str, l: &ConstValue, r: &ConstValue) -> (m: String)
    ensures
        m@ == operands_message(prefix@, l@, r@),
{
    let mut m = owned(prefix);
    m.append(", got ");
    m.append(debug_value(l).as_str());
    m.append(" and ");
    m.append(debug_value(r).as_str());
    m
}

/// `prefix`, then the value as shown in diagnostics.
fn value_text(prefix: &str, v: &ConstValue) -> (m: String)
    ensures
        m@ == prefix@ + debug_text(v@),
{
    let mut m = owned(prefix);
    m.append(debug_value(v).as_str());
    m
}

/// `prefix`, the value as shown in diagnostics, then `suffix`.
fn framed_value_text(prefix: &str, v: &ConstValue, suffix: &str) -> (m: String)
    ensures
        m@ == prefix@ + debug_text(v@) + suffix@,
{
    let mut m = owned(prefix);
    m.append(debug_value(v).as_str());
    m.append(suffix);
    m
}

/// The integer held by a signed value.
pub open spec fn signed_of(v: ConstModel) -> Option<i128> {
    match v {
        ConstModel::Int(x) => Some(x),
        ConstModel::Int32(x) => Some(x),
        _ => None,
    }
}

/// The integer held by a signed value (`Int` or `Int32`).
pub fn signed_value(value: &ConstValue) -> (r: Option<i128>)
    ensures
        r == signed_of(value@),
{
    match value {
        ConstValue::Int(v) => Some(*v),
        ConstValue::Int32(v) => Some(*v),
        _ => None,
    }
}

pub open spec fn fits_i128(x: int) -> bool {
    i128::MIN <= x <= i128::MAX
}

/// An unsigned operand as the signed arithmetic sees it: values above `i128::MAX` count as `i128::MAX`.
pub open spec fn clamped(x: u128) -> int {
    if x <= i128::MAX {
        x as int
    } else {
        i128::MAX as int
    }
}

/// The additive and multiplicative operators.
#[derive(Clone, Copy, Debug, PartialEq, Eq, Structural)]
pub enum ArithOp {
    Add,
    Sub,
    Mul,
}

pub open spec fn arith(op: ArithOp, a: int, b: int) -> int {
    match op {
        ArithOp::Add => a + b,
        ArithOp::Sub => a - b,
        ArithOp::Mul => a * b,
    }
}

pub open spec fn arith_overflow_message() -> Seq<char> {
    "arithmetic operation overflowed the supported range"@
}

/// `+`, `-` and `*`: signed operands give a signed result, unsigned operands an unsigned one,
/// each within 128 bits.
pub open spec fn numeric_spec(op: ArithOp, l: ConstModel, r: ConstModel) -> Result<ConstModel, Seq<char>> {
    if signed_of(l) is Some && signed_of(r) is Some {
        let v = arith(op, signed_of(l)->0 as int, signed_of(r)->0 as int);
        if fits_i128(v) {
            Ok(ConstModel::Int(v as i128))
        } else {
            Err(arith_overflow_message())
        }
    } else {
        match (l, r) {
            (ConstModel::UInt(a), ConstModel::UInt(b)) => {
                let v = arith(op, clamped(a), clamped(b));
                if fits_i128(v) && v >= 0 {
                    Ok(ConstModel::UInt(v as u128))
                } else {
                    Err(arith_overflow_message())
                }
            },
            _ => Err(
                operands_message("arithmetic operation requires matching numeric operands"@, l, r),
            ),
        }
    }
}

fn checked_arith(op: ArithOp, a: i128, b: i128) -> (r: Option<i128>)
    ensures
        r == (if fits_i128(arith(op, a as int, b as int)) {
            Some(arith(op, a as int, b as int) as i128)
        } else {
            None
        }),
{
    match op {
        ArithOp::Add => a.checked_add(b),
        ArithOp::Sub => a.checked_sub(b),
        ArithOp::Mul => a.checked_mul(b),
    }
}

/// Applies `+`, `-` or `*` to two operands.
pub fn binary_numeric_op(
    left: ConstEvalResult,
    right: ConstEvalResult,
    span: Option<Span>,
    op: ArithOp,
) -> (r: Result<ConstEvalResult, ConstEvalError>)
    ensures
        produces(r, numeric_spec(op, left.value@, right.value@), span),
{
    if let (Some(a), Some(b)) = (signed_value(&left.value), signed_value(&right.value)) {
        return match checked_arith(op, a, b) {
            Some(v) => Ok(ConstEvalResult::new(ConstValue::Int(v))),
            None => Err(error_text("arithmetic operation overflowed the supported range", span)),
        };
    }
    match (&left.value, &right.value) {
        (ConstValue::UInt(a), ConstValue::UInt(b)) => {
            let x: i128 = if *a <= 0x7fff_ffff_ffff_ffff_ffff_ffff_ffff_ffffu128 {
                *a as i128
            } else {
                0x7fff_ffff_ffff_ffff_ffff_ffff_ffff_ffffi128
            };
            let y: i128 = if *b <= 0x7fff_ffff_ffff_ffff_ffff_ffff_ffff_ffffu128 {
                *b as i128
            } else {
                0x7fff_ffff_ffff_ffff_ffff_ffff_ffff_ffffi128
            };
            match checked_arith(op, x, y) {
                Some(v) => if v >= 0 {
                    Ok(ConstEvalResult::new(ConstValue::UInt(v as u128)))
                } else {
                    Err(error_text("arithmetic operation overflowed the supported range", span))
                },
                None => Err(
                    error_text("arithmetic operation overflowed the supported range", span),
                ),
            }
        },
        _ => Err(
            error(
                operands_text(
                    "arithmetic operation requires matching numeric operands",
                    &left.value,
                    &right.value,
                ),
                span,
            ),
        ),
    }
}

/// Division rounding toward zero.
pub open spec fn trunc_div(x: int, d: int) -> int {
    if x == 0 {
        0
    } else if x > 0 && d > 0 {
        x / d
    } else if x < 0 && d < 0 {
        ((x * -1) / (d * -1))
    } else if x < 0 {
        ((x * -1) / d) * -1
    } else {
        (x / (d * -1)) * -1
    }
}

/// The remainder of division rounding toward zero; it has the sign of `x`.
pub open spec fn trunc_rem(x: int, d: int) -> int {
    if x == 0 {
        0
    } else if x > 0 && d > 0 {
        x % d
    } else if x < 0 && d < 0 {
        ((x * -1) % (d * -1)) * -1
    } else if x < 0 {
        ((x * -1) % d) * -1
    } else {
        x % (d * -1)
    }
}

pub open spec fn is_integer_zero(v: ConstModel) -> bool {
    v == ConstModel::Int(0) || v == ConstModel::UInt(0)
}

pub open spec fn div_spec(l: ConstModel, r: ConstModel) -> Result<ConstModel, Seq<char>> {
    if is_integer_zero(r) {
        Err("division by zero in constant expression"@)
    } else {
        match (l, r) {
            (ConstModel::Int(a), ConstModel::Int(b)) => if fits_i128(trunc_div(a as int, b as int)) {
                Ok(ConstModel::Int(trunc_div(a as int, b as int) as i128))
            } else {
                Err("integer division overflowed the supported range"@)
            },
            (ConstModel::UInt(a), ConstModel::UInt(b)) => Ok(ConstModel::UInt((a / b) as u128)),
            _ => Err(operands_message("division requires matching numeric operands"@, l, r)),
        }
    }
}

/// Divides two operands, rounding toward zero.
pub fn binary_div(left: ConstEvalResult, right: ConstEvalResult, span: Option<Span>) -> (r: Result<
    ConstEvalResult,
    ConstEvalError,
>)
    ensures
        produces(r, div_spec(left.value@, right.value@), span),
{
    match (&left.value, &right.value) {
        (_, ConstValue::Int(0)) => Err(error_text("division by zero in constant expression", span)),
        (_, ConstValue::UInt(0)) => Err(error_text("division by zero in constant expression", span)),
        (ConstValue::Int(a), ConstValue::Int(b)) => match a.checked_div(*b) {
            Some(v) => Ok(ConstEvalResult::new(ConstValue::Int(v))),
            None => Err(error_text("integer division overflowed the supported range", span)),
        },
        (ConstValue::UInt(a), ConstValue::UInt(b)) => Ok(ConstEvalResult::new(ConstValue::UInt(*a / *b))),
        _ => Err(
            error(
                operands_text("division requires matching numeric operands", &left.value, &right.value),
                span,
            ),
        ),
    }
}

pub open spec fn rem_spec(l: ConstModel, r: ConstModel) -> Result<ConstModel, Seq<char>> {
    if is_integer_zero(r) {
        Err("remainder by zero in constant expression"@)
    } else {
        match (l, r) {
            (ConstModel::Int(a), ConstModel::Int(b)) => if a == i128::MIN && b == -1 {
                Err("integer remainder overflowed the supported range"@)
            } else {
                Ok(ConstModel::Int(trunc_rem(a as int, b as int) as i128))
            },
            (ConstModel::UInt(a), ConstModel::UInt(b)) => Ok(ConstModel::UInt((a % b) as u128)),
            _ => Err(operands_message("remainder requires matching integer operands"@, l, r)),
        }
    }
}

/// The remainder of dividing two operands, rounding toward zero.
pub fn binary_rem(left: ConstEvalResult, right: ConstEvalResult, span: Option<Span>) -> (r: Result<
    ConstEvalResult,
    ConstEvalError,
>)
    ensures
        produces(r, rem_spec(left.value@, right.value@), span),
{
    match (&left.value, &right.value) {
        (_, ConstValue::Int(0)) => Err(error_text("remainder by zero in constant expression", span)),
        (_, ConstValue::UInt(0)) => Err(error_text("remainder by zero in constant expression", span)),
        (ConstValue::Int(a), ConstValue::Int(b)) => match a.checked_rem(*b) {
            Some(v) => Ok(ConstEvalResult::new(ConstValue::Int(v))),
            None => Err(error_text("integer remainder overflowed the supported range", span)),
        },
        (ConstValue::UInt(a), ConstValue::UInt(b)) => Ok(ConstEvalResult::new(ConstValue::UInt(*a % *b))),
        _ => Err(
            error(
                operands_text("remainder requires matching integer operands", &left.value, &right.value),
                span,
            ),
        ),
    }
}

/// The bitwise operators.
#[derive(Clone, Copy, Debug, PartialEq, Eq, Structural)]
pub enum BitOp {
    And,
    Or,
    Xor,
}

pub open spec fn bits_signed(op: BitOp, a: i128, b: i128) -> i128 {
    match op {
        BitOp::And => a & b,
        BitOp::Or => a | b,
        BitOp::Xor => a ^ b,
    }
}

pub open spec fn bits_unsigned(op: BitOp, a: u128, b: u128) -> u128 {
    match op {
        BitOp::And => a & b,
        BitOp::Or => a | b,
        BitOp::Xor => a ^ b,
    }
}

pub open spec fn integer_spec(op: BitOp, l: ConstModel, r: ConstModel) -> Result<ConstModel, Seq<char>> {
    match (l, r) {
        (ConstModel::Int(a), ConstModel::Int(b)) => Ok(ConstModel::Int(bits_signed(op, a, b))),
        (ConstModel::UInt(a), ConstModel::UInt(b)) => Ok(ConstModel::UInt(bits_unsigned(op, a, b))),
        _ => Err(operands_message("bitwise operation requires matching integer operands"@, l, r)),
    }
}

/// Applies `&`, `|` or `^` to two integers of the same signedness.
pub fn binary_integer(
    left: ConstEvalResult,
    right: ConstEvalResult,
    span: Option<Span>,
    op: BitOp,
) -> (r: Result<ConstEvalResult, ConstEvalError>)
    ensures
        produces(r, integer_spec(op, left.value@, right.value@), span),
{
    match (&left.value, &right.value) {
        (ConstValue::Int(a), ConstValue::Int(b)) => {
            let v = match op {
                BitOp::And => *a & *b,
                BitOp::Or => *a | *b,
                BitOp::Xor => *a ^ *b,
            };
            Ok(ConstEvalResult::new(ConstValue::Int(v)))
        },
        (ConstValue::UInt(a), ConstValue::UInt(b)) => {
            let v = match op {
                BitOp::And => *a & *b,
                BitOp::Or => *a | *b,
                BitOp::Xor => *a ^ *b,
            };
            Ok(ConstEvalResult::new(ConstValue::UInt(v)))
        },
        _ => Err(
            error(
                operands_text(
                    "bitwise operation requires matching integer operands",
                    &left.value,
                    &right.value,
                ),
                span,
            ),
        ),
    }
}

/// The shift amount an operand denotes.
pub open spec fn shift_amount(r: ConstModel) -> Result<u32, Seq<char>> {
    match r {
        ConstModel::Int(v) if v >= 0 => Ok(v as u32),
        ConstModel::UInt(v) => if v <= u32::MAX {
            Ok(v as u32)
        } else {
            Err("shift amount exceeds supported range"@)
        },
        other => Err("shift amount must be an integer, got "@ + debug_text(other)),
    }
}

pub open spec fn shift_overflow_message() -> Seq<char> {
    "shift operation overflowed the supported range"@
}

/// `<<` and `>>`: the amount must be below 128; bits shifted out are lost.
pub open spec fn shift_spec(l: ConstModel, r: ConstModel, is_left: bool) -> Result<ConstModel, Seq<char>> {
    match shift_amount(r) {
        Err(m) => Err(m),
        Ok(s) => match l {
            ConstModel::Int(x) => if s < 128 {
                Ok(ConstModel::Int(if is_left { x << s } else { x >> s }))
            } else {
                Err(shift_overflow_message())
            },
            ConstModel::UInt(x) => if s < 128 {
                Ok(ConstModel::UInt(if is_left { x << s } else { x >> s }))
            } else {
                Err(shift_overflow_message())
            },
            other => Err("shift requires integer operand, got "@ + debug_text(other)),
        },
    }
}

/// Shifts an integer left or right.
pub fn binary_shift(
    left: ConstEvalResult,
    right: ConstEvalResult,
    span: Option<Span>,
    is_left: bool,
) -> (r: Result<ConstEvalResult, ConstEvalError>)
    ensures
        produces(r, shift_spec(left.value@, right.value@, is_left), span),
{
    let shift: u32 = match &right.value {
        ConstValue::Int(v) if *v >= 0 => {
            #[verifier::truncate]
            (*v as u32)
        },
        ConstValue::UInt(v) => if *v <= 0xffff_ffffu128 {
            *v as u32
        } else {
            return Err(error_text("shift amount exceeds supported range", span));
        },
        other => {
            return Err(error(value_text("shift amount must be an integer, got ", other), span));
        },
    };
    match &left.value {
        ConstValue::Int(x) => if shift < 128 {
            let v = if is_left {
                *x << shift
            } else {
                *x >> shift
            };
            Ok(ConstEvalResult::new(ConstValue::Int(v)))
        } else {
            Err(error_text("shift operation overflowed the supported range", span))
        },
        ConstValue::UInt(x) => if shift < 128 {
            let v = if is_left {
                *x << shift
            } else {
                *x >> shift
            };
            Ok(ConstEvalResult::new(ConstValue::UInt(v)))
        } else {
            Err(error_text("shift operation overflowed the supported range", span))
        },
        other => Err(error(value_text("shift requires integer operand, got ", other), span)),
    }
}

pub open spec fn bool_spec(op: BinOp, l: ConstModel, r: ConstModel) -> Result<ConstModel, Seq<char>> {
    match (l, r) {
        (ConstModel::Bool(a), ConstModel::Bool(b)) => Ok(
            ConstModel::Bool(if op == BinOp::And { a && b } else { a || b }),
        ),
        _ => Err(operands_message("logical operation requires boolean operands"@, l, r)),
    }
}

/// `&&` and `||` on two booleans.
pub fn binary_bool(op: BinOp, left: ConstEvalResult, right: ConstEvalResult, span: Option<Span>) -> (r:
    Result<ConstEvalResult, ConstEvalError>)
    requires
        op == BinOp::And || op == BinOp::Or,
    ensures
        produces(r, bool_spec(op, left.value@, right.value@), span),
{
    match (&left.value, &right.value) {
        (ConstValue::Bool(a), ConstValue::Bool(b)) => {
            let v = match op {
                BinOp::And => *a && *b,
                _ => *a || *b,
            };
            Ok(ConstEvalResult::new(ConstValue::Bool(v)))
        },
        _ => Err(
            error(
                operands_text("logical operation requires boolean operands", &left.value, &right.value),
                span,
            ),
        ),
    }
}

pub open spec fn is_comparison(op: BinOp) -> bool {
    op == BinOp::Lt || op == BinOp::Le || op == BinOp::Gt || op == BinOp::Ge
}

/// The truth of `a op b` for an ordering operator.
pub open spec fn compares(op: BinOp, a: int, b: int) -> bool {
    match op {
        BinOp::Lt => a < b,
        BinOp::Le => a <= b,
        BinOp::Gt => a > b,
        _ => a >= b,
    }
}

/// Evaluates an ordering operator on two signed integers.
pub fn compare_numbers(op: BinOp, lhs: i128, rhs: i128) -> (r: bool)
    requires
        is_comparison(op),
    ensures
        r == compares(op, lhs as int, rhs as int),
{
    match op {
        BinOp::Lt => lhs < rhs,
        BinOp::Le => lhs <= rhs,
        BinOp::Gt => lhs > rhs,
        _ => lhs >= rhs,
    }
}

/// Evaluates an ordering operator on two unsigned integers.
pub fn compare_unsigned(op: BinOp, lhs: u128, rhs: u128) -> (r: bool)
    requires
        is_comparison(op),
    ensures
        r == compares(op, lhs as int, rhs as int),
{
    match op {
        BinOp::Lt => lhs < rhs,
        BinOp::Le => lhs <= rhs,
        BinOp::Gt => lhs > rhs,
        _ => lhs >= rhs,
    }
}

pub open spec fn compare_spec(op: BinOp, l: ConstModel, r: ConstModel) -> Result<ConstModel, Seq<char>> {
    match (l, r) {
        (ConstModel::Int(a), ConstModel::Int(b)) => Ok(ConstModel::Bool(compares(op, a as int, b as int))),
        (ConstModel::UInt(a), ConstModel::UInt(b)) => Ok(ConstModel::Bool(compares(op, a as int, b as int))),
        _ => Err(operands_message("comparison requires matching numeric operands"@, l, r)),
    }
}

/// `<`, `<=`, `>` and `>=` on two integers of the same signedness.
pub fn binary_compare(op: BinOp, left: ConstEvalResult, right: ConstEvalResult, span: Option<Span>) -> (r:
    Result<ConstEvalResult, ConstEvalError>)
    requires
        is_comparison(op),
    ensures
        produces(r, compare_spec(op, left.value@, right.value@), span),
{
    match (&left.value, &right.value) {
        (ConstValue::Int(a), ConstValue::Int(b)) => Ok(
            ConstEvalResult::new(ConstValue::Bool(compare_numbers(op, *a, *b))),
        ),
        (ConstValue::UInt(a), ConstValue::UInt(b)) => Ok(
            ConstEvalResult::new(ConstValue::Bool(compare_unsigned(op, *a, *b))),
        ),
        _ => Err(
            error(
                operands_text("comparison requires matching numeric operands", &left.value, &right.value),
                span,
            ),
        ),
    }
}

pub open spec fn negation_overflow_message() -> Seq<char> {
    "integer negation overflowed the supported range"@
}

/// The negation of an integer value.
pub open spec fn negate_spec(v: ConstModel) -> Result<ConstModel, Seq<char>> {
    match v {
        ConstModel::Int(x) => if x == i128::MIN {
            Err(negation_overflow_message())
        } else {
            Ok(ConstModel::Int((-x) as i128))
        },
        ConstModel::Int32(x) => if x == i128::MIN {
            Err(negation_overflow_message())
        } else {
            Ok(ConstModel::Int((-x) as i128))
        },
        ConstModel::UInt(x) => if x <= i128::MAX + 1 {
            Ok(ConstModel::Int((-x) as i128))
        } else {
            Err(negation_overflow_message())
        },
        other => Err("negation is not supported for "@ + debug_text(other)),
    }
}

/// The bitwise complement of an integer value (`-x - 1` in two's complement, `u128::MAX - x`
/// unsigned); `None` for other values.
pub open spec fn complement(v: ConstModel) -> Option<ConstModel> {
    match v {
        ConstModel::Int(x) => Some(ConstModel::Int((-x - 1) as i128)),
        ConstModel::Int32(x) => Some(ConstModel::Int((-x - 1) as i128)),
        ConstModel::UInt(x) => Some(ConstModel::UInt((u128::MAX - x) as u128)),
        _ => None,
    }
}

/// A prefix or postfix unary operator other than unary plus, applied to a value.
pub open spec fn unary_spec(op: UnOp, postfix: bool, v: ConstModel) -> Result<ConstModel, Seq<char>> {
    if postfix && (op == UnOp::Increment || op == UnOp::Decrement) {
        Err("postfix increment and decrement are not supported in constant expressions"@)
    } else {
        match op {
            UnOp::Neg => negate_spec(v),
            UnOp::Increment | UnOp::Decrement => Err(
                "increment and decrement are not supported in constant expressions"@,
            ),
            UnOp::BitNot => match complement(v) {
                Some(c) => Ok(c),
                None => Err("ones-complement is not supported for "@ + debug_text(v)),
            },
            UnOp::Not => match v {
                ConstModel::Bool(b) => Ok(ConstModel::Bool(!b)),
                _ => match complement(v) {
                    Some(c) => Ok(c),
                    None => Err("logical complement is not supported for "@ + debug_text(v)),
                },
            },
            _ => Err("pointer operators are not supported in constant expressions"@),
        }
    }
}

fn negate(value: &ConstValue, span: Option<Span>) -> (r: Result<ConstEvalResult, ConstEvalError>)
    ensures
        produces(r, negate_spec(value@), span),
{
    match value {
        ConstValue::Int(x) | ConstValue::Int32(x) => if *x == i128::MIN {
            Err(error_text("integer negation overflowed the supported range", span))
        } else {
            Ok(ConstEvalResult::new(ConstValue::Int(-*x)))
        },
        ConstValue::UInt(x) => if *x <= 0x7fff_ffff_ffff_ffff_ffff_ffff_ffff_ffffu128 {
            Ok(ConstEvalResult::new(ConstValue::Int(-(*x as i128))))
        } else if *x == 0x8000_0000_0000_0000_0000_0000_0000_0000u128 {
            Ok(ConstEvalResult::new(ConstValue::Int(i128::MIN)))
        } else {
            Err(error_text("integer negation overflowed the supported range", span))
        },
        other => Err(error(value_text("negation is not supported for ", other), span)),
    }
}

fn complement_of(value: &ConstValue) -> (r: Option<ConstValue>)
    ensures
        match r {
            Some(c) => complement(value@) == Some(c@),
            None => complement(value@) is None,
        },
{
    match value {
        ConstValue::Int(x) | ConstValue::Int32(x) => {
            let c: i128 = if *x >= 0 {
                -*x - 1
            } else {
                -(*x + 1)
            };
            Some(ConstValue::Int(c))
        },
        ConstValue::UInt(x) => Some(ConstValue::UInt(0xffff_ffff_ffff_ffff_ffff_ffff_ffff_ffffu128 - *x)),
        _ => None,
    }
}

/// Applies a unary operator. Unary plus hands its operand back unchanged.
pub fn evaluate_unary(op: UnOp, postfix: bool, operand: ConstEvalResult, span: Option<Span>) -> (r:
    Result<ConstEvalResult, ConstEvalError>)
    ensures
        if op == UnOp::UnaryPlus {
            r == Ok::<ConstEvalResult, ConstEvalError>(operand)
        } else {
            produces(r, unary_spec(op, postfix, operand.value@), span)
        },
{
    if postfix && (op == UnOp::Increment || op == UnOp::Decrement) {
        return Err(
            error_text(
                "postfix increment and decrement are not supported in constant expressions",
                span,
            ),
        );
    }
    match op {
        UnOp::UnaryPlus => Ok(operand),
        UnOp::Neg => negate(&operand.value, span),
        UnOp::Increment | UnOp::Decrement => Err(
            error_text("increment and decrement are not supported in constant expressions", span),
        ),
        UnOp::BitNot => match complement_of(&operand.value) {
            Some(c) => Ok(ConstEvalResult::new(c)),
            None => Err(error(value_text("ones-complement is not supported for ", &operand.value), span)),
        },
        UnOp::Not => match &operand.value {
            ConstValue::Bool(b) => Ok(ConstEvalResult::new(ConstValue::Bool(!*b))),
            _ => match complement_of(&operand.value) {
                Some(c) => Ok(ConstEvalResult::new(c)),
                None => Err(
                    error(value_text("logical complement is not supported for ", &operand.value), span),
                ),
            },
        },
        _ => Err(error_text("pointer operators are not supported in constant expressions", span)),
    }
}

/// The number of fields of a struct model, plus one; zero for other models.
pub open spec fn model_size(v: ConstModel) -> nat {
    match v {
        ConstModel::Struct { fields, .. } => fields.len() + 1,
        _ => 0,
    }
}

/// Whether two constants are equal for `==`: integers, booleans, characters, strings (by their
/// text), enum values and `null`/unit compare by content, structs field by field in order;
/// any other pair, `Int32` and symbol values among them, is unequal.
pub open spec fn const_eq(a: ConstModel, b: ConstModel) -> bool
    decreases a, model_size(a),
{
    match (a, b) {
        (ConstModel::Int(x), ConstModel::Int(y)) => x == y,
        (ConstModel::UInt(x), ConstModel::UInt(y)) => x == y,
        (ConstModel::Bool(x), ConstModel::Bool(y)) => x == y,
        (ConstModel::Char(x), ConstModel::Char(y)) => x == y,
        (ConstModel::Str { value: x, .. }, ConstModel::Str { value: y, .. }) => x == y,
        (ConstModel::RawStr(x), ConstModel::RawStr(y)) => x == y,
        (
            ConstModel::Enum { type_path: ta, variant: va, discriminant: da },
            ConstModel::Enum { type_path: tb, variant: vb, discriminant: db },
        ) => ta == tb && va == vb && da == db,
        (ConstModel::Struct { type_path: ta, fields: fa }, ConstModel::Struct {
            type_path: tb,
            fields: fb,
        }) => ta == tb && fa.len() == fb.len() && fields_eq(a, b, fa.len()),
        (ConstModel::Null, ConstModel::Null) => true,
        (ConstModel::Unit, ConstModel::Unit) => true,
        _ => false,
    }
}

/// The first `n` fields of two struct models have equal names and equal values.
pub open spec fn fields_eq(a: ConstModel, b: ConstModel, n: nat) -> bool
    decreases a, n,
{
    match (a, b) {
        (ConstModel::Struct { fields: fa, .. }, ConstModel::Struct { fields: fb, .. }) => {
            if n == 0 || n > fa.len() || n > fb.len() {
                n == 0
            } else {
                proof {
                    assert(decreases_to!(a => fa));
                    assert(decreases_to!(fa => fa[n - 1]));
                    assert(decreases_to!(fa[n - 1] => fa[n - 1].1));
                }
                fields_eq(a, b, (n - 1) as nat) && fa[n - 1].0 == fb[n - 1].0 && const_eq(
                    fa[n - 1].1,
                    fb[n - 1].1,
                )
            }
        },
        _ => n == 0,
    }
}

/// Whether two constants are equal (see `const_eq`).
pub fn const_equal(left: &ConstValue, right: &ConstValue) -> (r: bool)
    ensures
        r == const_eq(left@, right@),
    decreases left,
{
    match (left, right) {
        (ConstValue::Int(x), ConstValue::Int(y)) => *x == *y,
        (ConstValue::UInt(x), ConstValue::UInt(y)) => *x == *y,
        (ConstValue::Bool(x), ConstValue::Bool(y)) => *x == *y,
        (ConstValue::Char(x), ConstValue::Char(y)) => *x == *y,
        (ConstValue::Str { value: x, .. }, ConstValue::Str { value: y, .. }) => *x == *y,
        (ConstValue::RawStr(x), ConstValue::RawStr(y)) => *x == *y,
        (
            ConstValue::Enum { type_path: ta, variant: va, discriminant: da },
            ConstValue::Enum { type_path: tb, variant: vb, discriminant: db },
        ) => *ta == *tb && *va == *vb && *da == *db,
        (ConstValue::Struct { type_path: ta, fields: fa }, ConstValue::Struct {
            type_path: tb,
            fields: fb,
        }) => {
            proof {
                lemma_struct_model(*left);
                lemma_struct_model(*right);
            }
            if *ta != *tb || fa.len() != fb.len() {
                return false;
            }
            let mut i: usize = 0;
            while i < fa.len()
                invariant
                    i <= fa.len(),
                    fa.len() == fb.len(),
                    *left is Struct,
                    left->fields == *fa,
                    *right is Struct,
                    right->fields == *fb,
                    left@ == (ConstModel::Struct { type_path: ta@, fields: field_models(fa@) }),
                    right@ == (ConstModel::Struct { type_path: tb@, fields: field_models(fb@) }),
                    fields_eq(left@, right@, i as nat),
                decreases fa.len() - i,
            {
                proof {
                    assert(decreases_to!(*left => *fa));
                    assert(decreases_to!(*fa => fa@));
                    assert(decreases_to!(fa@ => fa@[i as int]));
                    assert(decreases_to!(fa@[i as int] => fa@[i as int].1));
                }
                let same_name = fa[i].0 == fb[i].0;
                if !same_name || !const_equal(&fa[i].1, &fb[i].1) {
                    assert(!fields_eq(left@, right@, (i + 1) as nat));
                    proof {
                        if fields_eq(left@, right@, fa@.len()) {
                            lemma_fields_eq_prefix(left@, right@, (i + 1) as nat, fa@.len());
                        }
                    }
                    return false;
                }
                i = i + 1;
            }
            true
        },
        (ConstValue::Null, ConstValue::Null) => true,
        (ConstValue::Unit, ConstValue::Unit) => true,
        _ => false,
    }
}

/// Equality of a longer prefix of fields implies equality of a shorter one.
proof fn lemma_fields_eq_prefix(a: ConstModel, b: ConstModel, m: nat, n: nat)
    requires
        m <= n,
        fields_eq(a, b, n),
    ensures
        fields_eq(a, b, m),
    decreases n,
{
    if m < n {
        lemma_fields_eq_prefix(a, b, m, (n - 1) as nat);
    }
}

/// What a binary operator yields on two values.
pub open spec fn binary_spec(op: BinOp, l: ConstModel, r: ConstModel) -> Result<ConstModel, Seq<char>> {
    match op {
        BinOp::Add => numeric_spec(ArithOp::Add, l, r),
        BinOp::Sub => numeric_spec(ArithOp::Sub, l, r),
        BinOp::Mul => numeric_spec(ArithOp::Mul, l, r),
        BinOp::Div => div_spec(l, r),
        BinOp::Rem => rem_spec(l, r),
        BinOp::BitAnd => integer_spec(BitOp::And, l, r),
        BinOp::BitOr => integer_spec(BitOp::Or, l, r),
        BinOp::BitXor => integer_spec(BitOp::Xor, l, r),
        BinOp::Shl => shift_spec(l, r, true),
        BinOp::Shr => shift_spec(l, r, false),
        BinOp::Eq => Ok(ConstModel::Bool(const_eq(l, r))),
        BinOp::Ne => Ok(ConstModel::Bool(!const_eq(l, r))),
        BinOp::Lt | BinOp::Le | BinOp::Gt | BinOp::Ge => compare_spec(op, l, r),
        BinOp::And | BinOp::Or => bool_spec(op, l, r),
        BinOp::NullCoalesce => Err(
            "operator `NullCoalesce` is not supported in constant expressions"@,
        ),
    }
}

/// Applies a binary operator to two evaluated operands.
pub fn evaluate_binary(op: BinOp, left: ConstEvalResult, right: ConstEvalResult, span: Option<Span>) -> (r:
    Result<ConstEvalResult, ConstEvalError>)
    ensures
        produces(r, binary_spec(op, left.value@, right.value@), span),
{
    match op {
        BinOp::Add => binary_numeric_op(left, right, span, ArithOp::Add),
        BinOp::Sub => binary_numeric_op(left, right, span, ArithOp::Sub),
        BinOp::Mul => binary_numeric_op(left, right, span, ArithOp::Mul),
        BinOp::Div => binary_div(left, right, span),
        BinOp::Rem => binary_rem(left, right, span),
        BinOp::BitAnd => binary_integer(left, right, span, BitOp::And),
        BinOp::BitOr => binary_integer(left, right, span, BitOp::Or),
        BinOp::BitXor => binary_integer(left, right, span, BitOp::Xor),
        BinOp::Shl => binary_shift(left, right, span, true),
        BinOp::Shr => binary_shift(left, right, span, false),
        BinOp::Eq => Ok(ConstEvalResult::new(ConstValue::Bool(const_equal(&left.value, &right.value)))),
        BinOp::Ne => Ok(ConstEvalResult::new(ConstValue::Bool(!const_equal(&left.value, &right.value)))),
        BinOp::Lt | BinOp::Le | BinOp::Gt | BinOp::Ge => binary_compare(op, left, right, span),
        BinOp::And | BinOp::Or => binary_bool(op, left, right, span),
        BinOp::NullCoalesce => Err(
            error_text("operator `NullCoalesce` is not supported in constant expressions", span),
        ),
    }
}

/// Two to the power `n`.
pub open spec fn two_pow(n: nat) -> nat
    decreases n,
{
    if n == 0 {
        1
    } else {
        2 * two_pow((n - 1) as nat)
    }
}

proof fn lemma_two_pow_monotone(a: nat, b: nat)
    requires
        a <= b,
    ensures
        1 <= two_pow(a) <= two_pow(b),
    decreases b,
{
    if b > 0 {
        if a < b {
            lemma_two_pow_monotone(a, (b - 1) as nat);
        } else {
            lemma_two_pow_monotone((a - 1) as nat, (b - 1) as nat);
        }
    }
}

pub(crate) proof fn lemma_two_pow_add(a: nat, b: nat)
    ensures
        two_pow(a + b) == two_pow(a) * two_pow(b),
    decreases a,
{
    if a > 0 {
        lemma_two_pow_add((a - 1) as nat, b);
        assert(two_pow(a + b) == 2 * two_pow((a - 1 + b) as nat));
        let x = two_pow((a - 1) as nat);
        let y = two_pow(b);
        assert(two_pow(a) == 2 * x);
        assert(two_pow((a - 1 + b) as nat) == x * y);
        assert(2 * (x * y) == (2 * x) * y) by (nonlinear_arith);
    } else {
        assert(a + b == b);
        assert(two_pow(a) == 1);
    }
}

proof fn lemma_two_pow_127()
    ensures
        two_pow(127) == 0x8000_0000_0000_0000_0000_0000_0000_0000,
{
    reveal_with_fuel(two_pow, 8);
    assert(two_pow(7) == 128);
    lemma_two_pow_add(7, 7);
    assert(two_pow(14) == 0x4000);
    lemma_two_pow_add(14, 14);
    assert(two_pow(28) == 0x1000_0000);
    lemma_two_pow_add(28, 28);
    assert(two_pow(56) == 0x0100_0000_0000_0000);
    lemma_two_pow_add(56, 56);
    assert(two_pow(112) == 0x0001_0000_0000_0000_0000_0000_0000_0000);
    lemma_two_pow_add(112, 14);
    lemma_two_pow_add(126, 1);
}

/// Two to the power `n`, for `n` below 128.
fn two_pow_u128(n: u32) -> (r: u128)
    requires
        n < 128,
    ensures
        r == two_pow(n as nat),
{
    proof {
        lemma_two_pow_127();
    }
    let mut r: u128 = 1;
    let mut i: u32 = 0;
    while i < n
        invariant
            i <= n < 128,
            r == two_pow(i as nat),
            two_pow(127) == 0x8000_0000_0000_0000_0000_0000_0000_0000,
        decreases n - i,
    {
        proof {
            lemma_two_pow_monotone((i + 1) as nat, 127);
        }
        r = r * 2;
        i = i + 1;
    }
    r
}

/// How a literal is named in an overflow diagnostic.
pub open spec fn literal_desc(lit: Option<LiteralModel>) -> Seq<char> {
    match lit {
        Some(m) => if m.explicit_suffix && m.suffix is Some {
            "literal with suffix `"@ + m.suffix->0 + "`"@
        } else {
            "literal"@
        },
        None => "literal"@,
    }
}

pub open spec fn width_desc(bits: u32) -> Seq<char> {
    if bits >= 128 {
        "128-bit"@
    } else {
        nat_text(bits as nat) + "-bit"@
    }
}

/// The diagnostic for a value that does not fit in the target integer type.
pub open spec fn overflow_message(
    lit: Option<LiteralModel>,
    value: Seq<char>,
    target: Seq<char>,
    bits: u32,
    signed: bool,
) -> Seq<char> {
    literal_desc(lit) + " value `"@ + value + "` does not fit in "@ + width_desc(bits) + " "@ + (
    if signed {
        "signed"@
    } else {
        "unsigned"@
    }) + " integer `"@ + target + "`"@
}

/// Builds the diagnostic for a value that does not fit in the target integer type.
pub fn literal_overflow_message(
    literal: Option<&NumericLiteralMetadata>,
    value: String,
    target: &str,
    bits: u32,
    signed: bool,
) -> (m: String)
    ensures
        m@ == overflow_message(
            match literal {
                Some(l) => Some(l@),
                None => None,
            },
            value@,
            target@,
            bits,
            signed,
        ),
{
    let mut m = match literal {
        Some(meta) => if meta.explicit_suffix {
            match &meta.suffix {
                Some(suffix) => {
                    let mut d = owned("literal with suffix `");
                    d.append(suffix.as_str());
                    d.append("`");
                    d
                },
                None => owned("literal"),
            }
        } else {
            owned("literal")
        },
        None => owned("literal"),
    };
    m.append(" value `");
    m.append(value.as_str());
    m.append("` does not fit in ");
    if bits >= 128 {
        m.append("128-bit");
    } else {
        m.append(u128_text(bits as u128).as_str());
        m.append("-bit");
    }
    m.append(" ");
    if signed {
        m.append("signed");
    } else {
        m.append("unsigned");
    }
    m.append(" integer `");
    m.append(target);
    m.append("`");
    m
}

/// Whether `v` fits in a signed integer of `bits` bits.
pub open spec fn fits_signed(v: int, bits: u32) -> bool {
    if bits >= 128 {
        fits_i128(v)
    } else {
        -(two_pow((bits - 1) as nat) as int) <= v < two_pow((bits - 1) as nat)
    }
}

/// Conversion to a signed integer of `bits` bits.
pub open spec fn signed_conversion(
    v: ConstModel,
    bits: u32,
    lit: Option<LiteralModel>,
    target: Seq<char>,
) -> Result<ConstModel, Seq<char>> {
    let x: Result<int, Seq<char>> = match v {
        ConstModel::Int(x) => Ok(x as int),
        ConstModel::Int32(x) => Ok(x as int),
        ConstModel::UInt(x) => if x <= i128::MAX {
            Ok(x as int)
        } else {
            Err(overflow_message(lit, nat_text(x as nat), target, bits, true))
        },
        ConstModel::Char(c) => Ok(c as int),
        other => Err("cannot convert "@ + debug_text(other) + " to signed integer"@),
    };
    match x {
        Err(m) => Err(m),
        Ok(x) => if fits_signed(x, bits) {
            Ok(ConstModel::Int(x as i128))
        } else {
            Err(overflow_message(lit, int_text(x), target, bits, true))
        },
    }
}

pub open spec fn lit_model(literal: Option<&NumericLiteralMetadata>) -> Option<LiteralModel> {
    match literal {
        Some(l) => Some(l@),
        None => None,
    }
}

/// Converts a value to a signed integer of `bits` bits, named `target_name` in diagnostics.
pub fn convert_signed(
    value: ConstValue,
    bits: u32,
    literal: Option<&NumericLiteralMetadata>,
    target_name: &str,
    span: Option<Span>,
) -> (r: Result<ConstValue, ConstEvalError>)
    requires
        1 <= bits <= 128,
    ensures
        yields(r, signed_conversion(value@, bits, lit_model(literal), target_name@), span),
{
    let x: i128 = match &value {
        ConstValue::Int(v) | ConstValue::Int32(v) => *v,
        ConstValue::UInt(v) => if *v <= 0x7fff_ffff_ffff_ffff_ffff_ffff_ffff_ffffu128 {
            *v as i128
        } else {
            return Err(
                error(literal_overflow_message(literal, u128_text(*v), target_name, bits, true), span),
            );
        },
        ConstValue::Char(c) => *c as i128,
        other => {
            return Err(error(framed_value_text("cannot convert ", other, " to signed integer"), span));
        },
    };
    if bits < 128 {
        let half = two_pow_u128(bits - 1);
        proof {
            lemma_two_pow_monotone((bits - 1) as nat, 127);
            lemma_two_pow_127();
        }
        let max: i128 = (half - 1) as i128;
        if x < -max - 1 || x > max {
            return Err(
                error(literal_overflow_message(literal, i128_text(x), target_name, bits, true), span),
            );
        }
    }
    Ok(ConstValue::Int(x))
}

/// Conversion to an unsigned integer of `bits` bits.
pub open spec fn unsigned_conversion(
    v: ConstModel,
    bits: u32,
    lit: Option<LiteralModel>,
    target: Seq<char>,
) -> Result<ConstModel, Seq<char>> {
    let x: Result<nat, Seq<char>> = match v {
        ConstModel::UInt(x) => Ok(x as nat),
        ConstModel::Int(x) if x >= 0 => Ok(x as nat),
        ConstModel::Int32(x) if x >= 0 => Ok(x as nat),
        ConstModel::Char(c) => Ok(c as nat),
        other => Err("cannot convert "@ + debug_text(other) + " to unsigned integer"@),
    };
    match x {
        Err(m) => Err(m),
        Ok(x) => if bits >= 128 || x < two_pow(bits as nat) {
            Ok(ConstModel::UInt(x as u128))
        } else {
            Err(overflow_message(lit, nat_text(x), target, bits, false))
        },
    }
}

/// Converts a value to an unsigned integer of `bits` bits, named `target_name` in diagnostics.
pub fn convert_unsigned(
    value: ConstValue,
    bits: u32,
    literal: Option<&NumericLiteralMetadata>,
    target_name: &str,
    span: Option<Span>,
) -> (r: Result<ConstValue, ConstEvalError>)
    ensures
        yields(r, unsigned_conversion(value@, bits, lit_model(literal), target_name@), span),
{
    let x: u128 = match &value {
        ConstValue::UInt(v) => *v,
        ConstValue::Int(v) if *v >= 0 => *v as u128,
        ConstValue::Int32(v) if *v >= 0 => *v as u128,
        ConstValue::Char(c) => *c as u128,
        other => {
            return Err(
                error(framed_value_text("cannot convert ", other, " to unsigned integer"), span),
            );
        },
    };
    if bits < 128 {
        let limit = two_pow_u128(bits);
        if x >= limit {
            return Err(
                error(literal_overflow_message(literal, u128_text(x), target_name, bits, false), span),
            );
        }
    }
    Ok(ConstValue::UInt(x))
}

/// Conversion to a string constant.
pub open spec fn string_conversion(v: ConstModel) -> Result<ConstModel, Seq<char>> {
    match v {
        ConstModel::RawStr(_) | ConstModel::Str { .. } | ConstModel::Null => Ok(v),
        other => Err("cannot convert "@ + debug_text(other) + " to string constant"@),
    }
}

/// Keeps string values and `null`; rejects everything else.
pub fn convert_string(value: ConstValue, span: Option<Span>) -> (r: Result<ConstValue, ConstEvalError>)
    ensures
        yields(r, string_conversion(value@), span),
{
    match value {
        ConstValue::RawStr(text) => Ok(ConstValue::RawStr(text)),
        ConstValue::Str { id, value } => Ok(ConstValue::Str { id, value }),
        ConstValue::Null => Ok(ConstValue::Null),
        other => Err(error(framed_value_text("cannot convert ", &other, " to string constant"), span)),
    }
}

/// The value of the last field named `key`.
pub open spec fn last_named(fields: Seq<(Seq<char>, ConstModel)>, key: Seq<char>) -> Option<ConstModel>
    decreases fields.len(),
{
    if fields.len() == 0 {
        None
    } else if fields.last().0 == key {
        Some(fields.last().1)
    } else {
        last_named(fields.drop_last(), key)
    }
}

/// Conversion of a struct literal to a `DecimalIntrinsicResult` named `ty_name`: the struct must
/// be of that type, and its `Status`, `Value` and `Variant` fields (the last of each name) are
/// kept in that order.
pub open spec fn decimal_result_conversion(v: ConstModel, ty_name: Seq<char>) -> Result<ConstModel, Seq<char>> {
    match v {
        ConstModel::Struct { type_path, fields } => {
            if type_path != ty_name && spec_simple_name(type_path) != spec_simple_name(ty_name) {
                Err("cannot convert struct `"@ + type_path + "` into `"@ + ty_name + "`"@)
            } else {
                let status = last_named(fields, "Status"@);
                let value = last_named(fields, "Value"@);
                let variant = last_named(fields, "Variant"@);
                if status is None {
                    Err(missing_field_message(ty_name, "Status"@))
                } else if value is None {
                    Err(missing_field_message(ty_name, "Value"@))
                } else if variant is None {
                    Err(missing_field_message(ty_name, "Variant"@))
                } else {
                    Ok(
                        ConstModel::Struct {
                            type_path: ty_name,
                            fields: seq![
                                ("Status"@, status->0),
                                ("Value"@, value->0),
                                ("Variant"@, variant->0),
                            ],
                        },
                    )
                }
            }
        },
        other => Err("cannot convert "@ + debug_text(other) + " to `"@ + ty_name + "`"@),
    }
}

pub open spec fn missing_field_message(ty_name: Seq<char>, field: Seq<char>) -> Seq<char> {
    "`"@ + ty_name + "` constant missing `"@ + field + "` field in struct literal"@
}

proof fn lemma_last_named_push(s: Seq<(Seq<char>, ConstModel)>, x: (Seq<char>, ConstModel), key: Seq<char>)
    ensures
        last_named(s.push(x), key) == (if x.0 == key {
            Some(x.1)
        } else {
            last_named(s, key)
        }),
{
    assert(s.push(x).drop_last() =~= s);
}

fn missing_field_text(ty_name: &str, field: &str) -> (m: String)
    ensures
        m@ == missing_field_message(ty_name@, field@),
{
    let mut m = owned("`");
    m.append(ty_name);
    m.append("` constant missing `");
    m.append(field);
    m.append("` field in struct literal");
    m
}

/// Rebuilds a `DecimalIntrinsicResult` struct literal with exactly its `Status`, `Value` and
/// `Variant` fields.
pub fn convert_decimal_intrinsic_result(value: ConstValue, ty_name: &str, span: Option<Span>) -> (r:
    Result<ConstValue, ConstEvalError>)
    ensures
        yields(r, decimal_result_conversion(value@, ty_name@), span),
{
    match &value {
        ConstValue::Struct { type_path, fields } => {
            proof {
                lemma_struct_model(value);
            }
            if !str_eq(type_path.as_str(), ty_name) && !str_eq(
                simple_name(type_path.as_str()),
                simple_name(ty_name),
            ) {
                let mut m = owned("cannot convert struct `");
                m.append(type_path.as_str());
                m.append("` into `");
                m.append(ty_name);
                m.append("`");
                return Err(error(m, span));
            }
            let mut status: Option<ConstValue> = None;
            let mut decimal_value: Option<ConstValue> = None;
            let mut variant: Option<ConstValue> = None;
            let mut i: usize = 0;
            while i < fields.len()
                invariant
                    i <= fields.len(),
                    opt_value_model(status) == last_named(
                        field_models(fields@).subrange(0, i as int),
                        "Status"@,
                    ),
                    opt_value_model(decimal_value) == last_named(
                        field_models(fields@).subrange(0, i as int),
                        "Value"@,
                    ),
                    opt_value_model(variant) == last_named(
                        field_models(fields@).subrange(0, i as int),
                        "Variant"@,
                    ),
                decreases fields.len() - i,
            {
                let ghost prefix = field_models(fields@).subrange(0, i as int);
                let ghost entry = field_models(fields@)[i as int];
                assert(field_models(fields@).subrange(0, i + 1) =~= prefix.push(entry));
                proof {
                    lemma_last_named_push(prefix, entry, "Status"@);
                    lemma_last_named_push(prefix, entry, "Value"@);
                    lemma_last_named_push(prefix, entry, "Variant"@);
                }
                let name = fields[i].0.as_str();
                proof {
                    reveal_strlit("Status");
                    reveal_strlit("Value");
                    reveal_strlit("Variant");
                    assert(field_models(fields@)[i as int] == (fields@[i as int].0@, fields@[i as int].1@));
                    assert("Status"@ != "Value"@ && "Status"@ != "Variant"@ && "Value"@ != "Variant"@) by {
                        assert("Status"@.len() == 6 && "Value"@.len() == 5 && "Variant"@.len() == 7);
                    }
                }
                if str_eq(name, "Status") {
                    status = Some(fields[i].1.duplicate());
                } else if str_eq(name, "Value") {
                    decimal_value = Some(fields[i].1.duplicate());
                } else if str_eq(name, "Variant") {
                    variant = Some(fields[i].1.duplicate());
                }
                i = i + 1;
            }
            assert(field_models(fields@).subrange(0, fields@.len() as int) =~= field_models(fields@));
            let status = match status {
                Some(s) => s,
                None => {
                    return Err(error(missing_field_text(ty_name, "Status"), span));
                },
            };
            let decimal_value = match decimal_value {
                Some(s) => s,
                None => {
                    return Err(error(missing_field_text(ty_name, "Value"), span));
                },
            };
            let variant = match variant {
                Some(s) => s,
                None => {
                    return Err(error(missing_field_text(ty_name, "Variant"), span));
                },
            };
            let mut out: Vec<(String, ConstValue)> = Vec::new();
            out.push((owned("Status"), status));
            out.push((owned("Value"), decimal_value));
            out.push((owned("Variant"), variant));
            let r = ConstValue::Struct { type_path: owned(ty_name), fields: out };
            proof {
                lemma_struct_model(r);
                assert(field_models(out@) =~= seq![
                    ("Status"@, status@),
                    ("Value"@, decimal_value@),
                    ("Variant"@, variant@),
                ]);
            }
            Ok(r)
        },
        _ => {
            let mut m = owned("cannot convert ");
            m.append(debug_value(&value).as_str());
            m.append(" to `");
            m.append(ty_name);
            m.append("`");
            Err(error(m, span))
        },
    }
}

pub open spec fn opt_value_model(v: Option<ConstValue>) -> Option<ConstModel> {
    match v {
        Some(x) => Some(x@),
        None => None,
    }
}

pub open spec fn bool_conversion(v: ConstModel) -> Result<ConstModel, Seq<char>> {
    match v {
        ConstModel::Bool(_) => Ok(v),
        ConstModel::Int(x) => Ok(ConstModel::Bool(x != 0)),
        ConstModel::Int32(x) => Ok(ConstModel::Bool(x != 0)),
        ConstModel::UInt(x) => Ok(ConstModel::Bool(x != 0)),
        other => Err("cannot convert "@ + debug_text(other) + " to `bool`"@),
    }
}

pub open spec fn char_conversion(v: ConstModel) -> Result<ConstModel, Seq<char>> {
    match v {
        ConstModel::Char(_) => Ok(v),
        ConstModel::Int(x) => if 0 <= x <= 0xffff {
            Ok(ConstModel::Char(x as u16))
        } else {
            Err("value `"@ + int_text(x as int) + "` does not fit in char"@)
        },
        ConstModel::Int32(x) => if 0 <= x <= 0xffff {
            Ok(ConstModel::Char(x as u16))
        } else {
            Err("value `"@ + int_text(x as int) + "` does not fit in char"@)
        },
        ConstModel::UInt(x) => if x <= 0xffff {
            Ok(ConstModel::Char(x as u16))
        } else {
            Err("value `"@ + nat_text(x as nat) + "` does not fit in char"@)
        },
        other => Err("cannot convert "@ + debug_text(other) + " to `char`"@),
    }
}

/// Whether an enum or struct value is already of the named type (by full name or simple name).
pub open spec fn already_of_type(v: ConstModel, name: Seq<char>) -> bool {
    match v {
        ConstModel::Enum { type_path, .. } => type_path == name || spec_simple_name(type_path)
            == spec_simple_name(name),
        ConstModel::Struct { type_path, .. } => type_path == name || spec_simple_name(type_path)
            == spec_simple_name(name),
        _ => false,
    }
}

/// Conversion of a value to the named type, chosen by the type's simple name without ASCII case;
/// `ptr_bits` is the width of `nint`/`nuint`. Floating-point and decimal targets are not
/// supported by this evaluator.
pub open spec fn named_conversion(
    v: ConstModel,
    name: Seq<char>,
    lit: Option<LiteralModel>,
    ptr_bits: u32,
) -> Result<ConstModel, Seq<char>> {
    let lower = lower_seq(spec_simple_name(name));
    if already_of_type(v, name) {
        Ok(v)
    } else if lower == "bool"@ {
        bool_conversion(v)
    } else if lower == "char"@ {
        char_conversion(v)
    } else if lower == "string"@ || lower == "str"@ {
        string_conversion(v)
    } else if lower == "sbyte"@ {
        signed_conversion(v, 8, lit, "sbyte"@)
    } else if lower == "byte"@ {
        unsigned_conversion(v, 8, lit, "byte"@)
    } else if lower == "short"@ {
        signed_conversion(v, 16, lit, "short"@)
    } else if lower == "ushort"@ {
        unsigned_conversion(v, 16, lit, "ushort"@)
    } else if lower == "int"@ {
        signed_conversion(v, 32, lit, "int"@)
    } else if lower == "uint"@ {
        unsigned_conversion(v, 32, lit, "uint"@)
    } else if lower == "nint"@ || lower == "isize"@ {
        signed_conversion(v, ptr_bits, lit, lower)
    } else if lower == "nuint"@ || lower == "usize"@ {
        unsigned_conversion(v, ptr_bits, lit, lower)
    } else if lower == "long"@ {
        signed_conversion(v, 64, lit, "long"@)
    } else if lower == "ulong"@ {
        unsigned_conversion(v, 64, lit, "ulong"@)
    } else if lower == "int128"@ || lower == "i128"@ {
        signed_conversion(v, 128, lit, "int128"@)
    } else if lower == "uint128"@ || lower == "u128"@ {
        unsigned_conversion(v, 128, lit, "uint128"@)
    } else if lower == "decimalintrinsicresult"@ {
        decimal_result_conversion(v, name)
    } else if contains_seq(lower, "int128"@) || contains_seq(lower, "i128"@) {
        signed_conversion(v, 128, lit, "int128"@)
    } else if contains_seq(lower, "uint128"@) || contains_seq(lower, "u128"@) {
        unsigned_conversion(v, 128, lit, "uint128"@)
    } else {
        Err("constants of type `"@ + lower + "` are not supported"@)
    }
}

fn convert_bool(value: ConstValue, span: Option<Span>) -> (r: Result<ConstValue, ConstEvalError>)
    ensures
        yields(r, bool_conversion(value@), span),
{
    match value {
        ConstValue::Bool(b) => Ok(ConstValue::Bool(b)),
        ConstValue::Int(x) | ConstValue::Int32(x) => Ok(ConstValue::Bool(x != 0)),
        ConstValue::UInt(x) => Ok(ConstValue::Bool(x != 0)),
        other => Err(error(framed_value_text("cannot convert ", &other, " to `bool`"), span)),
    }
}

fn convert_char(value: ConstValue, span: Option<Span>) -> (r: Result<ConstValue, ConstEvalError>)
    ensures
        yields(r, char_conversion(value@), span),
{
    match value {
        ConstValue::Char(c) => Ok(ConstValue::Char(c)),
        ConstValue::Int(x) | ConstValue::Int32(x) => if 0 <= x && x <= 0xffff {
            Ok(ConstValue::Char(x as u16))
        } else {
            let mut m = owned("value `");
            m.append(i128_text(x).as_str());
            m.append("` does not fit in char");
            Err(error(m, span))
        },
        ConstValue::UInt(x) => if x <= 0xffff {
            Ok(ConstValue::Char(x as u16))
        } else {
            let mut m = owned("value `");
            m.append(u128_text(x).as_str());
            m.append("` does not fit in char");
            Err(error(m, span))
        },
        other => Err(error(framed_value_text("cannot convert ", &other, " to `char`"), span)),
    }
}

fn is_already_of_type(value: &ConstValue, name: &str) -> (r: bool)
    ensures
        r == already_of_type(value@, name@),
{
    match value {
        ConstValue::Enum { type_path, .. } | ConstValue::Struct { type_path, .. } => str_eq(
            type_path.as_str(),
            name,
        ) || str_eq(simple_name(type_path.as_str()), simple_name(name)),
        _ => false,
    }
}

/// Converts a value to the named type (see `named_conversion`).
pub fn convert_named_value(
    value: ConstValue,
    name: &str,
    literal: Option<&NumericLiteralMetadata>,
    pointer_bits: u32,
    span: Option<Span>,
) -> (r: Result<ConstValue, ConstEvalError>)
    requires
        1 <= pointer_bits <= 128,
    ensures
        yields(r, named_conversion(value@, name@, lit_model(literal), pointer_bits), span),
{
    let base = simple_name(name);
    let lower = to_ascii_lower(base);
    let l = lower.as_str();
    if is_already_of_type(&value, name) {
        return Ok(value);
    }
    if str_eq(l, "bool") {
        convert_bool(value, span)
    } else if str_eq(l, "char") {
        convert_char(value, span)
    } else if str_eq(l, "string") || str_eq(l, "str") {
        convert_string(value, span)
    } else if str_eq(l, "sbyte") {
        convert_signed(value, 8, literal, "sbyte", span)
    } else if str_eq(l, "byte") {
        convert_unsigned(value, 8, literal, "byte", span)
    } else if str_eq(l, "short") {
        convert_signed(value, 16, literal, "short", span)
    } else if str_eq(l, "ushort") {
        convert_unsigned(value, 16, literal, "ushort", span)
    } else if str_eq(l, "int") {
        convert_signed(value, 32, literal, "int", span)
    } else if str_eq(l, "uint") {
        convert_unsigned(value, 32, literal, "uint", span)
    } else if str_eq(l, "nint") || str_eq(l, "isize") {
        convert_signed(value, pointer_bits, literal, l, span)
    } else if str_eq(l, "nuint") || str_eq(l, "usize") {
        convert_unsigned(value, pointer_bits, literal, l, span)
    } else if str_eq(l, "long") {
        convert_signed(value, 64, literal, "long", span)
    } else if str_eq(l, "ulong") {
        convert_unsigned(value, 64, literal, "ulong", span)
    } else if str_eq(l, "int128") || str_eq(l, "i128") {
        convert_signed(value, 128, literal, "int128", span)
    } else if str_eq(l, "uint128") || str_eq(l, "u128") {
        convert_unsigned(value, 128, literal, "uint128", span)
    } else if str_eq(l, "decimalintrinsicresult") {
        convert_decimal_intrinsic_result(value, name, span)
    } else if contains_str(l, "int128") || contains_str(l, "i128") {
        convert_signed(value, 128, literal, "int128", span)
    } else if contains_str(l, "uint128") || contains_str(l, "u128") {
        convert_unsigned(value, 128, literal, "uint128", span)
    } else {
        let mut m = owned("constants of type `");
        m.append(l);
        m.append("` are not supported");
        Err(error(m, span))
    }
}

/// Conversion of a value to a type.
pub open spec fn type_conversion(v: ConstModel, lit: Option<LiteralModel>, ty: Ty, ptr_bits: u32) -> Result<
    ConstModel,
    Seq<char>,
>
    decreases ty,
{
    match ty {
        Ty::Named { name, .. } => named_conversion(v, name@, lit, ptr_bits),
        Ty::String | Ty::Str => string_conversion(v),
        Ty::Nullable(inner) => if v is Null {
            Ok(v)
        } else {
            type_conversion(v, lit, *inner, ptr_bits)
        },
        Ty::Unit => if v is Unit {
            Ok(v)
        } else {
            Err("expected unit value, found "@ + debug_text(v))
        },
        _ => Err("constant declarations of type `"@ + canonical(ty) + "` are not yet supported"@),
    }
}

/// Converts a value to a type (see `type_conversion`).
pub fn convert_value_to_type(
    value: ConstValue,
    literal: Option<&NumericLiteralMetadata>,
    ty: &Ty,
    pointer_bits: u32,
    span: Option<Span>,
) -> (r: Result<ConstValue, ConstEvalError>)
    requires
        1 <= pointer_bits <= 128,
    ensures
        yields(r, type_conversion(value@, lit_model(literal), *ty, pointer_bits), span),
    decreases ty,
{
    match ty {
        Ty::Named { name, .. } => convert_named_value(value, name.as_str(), literal, pointer_bits, span),
        Ty::String | Ty::Str => convert_string(value, span),
        Ty::Nullable(inner) => match value {
            ConstValue::Null => Ok(ConstValue::Null),
            other => convert_value_to_type(other, literal, inner, pointer_bits, span),
        },
        Ty::Unit => match value {
            ConstValue::Unit => Ok(ConstValue::Unit),
            other => Err(error(value_text("expected unit value, found ", &other), span)),
        },
        _ => {
            let mut m = owned("constant declarations of type `");
            m.append(canonical_name(ty).as_str());
            m.append("` are not yet supported");
            Err(error(m, span))
        },
    }
}

} // verus!
