use vstd::prelude::*;

use crate::ast::BinOp;
use crate::ast::{AssignOp, ExprNode, LiteralConst, UnOp};
use crate::quote::{QuoteNodeKindValue, assign_text, binary_text, kind_descriptor, node_kind, unary_text};
use crate::interp::{block_outcome, body_expr_outcome, pure_outcome, stmt_outcome, view_lookup};
use crate::ast::{Statement, StatementKind};
use crate::ops::{arith_overflow_message, binary_spec, compare_spec, named_conversion, trunc_div, trunc_rem, two_pow, unary_spec};
use crate::text::{last_segment_start, lower_seq, spec_simple_name};
use crate::values::{LiteralModel, ResultModel};
use crate::ast::SizeOfOperand;
use crate::layout::{TypeLayoutTable, layout_names, primitive_names};
use crate::lookup::size_query_outcome;
use crate::text::is_first;
use crate::types::{trim, type_text_valid, valid_type_name};
use crate::reflection::{
    MemberKind, ParameterMode, TypeKind, VisibilityDescriptor, member_kind_value, parameter_mode_value,
    type_kind_value, visibility_value,
};
use crate::values::ConstModel;

verus! {

/// `+`, `-` and `*` on signed constants are the integer operations on the left and right
/// operands, in that order, failing exactly when the result leaves the 128-bit range.
pub proof fn law_signed_arithmetic(a: i128, b: i128)
    ensures
        binary_spec(BinOp::Add, ConstModel::Int(a), ConstModel::Int(b)) == if i128::MIN <= a + b <= i128::MAX {
            Ok::<ConstModel, Seq<char>>(ConstModel::Int((a + b) as i128))
        } else {
            Err(arith_overflow_message())
        },
        binary_spec(BinOp::Sub, ConstModel::Int(a), ConstModel::Int(b)) == if i128::MIN <= a - b <= i128::MAX {
            Ok::<ConstModel, Seq<char>>(ConstModel::Int((a - b) as i128))
        } else {
            Err(arith_overflow_message())
        },
        binary_spec(BinOp::Mul, ConstModel::Int(a), ConstModel::Int(b)) == if i128::MIN <= a * b <= i128::MAX {
            Ok::<ConstModel, Seq<char>>(ConstModel::Int((a * b) as i128))
        } else {
            Err(arith_overflow_message())
        },
{
}

/// Subtraction undoes addition: when `a - b` is `c`, `c + b` is `a`; and `b - a` is its
/// negation.
pub proof fn law_sub_undoes_add(a: i128, b: i128, c: i128)
    requires
        binary_spec(BinOp::Sub, ConstModel::Int(a), ConstModel::Int(b)) == Ok::<ConstModel, Seq<char>>(
            ConstModel::Int(c),
        ),
    ensures
        binary_spec(BinOp::Add, ConstModel::Int(c), ConstModel::Int(b)) == Ok::<ConstModel, Seq<char>>(
            ConstModel::Int(a),
        ),
        c != i128::MIN ==> binary_spec(BinOp::Sub, ConstModel::Int(b), ConstModel::Int(a)) == Ok::<
            ConstModel,
            Seq<char>,
        >(ConstModel::Int((-c) as i128)),
{
    law_signed_arithmetic(a, b);
    law_signed_arithmetic(c, b);
    law_signed_arithmetic(b, a);
}

/// Addition and multiplication do not depend on the order of the operands.
pub proof fn law_add_mul_commute(l: ConstModel, r: ConstModel)
    ensures
        binary_spec(BinOp::Add, l, r) is Ok ==> binary_spec(BinOp::Add, l, r) == binary_spec(BinOp::Add, r, l),
        binary_spec(BinOp::Mul, l, r) is Ok ==> binary_spec(BinOp::Mul, l, r) == binary_spec(BinOp::Mul, r, l),
{
    if crate::ops::signed_of(l) is Some && crate::ops::signed_of(r) is Some {
        vstd::arithmetic::mul::lemma_mul_is_commutative(
            crate::ops::signed_of(l)->0 as int,
            crate::ops::signed_of(r)->0 as int,
        );
    }
    if let (ConstModel::UInt(a), ConstModel::UInt(b)) = (l, r) {
        vstd::arithmetic::mul::lemma_mul_is_commutative(crate::ops::clamped(a), crate::ops::clamped(b));
    }
}

/// `+`, `-` and `*` on unsigned constants (each at most the largest signed 128-bit value) are
/// the integer operations, failing exactly when the result is negative or too large.
pub proof fn law_unsigned_arithmetic(a: u128, b: u128)
    requires
        a <= i128::MAX,
        b <= i128::MAX,
    ensures
        binary_spec(BinOp::Add, ConstModel::UInt(a), ConstModel::UInt(b)) == if a + b <= i128::MAX {
            Ok::<ConstModel, Seq<char>>(ConstModel::UInt((a + b) as u128))
        } else {
            Err(arith_overflow_message())
        },
        binary_spec(BinOp::Sub, ConstModel::UInt(a), ConstModel::UInt(b)) == if a >= b {
            Ok::<ConstModel, Seq<char>>(ConstModel::UInt((a - b) as u128))
        } else {
            Err(arith_overflow_message())
        },
        binary_spec(BinOp::Mul, ConstModel::UInt(a), ConstModel::UInt(b)) == if a * b <= i128::MAX {
            Ok::<ConstModel, Seq<char>>(ConstModel::UInt((a * b) as u128))
        } else {
            Err(arith_overflow_message())
        },
{
    assert(0 <= a * b) by (nonlinear_arith)
        requires
            0 <= a,
            0 <= b,
    ;
}

/// The ordering operators on two signed or two unsigned constants are the integer orderings of
/// the left operand against the right one.
pub proof fn law_orderings(a: i128, b: i128, x: u128, y: u128)
    ensures
        compare_spec(BinOp::Lt, ConstModel::Int(a), ConstModel::Int(b)) == Ok::<ConstModel, Seq<char>>(
            ConstModel::Bool(a < b),
        ),
        compare_spec(BinOp::Le, ConstModel::Int(a), ConstModel::Int(b)) == Ok::<ConstModel, Seq<char>>(
            ConstModel::Bool(a <= b),
        ),
        compare_spec(BinOp::Gt, ConstModel::Int(a), ConstModel::Int(b)) == Ok::<ConstModel, Seq<char>>(
            ConstModel::Bool(a > b),
        ),
        compare_spec(BinOp::Ge, ConstModel::Int(a), ConstModel::Int(b)) == Ok::<ConstModel, Seq<char>>(
            ConstModel::Bool(a >= b),
        ),
        compare_spec(BinOp::Lt, ConstModel::UInt(x), ConstModel::UInt(y)) == Ok::<ConstModel, Seq<char>>(
            ConstModel::Bool(x < y),
        ),
        compare_spec(BinOp::Le, ConstModel::UInt(x), ConstModel::UInt(y)) == Ok::<ConstModel, Seq<char>>(
            ConstModel::Bool(x <= y),
        ),
        compare_spec(BinOp::Gt, ConstModel::UInt(x), ConstModel::UInt(y)) == Ok::<ConstModel, Seq<char>>(
            ConstModel::Bool(x > y),
        ),
        compare_spec(BinOp::Ge, ConstModel::UInt(x), ConstModel::UInt(y)) == Ok::<ConstModel, Seq<char>>(
            ConstModel::Bool(x >= y),
        ),
        binary_spec(BinOp::Eq, ConstModel::Int(a), ConstModel::Int(b)) == Ok::<ConstModel, Seq<char>>(
            ConstModel::Bool(a == b),
        ),
        binary_spec(BinOp::Ne, ConstModel::Int(a), ConstModel::Int(b)) == Ok::<ConstModel, Seq<char>>(
            ConstModel::Bool(a != b),
        ),
{
}

/// `<=` is reflexive and is `<` or `==`; `>=` is likewise `>` or `==`; and `a < b` is `b > a`.
pub proof fn law_ordering_relations(l: ConstModel, r: ConstModel)
    requires
        (l is Int && r is Int) || (l is UInt && r is UInt),
    ensures
        compare_spec(BinOp::Le, l, l) == Ok::<ConstModel, Seq<char>>(ConstModel::Bool(true)),
        compare_spec(BinOp::Ge, l, l) == Ok::<ConstModel, Seq<char>>(ConstModel::Bool(true)),
        compare_spec(BinOp::Lt, l, l) == Ok::<ConstModel, Seq<char>>(ConstModel::Bool(false)),
        compare_spec(BinOp::Le, l, r) == Ok::<ConstModel, Seq<char>>(
            ConstModel::Bool(
                compare_spec(BinOp::Lt, l, r) == Ok::<ConstModel, Seq<char>>(ConstModel::Bool(true))
                    || binary_spec(BinOp::Eq, l, r) == Ok::<ConstModel, Seq<char>>(ConstModel::Bool(true)),
            ),
        ),
        compare_spec(BinOp::Ge, l, r) == Ok::<ConstModel, Seq<char>>(
            ConstModel::Bool(
                compare_spec(BinOp::Gt, l, r) == Ok::<ConstModel, Seq<char>>(ConstModel::Bool(true))
                    || binary_spec(BinOp::Eq, l, r) == Ok::<ConstModel, Seq<char>>(ConstModel::Bool(true)),
            ),
        ),
        compare_spec(BinOp::Lt, l, r) == compare_spec(BinOp::Gt, r, l),
        compare_spec(BinOp::Le, l, r) == compare_spec(BinOp::Ge, r, l),
{
    match (l, r) {
        (ConstModel::Int(a), ConstModel::Int(b)) => {
            law_orderings(a, b, 0, 0);
            law_orderings(b, a, 0, 0);
            law_orderings(a, a, 0, 0);
        },
        (ConstModel::UInt(x), ConstModel::UInt(y)) => {
            law_orderings(0, 0, x, y);
            law_orderings(0, 0, y, x);
            law_orderings(0, 0, x, x);
        },
        _ => {},
    }
}

/// The powers of two that bound the 8-, 16-, 32- and 64-bit integer types.
proof fn lemma_type_bounds()
    ensures
        two_pow(7) == 128,
        two_pow(8) == 256,
        two_pow(15) == 32768,
        two_pow(16) == 65536,
        two_pow(31) == 2147483648,
        two_pow(32) == 4294967296,
        two_pow(63) == 9223372036854775808,
        two_pow(64) == 18446744073709551616,
{
    reveal_with_fuel(two_pow, 9);
    crate::ops::lemma_two_pow_add(8, 7);
    crate::ops::lemma_two_pow_add(8, 8);
    assert(two_pow(15) == 32768);
    assert(two_pow(16) == 65536);
    crate::ops::lemma_two_pow_add(16, 15);
    assert(two_pow(31) == 65536 * 32768);
    crate::ops::lemma_two_pow_add(16, 16);
    assert(two_pow(32) == 65536 * 65536);
    crate::ops::lemma_two_pow_add(32, 31);
    crate::ops::lemma_two_pow_add(32, 32);
}

/// A name without `:` is its own last segment.
proof fn lemma_no_colon_start(s: Seq<char>)
    requires
        forall|i: int| 0 <= i < s.len() ==> s[i] != ':',
    ensures
        last_segment_start(s) == 0,
    decreases s.len(),
{
    if s.len() >= 2 {
        lemma_no_colon_start(s.drop_last());
    }
}

/// A name of lower-case letters is its own simple, lower-case name.
proof fn lemma_plain_name(s: Seq<char>)
    requires
        forall|i: int| 0 <= i < s.len() ==> 'a' <= #[trigger] s[i] <= 'z',
    ensures
        lower_seq(spec_simple_name(s)) == s,
{
    lemma_no_colon_start(s);
    assert(spec_simple_name(s) =~= s);
    assert(lower_seq(s) =~= s);
}

/// Converting a signed integer to a named integer type keeps its value exactly when it lies in
/// the type's range, and fails otherwise: `sbyte`, `short`, `int` and `long` are signed types of
/// 8, 16, 32 and 64 bits; `byte`, `ushort`, `uint` and `ulong` unsigned types of as many bits.
#[verifier::rlimit(60)]
#[verifier::spinoff_prover]
pub proof fn law_integer_conversions(v: i128, lit: Option<LiteralModel>, p: u32)
    ensures
        -128 <= v <= 127 ==> named_conversion(ConstModel::Int(v), "sbyte"@, lit, p) == Ok::<ConstModel, Seq<char>>(
            ConstModel::Int(v),
        ),
        named_conversion(ConstModel::Int(v), "sbyte"@, lit, p) is Ok <==> -128 <= v <= 127,
        -32768 <= v <= 32767 ==> named_conversion(ConstModel::Int(v), "short"@, lit, p) == Ok::<ConstModel, Seq<char>>(
            ConstModel::Int(v),
        ),
        named_conversion(ConstModel::Int(v), "short"@, lit, p) is Ok <==> -32768 <= v <= 32767,
        -2147483648 <= v <= 2147483647 ==> named_conversion(ConstModel::Int(v), "int"@, lit, p) == Ok::<ConstModel, Seq<char>>(
            ConstModel::Int(v),
        ),
        named_conversion(ConstModel::Int(v), "int"@, lit, p) is Ok <==> -2147483648 <= v <= 2147483647,
        -9223372036854775808 <= v <= 9223372036854775807 ==> named_conversion(ConstModel::Int(v), "long"@, lit, p) == Ok::<ConstModel, Seq<char>>(
            ConstModel::Int(v),
        ),
        named_conversion(ConstModel::Int(v), "long"@, lit, p) is Ok <==> -9223372036854775808 <= v
            <= 9223372036854775807,
        0 <= v <= 255 ==> named_conversion(ConstModel::Int(v), "byte"@, lit, p) == Ok::<ConstModel, Seq<char>>(
            ConstModel::UInt(v as u128),
        ),
        named_conversion(ConstModel::Int(v), "byte"@, lit, p) is Ok <==> 0 <= v <= 255,
        0 <= v <= 65535 ==> named_conversion(ConstModel::Int(v), "ushort"@, lit, p) == Ok::<ConstModel, Seq<char>>(
            ConstModel::UInt(v as u128),
        ),
        named_conversion(ConstModel::Int(v), "ushort"@, lit, p) is Ok <==> 0 <= v <= 65535,
        0 <= v <= 4294967295 ==> named_conversion(ConstModel::Int(v), "uint"@, lit, p) == Ok::<ConstModel, Seq<char>>(
            ConstModel::UInt(v as u128),
        ),
        named_conversion(ConstModel::Int(v), "uint"@, lit, p) is Ok <==> 0 <= v <= 4294967295,
        0 <= v <= 18446744073709551615 ==> named_conversion(ConstModel::Int(v), "ulong"@, lit, p) == Ok::<ConstModel, Seq<char>>(
            ConstModel::UInt(v as u128),
        ),
        named_conversion(ConstModel::Int(v), "ulong"@, lit, p) is Ok <==> 0 <= v <= 18446744073709551615,
{
    lemma_type_bounds();
    reveal_strlit("bool");
    reveal_strlit("char");
    reveal_strlit("string");
    reveal_strlit("str");
    reveal_strlit("sbyte");
    reveal_strlit("byte");
    reveal_strlit("short");
    reveal_strlit("ushort");
    reveal_strlit("int");
    reveal_strlit("uint");
    reveal_strlit("nint");
    reveal_strlit("isize");
    reveal_strlit("nuint");
    reveal_strlit("usize");
    reveal_strlit("long");
    reveal_strlit("ulong");
    lemma_plain_name("sbyte"@);
    lemma_plain_name("short"@);
    lemma_plain_name("int"@);
    lemma_plain_name("long"@);
    lemma_plain_name("byte"@);
    lemma_plain_name("ushort"@);
    lemma_plain_name("uint"@);
    lemma_plain_name("ulong"@);
}

/// `sizeof(T)` is the size and `alignof(T)` the alignment recorded in the first layout
/// registered under the plain type name `T`, where no primitive type has that name and the
/// layout records both.
pub proof fn law_sizeof_alignof_read_layout(
    t: TypeLayoutTable,
    text: String,
    namespace: Option<Seq<char>>,
    i: int,
    size_r: Result<ResultModel, Seq<char>>,
    align_r: Result<ResultModel, Seq<char>>,
)
    requires
        trim(text@) == text@,
        valid_type_name(text@),
        type_text_valid(text@),
        text@.last() != '?' && text@.last() != '*' && text@.last() != ']',
        text@ != "string"@ && text@ != "str"@ && text@ != "void"@,
        is_first(layout_names(t.types@), text@, i),
        forall|k: int| 0 <= k < t.primitives@.len() ==> (#[trigger] t.primitives@[k]).name@ != text@,
        t.types@[i].size is Some,
        t.types@[i].align is Some,
        size_query_outcome(t, SizeOfOperand::Type(text), namespace, true, size_r),
        size_query_outcome(t, SizeOfOperand::Type(text), namespace, false, align_r),
    ensures
        size_r == Ok::<ResultModel, Seq<char>>(
            ResultModel { value: ConstModel::UInt(t.types@[i].size->0 as u128), literal: None },
        ),
        align_r == Ok::<ResultModel, Seq<char>>(
            ResultModel { value: ConstModel::UInt(t.types@[i].align->0 as u128), literal: None },
        ),
{
    crate::text::lemma_first_match(layout_names(t.types@), text@, i);
    assert forall|k: int| 0 <= k < primitive_names(t.primitives@).len() implies primitive_names(
        t.primitives@,
    )[k] != text@ by {
        assert(primitive_names(t.primitives@)[k] == t.primitives@[k].name@);
    }
    crate::text::lemma_no_match(primitive_names(t.primitives@), text@);
    assert(layout_names(t.types@)[i] == t.types@[i].name@);
    let tr = trim(text@);
    assert(tr == text@);
    let ty = choose|ty: crate::types::Ty|
        #![trigger crate::types::type_denoted(tr, ty)]
        crate::types::type_denoted(tr, ty) && match crate::layout::spec_ty_sa(t, ty, namespace) {
            Some(p) => size_r == Ok::<ResultModel, Seq<char>>(
                ResultModel { value: ConstModel::UInt(p.0 as u128), literal: None },
            ),
            None => size_r is Err,
        };
    assert(ty is Named && crate::types::canonical(ty) == text@);
    let ty2 = choose|ty: crate::types::Ty|
        #![trigger crate::types::type_denoted(tr, ty)]
        crate::types::type_denoted(tr, ty) && match crate::layout::spec_ty_sa(t, ty, namespace) {
            Some(p) => align_r == Ok::<ResultModel, Seq<char>>(
                ResultModel { value: ConstModel::UInt(p.1 as u128), literal: None },
            ),
            None => align_r is Err,
        };
    assert(ty2 is Named && crate::types::canonical(ty2) == text@);
}

/// A type kind reflects to the `Std::Meta::TypeKind` variant of its own name, numbered by its
/// position in declaration order (`Struct` first, at 0); distinct kinds reflect to distinct
/// variants with distinct numbers.
pub proof fn law_type_kind_reflection(a: TypeKind, b: TypeKind)
    ensures
        type_kind_value(TypeKind::Struct) == (ConstModel::Enum {
            type_path: "Std::Meta::TypeKind"@,
            variant: "Struct"@,
            discriminant: 0,
        }),
        type_kind_value(TypeKind::Record) == (ConstModel::Enum {
            type_path: "Std::Meta::TypeKind"@,
            variant: "Record"@,
            discriminant: 1,
        }),
        type_kind_value(TypeKind::Class) == (ConstModel::Enum {
            type_path: "Std::Meta::TypeKind"@,
            variant: "Class"@,
            discriminant: 2,
        }),
        type_kind_value(TypeKind::Enum) == (ConstModel::Enum {
            type_path: "Std::Meta::TypeKind"@,
            variant: "Enum"@,
            discriminant: 3,
        }),
        type_kind_value(TypeKind::Interface) == (ConstModel::Enum {
            type_path: "Std::Meta::TypeKind"@,
            variant: "Interface"@,
            discriminant: 4,
        }),
        type_kind_value(TypeKind::Union) == (ConstModel::Enum {
            type_path: "Std::Meta::TypeKind"@,
            variant: "Union"@,
            discriminant: 5,
        }),
        type_kind_value(TypeKind::Extension) == (ConstModel::Enum {
            type_path: "Std::Meta::TypeKind"@,
            variant: "Extension"@,
            discriminant: 6,
        }),
        type_kind_value(TypeKind::Trait) == (ConstModel::Enum {
            type_path: "Std::Meta::TypeKind"@,
            variant: "Trait"@,
            discriminant: 7,
        }),
        type_kind_value(TypeKind::Delegate) == (ConstModel::Enum {
            type_path: "Std::Meta::TypeKind"@,
            variant: "Delegate"@,
            discriminant: 8,
        }),
        type_kind_value(TypeKind::Impl) == (ConstModel::Enum {
            type_path: "Std::Meta::TypeKind"@,
            variant: "Impl"@,
            discriminant: 9,
        }),
        type_kind_value(TypeKind::Function) == (ConstModel::Enum {
            type_path: "Std::Meta::TypeKind"@,
            variant: "Function"@,
            discriminant: 10,
        }),
        type_kind_value(TypeKind::Const) == (ConstModel::Enum {
            type_path: "Std::Meta::TypeKind"@,
            variant: "Const"@,
            discriminant: 11,
        }),
        type_kind_value(TypeKind::Static) == (ConstModel::Enum {
            type_path: "Std::Meta::TypeKind"@,
            variant: "Static"@,
            discriminant: 12,
        }),
        type_kind_value(a) matches ConstModel::Enum { type_path, discriminant, .. }
            && type_path == "Std::Meta::TypeKind"@ && 0 <= discriminant <= 12,
        a != b ==> type_kind_value(a)->discriminant != type_kind_value(b)->discriminant,
        a != b ==> type_kind_value(a)->variant != type_kind_value(b)->variant,
{
    reveal_strlit("Struct");
    reveal_strlit("Record");
    reveal_strlit("Class");
    reveal_strlit("Enum");
    reveal_strlit("Interface");
    reveal_strlit("Union");
    reveal_strlit("Extension");
    reveal_strlit("Trait");
    reveal_strlit("Delegate");
    reveal_strlit("Impl");
    reveal_strlit("Function");
    reveal_strlit("Const");
    reveal_strlit("Static");
    let va = type_kind_value(a)->variant;
    let vb = type_kind_value(b)->variant;
    if a != b && va == vb {
        assert(va.len() == vb.len() && va[0] == vb[0] && va[2] == vb[2]);
        match a {
            TypeKind::Struct => {},
            TypeKind::Record => {},
            TypeKind::Class => {},
            TypeKind::Enum => {},
            TypeKind::Interface => {},
            TypeKind::Union => {},
            TypeKind::Extension => {},
            TypeKind::Trait => {},
            TypeKind::Delegate => {},
            TypeKind::Impl => {},
            TypeKind::Function => {},
            TypeKind::Const => {},
            TypeKind::Static => {},
        }
    }
}

/// A member kind reflects to the `Std::Meta::MemberKind` variant of its own name, numbered by its position in
/// declaration order; distinct values reflect to distinct variants with distinct numbers.
pub proof fn law_member_kind_reflection(a: MemberKind, b: MemberKind)
    ensures
        member_kind_value(MemberKind::Field) == (ConstModel::Enum {
            type_path: "Std::Meta::MemberKind"@,
            variant: "Field"@,
            discriminant: 0,
        }),
        member_kind_value(MemberKind::Property) == (ConstModel::Enum {
            type_path: "Std::Meta::MemberKind"@,
            variant: "Property"@,
            discriminant: 1,
        }),
        member_kind_value(MemberKind::Method) == (ConstModel::Enum {
            type_path: "Std::Meta::MemberKind"@,
            variant: "Method"@,
            discriminant: 2,
        }),
        member_kind_value(MemberKind::Constructor) == (ConstModel::Enum {
            type_path: "Std::Meta::MemberKind"@,
            variant: "Constructor"@,
            discriminant: 3,
        }),
        member_kind_value(MemberKind::Const) == (ConstModel::Enum {
            type_path: "Std::Meta::MemberKind"@,
            variant: "Const"@,
            discriminant: 4,
        }),
        member_kind_value(MemberKind::EnumVariant) == (ConstModel::Enum {
            type_path: "Std::Meta::MemberKind"@,
            variant: "EnumVariant"@,
            discriminant: 5,
        }),
        member_kind_value(MemberKind::UnionField) == (ConstModel::Enum {
            type_path: "Std::Meta::MemberKind"@,
            variant: "UnionField"@,
            discriminant: 6,
        }),
        member_kind_value(MemberKind::UnionView) == (ConstModel::Enum {
            type_path: "Std::Meta::MemberKind"@,
            variant: "UnionView"@,
            discriminant: 7,
        }),
        member_kind_value(MemberKind::AssociatedType) == (ConstModel::Enum {
            type_path: "Std::Meta::MemberKind"@,
            variant: "AssociatedType"@,
            discriminant: 8,
        }),
        member_kind_value(MemberKind::ExtensionMethod) == (ConstModel::Enum {
            type_path: "Std::Meta::MemberKind"@,
            variant: "ExtensionMethod"@,
            discriminant: 9,
        }),
        member_kind_value(MemberKind::TraitMethod) == (ConstModel::Enum {
            type_path: "Std::Meta::MemberKind"@,
            variant: "TraitMethod"@,
            discriminant: 10,
        }),
        a != b ==> member_kind_value(a)->discriminant != member_kind_value(b)->discriminant,
        a != b ==> member_kind_value(a)->variant != member_kind_value(b)->variant,
{
    reveal_strlit("Field");
    reveal_strlit("Property");
    reveal_strlit("Method");
    reveal_strlit("Constructor");
    reveal_strlit("Const");
    reveal_strlit("EnumVariant");
    reveal_strlit("UnionField");
    reveal_strlit("UnionView");
    reveal_strlit("AssociatedType");
    reveal_strlit("ExtensionMethod");
    reveal_strlit("TraitMethod");
    let va = member_kind_value(a)->variant;
    let vb = member_kind_value(b)->variant;
    if a != b && va == vb {
        assert(va.len() == vb.len() && va[0] == vb[0] && va[2] == vb[2]);
        match a {
            MemberKind::Field => {},
            MemberKind::Property => {},
            MemberKind::Method => {},
            MemberKind::Constructor => {},
            MemberKind::Const => {},
            MemberKind::EnumVariant => {},
            MemberKind::UnionField => {},
            MemberKind::UnionView => {},
            MemberKind::AssociatedType => {},
            MemberKind::ExtensionMethod => {},
            MemberKind::TraitMethod => {},
        }
    }
}

/// A visibility reflects to the `Std::Meta::VisibilityDescriptor` variant of its own name, numbered by its position in
/// declaration order; distinct values reflect to distinct variants with distinct numbers.
pub proof fn law_visibility_reflection(a: VisibilityDescriptor, b: VisibilityDescriptor)
    ensures
        visibility_value(VisibilityDescriptor::Public) == (ConstModel::Enum {
            type_path: "Std::Meta::VisibilityDescriptor"@,
            variant: "Public"@,
            discriminant: 0,
        }),
        visibility_value(VisibilityDescriptor::Internal) == (ConstModel::Enum {
            type_path: "Std::Meta::VisibilityDescriptor"@,
            variant: "Internal"@,
            discriminant: 1,
        }),
        visibility_value(VisibilityDescriptor::Protected) == (ConstModel::Enum {
            type_path: "Std::Meta::VisibilityDescriptor"@,
            variant: "Protected"@,
            discriminant: 2,
        }),
        visibility_value(VisibilityDescriptor::Private) == (ConstModel::Enum {
            type_path: "Std::Meta::VisibilityDescriptor"@,
            variant: "Private"@,
            discriminant: 3,
        }),
        visibility_value(VisibilityDescriptor::ProtectedInternal) == (ConstModel::Enum {
            type_path: "Std::Meta::VisibilityDescriptor"@,
            variant: "ProtectedInternal"@,
            discriminant: 4,
        }),
        visibility_value(VisibilityDescriptor::PrivateProtected) == (ConstModel::Enum {
            type_path: "Std::Meta::VisibilityDescriptor"@,
            variant: "PrivateProtected"@,
            discriminant: 5,
        }),
        a != b ==> visibility_value(a)->discriminant != visibility_value(b)->discriminant,
        a != b ==> visibility_value(a)->variant != visibility_value(b)->variant,
{
    reveal_strlit("Public");
    reveal_strlit("Internal");
    reveal_strlit("Protected");
    reveal_strlit("Private");
    reveal_strlit("ProtectedInternal");
    reveal_strlit("PrivateProtected");
    let va = visibility_value(a)->variant;
    let vb = visibility_value(b)->variant;
    if a != b && va == vb {
        assert(va.len() == vb.len() && va[0] == vb[0] && va[2] == vb[2]);
        match a {
            VisibilityDescriptor::Public => {},
            VisibilityDescriptor::Internal => {},
            VisibilityDescriptor::Protected => {},
            VisibilityDescriptor::Private => {},
            VisibilityDescriptor::ProtectedInternal => {},
            VisibilityDescriptor::PrivateProtected => {},
        }
    }
}

/// A parameter mode reflects to the `Std::Meta::ParameterMode` variant of its own name, numbered by its position in
/// declaration order; distinct values reflect to distinct variants with distinct numbers.
pub proof fn law_parameter_mode_reflection(a: ParameterMode, b: ParameterMode)
    ensures
        parameter_mode_value(ParameterMode::In) == (ConstModel::Enum {
            type_path: "Std::Meta::ParameterMode"@,
            variant: "In"@,
            discriminant: 0,
        }),
        parameter_mode_value(ParameterMode::Ref) == (ConstModel::Enum {
            type_path: "Std::Meta::ParameterMode"@,
            variant: "Ref"@,
            discriminant: 1,
        }),
        parameter_mode_value(ParameterMode::Out) == (ConstModel::Enum {
            type_path: "Std::Meta::ParameterMode"@,
            variant: "Out"@,
            discriminant: 2,
        }),
        parameter_mode_value(ParameterMode::Value) == (ConstModel::Enum {
            type_path: "Std::Meta::ParameterMode"@,
            variant: "Value"@,
            discriminant: 3,
        }),
        a != b ==> parameter_mode_value(a)->discriminant != parameter_mode_value(b)->discriminant,
        a != b ==> parameter_mode_value(a)->variant != parameter_mode_value(b)->variant,
{
    reveal_strlit("In");
    reveal_strlit("Ref");
    reveal_strlit("Out");
    reveal_strlit("Value");
    let va = parameter_mode_value(a)->variant;
    let vb = parameter_mode_value(b)->variant;
    if a != b && va == vb {
        assert(va.len() == vb.len() && va[0] == vb[0] && va[1] == vb[1]);
        match a {
            ParameterMode::In => {},
            ParameterMode::Ref => {},
            ParameterMode::Out => {},
            ParameterMode::Value => {},
        }
    }
}

/// `&`, `|` and `^` on two signed or two unsigned constants are the bitwise operations on their
/// two's-complement bits.
pub proof fn law_bitwise(a: i128, b: i128, x: u128, y: u128)
    ensures
        binary_spec(BinOp::BitAnd, ConstModel::Int(a), ConstModel::Int(b)) == Ok::<ConstModel, Seq<char>>(
            ConstModel::Int(a & b),
        ),
        binary_spec(BinOp::BitOr, ConstModel::Int(a), ConstModel::Int(b)) == Ok::<ConstModel, Seq<char>>(
            ConstModel::Int(a | b),
        ),
        binary_spec(BinOp::BitXor, ConstModel::Int(a), ConstModel::Int(b)) == Ok::<ConstModel, Seq<char>>(
            ConstModel::Int(a ^ b),
        ),
        binary_spec(BinOp::BitAnd, ConstModel::UInt(x), ConstModel::UInt(y)) == Ok::<ConstModel, Seq<char>>(
            ConstModel::UInt(x & y),
        ),
        binary_spec(BinOp::BitOr, ConstModel::UInt(x), ConstModel::UInt(y)) == Ok::<ConstModel, Seq<char>>(
            ConstModel::UInt(x | y),
        ),
        binary_spec(BinOp::BitXor, ConstModel::UInt(x), ConstModel::UInt(y)) == Ok::<ConstModel, Seq<char>>(
            ConstModel::UInt(x ^ y),
        ),
{
}

/// `<<` and `>>` by an amount below 128 shift the left operand's bits by that amount (bits
/// shifted out are lost, `>>` keeps the sign of a signed value); a larger amount fails.
pub proof fn law_shifts(x: i128, y: u128, s: i128)
    requires
        0 <= s,
    ensures
        s < 128 ==> binary_spec(BinOp::Shl, ConstModel::Int(x), ConstModel::Int(s)) == Ok::<ConstModel, Seq<char>>(
            ConstModel::Int(x << (s as u32)),
        ),
        s < 128 ==> binary_spec(BinOp::Shr, ConstModel::Int(x), ConstModel::Int(s)) == Ok::<ConstModel, Seq<char>>(
            ConstModel::Int(x >> (s as u32)),
        ),
        s < 128 ==> binary_spec(BinOp::Shl, ConstModel::UInt(y), ConstModel::Int(s)) == Ok::<ConstModel, Seq<char>>(
            ConstModel::UInt(y << (s as u32)),
        ),
        s < 128 ==> binary_spec(BinOp::Shr, ConstModel::UInt(y), ConstModel::Int(s)) == Ok::<ConstModel, Seq<char>>(
            ConstModel::UInt(y >> (s as u32)),
        ),
        128 <= s <= u32::MAX ==> binary_spec(BinOp::Shl, ConstModel::Int(x), ConstModel::Int(s)) is Err,
        128 <= s <= u32::MAX ==> binary_spec(BinOp::Shr, ConstModel::Int(x), ConstModel::Int(s)) is Err,
{
}

/// `&&` and `||` on two booleans are conjunction and disjunction.
pub proof fn law_logical(p: bool, q: bool)
    ensures
        binary_spec(BinOp::And, ConstModel::Bool(p), ConstModel::Bool(q)) == Ok::<ConstModel, Seq<char>>(
            ConstModel::Bool(p && q),
        ),
        binary_spec(BinOp::Or, ConstModel::Bool(p), ConstModel::Bool(q)) == Ok::<ConstModel, Seq<char>>(
            ConstModel::Bool(p || q),
        ),
{
}

/// Prefix `-` negates a signed value (failing only at the minimum), `!` negates a boolean, and
/// `~` gives the value that adds up with the operand to all one bits: `-1` for a signed value,
/// the largest value for an unsigned one.
pub proof fn law_unary(x: i128, y: u128, p: bool)
    ensures
        x != i128::MIN ==> unary_spec(UnOp::Neg, false, ConstModel::Int(x)) == Ok::<ConstModel, Seq<char>>(
            ConstModel::Int((-x) as i128),
        ),
        x == i128::MIN ==> unary_spec(UnOp::Neg, false, ConstModel::Int(x)) is Err,
        unary_spec(UnOp::Not, false, ConstModel::Bool(p)) == Ok::<ConstModel, Seq<char>>(ConstModel::Bool(!p)),
        unary_spec(UnOp::BitNot, false, ConstModel::Int(x)) matches Ok(ConstModel::Int(c)) && x + c == -1,
        unary_spec(UnOp::BitNot, false, ConstModel::UInt(y)) matches Ok(ConstModel::UInt(c)) && y + c
            == u128::MAX,
{
}

/// Division rounding toward zero and its remainder: the quotient times the divisor plus the
/// remainder is the dividend, the remainder is smaller than the divisor in size and has the
/// sign of the dividend.
proof fn lemma_trunc_div_rem(x: int, d: int)
    requires
        d != 0,
    ensures
        trunc_div(x, d) * d + trunc_rem(x, d) == x,
        trunc_rem(x, d) == 0 || (trunc_rem(x, d) < 0) == (x < 0),
        -d < trunc_rem(x, d) < d || d < trunc_rem(x, d) < -d,
        (x >= 0) == (trunc_rem(x, d) >= 0) || trunc_rem(x, d) == 0,
        trunc_div(x, d) * trunc_div(x, d) <= x * x,
{
    if x == 0 {
    } else if x > 0 && d > 0 {
        vstd::arithmetic::div_mod::lemma_fundamental_div_mod(x, d);
        vstd::arithmetic::div_mod::lemma_mod_bound(x, d);
        vstd::arithmetic::div_mod::lemma_div_is_ordered_by_denominator(x, 1, d);
        vstd::arithmetic::div_mod::lemma_div_basics(x);
        vstd::arithmetic::div_mod::lemma_div_pos_is_pos(x, d);
        let q = x / d;
        assert(q * d == d * q) by (nonlinear_arith);
        assert(q * q <= x * x) by (nonlinear_arith)
            requires
                0 <= q <= x,
        ;
    } else if x < 0 && d < 0 {
        let (nx, nd) = (x * -1, d * -1);
        vstd::arithmetic::div_mod::lemma_fundamental_div_mod(nx, nd);
        vstd::arithmetic::div_mod::lemma_mod_bound(nx, nd);
        vstd::arithmetic::div_mod::lemma_div_is_ordered_by_denominator(nx, 1, nd);
        vstd::arithmetic::div_mod::lemma_div_basics(nx);
        vstd::arithmetic::div_mod::lemma_div_pos_is_pos(nx, nd);
        let q = nx / nd;
        let r = nx % nd;
        assert(q * d + r * -1 == x) by (nonlinear_arith)
            requires
                nx == nd * q + r,
                nx == x * -1,
                nd == d * -1,
        ;
        assert(q * q <= x * x) by (nonlinear_arith)
            requires
                0 <= q <= nx,
                nx == x * -1,
        ;
    } else if x < 0 {
        let nx = x * -1;
        vstd::arithmetic::div_mod::lemma_fundamental_div_mod(nx, d);
        vstd::arithmetic::div_mod::lemma_mod_bound(nx, d);
        vstd::arithmetic::div_mod::lemma_div_is_ordered_by_denominator(nx, 1, d);
        vstd::arithmetic::div_mod::lemma_div_basics(nx);
        vstd::arithmetic::div_mod::lemma_div_pos_is_pos(nx, d);
        let q = nx / d;
        let r = nx % d;
        assert((q * -1) * d + r * -1 == x) by (nonlinear_arith)
            requires
                nx == d * q + r,
                nx == x * -1,
        ;
        assert((q * -1) * (q * -1) <= x * x) by (nonlinear_arith)
            requires
                0 <= q <= nx,
                nx == x * -1,
        ;
    } else {
        let nd = d * -1;
        vstd::arithmetic::div_mod::lemma_fundamental_div_mod(x, nd);
        vstd::arithmetic::div_mod::lemma_mod_bound(x, nd);
        vstd::arithmetic::div_mod::lemma_div_is_ordered_by_denominator(x, 1, nd);
        vstd::arithmetic::div_mod::lemma_div_basics(x);
        vstd::arithmetic::div_mod::lemma_div_pos_is_pos(x, nd);
        let q = x / nd;
        let r = x % nd;
        assert((q * -1) * d + r == x) by (nonlinear_arith)
            requires
                x == nd * q + r,
                nd == d * -1,
        ;
        assert((q * -1) * (q * -1) <= x * x) by (nonlinear_arith)
            requires
                0 <= q <= x,
        ;
    }
}

/// `/` and `%` on signed constants: by zero both fail; otherwise the quotient rounds toward zero
/// and the remainder is what is left, so quotient times divisor plus remainder is the dividend,
/// with the remainder smaller than the divisor in size and of the dividend's sign.
pub proof fn law_signed_division(a: i128, b: i128)
    ensures
        b == 0 ==> binary_spec(BinOp::Div, ConstModel::Int(a), ConstModel::Int(b)) is Err,
        b == 0 ==> binary_spec(BinOp::Rem, ConstModel::Int(a), ConstModel::Int(b)) is Err,
        b != 0 && !(a == i128::MIN && b == -1) ==> (binary_spec(BinOp::Div, ConstModel::Int(a), ConstModel::Int(b))
            matches Ok(ConstModel::Int(q)) && binary_spec(BinOp::Rem, ConstModel::Int(a), ConstModel::Int(b))
            matches Ok(ConstModel::Int(r)) && q * b + r == a && (r == 0 || (r < 0) == (a < 0)) && (-b < r < b || b
            < r < -b)),
{
    if b != 0 {
        lemma_trunc_div_rem(a as int, b as int);
        let q = trunc_div(a as int, b as int);
        if !(a == i128::MIN && b == -1) {
            assert(i128::MIN <= q <= i128::MAX) by (nonlinear_arith)
                requires
                    q * q <= (a as int) * (a as int),
                    i128::MIN <= a <= i128::MAX,
                    a != i128::MIN || b != -1,
                    q * b + trunc_rem(a as int, b as int) == a,
                    b != 0,
            ;
        }
    }
}

/// `/` and `%` on unsigned constants: by zero both fail; otherwise quotient times divisor plus
/// remainder is the dividend, with the remainder below the divisor.
pub proof fn law_unsigned_division(x: u128, y: u128)
    ensures
        y == 0 ==> binary_spec(BinOp::Div, ConstModel::UInt(x), ConstModel::UInt(y)) is Err,
        y == 0 ==> binary_spec(BinOp::Rem, ConstModel::UInt(x), ConstModel::UInt(y)) is Err,
        y != 0 ==> (binary_spec(BinOp::Div, ConstModel::UInt(x), ConstModel::UInt(y)) matches Ok(ConstModel::UInt(q))
            && binary_spec(BinOp::Rem, ConstModel::UInt(x), ConstModel::UInt(y)) matches Ok(ConstModel::UInt(r))
            && q * y + r == x && r < y),
{
    if y != 0 {
        vstd::arithmetic::div_mod::lemma_fundamental_div_mod(x as int, y as int);
        vstd::arithmetic::div_mod::lemma_mod_bound(x as int, y as int);
        let q = (x as int) / (y as int);
        assert(q * y == y * q) by (nonlinear_arith);
    }
}

/// An expression `l op r` with two literal operands applies the operator to the two literal
/// values, the left one as the left operand; `a - b` on signed literals is `a` minus `b`.
pub proof fn law_literal_binary(
    op: BinOp,
    l: LiteralConst,
    r: LiteralConst,
    a: i128,
    b: i128,
    look: spec_fn(Seq<char>) -> Option<ConstModel>,
)
    ensures
        pure_outcome(
            ExprNode::Binary { op, left: Box::new(ExprNode::Literal(l)), right: Box::new(ExprNode::Literal(r)) },
            look,
        ) == Some(binary_spec(op, crate::values::normalised(l.value@), crate::values::normalised(r.value@))),
        l.value@ == ConstModel::Int(a) && r.value@ == ConstModel::Int(b) && i128::MIN <= a - b <= i128::MAX
            ==> pure_outcome(
            ExprNode::Binary {
                op: BinOp::Sub,
                left: Box::new(ExprNode::Literal(l)),
                right: Box::new(ExprNode::Literal(r)),
            },
            look,
        ) == Some(Ok::<ConstModel, Seq<char>>(ConstModel::Int((a - b) as i128))),
{
    reveal_with_fuel(pure_outcome, 2);
    law_signed_arithmetic(a, b);
}

/// Converting to `bool` reads any non-zero integer as `true`; converting to `char` keeps an
/// integer in the 16-bit code unit range; an unsigned value converts to an unsigned type exactly
/// when it lies in its range.
#[verifier::rlimit(60)]
#[verifier::spinoff_prover]
pub proof fn law_other_conversions(v: i128, x: u128, lit: Option<LiteralModel>, p: u32)
    ensures
        named_conversion(ConstModel::Int(v), "bool"@, lit, p) == Ok::<ConstModel, Seq<char>>(
            ConstModel::Bool(v != 0),
        ),
        0 <= v <= 65535 ==> named_conversion(ConstModel::Int(v), "char"@, lit, p) == Ok::<ConstModel, Seq<char>>(
            ConstModel::Char(v as u16),
        ),
        named_conversion(ConstModel::Int(v), "char"@, lit, p) is Ok <==> 0 <= v <= 65535,
        x <= 255 ==> named_conversion(ConstModel::UInt(x), "byte"@, lit, p) == Ok::<ConstModel, Seq<char>>(
            ConstModel::UInt(x),
        ),
        named_conversion(ConstModel::UInt(x), "byte"@, lit, p) is Ok <==> x <= 255,
        named_conversion(ConstModel::UInt(x), "ushort"@, lit, p) is Ok <==> x <= 65535,
        named_conversion(ConstModel::UInt(x), "uint"@, lit, p) is Ok <==> x <= 4294967295,
        named_conversion(ConstModel::UInt(x), "ulong"@, lit, p) is Ok <==> x <= 18446744073709551615,
        named_conversion(ConstModel::UInt(x), "int"@, lit, p) is Ok <==> x <= 2147483647,
        x <= 2147483647 ==> named_conversion(ConstModel::UInt(x), "int"@, lit, p) == Ok::<ConstModel, Seq<char>>(
            ConstModel::Int(x as i128),
        ),
{
    lemma_type_bounds();
    reveal_strlit("bool");
    reveal_strlit("char");
    reveal_strlit("string");
    reveal_strlit("str");
    reveal_strlit("sbyte");
    reveal_strlit("byte");
    reveal_strlit("short");
    reveal_strlit("ushort");
    reveal_strlit("int");
    reveal_strlit("uint");
    reveal_strlit("nint");
    reveal_strlit("isize");
    reveal_strlit("nuint");
    reveal_strlit("usize");
    reveal_strlit("long");
    reveal_strlit("ulong");
    lemma_plain_name("bool"@);
    lemma_plain_name("char"@);
    lemma_plain_name("byte"@);
    lemma_plain_name("ushort"@);
    lemma_plain_name("uint"@);
    lemma_plain_name("ulong"@);
    lemma_plain_name("int"@);
}

/// `sizeof(T)` and `alignof(T)` of a primitive type `T` are the primitive's size and alignment,
/// or those of a pointer for a pointer-sized primitive.
pub proof fn law_sizeof_alignof_of_primitive(
    t: TypeLayoutTable,
    text: String,
    namespace: Option<Seq<char>>,
    k: int,
    size_r: Result<ResultModel, Seq<char>>,
    align_r: Result<ResultModel, Seq<char>>,
)
    requires
        trim(text@) == text@,
        valid_type_name(text@),
        type_text_valid(text@),
        text@.last() != '?' && text@.last() != '*' && text@.last() != ']',
        text@ != "string"@ && text@ != "str"@ && text@ != "void"@,
        is_first(primitive_names(t.primitives@), text@, k),
        size_query_outcome(t, SizeOfOperand::Type(text), namespace, true, size_r),
        size_query_outcome(t, SizeOfOperand::Type(text), namespace, false, align_r),
    ensures
        size_r == Ok::<ResultModel, Seq<char>>(
            ResultModel {
                value: ConstModel::UInt(
                    (if t.primitives@[k].pointer_sized {
                        t.pointer_size
                    } else {
                        t.primitives@[k].size
                    }) as u128,
                ),
                literal: None,
            },
        ),
        align_r == Ok::<ResultModel, Seq<char>>(
            ResultModel {
                value: ConstModel::UInt(
                    (if t.primitives@[k].pointer_sized {
                        t.pointer_align
                    } else {
                        t.primitives@[k].align
                    }) as u128,
                ),
                literal: None,
            },
        ),
{
    crate::text::lemma_first_match(primitive_names(t.primitives@), text@, k);
    let tr = trim(text@);
    let ty = choose|ty: crate::types::Ty|
        #![trigger crate::types::type_denoted(tr, ty)]
        crate::types::type_denoted(tr, ty) && match crate::layout::spec_ty_sa(t, ty, namespace) {
            Some(p) => size_r == Ok::<ResultModel, Seq<char>>(
                ResultModel { value: ConstModel::UInt(p.0 as u128), literal: None },
            ),
            None => size_r is Err,
        };
    assert(ty is Named && crate::types::canonical(ty) == text@);
    let ty2 = choose|ty: crate::types::Ty|
        #![trigger crate::types::type_denoted(tr, ty)]
        crate::types::type_denoted(tr, ty) && match crate::layout::spec_ty_sa(t, ty, namespace) {
            Some(p) => align_r == Ok::<ResultModel, Seq<char>>(
                ResultModel { value: ConstModel::UInt(p.1 as u128), literal: None },
            ),
            None => align_r is Err,
        };
    assert(ty2 is Named && crate::types::canonical(ty2) == text@);
}

/// Every integer, boolean, character, string, enum value, `null` and unit equals itself (32-bit
/// integers, symbols and unknown values compare unequal to everything, structs field by field),
/// and `!=` is the negation of `==`.
pub proof fn law_equality_reflexive(a: ConstModel, b: ConstModel)
    requires
        !(a is Int32),
        !(a is Struct),
        !(a is Symbol),
        !(a is Unknown),
    ensures
        crate::ops::const_eq(a, a),
        binary_spec(BinOp::Eq, a, a) == Ok::<ConstModel, Seq<char>>(ConstModel::Bool(true)),
        binary_spec(BinOp::Ne, a, b) == Ok::<ConstModel, Seq<char>>(
            ConstModel::Bool(!(binary_spec(BinOp::Eq, a, b) == Ok::<ConstModel, Seq<char>>(ConstModel::Bool(true)))),
        ),
{
}

/// Reading member `m` of a struct constant gives the value of its first field named `m`
/// (a 32-bit integer read as an integer); a struct without such a field, or a value that is not
/// a struct, has no member to read.
pub proof fn law_member_read(type_path: Seq<char>, fields: Seq<(Seq<char>, ConstModel)>, m: Seq<char>, i: int, v: ConstModel)
    ensures
        (0 <= i < fields.len() && fields[i].0 == m && forall|j: int| 0 <= j < i ==> fields[j].0 != m)
            ==> crate::lookup::member_of(ConstModel::Struct { type_path, fields }, m) == Ok::<ConstModel, Seq<char>>(
            crate::values::normalised(fields[i].1),
        ),
        (forall|j: int| 0 <= j < fields.len() ==> fields[j].0 != m) ==> crate::lookup::member_of(
            ConstModel::Struct { type_path, fields },
            m,
        ) is Err,
        !(v is Struct) ==> crate::lookup::member_of(v, m) is Err,
{
    if 0 <= i < fields.len() && fields[i].0 == m && forall|j: int| 0 <= j < i ==> fields[j].0 != m {
        lemma_named_lookup_first(fields, m, i);
    }
    if forall|j: int| 0 <= j < fields.len() ==> fields[j].0 != m {
        lemma_named_lookup_none(fields, m);
    }
}

proof fn lemma_named_lookup_first(fields: Seq<(Seq<char>, ConstModel)>, m: Seq<char>, i: int)
    requires
        0 <= i < fields.len(),
        fields[i].0 == m,
        forall|j: int| 0 <= j < i ==> fields[j].0 != m,
    ensures
        crate::environment::named_lookup(fields, m) == Some(fields[i].1),
    decreases i,
{
    if i > 0 {
        assert(fields[0].0 != m);
        let rest = fields.drop_first();
        assert forall|j: int| 0 <= j < i - 1 implies rest[j].0 != m by {
            assert(rest[j] == fields[j + 1]);
        }
        assert(rest[i - 1] == fields[i]);
        lemma_named_lookup_first(rest, m, i - 1);
    }
}

proof fn lemma_named_lookup_none(fields: Seq<(Seq<char>, ConstModel)>, m: Seq<char>)
    requires
        forall|j: int| 0 <= j < fields.len() ==> fields[j].0 != m,
    ensures
        crate::environment::named_lookup(fields, m) is None,
    decreases fields.len(),
{
    if fields.len() > 0 {
        let rest = fields.drop_first();
        assert forall|j: int| 0 <= j < rest.len() implies rest[j].0 != m by {
            assert(rest[j] == fields[j + 1]);
        }
        lemma_named_lookup_none(rest, m);
    }
}

/// The number a string of decimal digits reads as.
pub open spec fn decimal_value(s: Seq<char>) -> int
    decreases s.len(),
{
    if s.len() == 0 {
        0
    } else {
        decimal_value(s.drop_last()) * 10 + (s.last() as int - '0' as int)
    }
}

/// Whether every character of `s` is a decimal digit.
pub open spec fn all_digits(s: Seq<char>) -> bool {
    forall|i: int| 0 <= i < s.len() ==> '0' <= #[trigger] s[i] <= '9'
}

/// A decimal digit's character reads as the digit.
proof fn lemma_digit(d: nat)
    requires
        d < 10,
    ensures
        '0' <= crate::text::digit_char(d) <= '9',
        crate::text::digit_char(d) as int - '0' as int == d,
{
}

/// The decimal text of a natural number (as integers appear in labels and diagnostics) is made
/// of digits, has no leading zero, and reads back as the number.
pub proof fn law_decimal_text(n: nat)
    ensures
        all_digits(crate::text::nat_text(n)),
        decimal_value(crate::text::nat_text(n)) == n,
        crate::text::nat_text(n).len() > 0,
        crate::text::nat_text(n).len() > 1 ==> crate::text::nat_text(n)[0] != '0',
    decreases n,
{
    let t = crate::text::nat_text(n);
    if n < 10 {
        lemma_digit(n);
        assert(t == seq![crate::text::digit_char(n)]);
        assert(t.drop_last() =~= Seq::<char>::empty());
        assert(t.last() == crate::text::digit_char(n));
        assert(decimal_value(Seq::<char>::empty()) == 0);
        assert(decimal_value(t) == decimal_value(t.drop_last()) * 10 + (t.last() as int - '0' as int));
        assert(decimal_value(t) == n);
    } else {
        lemma_digit((n % 10) as nat);
        law_decimal_text(n / 10);
        let p = crate::text::nat_text(n / 10);
        let d = (n % 10) as nat;
        assert(t == p.push(crate::text::digit_char(d)));
        assert(t.drop_last() =~= p);
        assert(p.len() > 0);
        assert(t[0] == p[0]);
        if p.len() == 1 {
            assert(n / 10 > 0);
            assert(n / 10 < 10) by {
                if n / 10 >= 10 {
                    law_decimal_text(n / 10 / 10);
                    assert(crate::text::nat_text(n / 10) == crate::text::nat_text(n / 10 / 10).push(
                        crate::text::digit_char(((n / 10) % 10) as nat),
                    ));
                }
            }
            assert(p == seq![crate::text::digit_char(n / 10)]);
        }
        assert forall|i: int| 0 <= i < t.len() implies '0' <= #[trigger] t[i] <= '9' by {
            if i < p.len() {
                assert(t[i] == p[i]);
            }
        }
        assert(t.last() == crate::text::digit_char(d));
        assert(decimal_value(t) == decimal_value(t.drop_last()) * 10 + (t.last() as int - '0' as int));
        assert(decimal_value(t) == decimal_value(p) * 10 + d);
        assert(decimal_value(p) == n / 10);
        assert(n == (n / 10) * 10 + d);
        assert(decimal_value(t) == n);
    }
}

/// Distinct integers have distinct decimal texts.
proof fn lemma_int_text_injective(a: int, b: int)
    requires
        crate::text::int_text(a) == crate::text::int_text(b),
    ensures
        a == b,
{
    let ta = crate::text::int_text(a);
    if a < 0 {
        law_decimal_text((-a) as nat);
    } else {
        law_decimal_text(a as nat);
    }
    if b < 0 {
        law_decimal_text((-b) as nat);
    } else {
        law_decimal_text(b as nat);
    }
    if a < 0 && b < 0 {
        assert(crate::text::nat_text((-a) as nat) =~= ta.subrange(1, ta.len() as int));
        assert(crate::text::nat_text((-b) as nat) =~= ta.subrange(1, ta.len() as int));
    } else if a < 0 {
        assert(ta[0] == '-');
        assert('0' <= crate::text::nat_text(b as nat)[0] <= '9');
    } else if b < 0 {
        assert(ta[0] == '0' || ta[0] != '0');
        assert('0' <= crate::text::nat_text(a as nat)[0] <= '9');
        assert(crate::text::int_text(b)[0] == '-');
    }
}

/// The memo labels of constant values tell integers apart: two signed (or two unsigned)
/// integers have the same label only when they are equal, and a signed and an unsigned integer
/// never do.
pub proof fn law_integer_labels(a: i128, b: i128, x: u128, y: u128)
    ensures
        crate::labels::label(ConstModel::Int(a)) == crate::labels::label(ConstModel::Int(b)) ==> a == b,
        crate::labels::label(ConstModel::UInt(x)) == crate::labels::label(ConstModel::UInt(y)) ==> x == y,
        crate::labels::label(ConstModel::Int(a)) != crate::labels::label(ConstModel::UInt(x)),
{
    reveal_strlit("i:");
    reveal_strlit("u:");
    let la = crate::labels::label(ConstModel::Int(a));
    if la == crate::labels::label(ConstModel::Int(b)) {
        assert(crate::text::int_text(a as int) =~= la.subrange(2, la.len() as int));
        assert(crate::text::int_text(b as int) =~= la.subrange(2, la.len() as int));
        lemma_int_text_injective(a as int, b as int);
    }
    let lx = crate::labels::label(ConstModel::UInt(x));
    if lx == crate::labels::label(ConstModel::UInt(y)) {
        assert(crate::text::nat_text(x as nat) =~= lx.subrange(2, lx.len() as int));
        assert(crate::text::nat_text(y as nat) =~= lx.subrange(2, lx.len() as int));
        law_decimal_text(x as nat);
        law_decimal_text(y as nat);
    }
    assert(la[0] == 'i' && lx[0] == 'u');
}

/// Two texts that differ at some position differ.
proof fn lemma_differ_at(a: Seq<char>, b: Seq<char>, i: int)
    requires
        0 <= i < a.len(),
        i < b.len(),
        a[i] != b[i],
    ensures
        a != b,
{
}

/// The native-sized integer types `nint` and `nuint` have the width of a pointer: with 64-bit
/// pointers they take the ranges of `long` and `ulong`; `int128` takes every signed value.
#[verifier::rlimit(60)]
#[verifier::spinoff_prover]
pub proof fn law_native_and_wide_conversions(v: i128, lit: Option<LiteralModel>)
    ensures
        named_conversion(ConstModel::Int(v), "nint"@, lit, 64) is Ok <==> -9223372036854775808 <= v
            <= 9223372036854775807,
        named_conversion(ConstModel::Int(v), "nuint"@, lit, 64) is Ok <==> 0 <= v <= 18446744073709551615,
        named_conversion(ConstModel::Int(v), "nint"@, lit, 32) is Ok <==> -2147483648 <= v <= 2147483647,
        named_conversion(ConstModel::Int(v), "int128"@, lit, 64) == Ok::<ConstModel, Seq<char>>(ConstModel::Int(v)),
{
    lemma_type_bounds();
    reveal_strlit("bool");
    reveal_strlit("char");
    reveal_strlit("string");
    reveal_strlit("str");
    reveal_strlit("sbyte");
    reveal_strlit("byte");
    reveal_strlit("short");
    reveal_strlit("ushort");
    reveal_strlit("int");
    reveal_strlit("uint");
    reveal_strlit("nint");
    reveal_strlit("isize");
    reveal_strlit("nuint");
    reveal_strlit("usize");
    reveal_strlit("long");
    reveal_strlit("ulong");
    reveal_strlit("int128");
    reveal_strlit("i128");
    lemma_plain_name("nint"@);
    lemma_plain_name("nuint"@);
    assert("nint"@ != "bool"@ && "nint"@ != "char"@ && "nint"@ != "string"@ && "nint"@ != "str"@);
    assert("nint"@ != "sbyte"@ && "nint"@ != "byte"@ && "nint"@ != "short"@ && "nint"@ != "ushort"@);
    assert("nint"@ != "int"@);
    lemma_differ_at("nint"@, "uint"@, 0);
    lemma_differ_at("nuint"@, "sbyte"@, 0);
    lemma_differ_at("nuint"@, "short"@, 0);
    lemma_differ_at("nuint"@, "isize"@, 0);
    assert(!crate::ops::already_of_type(ConstModel::Int(v), "nint"@));
    assert(named_conversion(ConstModel::Int(v), "nint"@, lit, 64) == crate::ops::signed_conversion(
        ConstModel::Int(v),
        64,
        lit,
        "nint"@,
    ));
    assert(crate::text::lower_seq(crate::text::spec_simple_name("int128"@)) == "int128"@) by {
        lemma_no_colon_start("int128"@);
        assert(spec_simple_name("int128"@) =~= "int128"@);
        assert(lower_seq("int128"@) =~= "int128"@);
    }
}

/// The type name is read without regard to ASCII case: `Int` converts as `int` does.
#[verifier::rlimit(60)]
#[verifier::spinoff_prover]
pub proof fn law_conversion_ignores_case(v: i128, lit: Option<LiteralModel>, p: u32)
    ensures
        named_conversion(ConstModel::Int(v), "Int"@, lit, p) == named_conversion(ConstModel::Int(v), "int"@, lit, p),
{
    reveal_strlit("Int");
    reveal_strlit("int");
    lemma_no_colon_start("Int"@);
    lemma_no_colon_start("int"@);
    assert(spec_simple_name("Int"@) =~= "Int"@);
    assert(spec_simple_name("int"@) =~= "int"@);
    assert(lower_seq("Int"@) =~= "int"@);
    assert(lower_seq("int"@) =~= "int"@);
}

/// `sizeof` and `alignof` of a pointer type `T*` are those of a pointer.
pub proof fn law_sizeof_alignof_of_pointer(
    t: TypeLayoutTable,
    text: String,
    namespace: Option<Seq<char>>,
    size_r: Result<ResultModel, Seq<char>>,
    align_r: Result<ResultModel, Seq<char>>,
)
    requires
        trim(text@) == text@,
        text@.len() > 0,
        text@.last() == '*',
        type_text_valid(text@),
        size_query_outcome(t, SizeOfOperand::Type(text), namespace, true, size_r),
        size_query_outcome(t, SizeOfOperand::Type(text), namespace, false, align_r),
    ensures
        size_r == Ok::<ResultModel, Seq<char>>(
            ResultModel { value: ConstModel::UInt(t.pointer_size as u128), literal: None },
        ),
        align_r == Ok::<ResultModel, Seq<char>>(
            ResultModel { value: ConstModel::UInt(t.pointer_align as u128), literal: None },
        ),
{
    let tr = trim(text@);
    if type_text_valid(tr) {
        let ty = choose|ty: crate::types::Ty|
            #![trigger crate::types::type_denoted(tr, ty)]
            crate::types::type_denoted(tr, ty) && match crate::layout::spec_ty_sa(t, ty, namespace) {
                Some(p) => size_r == Ok::<ResultModel, Seq<char>>(
                    ResultModel { value: ConstModel::UInt(p.0 as u128), literal: None },
                ),
                None => size_r is Err,
            };
        assert(ty is Pointer);
        let ty2 = choose|ty: crate::types::Ty|
            #![trigger crate::types::type_denoted(tr, ty)]
            crate::types::type_denoted(tr, ty) && match crate::layout::spec_ty_sa(t, ty, namespace) {
                Some(p) => align_r == Ok::<ResultModel, Seq<char>>(
                    ResultModel { value: ConstModel::UInt(p.1 as u128), literal: None },
                ),
                None => align_r is Err,
            };
        assert(ty2 is Pointer);
    }
}

/// An `if` whose condition is `true` runs as a block holding its then-branch; one whose
/// condition is `false` runs as a block holding its else-branch, or as an empty block.
pub proof fn law_if_picks_branch(
    st: Statement,
    blk: Statement,
    view: Seq<crate::environment::ScopeModel>,
    params: Seq<(Seq<char>, ConstModel)>,
    bits: u32,
)
    requires
        st.kind is If,
        blk.kind is Block,
        ({
            let i = st.kind->If_0;
            let flag = body_expr_outcome(
                i.condition,
                view_lookup(view, params),
                crate::values::span_or(i.condition.span, st.span),
            );
            ||| flag == Some(Ok::<ConstModel, (Seq<char>, Option<crate::values::Span>)>(ConstModel::Bool(true)))
                && blk.kind->Block_0.statements@ == seq![*i.then_branch]
            ||| flag == Some(Ok::<ConstModel, (Seq<char>, Option<crate::values::Span>)>(ConstModel::Bool(false)))
                && blk.kind->Block_0.statements@ == match i.else_branch {
                Some(e) => seq![*e],
                None => Seq::<Statement>::empty(),
            }
        }),
    ensures
        stmt_outcome(st, view, params, bits) == stmt_outcome(blk, view, params, bits),
{
    reveal_with_fuel(block_outcome, 2);
    let b = blk.kind->Block_0;
    let i = st.kind->If_0;
    let pushed = view.push(Seq::empty());
    assert(block_outcome(b.statements, 0, pushed, params, bits) == Some(
        Ok::<(Option<ConstModel>, Seq<crate::environment::ScopeModel>), (Seq<char>, Option<crate::values::Span>)>(
            (None, pushed),
        ),
    ));
    assert(pushed.drop_last() =~= view);
    if b.statements@.len() == 1 {
        assert(block_outcome(b.statements, 1, pushed, params, bits) == stmt_outcome(
            b.statements@[0],
            pushed,
            params,
            bits,
        ));
    }
}

/// Once a statement of a block returns, the statements after it do not run: a block whose first
/// statement returns gives what that statement gives, whatever follows.
pub proof fn law_return_ends_block(
    short: Vec<Statement>,
    long: Vec<Statement>,
    view: Seq<crate::environment::ScopeModel>,
    params: Seq<(Seq<char>, ConstModel)>,
    bits: u32,
)
    requires
        short@.len() == 1,
        long@.len() >= 1,
        long@[0] == short@[0],
        block_outcome(short, 1, view, params, bits) matches Some(Ok((Some(_), _))),
    ensures
        block_outcome(long, long@.len(), view, params, bits) == block_outcome(short, 1, view, params, bits),
    decreases long@.len(),
{
    reveal_with_fuel(block_outcome, 2);
    assert(block_outcome(long, 1, view, params, bits) == block_outcome(short, 1, view, params, bits));
    lemma_block_prefix_kept(long, long@.len(), view, params, bits);
}

proof fn lemma_block_prefix_kept(
    v: Vec<Statement>,
    n: nat,
    view: Seq<crate::environment::ScopeModel>,
    params: Seq<(Seq<char>, ConstModel)>,
    bits: u32,
)
    requires
        1 <= n <= v@.len(),
        block_outcome(v, 1, view, params, bits) matches Some(Ok((Some(_), _))),
    ensures
        block_outcome(v, n, view, params, bits) == block_outcome(v, 1, view, params, bits),
    decreases n,
{
    if n > 1 {
        lemma_block_prefix_kept(v, (n - 1) as nat, view, params, bits);
    }
}

/// The operator symbols of quoted expressions: `+`, `-`, `*`, `/`, `%` and `=` are the base
/// symbols; each compound assignment is its operator's symbol followed by `=`; `<=`, `>=` and
/// `!=` are `<`, `>` and `!` followed by `=`; `<<`, `>>`, `&&`, `||` double `<`, `>`, `&`, `|`;
/// prefix `-` and `+` share the binary symbols; and distinct binary operators have distinct
/// symbols.
pub proof fn law_operator_symbols(a: BinOp, b: BinOp)
    ensures
        binary_text(BinOp::Add) == "+"@ && binary_text(BinOp::Sub) == "-"@ && binary_text(BinOp::Mul) == "*"@
            && binary_text(BinOp::Div) == "/"@ && binary_text(BinOp::Rem) == "%"@ && binary_text(BinOp::Lt) == "<"@
            && binary_text(BinOp::Gt) == ">"@ && binary_text(BinOp::BitAnd) == "&"@ && binary_text(BinOp::BitOr)
            == "|"@ && binary_text(BinOp::BitXor) == "^"@ && assign_text(AssignOp::Assign) == "="@,
        assign_text(AssignOp::AddAssign) == binary_text(BinOp::Add) + assign_text(AssignOp::Assign),
        assign_text(AssignOp::SubAssign) == binary_text(BinOp::Sub) + assign_text(AssignOp::Assign),
        assign_text(AssignOp::MulAssign) == binary_text(BinOp::Mul) + assign_text(AssignOp::Assign),
        assign_text(AssignOp::DivAssign) == binary_text(BinOp::Div) + assign_text(AssignOp::Assign),
        assign_text(AssignOp::RemAssign) == binary_text(BinOp::Rem) + assign_text(AssignOp::Assign),
        assign_text(AssignOp::BitAndAssign) == binary_text(BinOp::BitAnd) + assign_text(AssignOp::Assign),
        assign_text(AssignOp::BitOrAssign) == binary_text(BinOp::BitOr) + assign_text(AssignOp::Assign),
        assign_text(AssignOp::BitXorAssign) == binary_text(BinOp::BitXor) + assign_text(AssignOp::Assign),
        assign_text(AssignOp::ShlAssign) == binary_text(BinOp::Shl) + assign_text(AssignOp::Assign),
        assign_text(AssignOp::ShrAssign) == binary_text(BinOp::Shr) + assign_text(AssignOp::Assign),
        assign_text(AssignOp::NullCoalesceAssign) == binary_text(BinOp::NullCoalesce) + assign_text(AssignOp::Assign),
        binary_text(BinOp::Le) == binary_text(BinOp::Lt) + "="@,
        binary_text(BinOp::Ge) == binary_text(BinOp::Gt) + "="@,
        binary_text(BinOp::Ne) == unary_text(UnOp::Not) + "="@,
        binary_text(BinOp::Eq) == "="@ + "="@,
        binary_text(BinOp::Shl) == binary_text(BinOp::Lt) + binary_text(BinOp::Lt),
        binary_text(BinOp::Shr) == binary_text(BinOp::Gt) + binary_text(BinOp::Gt),
        binary_text(BinOp::And) == binary_text(BinOp::BitAnd) + binary_text(BinOp::BitAnd),
        binary_text(BinOp::Or) == binary_text(BinOp::BitOr) + binary_text(BinOp::BitOr),
        unary_text(UnOp::Neg) == binary_text(BinOp::Sub),
        unary_text(UnOp::UnaryPlus) == binary_text(BinOp::Add),
        unary_text(UnOp::Increment) == binary_text(BinOp::Add) + binary_text(BinOp::Add),
        unary_text(UnOp::Decrement) == binary_text(BinOp::Sub) + binary_text(BinOp::Sub),
        a != b ==> binary_text(a) != binary_text(b),
{
    reveal_strlit("!");
    reveal_strlit("!=");
    reveal_strlit("%");
    reveal_strlit("%=");
    reveal_strlit("&");
    reveal_strlit("&&");
    reveal_strlit("&=");
    reveal_strlit("*");
    reveal_strlit("*=");
    reveal_strlit("+");
    reveal_strlit("++");
    reveal_strlit("+=");
    reveal_strlit("-");
    reveal_strlit("--");
    reveal_strlit("-=");
    reveal_strlit("/");
    reveal_strlit("/=");
    reveal_strlit("<");
    reveal_strlit("<<");
    reveal_strlit("<<=");
    reveal_strlit("<=");
    reveal_strlit("=");
    reveal_strlit("==");
    reveal_strlit(">");
    reveal_strlit(">=");
    reveal_strlit(">>");
    reveal_strlit(">>=");
    reveal_strlit("??");
    reveal_strlit("??=");
    reveal_strlit("^");
    reveal_strlit("^=");
    reveal_strlit("|");
    reveal_strlit("|=");
    reveal_strlit("||");
    reveal_strlit("~");
    assert("+"@ + "="@ =~= "+="@);
    assert("-"@ + "="@ =~= "-="@);
    assert("*"@ + "="@ =~= "*="@);
    assert("/"@ + "="@ =~= "/="@);
    assert("%"@ + "="@ =~= "%="@);
    assert("&"@ + "="@ =~= "&="@);
    assert("|"@ + "="@ =~= "|="@);
    assert("^"@ + "="@ =~= "^="@);
    assert("<<"@ + "="@ =~= "<<="@);
    assert(">>"@ + "="@ =~= ">>="@);
    assert("??"@ + "="@ =~= "??="@);
    assert("<"@ + "="@ =~= "<="@);
    assert(">"@ + "="@ =~= ">="@);
    assert("!"@ + "="@ =~= "!="@);
    assert("="@ + "="@ =~= "=="@);
    assert("<"@ + "<"@ =~= "<<"@);
    assert(">"@ + ">"@ =~= ">>"@);
    assert("&"@ + "&"@ =~= "&&"@);
    assert("|"@ + "|"@ =~= "||"@);
    assert("+"@ + "+"@ =~= "++"@);
    assert("-"@ + "-"@ =~= "--"@);
    let ta = binary_text(a);
    let tb = binary_text(b);
    if a != b && ta == tb {
        assert(ta.len() == tb.len() && ta[0] == tb[0] && ta[ta.len() - 1] == tb[tb.len() - 1]);
        match a {
            BinOp::Add => {},
            BinOp::Sub => {},
            BinOp::Mul => {},
            BinOp::Div => {},
            BinOp::Rem => {},
            BinOp::BitAnd => {},
            BinOp::BitOr => {},
            BinOp::BitXor => {},
            BinOp::Shl => {},
            BinOp::Shr => {},
            BinOp::Eq => {},
            BinOp::Ne => {},
            BinOp::Lt => {},
            BinOp::Le => {},
            BinOp::Gt => {},
            BinOp::Ge => {},
            BinOp::And => {},
            BinOp::Or => {},
            BinOp::NullCoalesce => {},
        }
    }
}

/// A quoted node's kind is the `Std::Meta::QuoteNodeKind` variant of its own name, numbered by
/// its position in declaration order, distinct kinds giving distinct variants and numbers; and
/// quoting an expression gives the node kind of the same name as the expression's form.
pub proof fn law_quote_node_kinds(a: QuoteNodeKindValue, b: QuoteNodeKindValue, n: ExprNode)
    ensures
        kind_descriptor(QuoteNodeKindValue::Literal) == ("Literal"@, 0i128),
        kind_descriptor(QuoteNodeKindValue::Identifier) == ("Identifier"@, 1i128),
        kind_descriptor(QuoteNodeKindValue::Unary) == ("Unary"@, 2i128),
        kind_descriptor(QuoteNodeKindValue::Binary) == ("Binary"@, 3i128),
        kind_descriptor(QuoteNodeKindValue::Conditional) == ("Conditional"@, 4i128),
        kind_descriptor(QuoteNodeKindValue::Cast) == ("Cast"@, 5i128),
        kind_descriptor(QuoteNodeKindValue::Lambda) == ("Lambda"@, 6i128),
        kind_descriptor(QuoteNodeKindValue::Tuple) == ("Tuple"@, 7i128),
        kind_descriptor(QuoteNodeKindValue::Assign) == ("Assign"@, 8i128),
        kind_descriptor(QuoteNodeKindValue::Member) == ("Member"@, 9i128),
        kind_descriptor(QuoteNodeKindValue::Call) == ("Call"@, 10i128),
        kind_descriptor(QuoteNodeKindValue::Argument) == ("Argument"@, 11i128),
        kind_descriptor(QuoteNodeKindValue::Ref) == ("Ref"@, 12i128),
        kind_descriptor(QuoteNodeKindValue::New) == ("New"@, 13i128),
        kind_descriptor(QuoteNodeKindValue::Index) == ("Index"@, 14i128),
        kind_descriptor(QuoteNodeKindValue::Await) == ("Await"@, 15i128),
        kind_descriptor(QuoteNodeKindValue::TryPropagate) == ("TryPropagate"@, 16i128),
        kind_descriptor(QuoteNodeKindValue::Throw) == ("Throw"@, 17i128),
        kind_descriptor(QuoteNodeKindValue::SizeOf) == ("SizeOf"@, 18i128),
        kind_descriptor(QuoteNodeKindValue::AlignOf) == ("AlignOf"@, 19i128),
        kind_descriptor(QuoteNodeKindValue::NameOf) == ("NameOf"@, 20i128),
        kind_descriptor(QuoteNodeKindValue::InterpolatedString) == ("InterpolatedString"@, 21i128),
        kind_descriptor(QuoteNodeKindValue::Quote) == ("Quote"@, 22i128),
        kind_descriptor(QuoteNodeKindValue::Pattern) == ("Pattern"@, 23i128),
        kind_descriptor(QuoteNodeKindValue::Unknown) == ("Unknown"@, 24i128),
        a != b ==> kind_descriptor(a).0 != kind_descriptor(b).0 && kind_descriptor(a).1 != kind_descriptor(b).1,
        n is Literal ==> node_kind(n) == QuoteNodeKindValue::Literal,
        n is Identifier ==> node_kind(n) == QuoteNodeKindValue::Identifier,
        n is Unary ==> node_kind(n) == QuoteNodeKindValue::Unary,
        n is Binary ==> node_kind(n) == QuoteNodeKindValue::Binary,
        n is Cast ==> node_kind(n) == QuoteNodeKindValue::Cast,
        n is Call ==> node_kind(n) == QuoteNodeKindValue::Call,
        n is Member ==> node_kind(n) == QuoteNodeKindValue::Member,
        n is Assign ==> node_kind(n) == QuoteNodeKindValue::Assign,
        n is Lambda ==> node_kind(n) == QuoteNodeKindValue::Lambda,
        n is Index ==> node_kind(n) == QuoteNodeKindValue::Index,
        n is Quote ==> node_kind(n) == QuoteNodeKindValue::Quote,
        n is SizeOf ==> node_kind(n) == QuoteNodeKindValue::SizeOf,
        n is AlignOf ==> node_kind(n) == QuoteNodeKindValue::AlignOf,
        n is NameOf ==> node_kind(n) == QuoteNodeKindValue::NameOf,
{
    reveal_strlit("Literal");
    reveal_strlit("Identifier");
    reveal_strlit("Unary");
    reveal_strlit("Binary");
    reveal_strlit("Conditional");
    reveal_strlit("Cast");
    reveal_strlit("Lambda");
    reveal_strlit("Tuple");
    reveal_strlit("Assign");
    reveal_strlit("Member");
    reveal_strlit("Call");
    reveal_strlit("Argument");
    reveal_strlit("Ref");
    reveal_strlit("New");
    reveal_strlit("Index");
    reveal_strlit("Await");
    reveal_strlit("TryPropagate");
    reveal_strlit("Throw");
    reveal_strlit("SizeOf");
    reveal_strlit("AlignOf");
    reveal_strlit("NameOf");
    reveal_strlit("InterpolatedString");
    reveal_strlit("Quote");
    reveal_strlit("Pattern");
    reveal_strlit("Unknown");
    let va = kind_descriptor(a).0;
    let vb = kind_descriptor(b).0;
    if a != b && va == vb {
        assert(va.len() == vb.len() && va[0] == vb[0] && va[2] == vb[2]);
        match a {
            QuoteNodeKindValue::Literal => {},
            QuoteNodeKindValue::Identifier => {},
            QuoteNodeKindValue::Unary => {},
            QuoteNodeKindValue::Binary => {},
            QuoteNodeKindValue::Conditional => {},
            QuoteNodeKindValue::Cast => {},
            QuoteNodeKindValue::Lambda => {},
            QuoteNodeKindValue::Tuple => {},
            QuoteNodeKindValue::Assign => {},
            QuoteNodeKindValue::Member => {},
            QuoteNodeKindValue::Call => {},
            QuoteNodeKindValue::Argument => {},
            QuoteNodeKindValue::Ref => {},
            QuoteNodeKindValue::New => {},
            QuoteNodeKindValue::Index => {},
            QuoteNodeKindValue::Await => {},
            QuoteNodeKindValue::TryPropagate => {},
            QuoteNodeKindValue::Throw => {},
            QuoteNodeKindValue::SizeOf => {},
            QuoteNodeKindValue::AlignOf => {},
            QuoteNodeKindValue::NameOf => {},
            QuoteNodeKindValue::InterpolatedString => {},
            QuoteNodeKindValue::Quote => {},
            QuoteNodeKindValue::Pattern => {},
            QuoteNodeKindValue::Unknown => {},
        }
    }
}

/// A span inside a quote literal is placed by adding the literal's start to both its ends, and
/// the span's length is kept (where the sums fit); without an outer span it stays as it is. The
/// hygiene anchor is placed the same way.
pub proof fn law_quote_span_placement(span: crate::ast::QuoteSourceSpan, outer: crate::values::Span, anchor: usize)
    requires
        outer.start + span.end <= usize::MAX,
        outer.start + anchor <= usize::MAX,
        span.start <= span.end,
    ensures
        crate::quote::absolute_span(span, Some(outer)).0 == outer.start + span.start,
        crate::quote::absolute_span(span, Some(outer)).1 == outer.start + span.end,
        crate::quote::absolute_span(span, Some(outer)).1 - crate::quote::absolute_span(span, Some(outer)).0
            == span.end - span.start,
        crate::quote::absolute_span(span, None) == (span.start, span.end),
        crate::quote::absolute_anchor(anchor, Some(outer)) == outer.start + anchor,
        crate::quote::absolute_anchor(anchor, None) == anchor,
{
}

/// The hygiene hash folds the bytes in order: hashing two pieces one after the other is hashing
/// them joined.
pub proof fn law_hygiene_hash_joins(h: u64, a: Seq<u8>, b: Seq<u8>)
    ensures
        crate::quote::fnv_fold(h, a + b) == crate::quote::fnv_fold(crate::quote::fnv_fold(h, a), b),
    decreases b.len(),
{
    if b.len() > 0 {
        law_hygiene_hash_joins(h, a, b.drop_last());
        assert((a + b).drop_last() =~= a + b.drop_last());
        assert((a + b).last() == b.last());
    } else {
        assert(a + b =~= a);
    }
}

/// Converting to a nullable type keeps `null` and otherwise converts to the underlying type;
/// string values convert to `string` unchanged.
pub proof fn law_nullable_and_string_conversions(v: ConstModel, lit: Option<LiteralModel>, inner: crate::types::Ty, p: u32, text: Seq<char>)
    ensures
        crate::ops::type_conversion(ConstModel::Null, lit, crate::types::Ty::Nullable(Box::new(inner)), p) == Ok::<
            ConstModel,
            Seq<char>,
        >(ConstModel::Null),
        !(v is Null) ==> crate::ops::type_conversion(v, lit, crate::types::Ty::Nullable(Box::new(inner)), p)
            == crate::ops::type_conversion(v, lit, inner, p),
        crate::ops::type_conversion(ConstModel::RawStr(text), lit, crate::types::Ty::String, p) == Ok::<
            ConstModel,
            Seq<char>,
        >(ConstModel::RawStr(text)),
{
}

/// A variable declared with a literal initializer and then returned gives the literal's value:
/// `let x = c; return x;` returns `c`.
pub proof fn law_declared_variable_is_read(
    v: Vec<Statement>,
    view: Seq<crate::environment::ScopeModel>,
    params: Seq<(Seq<char>, ConstModel)>,
    bits: u32,
    l: LiteralConst,
)
    requires
        view.len() > 0,
        v@.len() == 2,
        v@[0].kind is VariableDeclaration,
        ({
            let d = v@[0].kind->VariableDeclaration_0;
            &&& d.type_annotation is None
            &&& d.declarators@.len() == 1
            &&& crate::environment::scope_find(view.last(), d.declarators@[0].name@) is None
            &&& d.declarators@[0].initializer matches Some(init) && init.node == Some(ExprNode::Literal(l))
            &&& v@[1].kind matches StatementKind::Return { expression: Some(e) } && e.node matches Some(
                ExprNode::Identifier(n),
            ) && n@ == d.declarators@[0].name@
        }),
    ensures
        block_outcome(v, 2, view, params, bits) matches Some(Ok((Some(r), _))) && r == crate::values::normalised(
            l.value@,
        ),
{
    reveal_with_fuel(block_outcome, 3);
    reveal_with_fuel(crate::interp::var_decls_outcome, 2);
    let d = v@[0].kind->VariableDeclaration_0;
    let x = d.declarators@[0].name@;
    let init = d.declarators@[0].initializer->0;
    let span = crate::values::span_or(init.span, v@[0].span);
    let b = crate::environment::BindingModel {
        value: crate::values::normalised(l.value@),
        mutable: d.modifier == crate::ast::VariableModifier::Var,
        span,
    };
    let after = crate::environment::frame_declare(view, x, b);
    crate::laws::law_frame_declare_then_lookup(view, x, b);
    assert(crate::interp::var_decls_outcome(d, 1, view, params, bits, v@[0].span) == Some(
        Ok::<Seq<crate::environment::ScopeModel>, (Seq<char>, Option<crate::values::Span>)>(after),
    ));
    assert(stmt_outcome(v@[0], view, params, bits) == Some(
        Ok::<(Option<ConstModel>, Seq<crate::environment::ScopeModel>), (Seq<char>, Option<crate::values::Span>)>(
            (None, after),
        ),
    ));
    assert(view_lookup(after, params)(x) == Some(crate::values::normalised(l.value@)));
}

/// The memo labels tell booleans and strings apart: `true` and `false` have different labels,
/// and two strings (or two raw strings) have the same label only when their texts are equal.
pub proof fn law_text_labels(id1: u32, id2: u32, x: Seq<char>, y: Seq<char>)
    ensures
        crate::labels::label(ConstModel::Bool(true)) != crate::labels::label(ConstModel::Bool(false)),
        crate::labels::label(ConstModel::Str { id: id1, value: x }) == crate::labels::label(
            ConstModel::Str { id: id2, value: y },
        ) ==> x == y,
        crate::labels::label(ConstModel::RawStr(x)) == crate::labels::label(ConstModel::RawStr(y)) ==> x == y,
{
    reveal_strlit("b:");
    reveal_strlit("true");
    reveal_strlit("false");
    reveal_strlit("str:");
    reveal_strlit("raw:");
    let lt = crate::labels::label(ConstModel::Bool(true));
    let lf = crate::labels::label(ConstModel::Bool(false));
    assert(lt.len() != lf.len());
    let ls = crate::labels::label(ConstModel::Str { id: id1, value: x });
    if ls == crate::labels::label(ConstModel::Str { id: id2, value: y }) {
        assert(x =~= ls.subrange(4, ls.len() as int));
        assert(y =~= ls.subrange(4, ls.len() as int));
    }
    let lr = crate::labels::label(ConstModel::RawStr(x));
    if lr == crate::labels::label(ConstModel::RawStr(y)) {
        assert(x =~= lr.subrange(4, lr.len() as int));
        assert(y =~= lr.subrange(4, lr.len() as int));
    }
}

} // verus!
