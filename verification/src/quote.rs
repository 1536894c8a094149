use vstd::prelude::*;

use crate::ast::{
    AssignOp, BinOp, CallArgument, ExprNode, InterpolatedStringSegment, LambdaBody,
    NewInitializer, QuoteInterpolation, QuoteLiteral, QuoteSourceSpan, SizeOfOperand, UnOp,
};
use crate::eval::ConstEvalContext;
use crate::intrinsics::{descriptor_list, enum_const, models, reflect_descriptor_list};
use crate::render::{expr_leaf_text, expr_text, format_expression};
use crate::captures::{capture_list, lemma_add_new_shape};
use crate::text::{cat, cat3, join, join_seq, nat_text, owned, simple_name, spec_simple_name, str_eq, u128_text, views};
use crate::types::{trim, trim_text};
use crate::values::{ConstModel, ConstValue, Span, field_models, lemma_struct_model};

verus! {

/// The kinds of quoted syntax nodes.
#[derive(Clone, Copy, Debug, PartialEq, Eq, Structural)]
pub enum QuoteNodeKindValue {
    Literal,
    Identifier,
    Unary,
    Binary,
    Conditional,
    Cast,
    Lambda,
    Tuple,
    Assign,
    Member,
    Call,
    Argument,
    Ref,
    New,
    Index,
    Await,
    TryPropagate,
    Throw,
    SizeOf,
    AlignOf,
    NameOf,
    InterpolatedString,
    Quote,
    Pattern,
    Unknown,
}

/// The variant name and discriminant of `Std::Meta::QuoteNodeKind` for a kind.
pub open spec fn kind_descriptor(k: QuoteNodeKindValue) -> (Seq<char>, i128) {
    match k {
        QuoteNodeKindValue::Literal => ("Literal"@, 0),
        QuoteNodeKindValue::Identifier => ("Identifier"@, 1),
        QuoteNodeKindValue::Unary => ("Unary"@, 2),
        QuoteNodeKindValue::Binary => ("Binary"@, 3),
        QuoteNodeKindValue::Conditional => ("Conditional"@, 4),
        QuoteNodeKindValue::Cast => ("Cast"@, 5),
        QuoteNodeKindValue::Lambda => ("Lambda"@, 6),
        QuoteNodeKindValue::Tuple => ("Tuple"@, 7),
        QuoteNodeKindValue::Assign => ("Assign"@, 8),
        QuoteNodeKindValue::Member => ("Member"@, 9),
        QuoteNodeKindValue::Call => ("Call"@, 10),
        QuoteNodeKindValue::Argument => ("Argument"@, 11),
        QuoteNodeKindValue::Ref => ("Ref"@, 12),
        QuoteNodeKindValue::New => ("New"@, 13),
        QuoteNodeKindValue::Index => ("Index"@, 14),
        QuoteNodeKindValue::Await => ("Await"@, 15),
        QuoteNodeKindValue::TryPropagate => ("TryPropagate"@, 16),
        QuoteNodeKindValue::Throw => ("Throw"@, 17),
        QuoteNodeKindValue::SizeOf => ("SizeOf"@, 18),
        QuoteNodeKindValue::AlignOf => ("AlignOf"@, 19),
        QuoteNodeKindValue::NameOf => ("NameOf"@, 20),
        QuoteNodeKindValue::InterpolatedString => ("InterpolatedString"@, 21),
        QuoteNodeKindValue::Quote => ("Quote"@, 22),
        QuoteNodeKindValue::Pattern => ("Pattern"@, 23),
        QuoteNodeKindValue::Unknown => ("Unknown"@, 24),
    }
}

impl QuoteNodeKindValue {
    /// The variant name and discriminant of `Std::Meta::QuoteNodeKind` for this kind.
    pub fn descriptor(&self) -> (r: (&'static str, i128))
        ensures
            (r.0@, r.1) == kind_descriptor(*self),
    {
        match self {
            QuoteNodeKindValue::Literal => ("Literal", 0),
            QuoteNodeKindValue::Identifier => ("Identifier", 1),
            QuoteNodeKindValue::Unary => ("Unary", 2),
            QuoteNodeKindValue::Binary => ("Binary", 3),
            QuoteNodeKindValue::Conditional => ("Conditional", 4),
            QuoteNodeKindValue::Cast => ("Cast", 5),
            QuoteNodeKindValue::Lambda => ("Lambda", 6),
            QuoteNodeKindValue::Tuple => ("Tuple", 7),
            QuoteNodeKindValue::Assign => ("Assign", 8),
            QuoteNodeKindValue::Member => ("Member", 9),
            QuoteNodeKindValue::Call => ("Call", 10),
            QuoteNodeKindValue::Argument => ("Argument", 11),
            QuoteNodeKindValue::Ref => ("Ref", 12),
            QuoteNodeKindValue::New => ("New", 13),
            QuoteNodeKindValue::Index => ("Index", 14),
            QuoteNodeKindValue::Await => ("Await", 15),
            QuoteNodeKindValue::TryPropagate => ("TryPropagate", 16),
            QuoteNodeKindValue::Throw => ("Throw", 17),
            QuoteNodeKindValue::SizeOf => ("SizeOf", 18),
            QuoteNodeKindValue::AlignOf => ("AlignOf", 19),
            QuoteNodeKindValue::NameOf => ("NameOf", 20),
            QuoteNodeKindValue::InterpolatedString => ("InterpolatedString", 21),
            QuoteNodeKindValue::Quote => ("Quote", 22),
            QuoteNodeKindValue::Pattern => ("Pattern", 23),
            QuoteNodeKindValue::Unknown => ("Unknown", 24),
        }
    }
}

/// The symbol of a unary operator.
pub open spec fn unary_text(op: UnOp) -> Seq<char> {
    match op {
        UnOp::Neg => "-"@,
        UnOp::UnaryPlus => "+"@,
        UnOp::Not => "!"@,
        UnOp::BitNot => "~"@,
        UnOp::Increment => "++"@,
        UnOp::Decrement => "--"@,
        UnOp::Deref => "*"@,
        UnOp::AddrOf => "&"@,
        UnOp::AddrOfMut => "&mut"@,
    }
}

/// The symbol of a binary operator.
pub open spec fn binary_text(op: BinOp) -> Seq<char> {
    match op {
        BinOp::Add => "+"@,
        BinOp::Sub => "-"@,
        BinOp::Mul => "*"@,
        BinOp::Div => "/"@,
        BinOp::Rem => "%"@,
        BinOp::BitAnd => "&"@,
        BinOp::BitOr => "|"@,
        BinOp::BitXor => "^"@,
        BinOp::Shl => "<<"@,
        BinOp::Shr => ">>"@,
        BinOp::Eq => "=="@,
        BinOp::Ne => "!="@,
        BinOp::Lt => "<"@,
        BinOp::Le => "<="@,
        BinOp::Gt => ">"@,
        BinOp::Ge => ">="@,
        BinOp::And => "&&"@,
        BinOp::Or => "||"@,
        BinOp::NullCoalesce => "??"@,
    }
}

/// The symbol of an assignment operator.
pub open spec fn assign_text(op: AssignOp) -> Seq<char> {
    match op {
        AssignOp::Assign => "="@,
        AssignOp::AddAssign => "+="@,
        AssignOp::SubAssign => "-="@,
        AssignOp::MulAssign => "*="@,
        AssignOp::DivAssign => "/="@,
        AssignOp::RemAssign => "%="@,
        AssignOp::BitAndAssign => "&="@,
        AssignOp::BitOrAssign => "|="@,
        AssignOp::BitXorAssign => "^="@,
        AssignOp::ShlAssign => "<<="@,
        AssignOp::ShrAssign => ">>="@,
        AssignOp::NullCoalesceAssign => "??="@,
    }
}

/// The symbol of a unary operator.
pub fn unary_symbol(op: UnOp) -> (r: &'static str)
    ensures
        r@ == unary_text(op),
{
    match op {
        UnOp::Neg => "-",
        UnOp::UnaryPlus => "+",
        UnOp::Not => "!",
        UnOp::BitNot => "~",
        UnOp::Increment => "++",
        UnOp::Decrement => "--",
        UnOp::Deref => "*",
        UnOp::AddrOf => "&",
        UnOp::AddrOfMut => "&mut",
    }
}

/// The symbol of a binary operator.
pub fn binary_symbol(op: BinOp) -> (r: &'static str)
    ensures
        r@ == binary_text(op),
{
    match op {
        BinOp::Add => "+",
        BinOp::Sub => "-",
        BinOp::Mul => "*",
        BinOp::Div => "/",
        BinOp::Rem => "%",
        BinOp::BitAnd => "&",
        BinOp::BitOr => "|",
        BinOp::BitXor => "^",
        BinOp::Shl => "<<",
        BinOp::Shr => ">>",
        BinOp::Eq => "==",
        BinOp::Ne => "!=",
        BinOp::Lt => "<",
        BinOp::Le => "<=",
        BinOp::Gt => ">",
        BinOp::Ge => ">=",
        BinOp::And => "&&",
        BinOp::Or => "||",
        BinOp::NullCoalesce => "??",
    }
}

/// The symbol of an assignment operator.
pub fn assign_symbol(op: AssignOp) -> (r: &'static str)
    ensures
        r@ == assign_text(op),
{
    match op {
        AssignOp::Assign => "=",
        AssignOp::AddAssign => "+=",
        AssignOp::SubAssign => "-=",
        AssignOp::MulAssign => "*=",
        AssignOp::DivAssign => "/=",
        AssignOp::RemAssign => "%=",
        AssignOp::BitAndAssign => "&=",
        AssignOp::BitOrAssign => "|=",
        AssignOp::BitXorAssign => "^=",
        AssignOp::ShlAssign => "<<=",
        AssignOp::ShrAssign => ">>=",
        AssignOp::NullCoalesceAssign => "??=",
    }
}

/// A quoted syntax node: `Std::Meta::QuoteNode` with its kind, optional text and children.
pub open spec fn quote_node(
    kind: QuoteNodeKindValue,
    value: Option<Seq<char>>,
    children: Seq<ConstModel>,
) -> ConstModel {
    ConstModel::Struct {
        type_path: "Std::Meta::QuoteNode"@,
        fields: seq![
            (
                "Kind"@,
                ConstModel::Enum {
                    type_path: "Std::Meta::QuoteNodeKind"@,
                    variant: kind_descriptor(kind).0,
                    discriminant: kind_descriptor(kind).1,
                },
            ),
            (
                "Value"@,
                match value {
                    Some(v) => ConstModel::RawStr(v),
                    None => ConstModel::Null,
                },
            ),
            ("Children"@, descriptor_list("Std::Meta::QuoteNode"@, children)),
        ],
    }
}

/// Builds a quoted syntax node (see `quote_node`).
pub fn make_quote_node(kind: QuoteNodeKindValue, value: Option<String>, children: Vec<ConstValue>) -> (r:
    ConstValue)
    ensures
        r@ == quote_node(kind, crate::cache::opt_str(value), models(children@)),
{
    let (variant, discriminant) = kind.descriptor();
    let kind_value = enum_const("Std::Meta::QuoteNodeKind", variant, discriminant);
    let value_value = match value {
        Some(v) => ConstValue::RawStr(v),
        None => ConstValue::Null,
    };
    let list = reflect_descriptor_list("Std::Meta::QuoteNode", children);
    let ghost km = kind_value@;
    let ghost vm = value_value@;
    let ghost lm = list@;
    let mut fields: Vec<(String, ConstValue)> = Vec::new();
    fields.push((owned("Kind"), kind_value));
    fields.push((owned("Value"), value_value));
    fields.push((owned("Children"), list));
    let r = ConstValue::Struct { type_path: owned("Std::Meta::QuoteNode"), fields };
    proof {
        lemma_struct_model(r);
        assert(field_models(r->fields@) =~= seq![("Kind"@, km), ("Value"@, vm), ("Children"@, lm)]);
        let ghost q = quote_node(kind, crate::cache::opt_str(value), models(children@));
        assert(q->fields =~= seq![("Kind"@, km), ("Value"@, vm), ("Children"@, lm)]);
    }
    r
}

/// The kind of node that quoting an expression gives.
pub open spec fn node_kind(node: ExprNode) -> QuoteNodeKindValue {
    match node {
        ExprNode::Literal(_) | ExprNode::Default { .. } | ExprNode::InlineAsm(_) => QuoteNodeKindValue::Literal,
        ExprNode::Identifier(_) => QuoteNodeKindValue::Identifier,
        ExprNode::Unary { .. } | ExprNode::IndexFromEnd(_) => QuoteNodeKindValue::Unary,
        ExprNode::ArrayLiteral(_) | ExprNode::Parenthesized(_) | ExprNode::Tuple(_) => QuoteNodeKindValue::Tuple,
        ExprNode::Range { .. } | ExprNode::Binary { .. } => QuoteNodeKindValue::Binary,
        ExprNode::Conditional { .. } => QuoteNodeKindValue::Conditional,
        ExprNode::Switch { .. } => QuoteNodeKindValue::Unknown,
        ExprNode::Cast { .. } => QuoteNodeKindValue::Cast,
        ExprNode::IsPattern { .. } => QuoteNodeKindValue::Pattern,
        ExprNode::Lambda(_) => QuoteNodeKindValue::Lambda,
        ExprNode::Assign { .. } => QuoteNodeKindValue::Assign,
        ExprNode::Member { .. } => QuoteNodeKindValue::Member,
        ExprNode::Call { .. } => QuoteNodeKindValue::Call,
        ExprNode::Ref { .. } => QuoteNodeKindValue::Ref,
        ExprNode::New(_) => QuoteNodeKindValue::New,
        ExprNode::Index { .. } => QuoteNodeKindValue::Index,
        ExprNode::Await { .. } => QuoteNodeKindValue::Await,
        ExprNode::TryPropagate { .. } => QuoteNodeKindValue::TryPropagate,
        ExprNode::Throw { .. } => QuoteNodeKindValue::Throw,
        ExprNode::SizeOf(_) => QuoteNodeKindValue::SizeOf,
        ExprNode::AlignOf(_) => QuoteNodeKindValue::AlignOf,
        ExprNode::NameOf(_) => QuoteNodeKindValue::NameOf,
        ExprNode::InterpolatedString(_) => QuoteNodeKindValue::InterpolatedString,
        ExprNode::Quote(_) => QuoteNodeKindValue::Quote,
    }
}

/// The kind of node that quoting an expression gives (see `node_kind`).
pub fn node_kind_of(node: &ExprNode) -> (k: QuoteNodeKindValue)
    ensures
        k == node_kind(*node),
{
    match node {
        ExprNode::Literal(_) | ExprNode::Default { .. } | ExprNode::InlineAsm(_) => QuoteNodeKindValue::Literal,
        ExprNode::Identifier(_) => QuoteNodeKindValue::Identifier,
        ExprNode::Unary { .. } | ExprNode::IndexFromEnd(_) => QuoteNodeKindValue::Unary,
        ExprNode::ArrayLiteral(_) | ExprNode::Parenthesized(_) | ExprNode::Tuple(_) => QuoteNodeKindValue::Tuple,
        ExprNode::Range { .. } | ExprNode::Binary { .. } => QuoteNodeKindValue::Binary,
        ExprNode::Conditional { .. } => QuoteNodeKindValue::Conditional,
        ExprNode::Switch { .. } => QuoteNodeKindValue::Unknown,
        ExprNode::Cast { .. } => QuoteNodeKindValue::Cast,
        ExprNode::IsPattern { .. } => QuoteNodeKindValue::Pattern,
        ExprNode::Lambda(_) => QuoteNodeKindValue::Lambda,
        ExprNode::Assign { .. } => QuoteNodeKindValue::Assign,
        ExprNode::Member { .. } => QuoteNodeKindValue::Member,
        ExprNode::Call { .. } => QuoteNodeKindValue::Call,
        ExprNode::Ref { .. } => QuoteNodeKindValue::Ref,
        ExprNode::New(_) => QuoteNodeKindValue::New,
        ExprNode::Index { .. } => QuoteNodeKindValue::Index,
        ExprNode::Await { .. } => QuoteNodeKindValue::Await,
        ExprNode::TryPropagate { .. } => QuoteNodeKindValue::TryPropagate,
        ExprNode::Throw { .. } => QuoteNodeKindValue::Throw,
        ExprNode::SizeOf(_) => QuoteNodeKindValue::SizeOf,
        ExprNode::AlignOf(_) => QuoteNodeKindValue::AlignOf,
        ExprNode::NameOf(_) => QuoteNodeKindValue::NameOf,
        ExprNode::InterpolatedString(_) => QuoteNodeKindValue::InterpolatedString,
        ExprNode::Quote(_) => QuoteNodeKindValue::Quote,
    }
}

/// The text a quoted node carries, where it is not the rendered expression.
pub open spec fn node_label(node: ExprNode) -> Option<Seq<char>> {
    match node {
        ExprNode::Identifier(name) => Some(name@),
        ExprNode::Default { explicit_type } => Some(
            match explicit_type {
                Some(t) => "default("@ + t@ + ")"@,
                None => "default"@,
            },
        ),
        ExprNode::Unary { op, postfix, .. } => Some(
            if postfix && (op == UnOp::Increment || op == UnOp::Decrement) {
                unary_text(op) + "(post)"@
            } else {
                unary_text(op)
            },
        ),
        ExprNode::IndexFromEnd(_) => Some("^"@),
        ExprNode::ArrayLiteral(_) => Some("[]"@),
        ExprNode::Range { inclusive, .. } => Some(
            if inclusive {
                "..="@
            } else {
                ".."@
            },
        ),
        ExprNode::Binary { op, .. } => Some(binary_text(op)),
        ExprNode::Cast { target, .. } => Some(target@),
        ExprNode::Assign { op, .. } => Some(assign_text(op)),
        ExprNode::Member { member, .. } => Some(member@),
        ExprNode::Ref { readonly, .. } => Some(
            if readonly {
                "readonly"@
            } else {
                "ref"@
            },
        ),
        ExprNode::New(n) => Some(n.type_path@),
        ExprNode::SizeOf(SizeOfOperand::Type(name)) => Some(name@),
        ExprNode::AlignOf(SizeOfOperand::Type(name)) => Some(name@),
        ExprNode::NameOf(operand) => Some(operand.text@),
        ExprNode::InlineAsm(_) => Some("asm!"@),
        ExprNode::Quote(q) => Some(q.source@),
        _ => None,
    }
}

/// How many children the quoted node of an expression has.
pub open spec fn child_count(node: ExprNode) -> nat {
    match node {
        ExprNode::Unary { .. } | ExprNode::IndexFromEnd(_) | ExprNode::Cast { .. }
        | ExprNode::IsPattern { .. } | ExprNode::Parenthesized(_) | ExprNode::Member { .. }
        | ExprNode::Ref { .. } | ExprNode::Await { .. } | ExprNode::TryPropagate { .. }
        | ExprNode::Quote(_) => 1,
        ExprNode::Binary { .. } | ExprNode::Assign { .. } => 2,
        ExprNode::Conditional { .. } => 3,
        ExprNode::ArrayLiteral(v) | ExprNode::Tuple(v) => v@.len(),
        ExprNode::Range { start, end, .. } => (if start is Some {
            1nat
        } else {
            0nat
        }) + (if end is Some {
            1nat
        } else {
            0nat
        }),
        ExprNode::Switch { arms, .. } => 1 + arms@.len(),
        ExprNode::Lambda(l) => l.params@.len() + 1,
        ExprNode::Call { args, .. } => 1 + args@.len(),
        ExprNode::New(n) => n.args@.len() + match n.initializer {
            Some(NewInitializer::Object { fields }) => fields@.len(),
            Some(NewInitializer::Collection { elements }) => elements@.len(),
            None => 0,
        },
        ExprNode::Index { indices, .. } => 1 + indices@.len(),
        ExprNode::Throw { expr } => if expr is Some {
            1
        } else {
            0
        },
        ExprNode::SizeOf(SizeOfOperand::Value(_)) | ExprNode::AlignOf(SizeOfOperand::Value(_)) => 1,
        ExprNode::InterpolatedString(segments) => segments@.len(),
        _ => 0,
    }
}

/// Whether `v` is the quoted tree of `node`: a node of its kind, whose value is its label where
/// it has one and its source text otherwise, and whose children quote its sub-expressions in
/// order (see `quoted_children`).
pub open spec fn quote_tree(v: ConstModel, node: ExprNode) -> bool
    decreases node, 1nat,
{
    exists|value: Option<Seq<char>>, children: Seq<ConstModel>|
        #![trigger quote_node(node_kind(node), value, children)]
        v == quote_node(node_kind(node), value, children) && children.len() == child_count(node)
            && value == Some(
            match node_label(node) {
                Some(l) => l,
                None => expr_text(node),
            },
        ) && quoted_children(children, node)
}

/// Whether `v` is an `Argument` node with the given value whose one child is the quoted tree
/// of `expr`.
pub open spec fn wraps_quote(v: ConstModel, value: Option<Seq<char>>, expr: ExprNode) -> bool
    decreases expr, 2nat,
{
    exists|c: ConstModel|
        #![trigger quote_node(QuoteNodeKindValue::Argument, value, seq![c])]
        v == quote_node(QuoteNodeKindValue::Argument, value, seq![c]) && quote_tree(c, expr)
}

/// Whether `children` quote the sub-expressions of `node`, in order: the operands; each
/// element; a switch's scrutinee then its arms; a lambda's parameters (as `Argument` nodes)
/// then its body (a block as an `Unknown` node of its trimmed text); a call's callee then its
/// arguments, and a `new` expression's arguments then its initializer entries (each wrapped in
/// an `Argument` node); each segment of an interpolated string (text as a `Literal` node).
pub open spec fn quoted_children(children: Seq<ConstModel>, node: ExprNode) -> bool
    decreases node, 0nat,
{
    match node {
        ExprNode::Unary { expr, .. } => quote_tree(children[0], *expr),
        ExprNode::IndexFromEnd(expr) => quote_tree(children[0], *expr),
        ExprNode::Parenthesized(expr) => quote_tree(children[0], *expr),
        ExprNode::Ref { expr, .. } => quote_tree(children[0], *expr),
        ExprNode::Await { expr } => quote_tree(children[0], *expr),
        ExprNode::TryPropagate { expr } => quote_tree(children[0], *expr),
        ExprNode::Cast { expr, .. } => quote_tree(children[0], *expr),
        ExprNode::IsPattern { value, .. } => quote_tree(children[0], *value),
        ExprNode::Member { base, .. } => quote_tree(children[0], *base),
        ExprNode::Quote(q) => quote_tree(children[0], *q.expression),
        ExprNode::SizeOf(SizeOfOperand::Value(expr)) => quote_tree(children[0], *expr),
        ExprNode::AlignOf(SizeOfOperand::Value(expr)) => quote_tree(children[0], *expr),
        ExprNode::Binary { left, right, .. } => quote_tree(children[0], *left) && quote_tree(children[1], *right),
        ExprNode::Assign { target, value, .. } => quote_tree(children[0], *target) && quote_tree(
            children[1],
            *value,
        ),
        ExprNode::Conditional { condition, then_branch, else_branch } => quote_tree(children[0], *condition)
            && quote_tree(children[1], *then_branch) && quote_tree(children[2], *else_branch),
        ExprNode::Range { start, end, .. } => match start {
            Some(s) => quote_tree(children[0], *s) && match end {
                Some(e) => quote_tree(children[1], *e),
                None => true,
            },
            None => match end {
                Some(e) => quote_tree(children[0], *e),
                None => true,
            },
        },
        ExprNode::Throw { expr } => match expr {
            Some(e) => quote_tree(children[0], *e),
            None => true,
        },
        ExprNode::ArrayLiteral(elements) => forall|i: int|
            #![trigger elements@[i]]
            0 <= i < elements@.len() ==> quote_tree(children[i], elements@[i]),
        ExprNode::Tuple(elements) => forall|i: int|
            #![trigger elements@[i]]
            0 <= i < elements@.len() ==> quote_tree(children[i], elements@[i]),
        ExprNode::Switch { value, arms } => quote_tree(children[0], *value) && forall|i: int|
            #![trigger arms@[i]]
            0 <= i < arms@.len() ==> quote_tree(children[i + 1], arms@[i].expression),
        ExprNode::Index { base, indices, .. } => quote_tree(children[0], *base) && forall|i: int|
            #![trigger indices@[i]]
            0 <= i < indices@.len() ==> quote_tree(children[i + 1], indices@[i]),
        ExprNode::Lambda(l) => (forall|i: int|
            #![trigger l.params@[i]]
            0 <= i < l.params@.len() ==> children[i] == quote_node(
                QuoteNodeKindValue::Argument,
                Some(l.params@[i].name@),
                Seq::empty(),
            )) && match l.body {
            LambdaBody::Expression(body) => quote_tree(children[l.params@.len() as int], *body),
            LambdaBody::Block(text) => children[l.params@.len() as int] == quote_node(
                QuoteNodeKindValue::Unknown,
                Some(trim(text@)),
                Seq::empty(),
            ),
        },
        ExprNode::Call { callee, args, .. } => quote_tree(children[0], *callee) && forall|i: int|
            #![trigger args@[i]]
            0 <= i < args@.len() ==> wraps_quote(children[i + 1], argument_summary(args@[i]), args@[i].value),
        ExprNode::New(n) => (forall|i: int|
            #![trigger n.args@[i]]
            0 <= i < n.args@.len() ==> wraps_quote(children[i], argument_summary(n.args@[i]), n.args@[i].value))
            && match n.initializer {
            Some(NewInitializer::Object { fields }) => forall|j: int|
                #![trigger fields@[j]]
                0 <= j < fields@.len() ==> wraps_quote(
                    children[n.args@.len() + j],
                    Some("field="@ + fields@[j].name@),
                    fields@[j].value,
                ),
            Some(NewInitializer::Collection { elements }) => forall|j: int|
                #![trigger elements@[j]]
                0 <= j < elements@.len() ==> wraps_quote(
                    children[n.args@.len() + j],
                    Some("element#"@ + nat_text(j as nat)),
                    elements@[j],
                ),
            None => true,
        },
        ExprNode::InterpolatedString(segments) => forall|i: int|
            #![trigger segments@[i]]
            0 <= i < segments@.len() ==> match segments@[i] {
                InterpolatedStringSegment::Text(t) => children[i] == quote_node(
                    QuoteNodeKindValue::Literal,
                    Some(t@),
                    Seq::empty(),
                ),
                InterpolatedStringSegment::Expr(e) => quote_tree(children[i], e),
            },
        _ => true,
    }
}

/// The details a quoted call argument carries: its name, modifier and inline binding.
pub open spec fn argument_details(arg: CallArgument) -> Seq<Seq<char>> {
    let named = match arg.name {
        Some(n) => seq!["name="@ + n.text@],
        None => Seq::empty(),
    };
    let modified = match arg.modifier {
        Some(m) => seq!["modifier="@ + crate::ast::modifier_keyword(m)],
        None => Seq::empty(),
    };
    let bound = if arg.inline_binding is Some {
        seq!["binding=true"@]
    } else {
        Seq::empty()
    };
    named + modified + bound
}

/// The summary of a quoted call argument: its details joined by commas, if it has any.
pub open spec fn argument_summary(arg: CallArgument) -> Option<Seq<char>> {
    if argument_details(arg).len() == 0 {
        None
    } else {
        Some(join_seq(argument_details(arg), ","@))
    }
}

impl ConstEvalContext {
    /// The source text of an expression, as it appears in quoted nodes.
    pub fn render_expr_text(&self, node: &ExprNode) -> (r: String)
        ensures
            r@ == expr_text(*node),
            expr_leaf_text(*node) matches Some(t) ==> r@ == t,
    {
        format_expression(node)
    }

    /// The quoted node of a call argument: an `Argument` node with the argument's summary
    /// and the quoted value as its one child.
    pub fn build_quote_argument_node(&self, argument: &CallArgument) -> (r: ConstValue)
        ensures
            wraps_quote(r@, argument_summary(*argument), argument.value),
        decreases argument, 1int,
    {
        let mut details: Vec<String> = Vec::new();
        if let Some(name) = &argument.name {
            details.push(cat("name=", name.text.as_str()));
        }
        if let Some(modifier) = argument.modifier {
            details.push(cat("modifier=", modifier.keyword()));
        }
        if argument.inline_binding.is_some() {
            details.push(owned("binding=true"));
        }
        assert(views(details@) =~= argument_details(*argument));
        let summary = if details.len() == 0 {
            None
        } else {
            Some(join(&details, ","))
        };
        let child = self.build_quote_node_value(&argument.value);
        let ghost cm = child@;
        let mut children: Vec<ConstValue> = Vec::new();
        children.push(child);
        assert(models(children@) =~= seq![cm]);
        make_quote_node(QuoteNodeKindValue::Argument, summary, children)
    }

    /// The quoted form of an expression: a `Std::Meta::QuoteNode` of the expression's kind,
    /// with its label and one child per sub-expression (see `quote_tree`).
    #[verifier::loop_isolation(false)]
    #[verifier::rlimit(100)]
    pub fn build_quote_node_value(&self, node: &ExprNode) -> (r: ConstValue)
        ensures
            quote_tree(r@, *node),
        decreases node, 0int,
    {
        let mut children: Vec<ConstValue> = Vec::new();
        let value: Option<String> = match node {
            ExprNode::Literal(_) => Some(self.render_expr_text(node)),
            ExprNode::Default { explicit_type } => Some(
                match explicit_type {
                    Some(t) => cat3("default(", t.as_str(), ")"),
                    None => owned("default"),
                },
            ),
            ExprNode::Identifier(name) => Some(name.clone()),
            ExprNode::Unary { op, expr, postfix } => {
                children.push(self.build_quote_node_value(expr));
                let symbol = unary_symbol(*op);
                Some(
                    if *postfix && (*op == UnOp::Increment || *op == UnOp::Decrement) {
                        cat(symbol, "(post)")
                    } else {
                        owned(symbol)
                    },
                )
            },
            ExprNode::IndexFromEnd(expr) => {
                children.push(self.build_quote_node_value(expr));
                Some(owned("^"))
            },
            ExprNode::ArrayLiteral(elements) => {
                let mut i: usize = 0;
                while i < elements.len()
                    invariant
                        i <= elements.len(),
                        children@.len() == i,
                        forall|k: int|
                            #![trigger elements@[k]]
                            0 <= k < i ==> quote_tree(models(children@)[k], elements@[k]),
                    decreases elements.len() - i,
                {
                    proof {
                        assert(decreases_to!(*node => *elements));
                        assert(decreases_to!(*elements => elements@));
                        assert(decreases_to!(elements@ => elements@[i as int]));
                    }
                    children.push(self.build_quote_node_value(&elements[i]));
                    i = i + 1;
                }
                Some(owned("[]"))
            },
            ExprNode::Range { start, end, inclusive } => {
                if let Some(s) = start {
                    children.push(self.build_quote_node_value(s));
                }
                if let Some(e) = end {
                    children.push(self.build_quote_node_value(e));
                }
                Some(owned(if *inclusive {
                    "..="
                } else {
                    ".."
                }))
            },
            ExprNode::Binary { op, left, right } => {
                children.push(self.build_quote_node_value(left));
                children.push(self.build_quote_node_value(right));
                Some(owned(binary_symbol(*op)))
            },
            ExprNode::Conditional { condition, then_branch, else_branch } => {
                children.push(self.build_quote_node_value(condition));
                children.push(self.build_quote_node_value(then_branch));
                children.push(self.build_quote_node_value(else_branch));
                Some(self.render_expr_text(node))
            },
            ExprNode::Switch { value, arms } => {
                children.push(self.build_quote_node_value(value));
                let mut i: usize = 0;
                while i < arms.len()
                    invariant
                        i <= arms.len(),
                        children@.len() == i + 1,
                        quote_tree(models(children@)[0], **value),
                        forall|k: int|
                            #![trigger arms@[k]]
                            0 <= k < i ==> quote_tree(models(children@)[k + 1], arms@[k].expression),
                    decreases arms.len() - i,
                {
                    proof {
                        assert(decreases_to!(*node => *arms));
                        assert(decreases_to!(*arms => arms@));
                        assert(decreases_to!(arms@ => arms@[i as int]));
                        assert(decreases_to!(arms@[i as int] => arms@[i as int].expression));
                    }
                    children.push(self.build_quote_node_value(&arms[i].expression));
                    i = i + 1;
                }
                Some(self.render_expr_text(node))
            },
            ExprNode::Cast { target, expr, .. } => {
                children.push(self.build_quote_node_value(expr));
                Some(target.clone())
            },
            ExprNode::IsPattern { value, .. } => {
                children.push(self.build_quote_node_value(value));
                Some(self.render_expr_text(node))
            },
            ExprNode::Lambda(lambda) => {
                let mut i: usize = 0;
                while i < lambda.params.len()
                    invariant
                        i <= lambda.params.len(),
                        children@.len() == i,
                        forall|k: int|
                            #![trigger lambda.params@[k]]
                            0 <= k < i ==> models(children@)[k] == quote_node(
                                QuoteNodeKindValue::Argument,
                                Some(lambda.params@[k].name@),
                                Seq::empty(),
                            ),
                    decreases lambda.params.len() - i,
                {
                    children.push(
                        make_quote_node(
                            QuoteNodeKindValue::Argument,
                            Some(lambda.params[i].name.clone()),
                            Vec::new(),
                        ),
                    );
                    i = i + 1;
                }
                match &lambda.body {
                    LambdaBody::Expression(body) => {
                        proof {
                            assert(decreases_to!(*node => *lambda));
                            assert(decreases_to!(*lambda => lambda.body));
                        }
                        children.push(self.build_quote_node_value(body));
                    },
                    LambdaBody::Block(text) => {
                        children.push(
                            make_quote_node(QuoteNodeKindValue::Unknown, Some(trim_text(text.as_str())), Vec::new()),
                        );
                    },
                }
                Some(self.render_expr_text(node))
            },
            ExprNode::Parenthesized(inner) => {
                children.push(self.build_quote_node_value(inner));
                Some(self.render_expr_text(node))
            },
            ExprNode::Tuple(elements) => {
                let mut i: usize = 0;
                while i < elements.len()
                    invariant
                        i <= elements.len(),
                        children@.len() == i,
                        forall|k: int|
                            #![trigger elements@[k]]
                            0 <= k < i ==> quote_tree(models(children@)[k], elements@[k]),
                    decreases elements.len() - i,
                {
                    proof {
                        assert(decreases_to!(*node => *elements));
                        assert(decreases_to!(*elements => elements@));
                        assert(decreases_to!(elements@ => elements@[i as int]));
                    }
                    children.push(self.build_quote_node_value(&elements[i]));
                    i = i + 1;
                }
                Some(self.render_expr_text(node))
            },
            ExprNode::Assign { op, target, value } => {
                children.push(self.build_quote_node_value(target));
                children.push(self.build_quote_node_value(value));
                Some(owned(assign_symbol(*op)))
            },
            ExprNode::Member { base, member, .. } => {
                children.push(self.build_quote_node_value(base));
                Some(member.clone())
            },
            ExprNode::Call { callee, args, .. } => {
                children.push(self.build_quote_node_value(callee));
                let mut i: usize = 0;
                while i < args.len()
                    invariant
                        i <= args.len(),
                        children@.len() == i + 1,
                        quote_tree(models(children@)[0], **callee),
                        forall|k: int|
                            #![trigger args@[k]]
                            0 <= k < i ==> wraps_quote(
                                models(children@)[k + 1],
                                argument_summary(args@[k]),
                                args@[k].value,
                            ),
                    decreases args.len() - i,
                {
                    proof {
                        assert(decreases_to!(*node => *args));
                        assert(decreases_to!(*args => args@));
                        assert(decreases_to!(args@ => args@[i as int]));
                    }
                    children.push(self.build_quote_argument_node(&args[i]));
                    i = i + 1;
                }
                Some(self.render_expr_text(node))
            },
            ExprNode::Ref { expr, readonly } => {
                children.push(self.build_quote_node_value(expr));
                Some(owned(if *readonly {
                    "readonly"
                } else {
                    "ref"
                }))
            },
            ExprNode::New(new_expr) => {
                let mut i: usize = 0;
                while i < new_expr.args.len()
                    invariant
                        i <= new_expr.args.len(),
                        children@.len() == i,
                        forall|k: int|
                            #![trigger new_expr.args@[k]]
                            0 <= k < i ==> wraps_quote(
                                models(children@)[k],
                                argument_summary(new_expr.args@[k]),
                                new_expr.args@[k].value,
                            ),
                    decreases new_expr.args.len() - i,
                {
                    proof {
                        assert(decreases_to!(*node => *new_expr));
                        assert(decreases_to!(*new_expr => new_expr.args));
                        assert(decreases_to!(new_expr.args => new_expr.args@));
                        assert(decreases_to!(new_expr.args@ => new_expr.args@[i as int]));
                    }
                    children.push(self.build_quote_argument_node(&new_expr.args[i]));
                    i = i + 1;
                }
                match &new_expr.initializer {
                    Some(NewInitializer::Object { fields }) => {
                        let mut j: usize = 0;
                        while j < fields.len()
                            invariant
                                j <= fields.len(),
                                children@.len() == new_expr.args@.len() + j,
                                forall|k: int|
                                    #![trigger new_expr.args@[k]]
                                    0 <= k < new_expr.args@.len() ==> wraps_quote(
                                        models(children@)[k],
                                        argument_summary(new_expr.args@[k]),
                                        new_expr.args@[k].value,
                                    ),
                                forall|k: int|
                                    #![trigger fields@[k]]
                                    0 <= k < j ==> wraps_quote(
                                        models(children@)[new_expr.args@.len() + k],
                                        Some("field="@ + fields@[k].name@),
                                        fields@[k].value,
                                    ),
                            decreases fields.len() - j,
                        {
                            proof {
                                assert(decreases_to!(*node => *new_expr));
                                assert(decreases_to!(*new_expr => new_expr.initializer));
                                assert(decreases_to!(new_expr.initializer => new_expr.initializer->Some_0));
                                assert(decreases_to!(new_expr.initializer->Some_0 => *fields));
                                assert(decreases_to!(*fields => fields@));
                                assert(decreases_to!(fields@ => fields@[j as int]));
                                assert(decreases_to!(fields@[j as int] => fields@[j as int].value));
                            }
                            let inner = self.build_quote_node_value(&fields[j].value);
                            let ghost im = inner@;
                            let mut one: Vec<ConstValue> = Vec::new();
                            one.push(inner);
                            assert(models(one@) =~= seq![im]);
                            let wrapped = make_quote_node(
                                QuoteNodeKindValue::Argument,
                                Some(cat("field=", fields[j].name.as_str())),
                                one,
                            );
                            assert(wraps_quote(wrapped@, Some("field="@ + fields@[j as int].name@), fields@[j as int].value));
                            let ghost prev = models(children@);
                            let ghost wm = wrapped@;
                            children.push(wrapped);
                            assert(models(children@) =~= prev.push(wm));
                            j = j + 1;
                        }
                    },
                    Some(NewInitializer::Collection { elements }) => {
                        let mut j: usize = 0;
                        while j < elements.len()
                            invariant
                                j <= elements.len(),
                                children@.len() == new_expr.args@.len() + j,
                                forall|k: int|
                                    #![trigger new_expr.args@[k]]
                                    0 <= k < new_expr.args@.len() ==> wraps_quote(
                                        models(children@)[k],
                                        argument_summary(new_expr.args@[k]),
                                        new_expr.args@[k].value,
                                    ),
                                forall|k: int|
                                    #![trigger elements@[k]]
                                    0 <= k < j ==> wraps_quote(
                                        models(children@)[new_expr.args@.len() + k],
                                        Some("element#"@ + nat_text(k as nat)),
                                        elements@[k],
                                    ),
                            decreases elements.len() - j,
                        {
                            proof {
                                assert(decreases_to!(*node => *new_expr));
                                assert(decreases_to!(*new_expr => new_expr.initializer));
                                assert(decreases_to!(new_expr.initializer => new_expr.initializer->Some_0));
                                assert(decreases_to!(new_expr.initializer->Some_0 => *elements));
                                assert(decreases_to!(*elements => elements@));
                                assert(decreases_to!(elements@ => elements@[j as int]));
                            }
                            let inner = self.build_quote_node_value(&elements[j]);
                            let ghost im = inner@;
                            let mut one: Vec<ConstValue> = Vec::new();
                            one.push(inner);
                            assert(models(one@) =~= seq![im]);
                            let index_text = u128_text(j as u128);
                            let wrapped = make_quote_node(
                                QuoteNodeKindValue::Argument,
                                Some(cat("element#", index_text.as_str())),
                                one,
                            );
                            assert(wraps_quote(wrapped@, Some("element#"@ + nat_text(j as nat)), elements@[j as int]));
                            let ghost prev = models(children@);
                            let ghost wm = wrapped@;
                            children.push(wrapped);
                            assert(models(children@) =~= prev.push(wm));
                            j = j + 1;
                        }
                    },
                    None => {},
                }
                Some(new_expr.type_path.clone())
            },
            ExprNode::Index { base, indices, .. } => {
                children.push(self.build_quote_node_value(base));
                let mut i: usize = 0;
                while i < indices.len()
                    invariant
                        i <= indices.len(),
                        children@.len() == i + 1,
                        quote_tree(models(children@)[0], **base),
                        forall|k: int|
                            #![trigger indices@[k]]
                            0 <= k < i ==> quote_tree(models(children@)[k + 1], indices@[k]),
                    decreases indices.len() - i,
                {
                    proof {
                        assert(decreases_to!(*node => *indices));
                        assert(decreases_to!(*indices => indices@));
                        assert(decreases_to!(indices@ => indices@[i as int]));
                    }
                    children.push(self.build_quote_node_value(&indices[i]));
                    i = i + 1;
                }
                Some(self.render_expr_text(node))
            },
            ExprNode::Await { expr } => {
                children.push(self.build_quote_node_value(expr));
                Some(self.render_expr_text(node))
            },
            ExprNode::TryPropagate { expr } => {
                children.push(self.build_quote_node_value(expr));
                Some(self.render_expr_text(node))
            },
            ExprNode::Throw { expr } => {
                if let Some(e) = expr {
                    children.push(self.build_quote_node_value(e));
                }
                Some(self.render_expr_text(node))
            },
            ExprNode::SizeOf(operand) | ExprNode::AlignOf(operand) => match operand {
                SizeOfOperand::Type(name) => Some(name.clone()),
                SizeOfOperand::Value(expr) => {
                    children.push(self.build_quote_node_value(expr));
                    Some(self.render_expr_text(node))
                },
            },
            ExprNode::NameOf(operand) => Some(operand.text.clone()),
            ExprNode::InlineAsm(_) => Some(owned("asm!")),
            ExprNode::InterpolatedString(segments) => {
                let mut i: usize = 0;
                while i < segments.len()
                    invariant
                        i <= segments.len(),
                        children@.len() == i,
                        forall|k: int|
                            #![trigger segments@[k]]
                            0 <= k < i ==> match segments@[k] {
                                InterpolatedStringSegment::Text(t) => models(children@)[k] == quote_node(
                                    QuoteNodeKindValue::Literal,
                                    Some(t@),
                                    Seq::empty(),
                                ),
                                InterpolatedStringSegment::Expr(e) => quote_tree(models(children@)[k], e),
                            },
                    decreases segments.len() - i,
                {
                    match &segments[i] {
                        InterpolatedStringSegment::Text(text) => {
                            children.push(
                                make_quote_node(QuoteNodeKindValue::Literal, Some(text.clone()), Vec::new()),
                            );
                        },
                        InterpolatedStringSegment::Expr(expr) => {
                            proof {
                                assert(decreases_to!(*node => *segments));
                                assert(decreases_to!(*segments => segments@));
                                assert(decreases_to!(segments@ => segments@[i as int]));
                            }
                            children.push(self.build_quote_node_value(expr));
                        },
                    }
                    i = i + 1;
                }
                Some(self.render_expr_text(node))
            },
            ExprNode::Quote(inner) => {
                proof {
                    assert(decreases_to!(*node => **inner));
                }
                children.push(self.build_quote_node_value(&inner.expression));
                Some(inner.source.clone())
            },
        };
        let ghost cms = models(children@);
        assert(cms.len() == child_count(*node));
        assert(node_label(*node) matches Some(l) ==> crate::cache::opt_str(value) == Some(l));
        assert(quoted_children(cms, *node));
        let r = make_quote_node(node_kind_of(node), value, children);
        assert(r@ == quote_node(node_kind(*node), crate::cache::opt_str(value), cms));
        r
    }
}

/// `a + b`, or `usize::MAX` where that does not fit.
pub open spec fn sat_add(a: usize, b: usize) -> usize {
    if a + b > usize::MAX {
        usize::MAX
    } else {
        (a + b) as usize
    }
}

/// The absolute start and end of a span given relative to a quote literal that starts where
/// `outer` starts (the span as it is, without an outer span).
pub open spec fn absolute_span(span: QuoteSourceSpan, outer: Option<Span>) -> (usize, usize) {
    match outer {
        Some(base) => (sat_add(base.start, span.start), sat_add(base.start, span.end)),
        None => (span.start, span.end),
    }
}

/// The `Std::Meta::QuoteSpan` of an optional relative span (zero to zero without one).
pub open spec fn span_model(span: Option<QuoteSourceSpan>, outer: Option<Span>) -> ConstModel {
    let (start, end) = match span {
        Some(relative) => absolute_span(relative, outer),
        None => (0usize, 0usize),
    };
    ConstModel::Struct {
        type_path: "Std::Meta::QuoteSpan"@,
        fields: seq![
            ("Start"@, ConstModel::UInt(start as u128)),
            ("End"@, ConstModel::UInt(end as u128)),
        ],
    }
}

/// The source span of an optional relative span.
pub open spec fn source_span(span: Option<QuoteSourceSpan>, outer: Option<Span>) -> Option<Span> {
    match span {
        Some(relative) => Some(
            Span { start: absolute_span(relative, outer).0, end: absolute_span(relative, outer).1 },
        ),
        None => None,
    }
}

/// The absolute hygiene anchor of a quote literal.
pub open spec fn absolute_anchor(anchor: usize, outer: Option<Span>) -> usize {
    match outer {
        Some(base) => sat_add(base.start, anchor),
        None => anchor,
    }
}

/// `x` rotated left by `k` bits (for `0 < k < 64`).
pub open spec fn rotl(x: u64, k: u64) -> u64 {
    (x << k) | (x >> (64 - k) as u64)
}

/// The prime of the 64-bit FNV hash.
pub const FNV_PRIME: u64 = 1099511628211u64;

/// One step of the hash: multiply by the prime and add the byte, both wrapping.
pub open spec fn fnv_step(h: u64, b: u8) -> u64 {
    vstd::wrapping::u64_specs::wrapping_add(
        vstd::wrapping::u64_specs::wrapping_mul(h, FNV_PRIME),
        b as u64,
    )
}

/// The hash `h` after the bytes of `bytes`, first to last.
pub open spec fn fnv_fold(h: u64, bytes: Seq<u8>) -> u64
    decreases bytes.len(),
{
    if bytes.len() == 0 {
        h
    } else {
        fnv_step(fnv_fold(h, bytes.drop_last()), bytes.last())
    }
}

/// The hygiene seed of a quote literal: the anchor mixed with the rotated byte length of the
/// sanitized text and the rotated number of interpolations, then hashed over the bytes.
pub open spec fn quote_seed(anchor: usize, sanitized: Seq<char>, interpolations: nat) -> u64 {
    let bytes = vstd::utf8::encode_utf8(sanitized);
    let mixed = ((anchor as u64) ^ rotl(bytes.len() as u64, 13)) ^ rotl(interpolations as u64, 27);
    fnv_fold(mixed, bytes)
}

/// The `Std::Meta::QuoteHygiene` of an anchor and a seed.
pub open spec fn hygiene_model(anchor: usize, seed: u64) -> ConstModel {
    ConstModel::Struct {
        type_path: "Std::Meta::QuoteHygiene"@,
        fields: seq![
            ("Anchor"@, ConstModel::UInt(anchor as u128)),
            ("Seed"@, ConstModel::UInt(seed as u128)),
        ],
    }
}

/// Whether a value is a quote: a struct whose type's last segment is `Quote`.
pub open spec fn is_quote_model(v: ConstModel) -> bool {
    v matches ConstModel::Struct { type_path, .. } && spec_simple_name(type_path) == "Quote"@
}

/// `x` rotated left by 13 bits.
fn rotl13(x: u64) -> (r: u64)
    ensures
        r == rotl(x, 13),
{
    (x << 13u64) | (x >> 51u64)
}

/// `x` rotated left by 27 bits.
fn rotl27(x: u64) -> (r: u64)
    ensures
        r == rotl(x, 27),
{
    (x << 27u64) | (x >> 37u64)
}

impl ConstEvalContext {
    /// The absolute start and end of a span relative to a quote literal (see `absolute_span`).
    pub fn absolute_quote_span_values(&self, span: QuoteSourceSpan, outer: Option<Span>) -> (r: (
        usize,
        usize,
    ))
        ensures
            r == absolute_span(span, outer),
    {
        match outer {
            Some(base) => (base.start.saturating_add(span.start), base.start.saturating_add(span.end)),
            None => (span.start, span.end),
        }
    }

    /// The source span of an optional relative span (see `source_span`).
    pub fn quote_span_to_span(&self, span: Option<QuoteSourceSpan>, outer: Option<Span>) -> (r:
        Option<Span>)
        ensures
            r == source_span(span, outer),
    {
        match span {
            Some(relative) => {
                let (start, end) = self.absolute_quote_span_values(relative, outer);
                Some(Span::new(start, end))
            },
            None => None,
        }
    }

    /// The `Std::Meta::QuoteSpan` value of an optional relative span (see `span_model`).
    pub fn build_quote_span_value(&self, span: Option<QuoteSourceSpan>, outer: Option<Span>) -> (r:
        ConstValue)
        ensures
            r@ == span_model(span, outer),
    {
        let (start, end) = match span {
            Some(relative) => self.absolute_quote_span_values(relative, outer),
            None => (0, 0),
        };
        let mut fields: Vec<(String, ConstValue)> = Vec::new();
        fields.push((owned("Start"), ConstValue::UInt(start as u128)));
        fields.push((owned("End"), ConstValue::UInt(end as u128)));
        let r = ConstValue::Struct { type_path: owned("Std::Meta::QuoteSpan"), fields };
        proof {
            lemma_struct_model(r);
            assert(field_models(r->fields@) =~= seq![
                ("Start"@, ConstModel::UInt(start as u128)),
                ("End"@, ConstModel::UInt(end as u128)),
            ]);
            let m = span_model(span, outer);
            assert(m->fields =~= field_models(r->fields@));
        }
        r
    }

    /// The hygiene seed of a quote literal (see `quote_seed`).
    pub fn compute_quote_seed(&self, literal: &QuoteLiteral, outer: Option<Span>) -> (r: u64)
        ensures
            r == quote_seed(
                absolute_anchor(literal.hygiene_anchor, outer),
                literal.sanitized@,
                literal.interpolations@.len(),
            ),
    {
        let anchor = match outer {
            Some(base) => base.start.saturating_add(literal.hygiene_anchor),
            None => literal.hygiene_anchor,
        };
        let bytes = literal.sanitized.as_str().as_bytes();
        let ghost all = vstd::utf8::encode_utf8(literal.sanitized@);
        assert(bytes@ == all);
        let byte_len: u64 = bytes.len() as u64;
        let count: u64 = literal.interpolations.len() as u64;
        let mut hash: u64 = (anchor as u64) ^ rotl13(byte_len);
        hash = hash ^ rotl27(count);
        let ghost mixed = hash;
        let mut i: usize = 0;
        while i < bytes.len()
            invariant
                i <= bytes@.len(),
                bytes@ == all,
                hash == fnv_fold(mixed, all.subrange(0, i as int)),
            decreases bytes.len() - i,
        {
            let ghost prev = all.subrange(0, i as int);
            hash = hash.wrapping_mul(FNV_PRIME).wrapping_add(bytes[i] as u64);
            i = i + 1;
            assert(all.subrange(0, i as int).drop_last() =~= prev);
        }
        assert(all.subrange(0, all.len() as int) =~= all);
        hash
    }

    /// The `Std::Meta::QuoteHygiene` value of a quote literal: its absolute anchor and its
    /// seed.
    pub fn build_quote_hygiene_value(&self, literal: &QuoteLiteral, outer: Option<Span>) -> (r:
        ConstValue)
        ensures
            r@ == hygiene_model(
                absolute_anchor(literal.hygiene_anchor, outer),
                quote_seed(
                    absolute_anchor(literal.hygiene_anchor, outer),
                    literal.sanitized@,
                    literal.interpolations@.len(),
                ),
            ),
    {
        let anchor = match outer {
            Some(base) => base.start.saturating_add(literal.hygiene_anchor),
            None => literal.hygiene_anchor,
        };
        let seed = self.compute_quote_seed(literal, outer);
        let mut fields: Vec<(String, ConstValue)> = Vec::new();
        fields.push((owned("Anchor"), ConstValue::UInt(anchor as u128)));
        fields.push((owned("Seed"), ConstValue::UInt(seed as u128)));
        let r = ConstValue::Struct { type_path: owned("Std::Meta::QuoteHygiene"), fields };
        proof {
            lemma_struct_model(r);
            let m = hygiene_model(anchor, seed);
            assert(m->fields =~= field_models(r->fields@));
        }
        r
    }

    /// Whether a value is a quote (see `is_quote_model`).
    pub fn is_quote_value(&self, value: &ConstValue) -> (r: bool)
        ensures
            r == is_quote_model(value@),
    {
        match value {
            ConstValue::Struct { type_path, .. } => {
                proof {
                    lemma_struct_model(*value);
                }
                str_eq(simple_name(type_path.as_str()), "Quote")
            },
            _ => false,
        }
    }

    /// The names that quoting `expr` captures, each once, in the order of their first
    /// occurrence (see `capture_list`).
    pub fn build_quote_capture_list(&self, expr: &ExprNode) -> (r: Vec<String>)
        ensures
            views(r@) == capture_list(*expr),
            views(r@).no_duplicates(),
    {
        let mut captures: Vec<String> = Vec::new();
        assert(views(captures@) =~= Seq::<Seq<char>>::empty());
        self.collect_quote_captures(expr, &mut captures);
        proof {
            lemma_add_new_shape(Seq::empty(), crate::captures::occurrences(*expr));
        }
        captures
    }
}

/// A `Std::Meta::QuoteInterpolation` of a placeholder, its quoted value and its span.
pub open spec fn interpolation_model(placeholder: Seq<char>, value: ConstModel, span: ConstModel) -> ConstModel {
    ConstModel::Struct {
        type_path: "Std::Meta::QuoteInterpolation"@,
        fields: seq![("Placeholder"@, ConstModel::RawStr(placeholder)), ("Value"@, value), ("Span"@, span)],
    }
}

/// Whether `item` is the interpolation value of `interp`: its placeholder, a quote value and
/// its span.
pub open spec fn interpolation_fits(item: ConstModel, interp: QuoteInterpolation, outer: Option<Span>) -> bool {
    item is Struct && item->fields.len() == 3 && is_quote_model(item->fields[1].1) && item
        == interpolation_model(interp.placeholder@, item->fields[1].1, span_model(interp.span, outer))
}

/// Whether `items` are the interpolation values of `interps`, one each, in order.
pub open spec fn interpolations_fit(items: Seq<ConstModel>, interps: Seq<QuoteInterpolation>, outer: Option<
    Span,
>) -> bool {
    items.len() == interps.len() && forall|i: int|
        0 <= i < items.len() ==> interpolation_fits(#[trigger] items[i], interps[i], outer)
}

/// The `Std::Meta::Quote` value of a quote literal, given its interpolation values, its
/// capture list and its root node.
pub open spec fn quote_model(
    lit: QuoteLiteral,
    outer: Option<Span>,
    interpolations: Seq<ConstModel>,
    captures: Seq<Seq<char>>,
    root: ConstModel,
) -> ConstModel {
    let anchor = absolute_anchor(lit.hygiene_anchor, outer);
    ConstModel::Struct {
        type_path: "Std::Meta::Quote"@,
        fields: seq![
            ("Source"@, ConstModel::RawStr(lit.source@)),
            ("Sanitized"@, ConstModel::RawStr(lit.sanitized@)),
            ("Span"@, span_model(lit.content_span, outer)),
            (
                "Hygiene"@,
                hygiene_model(anchor, quote_seed(anchor, lit.sanitized@, lit.interpolations@.len())),
            ),
            (
                "Captures"@,
                descriptor_list("string"@, captures.map_values(|c: Seq<char>| ConstModel::RawStr(c))),
            ),
            ("Interpolations"@, descriptor_list("Std::Meta::QuoteInterpolation"@, interpolations)),
            ("Root"@, root),
        ],
    }
}

/// Whether `v` is the quote value of `lit`: built from interpolation values that fit, a
/// capture list and a quoted root node of its expression.
pub open spec fn is_quote_literal_value(v: ConstModel, lit: QuoteLiteral, outer: Option<Span>) -> bool {
    exists|items: Seq<ConstModel>, caps: Seq<Seq<char>>, root: ConstModel|
        #![trigger quote_model(lit, outer, items, caps, root)]
        v == quote_model(lit, outer, items, caps, root) && interpolations_fit(
            items,
            lit.interpolations@,
            outer,
        ) && caps == capture_list(*lit.expression) && quote_tree(root, *lit.expression)
}

/// The error for an interpolation whose value is not a quote.
pub open spec fn interpolation_message(placeholder: Seq<char>) -> Seq<char> {
    "quote interpolation `"@ + placeholder + "` must evaluate to `Std.Meta.Quote`"@
}

/// Builds the interpolation value of a placeholder, a quoted value and a span value.
pub fn make_interpolation(placeholder: &String, value: ConstValue, span: ConstValue) -> (r: ConstValue)
    ensures
        r@ == interpolation_model(placeholder@, value@, span@),
{
    let ghost vm = value@;
    let ghost sm = span@;
    let mut fields: Vec<(String, ConstValue)> = Vec::new();
    fields.push((owned("Placeholder"), ConstValue::RawStr(placeholder.clone())));
    fields.push((owned("Value"), value));
    fields.push((owned("Span"), span));
    let r = ConstValue::Struct { type_path: owned("Std::Meta::QuoteInterpolation"), fields };
    proof {
        lemma_struct_model(r);
        let m = interpolation_model(placeholder@, vm, sm);
        assert(m->fields =~= field_models(r->fields@));
    }
    r
}

/// Builds the quote value of a literal from its parts (see `quote_model`).
pub fn make_quote_value(
    literal: &QuoteLiteral,
    span_value: ConstValue,
    hygiene_value: ConstValue,
    capture_list: ConstValue,
    interpolation_list: ConstValue,
    root: ConstValue,
) -> (r: ConstValue)
    ensures
        r@ == (ConstModel::Struct {
            type_path: "Std::Meta::Quote"@,
            fields: seq![
                ("Source"@, ConstModel::RawStr(literal.source@)),
                ("Sanitized"@, ConstModel::RawStr(literal.sanitized@)),
                ("Span"@, span_value@),
                ("Hygiene"@, hygiene_value@),
                ("Captures"@, capture_list@),
                ("Interpolations"@, interpolation_list@),
                ("Root"@, root@),
            ],
        }),
{
    let ghost ms = seq![
        ("Source"@, ConstModel::RawStr(literal.source@)),
        ("Sanitized"@, ConstModel::RawStr(literal.sanitized@)),
        ("Span"@, span_value@),
        ("Hygiene"@, hygiene_value@),
        ("Captures"@, capture_list@),
        ("Interpolations"@, interpolation_list@),
        ("Root"@, root@),
    ];
    let mut fields: Vec<(String, ConstValue)> = Vec::new();
    fields.push((owned("Source"), ConstValue::RawStr(literal.source.clone())));
    fields.push((owned("Sanitized"), ConstValue::RawStr(literal.sanitized.clone())));
    fields.push((owned("Span"), span_value));
    fields.push((owned("Hygiene"), hygiene_value));
    fields.push((owned("Captures"), capture_list));
    fields.push((owned("Interpolations"), interpolation_list));
    fields.push((owned("Root"), root));
    let r = ConstValue::Struct { type_path: owned("Std::Meta::Quote"), fields };
    proof {
        lemma_struct_model(r);
        assert(field_models(r->fields@) =~= ms);
    }
    r
}

} // verus!
