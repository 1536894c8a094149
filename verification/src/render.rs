use vstd::prelude::*;

use crate::ast::{
    CallArgument, CastSyntax, ExprNode, InterpolatedStringSegment, LambdaBody, LambdaParam,
    NewInitializer, ObjectInitializerField, SizeOfOperand, SwitchArm, modifier_keyword,
};
use crate::labels::{char_escape, escape_char};
use crate::quote::{assign_symbol, assign_text, binary_symbol, binary_text, unary_symbol, unary_text};
use crate::text::{i128_text, int_text, join_seq, nat_text, owned, string_of, u128_text, views};
use crate::values::{ConstModel, ConstValue};

verus! {

/// The source text of a literal value.
pub open spec fn literal_text(v: ConstModel) -> Seq<char> {
    match v {
        ConstModel::Int(i) | ConstModel::Int32(i) => int_text(i as int),
        ConstModel::UInt(u) => nat_text(u as nat),
        ConstModel::Bool(b) => if b {
            "true"@
        } else {
            "false"@
        },
        ConstModel::Char(c) => "'"@ + char_escape(c) + "'"@,
        ConstModel::Str { value, .. } => "\""@ + value + "\""@,
        ConstModel::RawStr(s) => "@\""@ + s + "\""@,
        ConstModel::Symbol(s) => s,
        ConstModel::Enum { type_path, variant, .. } => type_path + "."@ + variant,
        ConstModel::Struct { type_path, .. } => type_path,
        ConstModel::Null => "null"@,
        ConstModel::Unit => "()"@,
        ConstModel::Unknown => "unknown"@,
    }
}

/// Renders a literal value as source text (see `literal_text`).
pub fn render_literal(value: &ConstValue) -> (r: String)
    ensures
        r@ == literal_text(value@),
{
    match value {
        ConstValue::Int(i) | ConstValue::Int32(i) => i128_text(*i),
        ConstValue::UInt(u) => u128_text(*u),
        ConstValue::Bool(b) => if *b {
            owned("true")
        } else {
            owned("false")
        },
        ConstValue::Char(c) => {
            let mut r = owned("'");
            r.append(string_of(&escape_char(*c)).as_str());
            r.append("'");
            r
        },
        ConstValue::Str { value, .. } => {
            let mut r = owned("\"");
            r.append(value.as_str());
            r.append("\"");
            r
        },
        ConstValue::RawStr(s) => {
            let mut r = owned("@\"");
            r.append(s.as_str());
            r.append("\"");
            r
        },
        ConstValue::Symbol(s) => s.clone(),
        ConstValue::Enum { type_path, variant, .. } => {
            let mut r = type_path.clone();
            r.append(".");
            r.append(variant.as_str());
            r
        },
        ConstValue::Struct { type_path, .. } => {
            proof {
                crate::values::lemma_struct_model(*value);
            }
            type_path.clone()
        },
        ConstValue::Null => owned("null"),
        ConstValue::Unit => owned("()"),
        ConstValue::Unknown => owned("unknown"),
    }
}

/// Renders `nodes` separated by `sep` onto `out` (see `list_text`).
fn render_list(nodes: &Vec<ExprNode>, sep: &str, out: &mut String)
    ensures
        final(out)@ == old(out)@ + list_text(*nodes, nodes@.len(), sep@),
    decreases nodes, 1int,
{
    let ghost o = out@;
    let mut i: usize = 0;
    assert(o =~= o + list_text(*nodes, 0, sep@));
    while i < nodes.len()
        invariant
            i <= nodes@.len(),
            out@ == o + list_text(*nodes, i as nat, sep@),
        decreases nodes.len() - i,
    {
        let ghost before = out@;
        if i > 0 {
            out.append(sep);
        }
        proof {
            assert(decreases_to!(*nodes => nodes@));
            assert(decreases_to!(nodes@ => nodes@[i as int]));
        }
        render_into(&nodes[i], out);
        assert(out@ =~= o + list_text(*nodes, (i + 1) as nat, sep@));
        i = i + 1;
    }
}

/// Renders call arguments (`name: modifier value`) separated by commas onto `out` (see
/// `args_text`).
fn render_arguments(args: &Vec<CallArgument>, out: &mut String)
    ensures
        final(out)@ == old(out)@ + args_text(*args, args@.len()),
    decreases args, 1int,
{
    let ghost o = out@;
    let mut i: usize = 0;
    assert(o =~= o + args_text(*args, 0));
    while i < args.len()
        invariant
            i <= args@.len(),
            out@ == o + args_text(*args, i as nat),
        decreases args.len() - i,
    {
        let ghost before = out@;
        if i > 0 {
            out.append(", ");
        }
        let ghost after_sep = out@;
        if let Some(name) = &args[i].name {
            out.append(name.text.as_str());
            out.append(": ");
        }
        if let Some(modifier) = args[i].modifier {
            out.append(modifier.keyword());
            out.append(" ");
        }
        proof {
            assert(decreases_to!(*args => args@));
            assert(decreases_to!(args@ => args@[i as int]));
            assert(decreases_to!(args@[i as int] => args@[i as int].value));
        }
        let ghost before_value = out@;
        assert(before_value =~= after_sep + (match args@[i as int].name {
            Some(n) => n.text@ + ": "@,
            None => Seq::<char>::empty(),
        }) + (match args@[i as int].modifier {
            Some(m) => modifier_keyword(m) + " "@,
            None => Seq::<char>::empty(),
        }));
        render_into(&args[i].value, out);
        assert(arg_text(args@[i as int]) == (match args@[i as int].name {
            Some(n) => n.text@ + ": "@,
            None => Seq::<char>::empty(),
        }) + (match args@[i as int].modifier {
            Some(m) => modifier_keyword(m) + " "@,
            None => Seq::<char>::empty(),
        }) + expr_text(args@[i as int].value));
        assert(out@ =~= o + args_text(*args, (i + 1) as nat));
        i = i + 1;
    }
}

/// Appends the source text of `node` to `out` (see `expr_text`).
#[verifier::loop_isolation(false)]
#[verifier::rlimit(100)]
pub fn render_into(node: &ExprNode, out: &mut String)
    ensures
        final(out)@ == old(out)@ + expr_text(*node),
    decreases node, 1int,
{
    let ghost o = out@;
    match node {
        ExprNode::Literal(literal) => {
            out.append(render_literal(&literal.value).as_str());
        },
        ExprNode::Identifier(name) => {
            out.append(name.as_str());
        },
        ExprNode::Default { explicit_type } => match explicit_type {
            Some(t) => {
                out.append("default(");
                out.append(t.as_str());
                out.append(")");
                assert(out@ =~= o + expr_text(*node));
            },
            None => {
                out.append("default");
            },
        },
        ExprNode::Unary { op, expr, postfix } => {
            if *postfix {
                render_into(expr, out);
                out.append(unary_symbol(*op));
            } else {
                out.append(unary_symbol(*op));
                render_into(expr, out);
            }
            assert(out@ =~= o + expr_text(*node));
        },
        ExprNode::IndexFromEnd(expr) => {
            out.append("^");
            render_into(expr, out);
            assert(out@ =~= o + expr_text(*node));
        },
        ExprNode::Range { start, end, inclusive } => {
            let ghost a = out@;
            if let Some(s) = start {
                render_into(s, out);
            }
            let ghost b = out@;
            out.append(if *inclusive {
                "..="
            } else {
                ".."
            });
            let ghost c = out@;
            if let Some(e) = end {
                render_into(e, out);
            }
            assert(out@ =~= o + expr_text(*node));
        },
        ExprNode::Binary { op, left, right } => {
            render_into(left, out);
            out.append(" ");
            out.append(binary_symbol(*op));
            out.append(" ");
            render_into(right, out);
            assert(out@ =~= o + expr_text(*node));
        },
        ExprNode::Conditional { condition, then_branch, else_branch } => {
            render_into(condition, out);
            out.append(" ? ");
            render_into(then_branch, out);
            out.append(" : ");
            render_into(else_branch, out);
            assert(out@ =~= o + expr_text(*node));
        },
        ExprNode::Switch { .. } => {
            render_switch(node, out);
        },
        ExprNode::Cast { target, expr, syntax } => match syntax {
            CastSyntax::Paren => {
                out.append("(");
                out.append(target.as_str());
                out.append(")");
                render_into(expr, out);
                assert(out@ =~= o + expr_text(*node));
            },
            CastSyntax::As => {
                render_into(expr, out);
                out.append(" as ");
                out.append(target.as_str());
                assert(out@ =~= o + expr_text(*node));
            },
        },
        ExprNode::IsPattern { value, pattern } => {
            render_into(value, out);
            out.append(" is ");
            out.append(pattern.as_str());
            assert(out@ =~= o + expr_text(*node));
        },
        ExprNode::Lambda(..) => {
            render_lambda(node, out);
        },
        ExprNode::Parenthesized(inner) => {
            out.append("(");
            render_into(inner, out);
            out.append(")");
            assert(out@ =~= o + expr_text(*node));
        },
        ExprNode::Tuple(elements) => {
            out.append("(");
            render_list(elements, ", ", out);
            out.append(")");
            assert(out@ =~= o + expr_text(*node));
        },
        ExprNode::ArrayLiteral(elements) => {
            out.append("[");
            render_list(elements, ", ", out);
            out.append("]");
            assert(out@ =~= o + expr_text(*node));
        },
        ExprNode::Assign { target, op, value } => {
            render_into(target, out);
            out.append(" ");
            out.append(assign_symbol(*op));
            out.append(" ");
            render_into(value, out);
            assert(out@ =~= o + expr_text(*node));
        },
        ExprNode::Member { base, member, null_conditional } => {
            render_into(base, out);
            out.append(if *null_conditional {
                "?."
            } else {
                "."
            });
            out.append(member.as_str());
            assert(out@ =~= o + expr_text(*node));
        },
        ExprNode::Call { .. } => {
            render_call(node, out);
        },
        ExprNode::Ref { expr, readonly } => {
            out.append(if *readonly {
                "ref readonly "
            } else {
                "ref "
            });
            render_into(expr, out);
            assert(out@ =~= o + expr_text(*node));
        },
        ExprNode::New(..) => {
            render_new(node, out);
        },
        ExprNode::Index { base, indices, null_conditional } => {
            render_into(base, out);
            out.append(if *null_conditional {
                "?["
            } else {
                "["
            });
            render_list(indices, ", ", out);
            out.append("]");
            assert(out@ =~= o + expr_text(*node));
        },
        ExprNode::Await { expr } => {
            out.append("await ");
            render_into(expr, out);
            assert(out@ =~= o + expr_text(*node));
        },
        ExprNode::TryPropagate { expr } => {
            render_into(expr, out);
            out.append("?");
            assert(out@ =~= o + expr_text(*node));
        },
        ExprNode::Throw { expr } => {
            out.append("throw");
            if let Some(e) = expr {
                out.append(" ");
                render_into(e, out);
            }
            assert(out@ =~= o + expr_text(*node));
        },
        ExprNode::SizeOf(operand) => {
            out.append("sizeof(");
            match operand {
                SizeOfOperand::Type(name) => {
                    out.append(name.as_str());
                },
                SizeOfOperand::Value(expr) => {
                    render_into(expr, out);
                },
            }
            assert(operand_text(*operand) == match *operand {
                SizeOfOperand::Type(name) => name@,
                SizeOfOperand::Value(expr) => expr_text(*expr),
            });
            out.append(")");
            assert(out@ =~= o + expr_text(*node));
        },
        ExprNode::AlignOf(operand) => {
            out.append("alignof(");
            match operand {
                SizeOfOperand::Type(name) => {
                    out.append(name.as_str());
                },
                SizeOfOperand::Value(expr) => {
                    render_into(expr, out);
                },
            }
            assert(operand_text(*operand) == match *operand {
                SizeOfOperand::Type(name) => name@,
                SizeOfOperand::Value(expr) => expr_text(*expr),
            });
            out.append(")");
            assert(out@ =~= o + expr_text(*node));
        },
        ExprNode::NameOf(operand) => {
            out.append("nameof(");
            out.append(operand.text.as_str());
            out.append(")");
            assert(out@ =~= o + expr_text(*node));
        },
        ExprNode::InlineAsm(text) => {
            out.append("asm!(");
            out.append(text.as_str());
            out.append(")");
            assert(out@ =~= o + expr_text(*node));
        },
        ExprNode::InterpolatedString(..) => {
            render_interpolated(node, out);
        },
        ExprNode::Quote(q) => {
            out.append("quote(");
            out.append(q.source.as_str());
            out.append(")");
            assert(out@ =~= o + expr_text(*node));
        },
    }
}

#[verifier::loop_isolation(false)]
fn render_switch(node: &ExprNode, out: &mut String)
    requires
        node is Switch,
    ensures
        final(out)@ == old(out)@ + expr_text(*node),
    decreases node, 0int,
{
    let ghost o = out@;
    match node {
        ExprNode::Switch { value, arms } => {
            render_into(value, out);
            out.append(" switch { ");
            let ghost p = out@;
            let mut i: usize = 0;
            assert(p =~= p + arms_text(*arms, 0));
            while i < arms.len()
                invariant
                    i <= arms@.len(),
                    out@ == p + arms_text(*arms, i as nat),
                decreases arms.len() - i,
            {
                if i > 0 {
                    out.append(", ");
                }
                out.append("_ => ");
                proof {
                    assert(decreases_to!(*node => *arms));
                    assert(decreases_to!(*arms => arms@));
                    assert(decreases_to!(arms@ => arms@[i as int]));
                    assert(decreases_to!(arms@[i as int] => arms@[i as int].expression));
                }
                render_into(&arms[i].expression, out);
                assert(out@ =~= p + arms_text(*arms, (i + 1) as nat));
                i = i + 1;
            }
            out.append(" }");
            assert(out@ =~= o + expr_text(*node));
        },
        _ => {},
    }
}

#[verifier::loop_isolation(false)]
fn render_lambda(node: &ExprNode, out: &mut String)
    requires
        node is Lambda,
    ensures
        final(out)@ == old(out)@ + expr_text(*node),
    decreases node, 0int,
{
    let ghost o = out@;
    match node {
        ExprNode::Lambda(lambda) => {
            out.append("(");
            let ghost p = out@;
            let mut i: usize = 0;
            assert(p =~= p + params_prefix_text(lambda.params@, 0));
            while i < lambda.params.len()
                invariant
                    i <= lambda.params@.len(),
                    out@ == p + params_prefix_text(lambda.params@, i as nat),
                decreases lambda.params.len() - i,
            {
                if i > 0 {
                    out.append(", ");
                }
                if let Some(ty) = &lambda.params[i].ty {
                    out.append(ty.as_str());
                    out.append(" ");
                }
                out.append(lambda.params[i].name.as_str());
                assert(out@ =~= p + params_prefix_text(lambda.params@, (i + 1) as nat));
                i = i + 1;
            }
            out.append(") => ");
            match &lambda.body {
                LambdaBody::Expression(body) => {
                    proof {
                        assert(decreases_to!(*node => *lambda));
                        assert(decreases_to!(*lambda => lambda.body));
                    }
                    render_into(body, out);
                },
                LambdaBody::Block(text) => {
                    out.append(text.as_str());
                },
            }
            assert(out@ =~= o + expr_text(*node));
        },
        _ => {},
    }
}

#[verifier::loop_isolation(false)]
fn render_call(node: &ExprNode, out: &mut String)
    requires
        node is Call,
    ensures
        final(out)@ == old(out)@ + expr_text(*node),
    decreases node, 0int,
{
    let ghost o = out@;
    match node {
        ExprNode::Call { callee, args, generics } => {
            render_into(callee, out);
            let ghost a = out@;
            if let Some(g) = generics {
                out.append("<");
                let ghost p = out@;
                let mut i: usize = 0;
                assert(p =~= p + join_seq(views(g@).subrange(0, 0), ", "@));
                while i < g.len()
                    invariant
                        i <= g@.len(),
                        out@ == p + join_seq(views(g@).subrange(0, i as int), ", "@),
                    decreases g.len() - i,
                {
                    if i > 0 {
                        out.append(", ");
                    }
                    out.append(g[i].as_str());
                    let ghost sub = views(g@).subrange(0, i + 1);
                    assert(sub.drop_last() =~= views(g@).subrange(0, i as int));
                    assert(sub.last() == g@[i as int]@);
                    if i == 0 {
                        assert(sub =~= seq![g@[0]@]);
                    }
                    assert(out@ =~= p + join_seq(sub, ", "@));
                    i = i + 1;
                }
                assert(views(g@).subrange(0, g@.len() as int) =~= views(g@));
                out.append(">");
            }
            let ghost b = out@;
            assert(b =~= a + (match generics {
                Some(g) => "<"@ + join_seq(views(g@), ", "@) + ">"@,
                None => Seq::<char>::empty(),
            }));
            out.append("(");
            render_arguments(args, out);
            out.append(")");
            assert(out@ =~= o + expr_text(*node));
        },
        _ => {},
    }
}

#[verifier::loop_isolation(false)]
fn render_new(node: &ExprNode, out: &mut String)
    requires
        node is New,
    ensures
        final(out)@ == old(out)@ + expr_text(*node),
    decreases node, 0int,
{
    let ghost o = out@;
    match node {
        ExprNode::New(new_expr) => {
            out.append("new ");
            out.append(new_expr.type_path.as_str());
            out.append("(");
            proof {
                assert(decreases_to!(*node => *new_expr));
            }
            render_arguments(&new_expr.args, out);
            out.append(")");
            let ghost a = out@;
            match &new_expr.initializer {
                Some(NewInitializer::Object { fields }) => {
                    out.append(" { ");
                    let ghost p = out@;
                    let mut i: usize = 0;
                    assert(p =~= p + fields_text(*fields, 0));
                    while i < fields.len()
                        invariant
                            i <= fields@.len(),
                            out@ == p + fields_text(*fields, i as nat),
                        decreases fields.len() - i,
                    {
                        if i > 0 {
                            out.append(", ");
                        }
                        out.append(fields[i].name.as_str());
                        out.append(" = ");
                        proof {
                            assert(decreases_to!(*node => *new_expr));
                            assert(decreases_to!(*new_expr => new_expr.initializer));
                            assert(decreases_to!(new_expr.initializer => new_expr.initializer->Some_0));
                            assert(decreases_to!(new_expr.initializer->Some_0 => *fields));
                            assert(decreases_to!(*fields => fields@));
                            assert(decreases_to!(fields@ => fields@[i as int]));
                            assert(decreases_to!(fields@[i as int] => fields@[i as int].value));
                        }
                        render_into(&fields[i].value, out);
                        assert(out@ =~= p + fields_text(*fields, (i + 1) as nat));
                        i = i + 1;
                    }
                    out.append(" }");
                },
                Some(NewInitializer::Collection { elements }) => {
                    out.append(" { ");
                    proof {
                        assert(decreases_to!(*new_expr => new_expr.initializer));
                    }
                    render_list(elements, ", ", out);
                    out.append(" }");
                },
                None => {},
            }
            assert(out@ =~= o + expr_text(*node));
        },
        _ => {},
    }
}

#[verifier::loop_isolation(false)]
fn render_interpolated(node: &ExprNode, out: &mut String)
    requires
        node is InterpolatedString,
    ensures
        final(out)@ == old(out)@ + expr_text(*node),
    decreases node, 0int,
{
    let ghost o = out@;
    match node {
        ExprNode::InterpolatedString(segments) => {
            out.append("$\"");
            let ghost p = out@;
            let mut i: usize = 0;
            assert(p =~= p + segments_text(*segments, 0));
            while i < segments.len()
                invariant
                    i <= segments@.len(),
                    out@ == p + segments_text(*segments, i as nat),
                decreases segments.len() - i,
            {
                match &segments[i] {
                    InterpolatedStringSegment::Text(text) => {
                        out.append(text.as_str());
                    },
                    InterpolatedStringSegment::Expr(expr) => {
                        out.append("{");
                        proof {
                            assert(decreases_to!(*node => *segments));
                            assert(decreases_to!(*segments => segments@));
                            assert(decreases_to!(segments@ => segments@[i as int]));
                        }
                        render_into(expr, out);
                        out.append("}");
                    },
                }
                assert(out@ =~= p + segments_text(*segments, (i + 1) as nat));
                i = i + 1;
            }
            out.append("\"");
            assert(out@ =~= o + expr_text(*node));
        },
        _ => {},
    }
}

/// The exact text of a leaf expression: an identifier or a literal.
pub open spec fn expr_leaf_text(node: ExprNode) -> Option<Seq<char>> {
    match node {
        ExprNode::Identifier(name) => Some(name@),
        ExprNode::Literal(l) => Some(literal_text(l.value@)),
        _ => None,
    }
}

/// The source text of an expression: operators spaced as in `a + b`, `c ? t : e`, calls as
/// `f<G>(name: modifier arg, ...)`, and so on for every kind of node.
pub open spec fn expr_text(node: ExprNode) -> Seq<char>
    decreases node, 0nat,
{
    match node {
        ExprNode::Literal(l) => literal_text(l.value@),
        ExprNode::Identifier(name) => name@,
        ExprNode::Default { explicit_type } => match explicit_type {
            Some(t) => "default("@ + t@ + ")"@,
            None => "default"@,
        },
        ExprNode::Unary { op, expr, postfix } => if postfix {
            expr_text(*expr) + unary_text(op)
        } else {
            unary_text(op) + expr_text(*expr)
        },
        ExprNode::IndexFromEnd(expr) => "^"@ + expr_text(*expr),
        ExprNode::Range { start, end, inclusive } => (match start {
            Some(e) => expr_text(*e),
            None => Seq::empty(),
        }) + (if inclusive {
            "..="@
        } else {
            ".."@
        }) + (match end {
            Some(e) => expr_text(*e),
            None => Seq::empty(),
        }),
        ExprNode::Binary { op, left, right } => expr_text(*left) + " "@ + binary_text(op) + " "@ + expr_text(
            *right,
        ),
        ExprNode::Conditional { condition, then_branch, else_branch } => expr_text(*condition) + " ? "@
            + expr_text(*then_branch) + " : "@ + expr_text(*else_branch),
        ExprNode::Switch { value, arms } => expr_text(*value) + " switch { "@ + arms_text(arms, arms@.len())
            + " }"@,
        ExprNode::Cast { target, expr, syntax } => match syntax {
            CastSyntax::Paren => "("@ + target@ + ")"@ + expr_text(*expr),
            CastSyntax::As => expr_text(*expr) + " as "@ + target@,
        },
        ExprNode::IsPattern { value, pattern } => expr_text(*value) + " is "@ + pattern@,
        ExprNode::Lambda(l) => "("@ + params_text(l.params@) + ") => "@ + match l.body {
            LambdaBody::Expression(body) => expr_text(*body),
            LambdaBody::Block(text) => text@,
        },
        ExprNode::Parenthesized(inner) => "("@ + expr_text(*inner) + ")"@,
        ExprNode::Tuple(elements) => "("@ + list_text(elements, elements@.len(), ", "@) + ")"@,
        ExprNode::ArrayLiteral(elements) => "["@ + list_text(elements, elements@.len(), ", "@) + "]"@,
        ExprNode::Assign { target, op, value } => expr_text(*target) + " "@ + assign_text(op) + " "@ + expr_text(
            *value,
        ),
        ExprNode::Member { base, member, null_conditional } => expr_text(*base) + (if null_conditional {
            "?."@
        } else {
            "."@
        }) + member@,
        ExprNode::Call { callee, args, generics } => expr_text(*callee) + (match generics {
            Some(g) => "<"@ + join_seq(views(g@), ", "@) + ">"@,
            None => Seq::empty(),
        }) + "("@ + args_text(args, args@.len()) + ")"@,
        ExprNode::Ref { expr, readonly } => (if readonly {
            "ref readonly "@
        } else {
            "ref "@
        }) + expr_text(*expr),
        ExprNode::New(n) => "new "@ + n.type_path@ + "("@ + args_text(n.args, n.args@.len()) + ")"@ + match n.initializer {
            Some(NewInitializer::Object { fields }) => " { "@ + fields_text(fields, fields@.len()) + " }"@,
            Some(NewInitializer::Collection { elements }) => " { "@ + list_text(elements, elements@.len(), ", "@) + " }"@,
            None => Seq::empty(),
        },
        ExprNode::Index { base, indices, null_conditional } => expr_text(*base) + (if null_conditional {
            "?["@
        } else {
            "["@
        }) + list_text(indices, indices@.len(), ", "@) + "]"@,
        ExprNode::Await { expr } => "await "@ + expr_text(*expr),
        ExprNode::TryPropagate { expr } => expr_text(*expr) + "?"@,
        ExprNode::Throw { expr } => "throw"@ + match expr {
            Some(e) => " "@ + expr_text(*e),
            None => Seq::empty(),
        },
        ExprNode::SizeOf(operand) => "sizeof("@ + operand_text(operand) + ")"@,
        ExprNode::AlignOf(operand) => "alignof("@ + operand_text(operand) + ")"@,
        ExprNode::NameOf(operand) => "nameof("@ + operand.text@ + ")"@,
        ExprNode::InlineAsm(text) => "asm!("@ + text@ + ")"@,
        ExprNode::InterpolatedString(segments) => "$\""@ + segments_text(segments, segments@.len()) + "\""@,
        ExprNode::Quote(q) => "quote("@ + q.source@ + ")"@,
    }
}

/// The text of a `sizeof`/`alignof` operand: a type name or an expression.
pub open spec fn operand_text(operand: SizeOfOperand) -> Seq<char>
    decreases operand, 0nat,
{
    match operand {
        SizeOfOperand::Type(name) => name@,
        SizeOfOperand::Value(expr) => expr_text(*expr),
    }
}

/// The texts of the first `n` expressions of `v`, separated by `sep`.
pub open spec fn list_text(v: Vec<ExprNode>, n: nat, sep: Seq<char>) -> Seq<char>
    decreases v, n,
{
    if n == 0 || n > v@.len() {
        Seq::empty()
    } else {
        proof {
            assert(decreases_to!(v => v@));
            assert(decreases_to!(v@ => v@[n - 1]));
        }
        (if n == 1 {
            Seq::empty()
        } else {
            list_text(v, (n - 1) as nat, sep) + sep
        }) + expr_text(v@[n - 1])
    }
}

/// The text of a call argument: `name: `, then `modifier `, then its value.
pub open spec fn arg_text(a: CallArgument) -> Seq<char>
    decreases a, 0nat,
{
    (match a.name {
        Some(n) => n.text@ + ": "@,
        None => Seq::empty(),
    }) + (match a.modifier {
        Some(m) => modifier_keyword(m) + " "@,
        None => Seq::empty(),
    }) + expr_text(a.value)
}

/// The texts of the first `n` arguments of `v`, separated by `, `.
pub open spec fn args_text(v: Vec<CallArgument>, n: nat) -> Seq<char>
    decreases v, n,
{
    if n == 0 || n > v@.len() {
        Seq::empty()
    } else {
        proof {
            assert(decreases_to!(v => v@));
            assert(decreases_to!(v@ => v@[n - 1]));
        }
        (if n == 1 {
            Seq::empty()
        } else {
            args_text(v, (n - 1) as nat) + ", "@
        }) + arg_text(v@[n - 1])
    }
}

/// The texts of the first `n` arms of a switch (`_ => value`), separated by `, `.
pub open spec fn arms_text(v: Vec<SwitchArm>, n: nat) -> Seq<char>
    decreases v, n,
{
    if n == 0 || n > v@.len() {
        Seq::empty()
    } else {
        proof {
            assert(decreases_to!(v => v@));
            assert(decreases_to!(v@ => v@[n - 1]));
            assert(decreases_to!(v@[n - 1] => v@[n - 1].expression));
        }
        (if n == 1 {
            Seq::empty()
        } else {
            arms_text(v, (n - 1) as nat) + ", "@
        }) + "_ => "@ + expr_text(v@[n - 1].expression)
    }
}

/// The texts of the first `n` fields of an object initializer (`name = value`), separated by
/// `, `.
pub open spec fn fields_text(v: Vec<ObjectInitializerField>, n: nat) -> Seq<char>
    decreases v, n,
{
    if n == 0 || n > v@.len() {
        Seq::empty()
    } else {
        proof {
            assert(decreases_to!(v => v@));
            assert(decreases_to!(v@ => v@[n - 1]));
            assert(decreases_to!(v@[n - 1] => v@[n - 1].value));
        }
        (if n == 1 {
            Seq::empty()
        } else {
            fields_text(v, (n - 1) as nat) + ", "@
        }) + v@[n - 1].name@ + " = "@ + expr_text(v@[n - 1].value)
    }
}

/// The texts of the first `n` segments of an interpolated string: text as it is, expressions
/// in braces.
pub open spec fn segments_text(v: Vec<InterpolatedStringSegment>, n: nat) -> Seq<char>
    decreases v, n,
{
    if n == 0 || n > v@.len() {
        Seq::empty()
    } else {
        proof {
            assert(decreases_to!(v => v@));
            assert(decreases_to!(v@ => v@[n - 1]));
        }
        segments_text(v, (n - 1) as nat) + match v@[n - 1] {
            InterpolatedStringSegment::Text(t) => t@,
            InterpolatedStringSegment::Expr(e) => "{"@ + expr_text(e) + "}"@,
        }
    }
}

/// The texts of the first `n` lambda parameters (`type name`), separated by `, `.
pub open spec fn params_prefix_text(ps: Seq<LambdaParam>, n: nat) -> Seq<char>
    decreases n,
{
    if n == 0 || n > ps.len() {
        Seq::empty()
    } else {
        (if n == 1 {
            Seq::empty()
        } else {
            params_prefix_text(ps, (n - 1) as nat) + ", "@
        }) + (match ps[n - 1].ty {
            Some(t) => t@ + " "@,
            None => Seq::empty(),
        }) + ps[n - 1].name@
    }
}

/// The texts of lambda parameters (`type name`), separated by `, `.
pub open spec fn params_text(ps: Seq<LambdaParam>) -> Seq<char> {
    params_prefix_text(ps, ps.len())
}

/// The source text of an expression.
pub fn format_expression(node: &ExprNode) -> (r: String)
    ensures
        r@ == expr_text(*node),
        expr_leaf_text(*node) matches Some(t) ==> r@ == t,
{
    let mut out = String::new();
    render_into(node, &mut out);
    out
}

} // verus!
