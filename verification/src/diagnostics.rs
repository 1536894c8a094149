use vstd::prelude::*;

use crate::ast::{ExprNode, StatementKind};
use crate::text::owned;

verus! {

/// The word that names a kind of statement in diagnostics.
pub open spec fn kind_name(kind: StatementKind) -> Seq<char> {
    match kind {
        StatementKind::While => "while"@,
        StatementKind::DoWhile => "do-while"@,
        StatementKind::For => "for"@,
        StatementKind::Foreach => "foreach"@,
        StatementKind::Switch => "switch"@,
        StatementKind::Try => "try"@,
        StatementKind::Using => "using"@,
        StatementKind::Lock => "lock"@,
        StatementKind::Checked => "checked"@,
        StatementKind::Atomic => "atomic"@,
        StatementKind::Unchecked => "unchecked"@,
        StatementKind::YieldReturn => "yield return"@,
        StatementKind::YieldBreak => "yield break"@,
        StatementKind::Fixed => "fixed"@,
        StatementKind::Unsafe => "unsafe"@,
        StatementKind::Break => "break"@,
        StatementKind::Continue => "continue"@,
        StatementKind::Goto => "goto"@,
        StatementKind::Throw => "throw"@,
        StatementKind::Labeled => "labeled"@,
        StatementKind::ConstDeclaration(_) => "const"@,
        StatementKind::VariableDeclaration(_) => "variable"@,
        StatementKind::Expression(_) => "expression"@,
        StatementKind::Return { .. } => "return"@,
        StatementKind::Block(_) => "block"@,
        StatementKind::Empty => "empty"@,
        StatementKind::If(_) => "if"@,
        StatementKind::Region => "region"@,
        StatementKind::LocalFunction => "local function"@,
    }
}

/// The word that names a kind of statement in diagnostics.
pub fn statement_kind_name(kind: &StatementKind) -> (r: &'static str)
    ensures
        r@ == kind_name(*kind),
{
    match kind {
        StatementKind::While => "while",
        StatementKind::DoWhile => "do-while",
        StatementKind::For => "for",
        StatementKind::Foreach => "foreach",
        StatementKind::Switch => "switch",
        StatementKind::Try => "try",
        StatementKind::Using => "using",
        StatementKind::Lock => "lock",
        StatementKind::Checked => "checked",
        StatementKind::Atomic => "atomic",
        StatementKind::Unchecked => "unchecked",
        StatementKind::YieldReturn => "yield return",
        StatementKind::YieldBreak => "yield break",
        StatementKind::Fixed => "fixed",
        StatementKind::Unsafe => "unsafe",
        StatementKind::Break => "break",
        StatementKind::Continue => "continue",
        StatementKind::Goto => "goto",
        StatementKind::Throw => "throw",
        StatementKind::Labeled => "labeled",
        StatementKind::ConstDeclaration(_) => "const",
        StatementKind::VariableDeclaration(_) => "variable",
        StatementKind::Expression(_) => "expression",
        StatementKind::Return { .. } => "return",
        StatementKind::Block(_) => "block",
        StatementKind::Empty => "empty",
        StatementKind::If(_) => "if",
        StatementKind::Region => "region",
        StatementKind::LocalFunction => "local function",
    }
}

/// The segments of a path expression (`A.B.C`, possibly parenthesised), or `None` when the
/// expression is not a simple path.
pub open spec fn path_segments(node: ExprNode) -> Option<Seq<Seq<char>>>
    decreases node,
{
    match node {
        ExprNode::Identifier(name) => Some(seq![name@]),
        ExprNode::Member { base, member, .. } => match path_segments(*base) {
            Some(s) => Some(s.push(member@)),
            None => None,
        },
        ExprNode::Parenthesized(inner) => path_segments(*inner),
        _ => None,
    }
}

pub open spec fn not_a_path_message() -> Seq<char> {
    "expression is not a simple path"@
}

/// The segments of a path expression; an error message when it is not a simple path.
pub fn expr_path_segments(node: &ExprNode) -> (r: Result<Vec<String>, String>)
    ensures
        match r {
            Ok(v) => path_segments(*node) == Some(crate::text::views(v@)),
            Err(m) => path_segments(*node) is None && m@ == not_a_path_message(),
        },
    decreases node,
{
    match node {
        ExprNode::Identifier(name) => {
            let mut v: Vec<String> = Vec::new();
            v.push(name.clone());
            assert(crate::text::views(v@) =~= seq![name@]);
            Ok(v)
        },
        ExprNode::Member { base, member, .. } => {
            let mut segments = expr_path_segments(base)?;
            let ghost prev = segments@;
            segments.push(member.clone());
            assert(crate::text::views(segments@) =~= crate::text::views(prev).push(member@));
            Ok(segments)
        },
        ExprNode::Parenthesized(inner) => expr_path_segments(inner),
        _ => Err(owned("expression is not a simple path")),
    }
}

} // verus!
