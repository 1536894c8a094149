use vstd::prelude::*;

use crate::ast::{Expression, ExprNode};
use crate::initializer::{trim_text_ws, trim_ws};
use crate::text::{join, join_seq, views};
use crate::values::Span;

verus! {

/// A `when` guard of a match arm: its expression and, when it parsed, its tree.
#[derive(Debug)]
pub struct GuardMetadata {
    pub expr: Expression,
    pub node: Option<ExprNode>,
}

/// The combined guard of a match arm: the guards' texts joined with `&&`, the first guard's
/// span, and whether every guard parsed.
#[derive(Debug)]
pub struct MatchGuard {
    pub expr: String,
    pub span: Option<Span>,
    pub parsed: bool,
}

/// The trimmed texts of a list of guards.
pub open spec fn guard_texts(guards: Seq<GuardMetadata>) -> Seq<Seq<char>> {
    guards.map_values(|g: GuardMetadata| trim_ws(g.expr.text@))
}

/// Combines the guards of an arm into one (none when there are no guards).
pub fn aggregate_guard_metadata(guards: &Vec<GuardMetadata>) -> (r: Option<MatchGuard>)
    ensures
        guards@.len() == 0 <==> r is None,
        r matches Some(g) ==> {
            &&& g.expr@ == join_seq(guard_texts(guards@), " && "@)
            &&& g.span == guards@[0].expr.span
            &&& g.parsed == forall|i: int| 0 <= i < guards@.len() ==> (#[trigger] guards@[i]).node is Some
        },
{
    if guards.len() == 0 {
        return None;
    }
    let mut texts: Vec<String> = Vec::new();
    let mut parsed = true;
    let mut i: usize = 0;
    while i < guards.len()
        invariant
            i <= guards@.len(),
            views(texts@) == guard_texts(guards@.subrange(0, i as int)),
            parsed == forall|k: int| 0 <= k < i ==> (#[trigger] guards@[k]).node is Some,
        decreases guards.len() - i,
    {
        let ghost before = views(texts@);
        let t = trim_text_ws(guards[i].expr.text.as_str());
        let ghost tv = t@;
        texts.push(t);
        assert(views(texts@) =~= before.push(tv));
        assert(guard_texts(guards@.subrange(0, i + 1)) =~= guard_texts(guards@.subrange(0, i as int)).push(
            trim_ws(guards@[i as int].expr.text@),
        ));
        if guards[i].node.is_none() {
            parsed = false;
        }
        i = i + 1;
    }
    assert(guards@.subrange(0, guards@.len() as int) =~= guards@);
    Some(MatchGuard { expr: join(&texts, " && "), span: guards[0].expr.span, parsed })
}

} // verus!
