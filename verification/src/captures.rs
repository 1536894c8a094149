use vstd::prelude::*;

use crate::ast::{
    CallArgument, ExprNode, InterpolatedStringSegment, LambdaBody, NewInitializer, ObjectInitializerField,
    SizeOfOperand, SwitchArm,
};
use crate::eval::ConstEvalContext;
use crate::text::{chars_of, matches_at, occurs_at, str_eq, views};

verus! {

/// Whether `name` is a placeholder slot that quoting leaves in place of an interpolation.
pub open spec fn is_slot_name(name: Seq<char>) -> bool {
    occurs_at(name, "__chic_quote_slot"@, 0)
}

/// The names that quoting `node` captures, one entry per occurrence, from left to right:
/// its identifiers that are not slots, outside nested quotes, `nameof` operands, typed
/// `sizeof`/`alignof` operands and lambda block bodies. A switch contributes its value, then
/// each arm's expression and guards; a call its callee, then each argument's value and the
/// initializer of its inline binding; a `new` expression its argument values, then its
/// initializer.
pub open spec fn occurrences(node: ExprNode) -> Seq<Seq<char>>
    decreases node, 0nat,
{
    match node {
        ExprNode::Identifier(n) => if is_slot_name(n@) {
            Seq::empty()
        } else {
            seq![n@]
        },
        ExprNode::Unary { expr, .. } => occurrences(*expr),
        ExprNode::IndexFromEnd(expr) => occurrences(*expr),
        ExprNode::Parenthesized(expr) => occurrences(*expr),
        ExprNode::Ref { expr, .. } => occurrences(*expr),
        ExprNode::Await { expr } => occurrences(*expr),
        ExprNode::TryPropagate { expr } => occurrences(*expr),
        ExprNode::Cast { expr, .. } => occurrences(*expr),
        ExprNode::SizeOf(SizeOfOperand::Value(expr)) => occurrences(*expr),
        ExprNode::AlignOf(SizeOfOperand::Value(expr)) => occurrences(*expr),
        ExprNode::Member { base, .. } => occurrences(*base),
        ExprNode::IsPattern { value, .. } => occurrences(*value),
        ExprNode::Throw { expr } => match expr {
            Some(e) => occurrences(*e),
            None => Seq::empty(),
        },
        ExprNode::Range { start, end, .. } => (match start {
            Some(s) => occurrences(*s),
            None => Seq::empty(),
        }) + (match end {
            Some(e) => occurrences(*e),
            None => Seq::empty(),
        }),
        ExprNode::Binary { left, right, .. } => occurrences(*left) + occurrences(*right),
        ExprNode::Assign { target, value, .. } => occurrences(*target) + occurrences(*value),
        ExprNode::Conditional { condition, then_branch, else_branch } => occurrences(*condition)
            + occurrences(*then_branch) + occurrences(*else_branch),
        ExprNode::Switch { value, arms } => occurrences(*value) + arms_occurrences(arms, arms@.len()),
        ExprNode::Index { base, indices, .. } => occurrences(*base) + list_occurrences(indices, indices@.len()),
        ExprNode::Tuple(elements) => list_occurrences(elements, elements@.len()),
        ExprNode::ArrayLiteral(elements) => list_occurrences(elements, elements@.len()),
        ExprNode::Call { callee, args, .. } => occurrences(*callee) + args_occurrences(args, args@.len()),
        ExprNode::New(n) => values_occurrences(n.args, n.args@.len()) + init_occurrences(n.initializer),
        ExprNode::Lambda(l) => match l.body {
            LambdaBody::Expression(body) => occurrences(*body),
            LambdaBody::Block(_) => Seq::empty(),
        },
        ExprNode::InterpolatedString(segments) => segments_occurrences(segments, segments@.len()),
        _ => Seq::empty(),
    }
}

/// The occurrences in the initializer of a `new` expression: its field values or its
/// elements, in order.
pub open spec fn init_occurrences(init: Option<NewInitializer>) -> Seq<Seq<char>>
    decreases init, 0nat,
{
    match init {
        Some(NewInitializer::Object { fields }) => fields_occurrences(fields, fields@.len()),
        Some(NewInitializer::Collection { elements }) => list_occurrences(elements, elements@.len()),
        None => Seq::empty(),
    }
}

/// The occurrences in the first `n` expressions of `v`, in order.
pub open spec fn list_occurrences(v: Vec<ExprNode>, n: nat) -> Seq<Seq<char>>
    decreases v, n,
{
    if n == 0 || n > v@.len() {
        Seq::empty()
    } else {
        proof {
            assert(decreases_to!(v => v@));
            assert(decreases_to!(v@ => v@[n - 1]));
        }
        list_occurrences(v, (n - 1) as nat) + occurrences(v@[n - 1])
    }
}

/// The occurrences in a call argument: its value, then the initializer of its inline binding.
pub open spec fn arg_occurrences(a: CallArgument) -> Seq<Seq<char>>
    decreases a, 0nat,
{
    occurrences(a.value) + match a.inline_binding {
        Some(b) => match b.initializer {
            Some(init) => occurrences(init),
            None => Seq::empty(),
        },
        None => Seq::empty(),
    }
}

/// The occurrences in the first `n` call arguments of `v`, in order.
pub open spec fn args_occurrences(v: Vec<CallArgument>, n: nat) -> Seq<Seq<char>>
    decreases v, n,
{
    if n == 0 || n > v@.len() {
        Seq::empty()
    } else {
        proof {
            assert(decreases_to!(v => v@));
            assert(decreases_to!(v@ => v@[n - 1]));
        }
        args_occurrences(v, (n - 1) as nat) + arg_occurrences(v@[n - 1])
    }
}

/// The occurrences in the values of the first `n` arguments of `v`, in order.
pub open spec fn values_occurrences(v: Vec<CallArgument>, n: nat) -> Seq<Seq<char>>
    decreases v, n,
{
    if n == 0 || n > v@.len() {
        Seq::empty()
    } else {
        proof {
            assert(decreases_to!(v => v@));
            assert(decreases_to!(v@ => v@[n - 1]));
            assert(decreases_to!(v@[n - 1] => v@[n - 1].value));
        }
        values_occurrences(v, (n - 1) as nat) + occurrences(v@[n - 1].value)
    }
}

/// The occurrences in the values of the first `n` fields of `v`, in order.
pub open spec fn fields_occurrences(v: Vec<ObjectInitializerField>, n: nat) -> Seq<Seq<char>>
    decreases v, n,
{
    if n == 0 || n > v@.len() {
        Seq::empty()
    } else {
        proof {
            assert(decreases_to!(v => v@));
            assert(decreases_to!(v@ => v@[n - 1]));
            assert(decreases_to!(v@[n - 1] => v@[n - 1].value));
        }
        fields_occurrences(v, (n - 1) as nat) + occurrences(v@[n - 1].value)
    }
}

/// The occurrences in the first `n` arms of a switch: each arm's expression, then its guards.
pub open spec fn arms_occurrences(v: Vec<SwitchArm>, n: nat) -> Seq<Seq<char>>
    decreases v, n,
{
    if n == 0 || n > v@.len() {
        Seq::empty()
    } else {
        proof {
            assert(decreases_to!(v => v@));
            assert(decreases_to!(v@ => v@[n - 1]));
            assert(decreases_to!(v@[n - 1] => v@[n - 1].expression));
            assert(decreases_to!(v@[n - 1] => v@[n - 1].guards));
        }
        arms_occurrences(v, (n - 1) as nat) + occurrences(v@[n - 1].expression) + list_occurrences(
            v@[n - 1].guards,
            v@[n - 1].guards@.len(),
        )
    }
}

/// The occurrences in the expression segments among the first `n` segments of `v`.
pub open spec fn segments_occurrences(v: Vec<InterpolatedStringSegment>, n: nat) -> Seq<Seq<char>>
    decreases v, n,
{
    if n == 0 || n > v@.len() {
        Seq::empty()
    } else {
        proof {
            assert(decreases_to!(v => v@));
            assert(decreases_to!(v@ => v@[n - 1]));
        }
        segments_occurrences(v, (n - 1) as nat) + match v@[n - 1] {
            InterpolatedStringSegment::Expr(e) => occurrences(e),
            InterpolatedStringSegment::Text(_) => Seq::empty(),
        }
    }
}

/// `acc` followed by the names of `names` that it does not hold yet, each once, in the order
/// of their first occurrence in `names`.
pub open spec fn add_new(acc: Seq<Seq<char>>, names: Seq<Seq<char>>) -> Seq<Seq<char>>
    decreases names.len(),
{
    if names.len() == 0 {
        acc
    } else {
        let r = add_new(acc, names.drop_last());
        if r.contains(names.last()) {
            r
        } else {
            r.push(names.last())
        }
    }
}

/// The capture list of quoting `node`: each captured name once, in the order of its first
/// occurrence.
pub open spec fn capture_list(node: ExprNode) -> Seq<Seq<char>> {
    add_new(Seq::empty(), occurrences(node))
}

/// Adding the names of `a + b` is adding those of `a`, then those of `b`.
pub proof fn lemma_add_new_concat(acc: Seq<Seq<char>>, a: Seq<Seq<char>>, b: Seq<Seq<char>>)
    ensures
        add_new(acc, a + b) == add_new(add_new(acc, a), b),
    decreases b.len(),
{
    if b.len() == 0 {
        assert(a + b =~= a);
    } else {
        assert((a + b).drop_last() =~= a + b.drop_last());
        assert((a + b).last() == b.last());
        lemma_add_new_concat(acc, a, b.drop_last());
    }
}

/// Adding names keeps `acc` as a prefix, adds only names of `names`, holds every name of
/// `names`, and holds no name twice when `acc` does not.
pub proof fn lemma_add_new_shape(acc: Seq<Seq<char>>, names: Seq<Seq<char>>)
    ensures
        acc.len() <= add_new(acc, names).len(),
        add_new(acc, names).subrange(0, acc.len() as int) == acc,
        forall|k: int|
            acc.len() <= k < add_new(acc, names).len() ==> names.contains(#[trigger] add_new(acc, names)[k]),
        forall|x: Seq<char>| names.contains(x) ==> #[trigger] add_new(acc, names).contains(x),
        acc.no_duplicates() ==> add_new(acc, names).no_duplicates(),
    decreases names.len(),
{
    if names.len() == 0 {
        assert(acc.subrange(0, acc.len() as int) =~= acc);
    } else {
        let p = names.drop_last();
        let r = add_new(acc, p);
        lemma_add_new_shape(acc, p);
        let now = add_new(acc, names);
        assert forall|k: int| acc.len() <= k < now.len() implies names.contains(#[trigger] now[k]) by {
            if k < r.len() {
                assert(now[k] == r[k]);
                assert(p.contains(r[k]));
                let j = choose|j: int| 0 <= j < p.len() && p[j] == r[k];
                assert(names[j] == p[j]);
            } else {
                assert(now[k] == names.last());
                assert(names[names.len() - 1] == names.last());
            }
        }
        assert forall|x: Seq<char>| names.contains(x) implies #[trigger] now.contains(x) by {
            let j = choose|j: int| 0 <= j < names.len() && names[j] == x;
            if j < names.len() - 1 {
                assert(p[j] == x);
                assert(p.contains(x));
                assert(r.contains(x));
                let i = choose|i: int| 0 <= i < r.len() && r[i] == x;
                assert(now[i] == r[i]);
            } else {
                if r.contains(x) {
                } else {
                    assert(now[r.len() as int] == x);
                }
            }
        }
        assert(now.subrange(0, acc.len() as int) =~= r.subrange(0, acc.len() as int));
    }
}

/// Whether `name` is a quote slot placeholder (see `is_slot_name`).
fn is_slot(name: &str) -> (r: bool)
    ensures
        r == is_slot_name(name@),
{
    let n = chars_of(name);
    let slot = chars_of("__chic_quote_slot");
    matches_at(&n, &slot, 0)
}

/// Whether `name` is in `list`.
fn listed(list: &Vec<String>, name: &str) -> (r: bool)
    ensures
        r == views(list@).contains(name@),
{
    let mut i: usize = 0;
    while i < list.len()
        invariant
            i <= list.len(),
            forall|j: int| 0 <= j < i ==> views(list@)[j] != name@,
        decreases list.len() - i,
    {
        if str_eq(list[i].as_str(), name) {
            assert(views(list@)[i as int] == name@);
            return true;
        }
        i = i + 1;
    }
    false
}

impl ConstEvalContext {
    /// Appends to `captures` the names that quoting `node` captures and `captures` does not
    /// hold yet, in the order of their first occurrence (see `occurrences` and `add_new`).
    #[verifier::loop_isolation(false)]
    pub fn collect_quote_captures(&self, node: &ExprNode, captures: &mut Vec<String>)
        ensures
            views(final(captures)@) == add_new(views(old(captures)@), occurrences(*node)),
        decreases node, 0int,
    {
        let ghost start = views(captures@);
        match node {
            ExprNode::Identifier(name) => {
                let slot = is_slot(name.as_str());
                let present = listed(captures, name.as_str());
                if !slot && !present {
                    captures.push(name.clone());
                    assert(views(captures@) =~= start.push(name@));
                }
                proof {
                    let s = occurrences(*node);
                    if !slot {
                        assert(s =~= seq![name@]);
                        assert(s.drop_last() =~= Seq::<Seq<char>>::empty());
                        assert(add_new(start, s.drop_last()) == start);
                        assert(s.last() == name@);
                    }
                }
            },
            ExprNode::Unary { expr, .. } | ExprNode::IndexFromEnd(expr) | ExprNode::Parenthesized(expr)
            | ExprNode::Ref { expr, .. } | ExprNode::Await { expr } | ExprNode::TryPropagate { expr }
            | ExprNode::Cast { expr, .. } | ExprNode::SizeOf(SizeOfOperand::Value(expr))
            | ExprNode::AlignOf(SizeOfOperand::Value(expr)) | ExprNode::Member { base: expr, .. }
            | ExprNode::IsPattern { value: expr, .. } => {
                self.collect_quote_captures(expr, captures);
            },
            ExprNode::Throw { expr } => {
                if let Some(e) = expr {
                    self.collect_quote_captures(e, captures);
                }
            },
            ExprNode::Range { start: lo, end: hi, .. } => {
                if let Some(s) = lo {
                    self.collect_quote_captures(s, captures);
                }
                if let Some(e) = hi {
                    self.collect_quote_captures(e, captures);
                }
                proof {
                    let a = match lo {
                        Some(s) => occurrences(**s),
                        None => Seq::empty(),
                    };
                    let b = match hi {
                        Some(e) => occurrences(**e),
                        None => Seq::empty(),
                    };
                    lemma_add_new_concat(start, a, b);
                }
            },
            ExprNode::Binary { left, right, .. } | ExprNode::Assign { target: left, value: right, .. } => {
                self.collect_quote_captures(left, captures);
                self.collect_quote_captures(right, captures);
                proof {
                    lemma_add_new_concat(start, occurrences(**left), occurrences(**right));
                }
            },
            ExprNode::Conditional { condition, then_branch, else_branch } => {
                self.collect_quote_captures(condition, captures);
                self.collect_quote_captures(then_branch, captures);
                self.collect_quote_captures(else_branch, captures);
                proof {
                    lemma_add_new_concat(start, occurrences(**condition), occurrences(**then_branch));
                    lemma_add_new_concat(
                        start,
                        occurrences(**condition) + occurrences(**then_branch),
                        occurrences(**else_branch),
                    );
                }
            },
            ExprNode::Tuple(elements) | ExprNode::ArrayLiteral(elements) => {
                self.collect_list(elements, captures);
            },
            ExprNode::Index { base, indices, .. } => {
                self.collect_quote_captures(base, captures);
                self.collect_list(indices, captures);
                proof {
                    lemma_add_new_concat(start, occurrences(**base), list_occurrences(*indices, indices@.len()));
                }
            },
            ExprNode::Switch { value, arms } => {
                self.collect_quote_captures(value, captures);
                let ghost mid = views(captures@);
                let mut i: usize = 0;
                while i < arms.len()
                    invariant
                        i <= arms.len(),
                        views(captures@) == add_new(mid, arms_occurrences(*arms, i as nat)),
                    decreases arms.len() - i,
                {
                    let ghost done = arms_occurrences(*arms, i as nat);
                    proof {
                        assert(decreases_to!(*node => *arms));
                        assert(decreases_to!(*arms => arms@));
                        assert(decreases_to!(arms@ => arms@[i as int]));
                        assert(decreases_to!(arms@[i as int] => arms@[i as int].expression));
                        assert(decreases_to!(arms@[i as int] => arms@[i as int].guards));
                    }
                    self.collect_quote_captures(&arms[i].expression, captures);
                    self.collect_list(&arms[i].guards, captures);
                    proof {
                        let e = occurrences(arms@[i as int].expression);
                        let g = list_occurrences(arms@[i as int].guards, arms@[i as int].guards@.len());
                        lemma_add_new_concat(mid, done, e);
                        lemma_add_new_concat(mid, done + e, g);
                        assert(arms_occurrences(*arms, (i + 1) as nat) == done + e + g);
                    }
                    i = i + 1;
                }
                proof {
                    lemma_add_new_concat(start, occurrences(**value), arms_occurrences(*arms, arms@.len()));
                }
            },
            ExprNode::Call { callee, args, .. } => {
                self.collect_quote_captures(callee, captures);
                let ghost mid = views(captures@);
                let mut i: usize = 0;
                while i < args.len()
                    invariant
                        i <= args.len(),
                        views(captures@) == add_new(mid, args_occurrences(*args, i as nat)),
                    decreases args.len() - i,
                {
                    let ghost done = args_occurrences(*args, i as nat);
                    proof {
                        assert(decreases_to!(*node => *args));
                        assert(decreases_to!(*args => args@));
                        assert(decreases_to!(args@ => args@[i as int]));
                        assert(decreases_to!(args@[i as int] => args@[i as int].value));
                    }
                    self.collect_quote_captures(&args[i].value, captures);
                    let ghost e = occurrences(args@[i as int].value);
                    let ghost after_value = views(captures@);
                    if let Some(binding) = &args[i].inline_binding {
                        if let Some(init) = &binding.initializer {
                            proof {
                                assert(decreases_to!(args@[i as int] => args@[i as int].inline_binding));
                                assert(decreases_to!(args@[i as int].inline_binding => *binding));
                                assert(decreases_to!(*binding => binding.initializer));
                                assert(decreases_to!(binding.initializer => *init));
                            }
                            self.collect_quote_captures(init, captures);
                        }
                    }
                    proof {
                        let b = match args@[i as int].inline_binding {
                            Some(bd) => match bd.initializer {
                                Some(x) => occurrences(x),
                                None => Seq::empty(),
                            },
                            None => Seq::empty(),
                        };
                        assert(views(captures@) == add_new(after_value, b));
                        lemma_add_new_concat(mid, done, e);
                        lemma_add_new_concat(mid, done + e, b);
                        assert(arg_occurrences(args@[i as int]) == e + b);
                        assert(args_occurrences(*args, (i + 1) as nat) == done + arg_occurrences(args@[i as int]));
                        assert(done + (e + b) =~= done + e + b);
                    }
                    i = i + 1;
                }
                proof {
                    lemma_add_new_concat(start, occurrences(**callee), args_occurrences(*args, args@.len()));
                }
            },
            ExprNode::New(new_expr) => {
                let mut i: usize = 0;
                while i < new_expr.args.len()
                    invariant
                        i <= new_expr.args.len(),
                        views(captures@) == add_new(start, values_occurrences(new_expr.args, i as nat)),
                    decreases new_expr.args.len() - i,
                {
                    let ghost done = values_occurrences(new_expr.args, i as nat);
                    proof {
                        assert(decreases_to!(*node => *new_expr));
                        assert(decreases_to!(*new_expr => new_expr.args));
                        assert(decreases_to!(new_expr.args => new_expr.args@));
                        assert(decreases_to!(new_expr.args@ => new_expr.args@[i as int]));
                        assert(decreases_to!(new_expr.args@[i as int] => new_expr.args@[i as int].value));
                    }
                    self.collect_quote_captures(&new_expr.args[i].value, captures);
                    proof {
                        lemma_add_new_concat(start, done, occurrences(new_expr.args@[i as int].value));
                    }
                    i = i + 1;
                }
                let ghost mid = views(captures@);
                let ghost rest = init_occurrences(new_expr.initializer);
                match &new_expr.initializer {
                    Some(NewInitializer::Object { fields }) => {
                        let mut j: usize = 0;
                        while j < fields.len()
                            invariant
                                j <= fields.len(),
                                views(captures@) == add_new(mid, fields_occurrences(*fields, j as nat)),
                            decreases fields.len() - j,
                        {
                            let ghost done = fields_occurrences(*fields, j as nat);
                            proof {
                                assert(decreases_to!(*node => *new_expr));
                                assert(decreases_to!(*new_expr => new_expr.initializer));
                                assert(decreases_to!(new_expr.initializer => new_expr.initializer->Some_0));
                                assert(decreases_to!(new_expr.initializer->Some_0 => *fields));
                                assert(decreases_to!(*fields => fields@));
                                assert(decreases_to!(fields@ => fields@[j as int]));
                                assert(decreases_to!(fields@[j as int] => fields@[j as int].value));
                            }
                            self.collect_quote_captures(&fields[j].value, captures);
                            proof {
                                lemma_add_new_concat(mid, done, occurrences(fields@[j as int].value));
                            }
                            j = j + 1;
                        }
                    },
                    Some(NewInitializer::Collection { elements }) => {
                        proof {
                            assert(decreases_to!(*node => *new_expr));
                            assert(decreases_to!(*new_expr => new_expr.initializer));
                            assert(decreases_to!(new_expr.initializer => new_expr.initializer->Some_0));
                            assert(decreases_to!(new_expr.initializer->Some_0 => *elements));
                        }
                        self.collect_list(elements, captures);
                    },
                    None => {},
                }
                proof {
                    assert(views(captures@) == add_new(mid, rest));
                    lemma_add_new_concat(start, values_occurrences(new_expr.args, new_expr.args@.len()), rest);
                }
            },
            ExprNode::Lambda(lambda) => {
                match &lambda.body {
                    LambdaBody::Expression(body) => {
                        proof {
                            assert(decreases_to!(*node => *lambda));
                            assert(decreases_to!(*lambda => lambda.body));
                        }
                        self.collect_quote_captures(body, captures);
                    },
                    LambdaBody::Block(_) => {},
                }
            },
            ExprNode::InterpolatedString(segments) => {
                let mut i: usize = 0;
                while i < segments.len()
                    invariant
                        i <= segments.len(),
                        views(captures@) == add_new(start, segments_occurrences(*segments, i as nat)),
                    decreases segments.len() - i,
                {
                    let ghost done = segments_occurrences(*segments, i as nat);
                    match &segments[i] {
                        InterpolatedStringSegment::Expr(e) => {
                            proof {
                                assert(decreases_to!(*node => *segments));
                                assert(decreases_to!(*segments => segments@));
                                assert(decreases_to!(segments@ => segments@[i as int]));
                            }
                            self.collect_quote_captures(e, captures);
                            proof {
                                lemma_add_new_concat(start, done, occurrences(*e));
                            }
                        },
                        InterpolatedStringSegment::Text(_) => {
                            assert(segments_occurrences(*segments, (i + 1) as nat) =~= done);
                        },
                    }
                    i = i + 1;
                }
            },
            _ => {},
        }
    }

    /// Appends to `captures` the names that the expressions of `nodes` capture and `captures`
    /// does not hold yet, in the order of their first occurrence.
    #[verifier::loop_isolation(false)]
    pub fn collect_list(&self, nodes: &Vec<ExprNode>, captures: &mut Vec<String>)
        ensures
            views(final(captures)@) == add_new(views(old(captures)@), list_occurrences(*nodes, nodes@.len())),
        decreases nodes, 1int,
    {
        let ghost start = views(captures@);
        let mut i: usize = 0;
        while i < nodes.len()
            invariant
                i <= nodes.len(),
                views(captures@) == add_new(start, list_occurrences(*nodes, i as nat)),
            decreases nodes.len() - i,
        {
            let ghost done = list_occurrences(*nodes, i as nat);
            proof {
                assert(decreases_to!(*nodes => nodes@));
                assert(decreases_to!(nodes@ => nodes@[i as int]));
            }
            self.collect_quote_captures(&nodes[i], captures);
            proof {
                lemma_add_new_concat(start, done, occurrences(nodes@[i as int]));
            }
            i = i + 1;
        }
    }
}

} // verus!
