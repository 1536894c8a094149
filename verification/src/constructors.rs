use vstd::prelude::*;

use crate::lowering::{diag_models, LoweringDiagnostic};
use crate::text::{cat3, join, owned, str_eq, views};
use crate::values::{ConstValue, Span};

verus! {

/// A step of a place's projection.
#[derive(Debug)]
pub enum ProjectionElem {
    Field(u32),
    FieldNamed(String),
    UnionField { index: u32, name: String },
    Deref,
    Index(usize),
}

/// A memory place: a local and a projection from it.
#[derive(Debug)]
pub struct Place {
    pub local: usize,
    pub projection: Vec<ProjectionElem>,
}

/// An operand of a MIR statement or terminator.
#[derive(Debug)]
pub enum Operand {
    Copy(Place),
    Move(Place),
    Borrow(Place),
    Const(ConstValue),
    Pending(String),
}

/// The kinds of MIR statements that matter to field initialization.
#[derive(Debug)]
pub enum MirStatementKind {
    Assign { place: Place },
    Other,
}

/// A MIR statement.
#[derive(Debug)]
pub struct MirStatement {
    pub kind: MirStatementKind,
}

/// How a basic block ends.
#[derive(Debug)]
pub enum Terminator {
    Goto { target: usize },
    SwitchInt { targets: Vec<(u128, usize)>, otherwise: usize },
    Match { arms: Vec<usize>, otherwise: usize },
    Call { func: Operand, args: Vec<Operand>, target: usize, unwind: Option<usize> },
    Yield { resume: usize, drop: usize },
    Await { resume: usize, drop: usize },
    Throw,
    Panic,
    Return,
    Unreachable,
    Pending,
}

/// A basic block: its id, its statements and its terminator.
#[derive(Debug)]
pub struct BasicBlock {
    pub id: usize,
    pub statements: Vec<MirStatement>,
    pub terminator: Option<Terminator>,
}

/// A function body in MIR: its basic blocks.
#[derive(Debug)]
pub struct MirBody {
    pub blocks: Vec<BasicBlock>,
}

/// The layout of a field.
#[derive(Debug)]
pub struct FieldLayout {
    pub name: String,
    pub display_name: Option<String>,
    pub is_required: bool,
}

/// The layout of a struct or class.
#[derive(Debug)]
pub struct StructLayout {
    pub name: String,
    pub fields: Vec<FieldLayout>,
    /// Whether the type is a class (only its required fields are watched).
    pub is_class: bool,
}

/// Whether a constructor is designated or delegates as a convenience.
#[derive(Clone, Copy, Debug, PartialEq, Eq, Structural)]
pub enum ConstructorKind {
    Designated,
    Convenience,
}

/// Whom a constructor initializer calls.
#[derive(Clone, Copy, Debug, PartialEq, Eq, Structural)]
pub enum ConstructorInitTarget {
    SelfType,
    Super,
}

/// A constructor's `: self(...)` or `: super(...)` initializer.
#[derive(Debug)]
pub struct ConstructorInitializer {
    pub target: ConstructorInitTarget,
}

/// The kind of a property accessor.
#[derive(Clone, Copy, Debug, PartialEq, Eq, Structural)]
pub enum PropertyAccessorKind {
    Getter,
    Setter,
    Init,
}

/// A property accessor function: its symbol, its owner, its kind and its backing field.
#[derive(Debug)]
pub struct PropertyAccessor {
    pub function: String,
    pub owner: String,
    pub kind: PropertyAccessorKind,
    pub backing_field: Option<String>,
}

/// The positions held by a list of indices.
pub open spec fn ints(v: Seq<usize>) -> Seq<int>
    decreases v.len(),
{
    if v.len() == 0 {
        Seq::empty()
    } else {
        ints(v.drop_last()).push(v.last() as int)
    }
}

/// The target blocks of a switch's cases.
pub open spec fn case_targets(v: Seq<(u128, usize)>) -> Seq<int>
    decreases v.len(),
{
    if v.len() == 0 {
        Seq::empty()
    } else {
        case_targets(v.drop_last()).push(v.last().1 as int)
    }
}

/// The blocks that a terminator may pass control to, in order.
pub open spec fn successors(t: Terminator) -> Seq<int> {
    match t {
        Terminator::Goto { target } => seq![target as int],
        Terminator::SwitchInt { targets, otherwise } => case_targets(targets@).push(otherwise as int),
        Terminator::Match { arms, otherwise } => ints(arms@).push(otherwise as int),
        Terminator::Call { target, unwind, .. } => match unwind {
            Some(u) => seq![target as int, u as int],
            None => seq![target as int],
        },
        Terminator::Yield { resume, drop } => seq![resume as int, drop as int],
        Terminator::Await { resume, drop } => seq![resume as int, drop as int],
        _ => Seq::empty(),
    }
}

/// The successors of a block (none without a terminator).
pub open spec fn block_successors(b: BasicBlock) -> Seq<int> {
    match b.terminator {
        Some(t) => successors(t),
        None => Seq::empty(),
    }
}

/// `id` once for each edge in `succ` that leads to `t`.
pub open spec fn edges_to(succ: Seq<int>, t: int, id: int) -> Seq<int>
    decreases succ.len(),
{
    if succ.len() == 0 {
        Seq::empty()
    } else {
        edges_to(succ.drop_last(), t, id) + if succ.last() == t {
            seq![id]
        } else {
            Seq::<int>::empty()
        }
    }
}

/// The predecessors of block `t` among `blocks`: each block's id once per edge to `t`, in
/// block order.
pub open spec fn preds_of(blocks: Seq<BasicBlock>, t: int) -> Seq<int>
    decreases blocks.len(),
{
    if blocks.len() == 0 {
        Seq::empty()
    } else {
        preds_of(blocks.drop_last(), t) + edges_to(block_successors(blocks.last()), t, blocks.last().id as int)
    }
}

/// Whether every block's id is its position.
pub open spec fn ids_are_positions(body: MirBody) -> bool {
    forall|p: int| 0 <= p < body.blocks@.len() ==> #[trigger] body.blocks@[p].id == p
}

/// The successor blocks of a terminator, in order (see `successors`).
fn successor_list(t: &Terminator) -> (r: Vec<usize>)
    ensures
        ints(r@) == successors(*t),
{
    let mut out: Vec<usize> = Vec::new();
    match t {
        Terminator::Goto { target } => {
            out.push(*target);
        },
        Terminator::SwitchInt { targets, otherwise } => {
            let mut i: usize = 0;
            while i < targets.len()
                invariant
                    i <= targets.len(),
                    ints(out@) == case_targets(targets@.subrange(0, i as int)),
                decreases targets.len() - i,
            {
                let ghost prev = out@;
                out.push(targets[i].1);
                assert(out@.drop_last() =~= prev);
                i = i + 1;
                assert(targets@.subrange(0, i as int).drop_last() =~= targets@.subrange(0, i - 1));
            }
            let ghost prev = out@;
            out.push(*otherwise);
            assert(out@.drop_last() =~= prev);
            assert(targets@.subrange(0, targets.len() as int) =~= targets@);
        },
        Terminator::Match { arms, otherwise } => {
            let mut i: usize = 0;
            while i < arms.len()
                invariant
                    i <= arms.len(),
                    ints(out@) == ints(arms@.subrange(0, i as int)),
                decreases arms.len() - i,
            {
                let ghost prev = out@;
                out.push(arms[i]);
                assert(out@.drop_last() =~= prev);
                i = i + 1;
                assert(arms@.subrange(0, i as int).drop_last() =~= arms@.subrange(0, i - 1));
            }
            let ghost prev = out@;
            out.push(*otherwise);
            assert(out@.drop_last() =~= prev);
            assert(arms@.subrange(0, arms.len() as int) =~= arms@);
        },
        Terminator::Call { target, unwind, .. } => {
            out.push(*target);
            if let Some(u) = unwind {
                let ghost prev = out@;
                out.push(*u);
                assert(out@.drop_last() =~= prev);
            }
        },
        Terminator::Yield { resume, drop } | Terminator::Await { resume, drop } => {
            out.push(*resume);
            let ghost prev = out@;
            out.push(*drop);
            assert(out@.drop_last() =~= prev);
        },
        _ => {},
    }
    proof {
        reveal_with_fuel(ints, 3);
    }
    assert(ints(out@) =~= successors(*t));
    out
}

/// The predecessors of every block (see `preds_of`).
pub fn compute_predecessors(body: &MirBody) -> (r: Vec<Vec<usize>>)
    ensures
        r@.len() == body.blocks@.len(),
        forall|t: int| 0 <= t < r@.len() ==> ints((#[trigger] r@[t])@) == preds_of(body.blocks@, t),
{
    let n = body.blocks.len();
    let mut preds: Vec<Vec<usize>> = Vec::new();
    let mut t: usize = 0;
    while t < n
        invariant
            t <= n == body.blocks@.len(),
            preds@.len() == t,
            forall|k: int| 0 <= k < t ==> ints((#[trigger] preds@[k])@) == preds_of(body.blocks@, k),
        decreases n - t,
    {
        let mut list: Vec<usize> = Vec::new();
        let mut p: usize = 0;
        while p < n
            invariant
                p <= n == body.blocks@.len(),
                ints(list@) == preds_of(body.blocks@.subrange(0, p as int), t as int),
            decreases n - p,
        {
            let block = &body.blocks[p];
            let ghost before = ints(list@);
            let succ = match &block.terminator {
                Some(term) => successor_list(term),
                None => Vec::new(),
            };
            let ghost sv = ints(succ@);
            assert(sv == block_successors(body.blocks@[p as int]));
            proof {
                lemma_ints_len(succ@);
            }
            let mut k: usize = 0;
            while k < succ.len()
                invariant
                    k <= succ.len(),
                    sv == ints(succ@),
                    sv.len() == succ@.len(),
                    ints(list@) == before + edges_to(sv.subrange(0, k as int), t as int, block.id as int),
                decreases succ.len() - k,
            {
                let ghost prev = list@;
                let ghost sub = sv.subrange(0, k + 1);
                assert(sub.drop_last() =~= sv.subrange(0, k as int));
                assert(sv[k as int] == succ@[k as int] as int) by {
                    lemma_ints_index(succ@, k as int);
                }
                if succ[k] == t {
                    list.push(block.id);
                    assert(list@.drop_last() =~= prev);
                }
                k = k + 1;
                assert(ints(list@) =~= before + edges_to(sv.subrange(0, k as int), t as int, block.id as int));
            }
            assert(sv.subrange(0, succ.len() as int) =~= sv);
            let ghost blocks_next = body.blocks@.subrange(0, p + 1);
            assert(blocks_next.drop_last() =~= body.blocks@.subrange(0, p as int));
            assert(blocks_next.last() == body.blocks@[p as int]);
            p = p + 1;
        }
        assert(body.blocks@.subrange(0, n as int) =~= body.blocks@);
        preds.push(list);
        t = t + 1;
    }
    preds
}

proof fn lemma_ints_index(v: Seq<usize>, k: int)
    requires
        0 <= k < v.len(),
    ensures
        ints(v).len() == v.len(),
        ints(v)[k] == v[k] as int,
    decreases v.len(),
{
    lemma_ints_len(v);
    if k < v.len() - 1 {
        lemma_ints_index(v.drop_last(), k);
    }
}

proof fn lemma_ints_len(v: Seq<usize>)
    ensures
        ints(v).len() == v.len(),
    decreases v.len(),
{
    if v.len() > 0 {
        lemma_ints_len(v.drop_last());
    }
}

/// The position that a field name has in the watched fields: the last one that carries it.
pub open spec fn field_pos(names: Seq<Seq<char>>, n: Seq<char>) -> Option<int>
    decreases names.len(),
{
    if names.len() == 0 {
        None
    } else if names.last() == n {
        Some(names.len() - 1)
    } else {
        field_pos(names.drop_last(), n)
    }
}

proof fn lemma_field_pos_range(names: Seq<Seq<char>>, n: Seq<char>)
    ensures
        field_pos(names, n) matches Some(k) ==> 0 <= k < names.len(),
    decreases names.len(),
{
    if names.len() > 0 {
        lemma_field_pos_range(names.drop_last(), n);
    }
}

proof fn lemma_resolve_range(proj: Seq<ProjectionElem>, names: Seq<Seq<char>>)
    ensures
        resolve_spec(proj, names) matches Some(k) ==> 0 <= k <= u32::MAX || 0 <= k < names.len(),
    decreases proj.len(),
{
    if proj.len() > 0 {
        match proj[0] {
            ProjectionElem::FieldNamed(n) => lemma_field_pos_range(names, n@),
            ProjectionElem::UnionField { name, .. } => lemma_field_pos_range(names, name@),
            ProjectionElem::Field(_) => {},
            _ => lemma_resolve_range(proj.drop_first(), names),
        }
    }
}

/// The field that a projection writes: decided by its first field step.
pub open spec fn resolve_spec(proj: Seq<ProjectionElem>, names: Seq<Seq<char>>) -> Option<int>
    decreases proj.len(),
{
    if proj.len() == 0 {
        None
    } else {
        match proj[0] {
            ProjectionElem::FieldNamed(n) => field_pos(names, n@),
            ProjectionElem::Field(i) => Some(i as int),
            ProjectionElem::UnionField { index, name } => match field_pos(names, name@) {
                Some(k) => Some(k),
                None => Some(index as int),
            },
            _ => resolve_spec(proj.drop_first(), names),
        }
    }
}

fn field_position(names: &Vec<String>, n: &str) -> (r: Option<usize>)
    ensures
        match field_pos(views(names@), n@) {
            Some(k) => r == Some(k as usize),
            None => r is None,
        },
{
    let mut i: usize = names.len();
    assert(views(names@).subrange(0, i as int) =~= views(names@));
    while i > 0
        invariant
            i <= names.len(),
            field_pos(views(names@), n@) == field_pos(views(names@).subrange(0, i as int), n@),
        decreases i,
    {
        let ghost sub = views(names@).subrange(0, i as int);
        assert(sub.drop_last() =~= views(names@).subrange(0, i - 1));
        assert(sub.last() == names@[i - 1]@);
        if str_eq(names[i - 1].as_str(), n) {
            return Some(i - 1);
        }
        i = i - 1;
    }
    None
}

/// The field that an assignment through `place` writes (see `resolve_spec`).
pub fn resolve_field_index(place: &Place, names: &Vec<String>) -> (r: Option<usize>)
    ensures
        match resolve_spec(place.projection@, views(names@)) {
            Some(k) => r == Some(k as usize),
            None => r is None,
        },
{
    let mut i: usize = 0;
    assert(place.projection@.subrange(0, place.projection@.len() as int) =~= place.projection@);
    while i < place.projection.len()
        invariant
            i <= place.projection@.len(),
            resolve_spec(place.projection@, views(names@)) == resolve_spec(
                place.projection@.subrange(i as int, place.projection@.len() as int),
                views(names@),
            ),
        decreases place.projection.len() - i,
    {
        let ghost rest = place.projection@.subrange(i as int, place.projection@.len() as int);
        assert(rest.drop_first() =~= place.projection@.subrange(i + 1, place.projection@.len() as int));
        match &place.projection[i] {
            ProjectionElem::FieldNamed(n) => {
                return field_position(names, n.as_str());
            },
            ProjectionElem::Field(k) => {
                return Some(*k as usize);
            },
            ProjectionElem::UnionField { index, name } => {
                return match field_position(names, name.as_str()) {
                    Some(k) => Some(k),
                    None => Some(*index as usize),
                };
            },
            _ => {},
        }
        i = i + 1;
    }
    None
}

/// Whether the first argument of a call is `self` (copied, moved or borrowed).
pub open spec fn receives_self(args: Seq<Operand>, self_local: usize) -> bool {
    args.len() > 0 && match args[0] {
        Operand::Copy(p) | Operand::Move(p) | Operand::Borrow(p) => p.local == self_local,
        _ => false,
    }
}

/// Whether the first argument of a call is `self` (see `receives_self`).
pub fn call_receives_self(args: &Vec<Operand>, self_local: usize) -> (r: bool)
    ensures
        r == receives_self(args@, self_local),
{
    if args.len() == 0 {
        return false;
    }
    match &args[0] {
        Operand::Copy(place) | Operand::Move(place) | Operand::Borrow(place) => place.local == self_local,
        _ => false,
    }
}

/// The name of the function that a call operand denotes, if it names one.
pub open spec fn callee_name(func: Operand) -> Option<Seq<char>> {
    match func {
        Operand::Pending(repr) => Some(repr@),
        Operand::Const(ConstValue::Symbol(name)) => Some(name@),
        Operand::Const(_) => Some(Seq::empty()),
        _ => None,
    }
}

/// The first property accessor implemented by the function `name`.
pub open spec fn accessor_for(accessors: Seq<PropertyAccessor>, name: Seq<char>) -> Option<PropertyAccessor>
    decreases accessors.len(),
{
    if accessors.len() == 0 {
        None
    } else {
        match accessor_for(accessors.drop_last(), name) {
            Some(a) => Some(a),
            None => if accessors.last().function@ == name {
                Some(accessors.last())
            } else {
                None
            },
        }
    }
}

/// The watched field that a call writes: a setter or init accessor of `owner` with a backing
/// field, called on `self`.
pub open spec fn property_write(
    func: Operand,
    args: Seq<Operand>,
    accessors: Seq<PropertyAccessor>,
    self_local: usize,
    names: Seq<Seq<char>>,
    owner: Seq<char>,
) -> Option<int> {
    match callee_name(func) {
        None => None,
        Some(fname) => match accessor_for(accessors, fname) {
            None => None,
            Some(a) => if a.owner@ != owner || !(a.kind == PropertyAccessorKind::Setter || a.kind
                == PropertyAccessorKind::Init) {
                None
            } else {
                match a.backing_field {
                    None => None,
                    Some(bf) => if !receives_self(args, self_local) {
                        None
                    } else {
                        field_pos(names, bf@)
                    },
                }
            },
        },
    }
}

fn find_accessor<'a>(accessors: &'a Vec<PropertyAccessor>, name: &str) -> (r: Option<&'a PropertyAccessor>)
    ensures
        match accessor_for(accessors@, name@) {
            Some(a) => r == Some(&a),
            None => r is None,
        },
{
    let mut i: usize = 0;
    while i < accessors.len()
        invariant
            i <= accessors@.len(),
            accessor_for(accessors@.subrange(0, i as int), name@) is None,
        decreases accessors.len() - i,
    {
        let ghost sub = accessors@.subrange(0, i + 1);
        assert(sub.drop_last() =~= accessors@.subrange(0, i as int));
        if str_eq(accessors[i].function.as_str(), name) {
            proof {
                lemma_accessor_prefix(accessors@, i + 1);
            }
            return Some(&accessors[i]);
        }
        i = i + 1;
    }
    assert(accessors@.subrange(0, accessors@.len() as int) =~= accessors@);
    None
}

proof fn lemma_accessor_prefix(accessors: Seq<PropertyAccessor>, k: int)
    requires
        0 <= k <= accessors.len(),
        accessor_for(accessors.subrange(0, k), accessors[k - 1].function@) is Some || k == 0,
    ensures
        k > 0 ==> accessor_for(accessors, accessors[k - 1].function@) == accessor_for(
            accessors.subrange(0, k),
            accessors[k - 1].function@,
        ),
    decreases accessors.len() - k,
{
    if k > 0 && k < accessors.len() {
        let name = accessors[k - 1].function@;
        let next = accessors.subrange(0, k + 1);
        assert(next.drop_last() =~= accessors.subrange(0, k));
        assert(accessor_for(next, name) == accessor_for(accessors.subrange(0, k), name));
        lemma_accessor_extends(accessors, k + 1, name);
    } else if k == accessors.len() {
        assert(accessors.subrange(0, k) =~= accessors);
    }
}

proof fn lemma_accessor_extends(accessors: Seq<PropertyAccessor>, k: int, name: Seq<char>)
    requires
        0 <= k <= accessors.len(),
        accessor_for(accessors.subrange(0, k), name) is Some,
    ensures
        accessor_for(accessors, name) == accessor_for(accessors.subrange(0, k), name),
    decreases accessors.len() - k,
{
    if k < accessors.len() {
        let next = accessors.subrange(0, k + 1);
        assert(next.drop_last() =~= accessors.subrange(0, k));
        lemma_accessor_extends(accessors, k + 1, name);
    } else {
        assert(accessors.subrange(0, k) =~= accessors);
    }
}

/// The watched field that a call through a property accessor writes (see `property_write`).
pub fn property_field_write(
    func: &Operand,
    args: &Vec<Operand>,
    accessors: &Vec<PropertyAccessor>,
    self_local: usize,
    names: &Vec<String>,
    owner: &str,
) -> (r: Option<usize>)
    ensures
        match property_write(*func, args@, accessors@, self_local, views(names@), owner@) {
            Some(k) => r == Some(k as usize),
            None => r is None,
        },
{
    let function_name: &str = match func {
        Operand::Pending(repr) => repr.as_str(),
        Operand::Const(ConstValue::Symbol(name)) => name.as_str(),
        Operand::Const(_) => "",
        _ => {
            return None;
        },
    };
    proof {
        reveal_strlit("");
    }
    assert(callee_name(*func) == Some(function_name@));
    let accessor = match find_accessor(accessors, function_name) {
        Some(a) => a,
        None => {
            return None;
        },
    };
    if !str_eq(accessor.owner.as_str(), owner) {
        return None;
    }
    if !(accessor.kind == PropertyAccessorKind::Setter || accessor.kind == PropertyAccessorKind::Init) {
        return None;
    }
    let backing = match &accessor.backing_field {
        Some(b) => b,
        None => {
            return None;
        },
    };
    if !call_receives_self(args, self_local) {
        return None;
    }
    field_position(names, backing.as_str())
}

/// Whether `s` ends with `suffix`.
pub open spec fn ends_with(s: Seq<char>, suffix: Seq<char>) -> bool {
    s.len() >= suffix.len() && s.subrange(s.len() - suffix.len(), s.len() as int) == suffix
}

/// Whether a terminator calls a `self` initializer (`...::init#self`) on `self`.
pub open spec fn self_delegating(t: Terminator, self_local: usize) -> bool {
    match t {
        Terminator::Call { func, args, .. } => args@.len() > 0 && (match args@[0] {
            Operand::Copy(p) | Operand::Move(p) => p.local == self_local,
            _ => false,
        }) && (match func {
            Operand::Pending(repr) => ends_with(repr@, "::init#self"@),
            _ => false,
        }),
        _ => false,
    }
}

fn ends_with_str(s: &str, suffix: &str) -> (r: bool)
    ensures
        r == ends_with(s@, suffix@),
{
    let a = crate::text::chars_of(s);
    let b = crate::text::chars_of(suffix);
    if a.len() < b.len() {
        return false;
    }
    let r = crate::text::matches_at(&a, &b, a.len() - b.len());
    r
}

/// Whether a terminator delegates to a `self` initializer (see `self_delegating`).
pub fn is_self_delegating_initializer(terminator: &Terminator, self_local: usize) -> (r: bool)
    ensures
        r == self_delegating(*terminator, self_local),
{
    match terminator {
        Terminator::Call { func, args, .. } => {
            if args.len() == 0 {
                return false;
            }
            let is_self_arg = match &args[0] {
                Operand::Copy(place) | Operand::Move(place) => place.local == self_local,
                _ => false,
            };
            if !is_self_arg {
                return false;
            }
            match func {
                Operand::Pending(repr) => ends_with_str(repr.as_str(), "::init#self"),
                _ => false,
            }
        },
        _ => false,
    }
}

/// Whether a field is managed by the runtime (the vtable slot).
pub fn is_runtime_managed_field(field: &FieldLayout) -> (r: bool)
    ensures
        r == (field.name@ == "$vtable"@),
{
    str_eq(field.name.as_str(), "$vtable")
}

/// The fields that a constructor must assign: all but the vtable slot, and of a class only
/// the required ones.
pub open spec fn tracked_fields(fields: Seq<FieldLayout>, class: bool) -> Seq<FieldLayout>
    decreases fields.len(),
{
    if fields.len() == 0 {
        Seq::empty()
    } else {
        let f = fields.last();
        let rest = tracked_fields(fields.drop_last(), class);
        if f.name@ != "$vtable"@ && (!class || f.is_required) {
            rest.push(f)
        } else {
            rest
        }
    }
}

/// The names of a list of fields.
pub open spec fn field_names(fields: Seq<FieldLayout>) -> Seq<Seq<char>>
    decreases fields.len(),
{
    if fields.len() == 0 {
        Seq::empty()
    } else {
        field_names(fields.drop_last()).push(fields.last().name@)
    }
}

/// What the dataflow knows of a constructor: the `self` local, the watched field names, the
/// property accessors, the owning type and whether it delegates to a `self` initializer.
pub struct FlowContext {
    pub self_local: usize,
    pub names: Seq<Seq<char>>,
    pub accessors: Seq<PropertyAccessor>,
    pub owner: Seq<char>,
    pub delegates: bool,
}

/// `n` copies of `true`.
pub open spec fn all_true(n: nat) -> Seq<bool> {
    Seq::new(n, |i: int| true)
}

/// `s` with the slot `k` set, when `k` is one of its slots.
pub open spec fn set_slot(s: Seq<bool>, k: Option<int>) -> Seq<bool> {
    match k {
        Some(i) => if 0 <= i < s.len() {
            s.update(i, true)
        } else {
            s
        },
        None => s,
    }
}

/// The fields known to be assigned after a statement.
pub open spec fn stmt_effect(s: Seq<bool>, st: MirStatement, ctx: FlowContext) -> Seq<bool> {
    match st.kind {
        MirStatementKind::Assign { place } => if place.local == ctx.self_local {
            if place.projection@.len() == 0 {
                all_true(s.len())
            } else {
                set_slot(s, resolve_spec(place.projection@, ctx.names))
            }
        } else {
            s
        },
        MirStatementKind::Other => s,
    }
}

/// The fields known to be assigned after a list of statements.
pub open spec fn stmts_effect(s: Seq<bool>, stmts: Seq<MirStatement>, ctx: FlowContext) -> Seq<bool>
    decreases stmts.len(),
{
    if stmts.len() == 0 {
        s
    } else {
        stmt_effect(stmts_effect(s, stmts.drop_last(), ctx), stmts.last(), ctx)
    }
}

/// The fields known to be assigned at the end of a block, given those at its start.
pub open spec fn transfer(s: Seq<bool>, b: BasicBlock, ctx: FlowContext) -> Seq<bool> {
    let after = stmts_effect(s, b.statements@, ctx);
    let called = match b.terminator {
        Some(Terminator::Call { func, args, .. }) => set_slot(
            after,
            property_write(func, args@, ctx.accessors, ctx.self_local, ctx.names, ctx.owner),
        ),
        _ => after,
    };
    if ctx.delegates && b.terminator is Some && self_delegating(b.terminator->0, ctx.self_local) {
        all_true(called.len())
    } else {
        called
    }
}

/// The fields known to be assigned on entry to a block with predecessors `ps`: those assigned
/// at the end of every predecessor (none without predecessors).
pub open spec fn meet(ps: Seq<int>, outs: Seq<Seq<bool>>, f: nat) -> Seq<bool> {
    Seq::new(f, |k: int| ps.len() > 0 && forall|j: int| 0 <= j < ps.len() ==> #[trigger] outs[ps[j]][k])
}

/// Whether `a` is pointwise below `b`.
pub open spec fn le(a: Seq<bool>, b: Seq<bool>) -> bool {
    a.len() == b.len() && forall|k: int| 0 <= k < a.len() && #[trigger] a[k] ==> b[k]
}

/// Whether every set of `a` is below the matching set of `b`.
pub open spec fn le_all(a: Seq<Seq<bool>>, b: Seq<Seq<bool>>) -> bool {
    a.len() == b.len() && forall|i: int| 0 <= i < a.len() ==> le(#[trigger] a[i], b[i])
}

/// Whether `ins` and `outs` solve the flow equations of `blocks` with `f` watched fields.
pub open spec fn is_solution(
    ins: Seq<Seq<bool>>,
    outs: Seq<Seq<bool>>,
    blocks: Seq<BasicBlock>,
    ctx: FlowContext,
    f: nat,
) -> bool {
    &&& ins.len() == blocks.len()
    &&& outs.len() == blocks.len()
    &&& forall|b: int|
        0 <= b < blocks.len() ==> (#[trigger] ins[b]).len() == f && outs[b].len() == f && ins[b] == meet(
            preds_of(blocks, b),
            outs,
            f,
        ) && outs[b] == transfer(ins[b], blocks[b], ctx)
}

/// Whether `ins` and `outs` are the least solution of the flow equations.
pub open spec fn is_least_solution(
    ins: Seq<Seq<bool>>,
    outs: Seq<Seq<bool>>,
    blocks: Seq<BasicBlock>,
    ctx: FlowContext,
    f: nat,
) -> bool {
    &&& is_solution(ins, outs, blocks, ctx, f)
    &&& forall|i2: Seq<Seq<bool>>, o2: Seq<Seq<bool>>|
        #[trigger] is_solution(i2, o2, blocks, ctx, f) ==> le_all(ins, i2) && le_all(outs, o2)
}

/// The name that a diagnostic uses for a field: its display name, or its name.
pub open spec fn display_of(f: FieldLayout) -> Seq<char> {
    match f.display_name {
        Some(d) => d@,
        None => f.name@,
    }
}

/// Whether any of `fields` is required.
pub open spec fn has_required(fields: Seq<FieldLayout>) -> bool {
    exists|i: int| 0 <= i < fields.len() && #[trigger] fields[i].is_required
}

/// The names of the unassigned fields among the first `fields`: of the required ones when
/// `required_only`.
pub open spec fn missing_from(state: Seq<bool>, fields: Seq<FieldLayout>, required_only: bool) -> Seq<Seq<char>>
    decreases fields.len(),
{
    if fields.len() == 0 {
        Seq::empty()
    } else {
        let k = fields.len() - 1;
        let rest = missing_from(state, fields.drop_last(), required_only);
        if (!required_only || fields[k].is_required) && !state[k] {
            rest.push(display_of(fields[k]))
        } else {
            rest
        }
    }
}

/// The unassigned fields: among the required ones when there are any, else among all.
pub open spec fn missing_fields(state: Seq<bool>, fields: Seq<FieldLayout>) -> Seq<Seq<char>> {
    missing_from(state, fields, has_required(fields))
}

/// The diagnostic for fields a constructor leaves unassigned.
pub open spec fn missing_message(missing: Seq<Seq<char>>) -> Seq<char> {
    if missing.len() == 1 {
        "constructor must assign field `"@ + missing[0] + "` before returning"@
    } else {
        "constructor must assign fields "@ + crate::text::join_seq(missing, ", "@) + " before returning"@
    }
}

/// The diagnostics for the returning blocks among the first `blocks` whose out-set misses
/// fields.
pub open spec fn return_diagnostics(
    blocks: Seq<BasicBlock>,
    outs: Seq<Seq<bool>>,
    fields: Seq<FieldLayout>,
    span: Option<Span>,
) -> Seq<(Seq<char>, Option<Span>)>
    decreases blocks.len(),
{
    if blocks.len() == 0 {
        Seq::empty()
    } else {
        let p = blocks.len() - 1;
        let rest = return_diagnostics(blocks.drop_last(), outs, fields, span);
        let m = missing_fields(outs[p], fields);
        if blocks[p].terminator == Some(Terminator::Return) && outs[p] != all_true(fields.len()) && m.len()
            > 0 {
            rest.push((missing_message(m), span))
        } else {
            rest
        }
    }
}

proof fn lemma_set_slot(a: Seq<bool>, b: Seq<bool>, k: Option<int>)
    requires
        le(a, b),
    ensures
        le(set_slot(a, k), set_slot(b, k)),
        le(a, set_slot(a, k)),
        set_slot(a, k).len() == a.len(),
{
}

proof fn lemma_stmts_effect(a: Seq<bool>, b: Seq<bool>, stmts: Seq<MirStatement>, ctx: FlowContext)
    requires
        le(a, b),
    ensures
        le(stmts_effect(a, stmts, ctx), stmts_effect(b, stmts, ctx)),
        le(a, stmts_effect(a, stmts, ctx)),
        stmts_effect(a, stmts, ctx).len() == a.len(),
    decreases stmts.len(),
{
    if stmts.len() > 0 {
        lemma_stmts_effect(a, b, stmts.drop_last(), ctx);
        let x = stmts_effect(a, stmts.drop_last(), ctx);
        let y = stmts_effect(b, stmts.drop_last(), ctx);
        match stmts.last().kind {
            MirStatementKind::Assign { place } => {
                if place.local == ctx.self_local && place.projection@.len() > 0 {
                    lemma_set_slot(x, y, resolve_spec(place.projection@, ctx.names));
                }
            },
            MirStatementKind::Other => {},
        }
    }
}

proof fn lemma_transfer(a: Seq<bool>, b: Seq<bool>, blk: BasicBlock, ctx: FlowContext)
    requires
        le(a, b),
    ensures
        le(transfer(a, blk, ctx), transfer(b, blk, ctx)),
        le(a, transfer(a, blk, ctx)),
        transfer(a, blk, ctx).len() == a.len(),
{
    lemma_stmts_effect(a, b, blk.statements@, ctx);
    let x = stmts_effect(a, blk.statements@, ctx);
    let y = stmts_effect(b, blk.statements@, ctx);
    match blk.terminator {
        Some(Terminator::Call { func, args, .. }) => {
            lemma_set_slot(x, y, property_write(func, args@, ctx.accessors, ctx.self_local, ctx.names, ctx.owner));
        },
        _ => {},
    }
}

proof fn lemma_le_refl(a: Seq<bool>)
    ensures
        le(a, a),
{
}

proof fn lemma_le_trans(a: Seq<bool>, b: Seq<bool>, c: Seq<bool>)
    requires
        le(a, b),
        le(b, c),
    ensures
        le(a, c),
{
}

proof fn lemma_meet_monotone(ps: Seq<int>, o1: Seq<Seq<bool>>, o2: Seq<Seq<bool>>, f: nat)
    requires
        le_all(o1, o2),
        forall|j: int| 0 <= j < ps.len() ==> 0 <= #[trigger] ps[j] < o1.len(),
        forall|i: int| 0 <= i < o1.len() ==> (#[trigger] o1[i]).len() == f,
    ensures
        le(meet(ps, o1, f), meet(ps, o2, f)),
{
    assert forall|k: int| 0 <= k < f && #[trigger] meet(ps, o1, f)[k] implies meet(ps, o2, f)[k] by {
        assert forall|j: int| 0 <= j < ps.len() implies #[trigger] o2[ps[j]][k] by {
            assert(o1[ps[j]][k]);
            assert(le(o1[ps[j]], o2[ps[j]]));
        }
    }
}

/// The number of set slots.
pub open spec fn ones(s: Seq<bool>) -> nat
    decreases s.len(),
{
    if s.len() == 0 {
        0
    } else {
        ones(s.drop_last()) + if s.last() {
            1nat
        } else {
            0nat
        }
    }
}

/// The number of set slots over all sets.
pub open spec fn total(ss: Seq<Seq<bool>>) -> nat
    decreases ss.len(),
{
    if ss.len() == 0 {
        0
    } else {
        total(ss.drop_last()) + ones(ss.last())
    }
}

proof fn lemma_ones_bound(s: Seq<bool>)
    ensures
        ones(s) <= s.len(),
    decreases s.len(),
{
    if s.len() > 0 {
        lemma_ones_bound(s.drop_last());
    }
}

proof fn lemma_ones_le(a: Seq<bool>, b: Seq<bool>)
    requires
        le(a, b),
    ensures
        ones(a) <= ones(b),
        a != b ==> ones(a) < ones(b),
    decreases a.len(),
{
    if a.len() > 0 {
        lemma_ones_le(a.drop_last(), b.drop_last());
        if a != b && a.drop_last() == b.drop_last() {
            assert(a.last() != b.last()) by {
                if a.last() == b.last() {
                    assert(a =~= b.drop_last().push(b.last()));
                    assert(b =~= b.drop_last().push(b.last()));
                }
            }
        }
    } else {
        assert(a =~= b);
    }
}

proof fn lemma_total_bound(ss: Seq<Seq<bool>>, f: nat)
    requires
        forall|i: int| 0 <= i < ss.len() ==> (#[trigger] ss[i]).len() == f,
    ensures
        total(ss) <= ss.len() * f,
    decreases ss.len(),
{
    if ss.len() > 0 {
        lemma_total_bound(ss.drop_last(), f);
        lemma_ones_bound(ss.last());
        assert(ss.len() * f == (ss.len() - 1) * f + f) by (nonlinear_arith);
    }
}

proof fn lemma_total_update(ss: Seq<Seq<bool>>, i: int, x: Seq<bool>)
    requires
        0 <= i < ss.len(),
    ensures
        total(ss.update(i, x)) == total(ss) - ones(ss[i]) + ones(x),
    decreases ss.len(),
{
    let u = ss.update(i, x);
    if i == ss.len() - 1 {
        assert(u.drop_last() =~= ss.drop_last());
    } else {
        lemma_total_update(ss.drop_last(), i, x);
        assert(u.drop_last() =~= ss.drop_last().update(i, x));
    }
}

/// The sets held by a list of vectors.
pub open spec fn bits(v: Seq<Vec<bool>>) -> Seq<Seq<bool>> {
    v.map_values(|x: Vec<bool>| x@)
}

/// The fields known to be assigned on entry to a block (see `meet`).
pub fn intersect_predecessors(predecessors: &Vec<usize>, out_sets: &Vec<Vec<bool>>, field_count: usize) -> (r:
    Vec<bool>)
    requires
        forall|j: int| 0 <= j < predecessors@.len() ==> #[trigger] predecessors@[j] < out_sets@.len(),
        forall|i: int| 0 <= i < out_sets@.len() ==> (#[trigger] out_sets@[i])@.len() == field_count,
    ensures
        r@ == meet(ints(predecessors@), bits(out_sets@), field_count as nat),
{
    let ghost ps = ints(predecessors@);
    proof {
        lemma_ints_len(predecessors@);
        assert forall|j: int| 0 <= j < predecessors@.len() implies ps[j] == predecessors@[j] as int by {
            lemma_ints_index(predecessors@, j);
        }
    }
    let ghost outs = bits(out_sets@);
    if predecessors.len() == 0 {
        let mut r: Vec<bool> = Vec::new();
        let mut k: usize = 0;
        while k < field_count
            invariant
                k <= field_count,
                r@ == Seq::new(k as nat, |i: int| false),
            decreases field_count - k,
        {
            r.push(false);
            k = k + 1;
            assert(r@ =~= Seq::new(k as nat, |i: int| false));
        }
        assert(r@ =~= meet(ps, outs, field_count as nat));
        return r;
    }
    let first = &out_sets[predecessors[0]];
    let mut result: Vec<bool> = Vec::new();
    let mut c: usize = 0;
    while c < field_count
        invariant
            c <= field_count == first@.len(),
            result@ == first@.subrange(0, c as int),
        decreases field_count - c,
    {
        result.push(first[c]);
        c = c + 1;
        assert(result@ =~= first@.subrange(0, c as int));
    }
    assert(result@ =~= first@);
    assert(outs[ps[0]] == first@);
    let mut j: usize = 1;
    while j < predecessors.len()
        invariant
            1 <= j <= predecessors@.len(),
            ps.len() == predecessors@.len(),
            forall|q: int| 0 <= q < predecessors@.len() ==> ps[q] == predecessors@[q] as int,
            forall|q: int| 0 <= q < predecessors@.len() ==> #[trigger] predecessors@[q] < out_sets@.len(),
            forall|i: int| 0 <= i < out_sets@.len() ==> (#[trigger] out_sets@[i])@.len() == field_count,
            outs == bits(out_sets@),
            result@.len() == field_count,
            forall|k: int|
                0 <= k < field_count ==> #[trigger] result@[k] == forall|q: int|
                    0 <= q < j ==> #[trigger] outs[ps[q]][k],
        decreases predecessors.len() - j,
    {
        let set = &out_sets[predecessors[j]];
        let mut k: usize = 0;
        let ghost before = result@;
        while k < field_count
            invariant
                k <= field_count,
                result@.len() == field_count,
                set@.len() == field_count,
                forall|m: int| 0 <= m < k ==> #[trigger] result@[m] == (before[m] && set@[m]),
                forall|m: int| k <= m < field_count ==> #[trigger] result@[m] == before[m],
            decreases field_count - k,
        {
            let v = result[k] && set[k];
            result.set(k, v);
            k = k + 1;
        }
        proof {
            assert(outs[ps[j as int]] == set@);
            assert forall|m: int| 0 <= m < field_count implies #[trigger] result@[m] == forall|q: int|
                0 <= q < j + 1 ==> #[trigger] outs[ps[q]][m] by {
                if result@[m] {
                    assert forall|q: int| 0 <= q < j + 1 implies #[trigger] outs[ps[q]][m] by {
                        if q < j {
                            assert(before[m]);
                        }
                    }
                } else {
                    if !before[m] {
                        let q = choose|q: int| 0 <= q < j && !#[trigger] outs[ps[q]][m];
                        assert(!outs[ps[q]][m]);
                    } else {
                        assert(!outs[ps[j as int]][m]);
                    }
                }
            }
        }
        j = j + 1;
    }
    assert(result@ =~= meet(ps, outs, field_count as nat));
    result
}

/// The fields known to be assigned at the end of a block (see `transfer`).
pub fn block_transfer(
    state: Vec<bool>,
    block: &BasicBlock,
    self_local: usize,
    names: &Vec<String>,
    accessors: &Vec<PropertyAccessor>,
    owner: &str,
    delegates: bool,
) -> (r: Vec<bool>)
    ensures
        r@ == transfer(
            state@,
            *block,
            FlowContext { self_local, names: views(names@), accessors: accessors@, owner: owner@, delegates },
        ),
{
    let ghost ctx = FlowContext { self_local, names: views(names@), accessors: accessors@, owner: owner@, delegates };
    let mut out = state;
    let ghost start = out@;
    let n = out.len();
    let mut i: usize = 0;
    assert(block.statements@.subrange(0, 0) =~= Seq::<MirStatement>::empty());
    while i < block.statements.len()
        invariant
            i <= block.statements@.len(),
            out@.len() == n,
            ctx == (FlowContext { self_local, names: views(names@), accessors: accessors@, owner: owner@, delegates }),
            out@ == stmts_effect(start, block.statements@.subrange(0, i as int), ctx),
        decreases block.statements.len() - i,
    {
        let ghost sub = block.statements@.subrange(0, i + 1);
        assert(sub.drop_last() =~= block.statements@.subrange(0, i as int));
        assert(sub.last() == block.statements@[i as int]);
        let ghost prev_out = out@;
        match &block.statements[i].kind {
            MirStatementKind::Assign { place } => {
                if place.local == self_local {
                    if place.projection.len() == 0 {
                        let mut k: usize = 0;
                        let ghost before = out@;
                        while k < n
                            invariant
                                k <= n == out@.len(),
                                forall|m: int| 0 <= m < k ==> #[trigger] out@[m],
                            decreases n - k,
                        {
                            out.set(k, true);
                            k = k + 1;
                        }
                        assert(out@ =~= all_true(n as nat));
                    } else {
                        proof {
                            lemma_resolve_range(place.projection@, views(names@));
                        }
                        let resolved = resolve_field_index(place, names);
                        let ghost spec_k = resolve_spec(place.projection@, views(names@));
                        assert(spec_k matches Some(x) ==> 0 <= x <= u32::MAX || 0 <= x < views(names@).len());
                        assert(u32::MAX <= usize::MAX);
                        assert(views(names@).len() <= usize::MAX) by {
                            assert(names@.len() == names.len());
                        }
                        match resolved {
                            Some(k) => {
                                assert(spec_k is Some);
                                assert(views(names@).len() == names@.len());
                                assert(0 <= spec_k->0 <= usize::MAX);
                                assert(spec_k == Some(k as int));
                                if k < n {
                                    out.set(k, true);
                                    assert(out@ =~= prev_out.update(k as int, true));
                                }
                            },
                            None => {
                                assert(spec_k is None);
                            },
                        }
                        assert(out@ == set_slot(prev_out, spec_k));
                    }
                }
            },
            MirStatementKind::Other => {},
        }
        assert(out@ == stmt_effect(prev_out, block.statements@[i as int], ctx));
        i = i + 1;
    }
    assert(block.statements@.subrange(0, block.statements@.len() as int) =~= block.statements@);
    let ghost after = out@;
    assert(after == stmts_effect(start, block.statements@, ctx));
    if let Some(Terminator::Call { func, args, .. }) = &block.terminator {
        let ghost pw = property_write(*func, args@, accessors@, self_local, views(names@), owner@);
        proof {
            match accessor_for(accessors@, callee_name(*func)->0) {
                Some(a) => match a.backing_field {
                    Some(bf) => lemma_field_pos_range(views(names@), bf@),
                    None => {},
                },
                None => {},
            }
            assert(names@.len() == names.len());
            assert(pw matches Some(x) ==> 0 <= x < views(names@).len());
        }
        match property_field_write(func, args, accessors, self_local, names, owner) {
            Some(k) => {
                assert(pw == Some(k as int));
                if k < n {
                    out.set(k, true);
                    assert(out@ =~= after.update(k as int, true));
                }
            },
            None => {},
        }
        assert(out@ == set_slot(after, pw));
    }
    let ghost called = out@;
    if delegates {
        if let Some(term) = &block.terminator {
            if is_self_delegating_initializer(term, self_local) {
                let mut k: usize = 0;
                while k < n
                    invariant
                        k <= n == out@.len(),
                        forall|m: int| 0 <= m < k ==> #[trigger] out@[m],
                    decreases n - k,
                {
                    out.set(k, true);
                    k = k + 1;
                }
                assert(out@ =~= all_true(n as nat));
            }
        }
    }
    out
}

/// The fields referred to by a list of references.
pub open spec fn derefs(v: Seq<&FieldLayout>) -> Seq<FieldLayout> {
    v.map_values(|x: &FieldLayout| *x)
}

/// The names of the unassigned fields (see `missing_fields`).
pub fn collect_missing_fields(state: &Vec<bool>, fields: &Vec<&FieldLayout>) -> (r: Vec<String>)
    requires
        state@.len() >= fields@.len(),
    ensures
        views(r@) == missing_fields(state@, derefs(fields@)),
{
    let mut any_required = false;
    let mut i: usize = 0;
    while i < fields.len()
        invariant
            i <= fields@.len(),
            any_required == exists|j: int| 0 <= j < i && #[trigger] fields@[j].is_required,
        decreases fields.len() - i,
    {
        if fields[i].is_required {
            any_required = true;
        }
        i = i + 1;
    }
    assert(any_required == has_required(derefs(fields@))) by {
        if any_required {
            let j = choose|j: int| 0 <= j < fields@.len() && #[trigger] fields@[j].is_required;
            assert(derefs(fields@)[j].is_required);
        }
        if has_required(derefs(fields@)) {
            let j = choose|j: int| 0 <= j < fields@.len() && #[trigger] derefs(fields@)[j].is_required;
            assert(fields@[j].is_required);
        }
    }
    let mut out: Vec<String> = Vec::new();
    let mut k: usize = 0;
    assert(views(out@) =~= missing_from(state@, derefs(fields@).subrange(0, 0), any_required));
    while k < fields.len()
        invariant
            k <= fields@.len() <= state@.len(),
            any_required == has_required(derefs(fields@)),
            views(out@) == missing_from(state@, derefs(fields@).subrange(0, k as int), any_required),
        decreases fields.len() - k,
    {
        let ghost sub = derefs(fields@).subrange(0, k + 1);
        assert(sub.drop_last() =~= derefs(fields@).subrange(0, k as int));
        assert(sub[k as int] == *fields@[k as int]);
        if (!any_required || fields[k].is_required) && !state[k] {
            let name = match &fields[k].display_name {
                Some(d) => d.clone(),
                None => fields[k].name.clone(),
            };
            let ghost before = views(out@);
            let ghost nv = name@;
            out.push(name);
            assert(views(out@) =~= before.push(nv));
        }
        k = k + 1;
    }
    assert(derefs(fields@).subrange(0, fields@.len() as int) =~= derefs(fields@));
    out
}

/// The fields of `layout` that a constructor must assign (see `tracked_fields`), in order.
pub fn tracked_field_list(layout: &StructLayout) -> (r: Vec<&FieldLayout>)
    ensures
        derefs(r@) == tracked_fields(layout.fields@, layout.is_class),
{
    let mut out: Vec<&FieldLayout> = Vec::new();
    let mut i: usize = 0;
    while i < layout.fields.len()
        invariant
            i <= layout.fields@.len(),
            derefs(out@) == tracked_fields(layout.fields@.subrange(0, i as int), layout.is_class),
        decreases layout.fields.len() - i,
    {
        let ghost sub = layout.fields@.subrange(0, i + 1);
        assert(sub.drop_last() =~= layout.fields@.subrange(0, i as int));
        let field = &layout.fields[i];
        let ghost before = derefs(out@);
        if !is_runtime_managed_field(field) && (!layout.is_class || field.is_required) {
            out.push(field);
            assert(derefs(out@) =~= before.push(*field));
        }
        i = i + 1;
    }
    assert(layout.fields@.subrange(0, layout.fields@.len() as int) =~= layout.fields@);
    out
}

/// The names of a list of fields (see `field_names`).
pub fn field_name_list(fields: &Vec<&FieldLayout>) -> (r: Vec<String>)
    ensures
        views(r@) == field_names(derefs(fields@)),
{
    let mut out: Vec<String> = Vec::new();
    let mut i: usize = 0;
    while i < fields.len()
        invariant
            i <= fields@.len(),
            views(out@) == field_names(derefs(fields@).subrange(0, i as int)),
        decreases fields.len() - i,
    {
        let ghost sub = derefs(fields@).subrange(0, i + 1);
        assert(sub.drop_last() =~= derefs(fields@).subrange(0, i as int));
        let ghost before = views(out@);
        let name = fields[i].name.clone();
        out.push(name);
        assert(views(out@) =~= before.push(fields@[i as int].name@));
        i = i + 1;
    }
    assert(derefs(fields@).subrange(0, fields@.len() as int) =~= derefs(fields@));
    out
}

/// The message for the fields a constructor leaves unassigned (see `missing_message`).
pub fn missing_fields_message(missing: &Vec<String>) -> (r: String)
    ensures
        r@ == missing_message(views(missing@)),
{
    if missing.len() == 1 {
        proof {
            reveal_strlit("constructor must assign field `");
            reveal_strlit("` before returning");
        }
        cat3("constructor must assign field `", missing[0].as_str(), "` before returning")
    } else {
        let joined = join(missing, ", ");
        proof {
            reveal_strlit("constructor must assign fields ");
            reveal_strlit(" before returning");
        }
        cat3("constructor must assign fields ", joined.as_str(), " before returning")
    }
}

/// Whether `ss` holds `n` sets of `f` slots each.
pub open spec fn shaped(ss: Seq<Seq<bool>>, n: nat, f: nat) -> bool {
    ss.len() == n && forall|i: int| 0 <= i < n ==> (#[trigger] ss[i]).len() == f
}

/// Whether `ins` and `outs` lie below every solution of the flow equations.
pub open spec fn below_solutions(
    ins: Seq<Seq<bool>>,
    outs: Seq<Seq<bool>>,
    blocks: Seq<BasicBlock>,
    ctx: FlowContext,
    f: nat,
) -> bool {
    forall|i2: Seq<Seq<bool>>, o2: Seq<Seq<bool>>|
        #[trigger] is_solution(i2, o2, blocks, ctx, f) ==> le_all(ins, i2) && le_all(outs, o2)
}

/// Whether each set of `ins` and `outs` lies below what its equation gives it.
pub open spec fn below_step(
    ins: Seq<Seq<bool>>,
    outs: Seq<Seq<bool>>,
    blocks: Seq<BasicBlock>,
    ctx: FlowContext,
    f: nat,
) -> bool {
    forall|c: int|
        0 <= c < blocks.len() ==> le(#[trigger] ins[c], meet(preds_of(blocks, c), outs, f)) && le(
            outs[c],
            transfer(ins[c], blocks[c], ctx),
        )
}

/// Whether every predecessor named in `blocks` is one of its positions.
pub open spec fn preds_in_range(blocks: Seq<BasicBlock>) -> bool {
    forall|t: int, j: int|
        0 <= t < blocks.len() && 0 <= j < preds_of(blocks, t).len() ==> 0 <= #[trigger] preds_of(
            blocks,
            t,
        )[j] < blocks.len()
}

proof fn lemma_edges_to_values(succ: Seq<int>, t: int, id: int)
    ensures
        forall|j: int| 0 <= j < edges_to(succ, t, id).len() ==> #[trigger] edges_to(succ, t, id)[j] == id,
    decreases succ.len(),
{
    if succ.len() > 0 {
        lemma_edges_to_values(succ.drop_last(), t, id);
        let a = edges_to(succ.drop_last(), t, id);
        let e = if succ.last() == t {
            seq![id]
        } else {
            Seq::<int>::empty()
        };
        assert(edges_to(succ, t, id) == a + e);
        assert forall|j: int| 0 <= j < edges_to(succ, t, id).len() implies #[trigger] edges_to(succ, t, id)[j]
            == id by {
            if j < a.len() {
                assert(edges_to(succ, t, id)[j] == a[j]);
            } else {
                assert(edges_to(succ, t, id)[j] == e[j - a.len()]);
            }
        }
    }
}

proof fn lemma_preds_values(blocks: Seq<BasicBlock>, t: int, n: int)
    requires
        forall|p: int| 0 <= p < blocks.len() ==> 0 <= #[trigger] blocks[p].id < n,
    ensures
        forall|j: int| 0 <= j < preds_of(blocks, t).len() ==> 0 <= #[trigger] preds_of(blocks, t)[j] < n,
    decreases blocks.len(),
{
    if blocks.len() > 0 {
        let last = blocks.last();
        assert(0 <= blocks[blocks.len() - 1].id < n);
        lemma_preds_values(blocks.drop_last(), t, n);
        lemma_edges_to_values(block_successors(last), t, last.id as int);
        let a = preds_of(blocks.drop_last(), t);
        let e = edges_to(block_successors(last), t, last.id as int);
        assert forall|j: int| 0 <= j < preds_of(blocks, t).len() implies 0 <= #[trigger] preds_of(blocks, t)[j]
            < n by {
            if j < a.len() {
                assert(preds_of(blocks, t)[j] == a[j]);
            } else {
                assert(preds_of(blocks, t)[j] == e[j - a.len()]);
            }
        }
    }
}

proof fn lemma_preds_in_range(body: MirBody)
    requires
        ids_are_positions(body),
    ensures
        preds_in_range(body.blocks@),
{
    let blocks = body.blocks@;
    assert forall|t: int, j: int| 0 <= t < blocks.len() && 0 <= j < preds_of(blocks, t).len() implies 0
        <= #[trigger] preds_of(blocks, t)[j] < blocks.len() by {
        assert forall|p: int| 0 <= p < blocks.len() implies 0 <= #[trigger] blocks[p].id < blocks.len() by {
            assert(body.blocks@[p].id == p);
        }
        lemma_preds_values(blocks, t, blocks.len() as int);
    }
}

proof fn lemma_in_step(
    ins: Seq<Seq<bool>>,
    outs: Seq<Seq<bool>>,
    blocks: Seq<BasicBlock>,
    ctx: FlowContext,
    f: nat,
    b: int,
)
    requires
        0 <= b < blocks.len(),
        shaped(ins, blocks.len(), f),
        shaped(outs, blocks.len(), f),
        preds_in_range(blocks),
        below_solutions(ins, outs, blocks, ctx, f),
        below_step(ins, outs, blocks, ctx, f),
    ensures
        ({
            let i2 = ins.update(b, meet(preds_of(blocks, b), outs, f));
            &&& shaped(i2, blocks.len(), f)
            &&& below_solutions(i2, outs, blocks, ctx, f)
            &&& below_step(i2, outs, blocks, ctx, f)
            &&& le(ins[b], i2[b])
        }),
{
    let ps = preds_of(blocks, b);
    let m = meet(ps, outs, f);
    let i1 = ins.update(b, m);
    assert(le(ins[b], m));
    assert forall|x: Seq<Seq<bool>>, y: Seq<Seq<bool>>| #[trigger] is_solution(x, y, blocks, ctx, f) implies le_all(
        i1,
        x,
    ) && le_all(outs, y) by {
        assert(le_all(ins, x) && le_all(outs, y));
        assert(x[b] == meet(ps, y, f));
        assert forall|j: int| 0 <= j < ps.len() implies 0 <= #[trigger] ps[j] < outs.len() by {
            assert(0 <= preds_of(blocks, b)[j] < blocks.len());
        }
        lemma_meet_monotone(ps, outs, y, f);
        assert forall|i: int| 0 <= i < i1.len() implies le(#[trigger] i1[i], x[i]) by {
            if i != b {
                assert(le(ins[i], x[i]));
            }
        }
    }
    assert forall|c: int| 0 <= c < blocks.len() implies le(#[trigger] i1[c], meet(preds_of(blocks, c), outs, f))
        && le(outs[c], transfer(i1[c], blocks[c], ctx)) by {
        assert(le(ins[c], meet(preds_of(blocks, c), outs, f)) && le(outs[c], transfer(ins[c], blocks[c], ctx)));
        if c == b {
            lemma_transfer(ins[b], m, blocks[b], ctx);
            lemma_le_trans(outs[b], transfer(ins[b], blocks[b], ctx), transfer(m, blocks[b], ctx));
        }
    }
}

proof fn lemma_out_step(
    ins: Seq<Seq<bool>>,
    outs: Seq<Seq<bool>>,
    blocks: Seq<BasicBlock>,
    ctx: FlowContext,
    f: nat,
    b: int,
)
    requires
        0 <= b < blocks.len(),
        shaped(ins, blocks.len(), f),
        shaped(outs, blocks.len(), f),
        preds_in_range(blocks),
        below_solutions(ins, outs, blocks, ctx, f),
        below_step(ins, outs, blocks, ctx, f),
    ensures
        ({
            let o2 = outs.update(b, transfer(ins[b], blocks[b], ctx));
            &&& shaped(o2, blocks.len(), f)
            &&& below_solutions(ins, o2, blocks, ctx, f)
            &&& below_step(ins, o2, blocks, ctx, f)
            &&& le(outs[b], o2[b])
        }),
{
    let t = transfer(ins[b], blocks[b], ctx);
    let o1 = outs.update(b, t);
    lemma_transfer(ins[b], ins[b], blocks[b], ctx);
    assert(le(outs[b], t));
    assert(shaped(o1, blocks.len(), f));
    assert forall|x: Seq<Seq<bool>>, y: Seq<Seq<bool>>| #[trigger] is_solution(x, y, blocks, ctx, f) implies le_all(
        ins,
        x,
    ) && le_all(o1, y) by {
        assert(le_all(ins, x) && le_all(outs, y));
        assert(y[b] == transfer(x[b], blocks[b], ctx));
        assert(le(ins[b], x[b]));
        lemma_transfer(ins[b], x[b], blocks[b], ctx);
        assert forall|i: int| 0 <= i < o1.len() implies le(#[trigger] o1[i], y[i]) by {
            if i != b {
                assert(le(outs[i], y[i]));
            }
        }
    }
    assert(le_all(outs, o1)) by {
        assert forall|i: int| 0 <= i < outs.len() implies le(#[trigger] outs[i], o1[i]) by {
            if i != b {
                lemma_le_refl(outs[i]);
            }
        }
    }
    assert forall|c: int| 0 <= c < blocks.len() implies le(#[trigger] ins[c], meet(preds_of(blocks, c), o1, f))
        && le(o1[c], transfer(ins[c], blocks[c], ctx)) by {
        assert(le(ins[c], meet(preds_of(blocks, c), outs, f)) && le(outs[c], transfer(ins[c], blocks[c], ctx)));
        let ps = preds_of(blocks, c);
        assert forall|j: int| 0 <= j < ps.len() implies 0 <= #[trigger] ps[j] < outs.len() by {
            assert(0 <= preds_of(blocks, c)[j] < blocks.len());
        }
        lemma_meet_monotone(ps, outs, o1, f);
        lemma_le_trans(ins[c], meet(ps, outs, f), meet(ps, o1, f));
    }
}

/// Whether a constructor's initializer delegates to another initializer of its own type.
pub open spec fn delegates_to_self(initializer: Option<&ConstructorInitializer>) -> bool {
    match initializer {
        Some(i) => i.target == ConstructorInitTarget::SelfType,
        None => false,
    }
}

/// What the dataflow knows of a constructor of `layout` (see `FlowContext`).
pub open spec fn constructor_context(
    self_local: usize,
    layout: StructLayout,
    delegates: bool,
    accessors: Seq<PropertyAccessor>,
) -> FlowContext {
    FlowContext {
        self_local,
        names: field_names(tracked_fields(layout.fields@, layout.is_class)),
        accessors,
        owner: layout.name@,
        delegates,
    }
}

/// `n` sets of `f` unset slots.
pub open spec fn no_sets(n: nat, f: nat) -> Seq<Seq<bool>> {
    Seq::new(n, |i: int| Seq::new(f, |k: int| false))
}

fn same_bits(a: &Vec<bool>, b: &Vec<bool>) -> (r: bool)
    ensures
        r == (a@ == b@),
{
    if a.len() != b.len() {
        return false;
    }
    let mut i: usize = 0;
    while i < a.len()
        invariant
            i <= a@.len() == b@.len(),
            forall|k: int| 0 <= k < i ==> a@[k] == b@[k],
        decreases a.len() - i,
    {
        if a[i] != b[i] {
            return false;
        }
        i = i + 1;
    }
    assert(a@ =~= b@);
    true
}

fn copy_bits(a: &Vec<bool>) -> (r: Vec<bool>)
    ensures
        r@ == a@,
{
    let mut r: Vec<bool> = Vec::new();
    let mut i: usize = 0;
    while i < a.len()
        invariant
            i <= a@.len(),
            r@ == a@.subrange(0, i as int),
        decreases a.len() - i,
    {
        r.push(a[i]);
        i = i + 1;
        assert(r@ =~= a@.subrange(0, i as int));
    }
    assert(a@.subrange(0, a@.len() as int) =~= a@);
    r
}

fn is_all_true(a: &Vec<bool>) -> (r: bool)
    ensures
        r == (a@ == all_true(a@.len())),
{
    let mut i: usize = 0;
    while i < a.len()
        invariant
            i <= a@.len(),
            forall|k: int| 0 <= k < i ==> a@[k],
        decreases a.len() - i,
    {
        if !a[i] {
            assert(a@[i as int] != all_true(a@.len())[i as int]);
            return false;
        }
        i = i + 1;
    }
    assert(a@ =~= all_true(a@.len()));
    true
}

fn false_sets(n: usize, f: usize) -> (r: Vec<Vec<bool>>)
    ensures
        bits(r@) == no_sets(n as nat, f as nat),
        r@.len() == n,
        forall|i: int| 0 <= i < n ==> (#[trigger] r@[i])@.len() == f,
{
    let mut row: Vec<bool> = Vec::new();
    let mut k: usize = 0;
    while k < f
        invariant
            k <= f,
            row@ == Seq::new(k as nat, |j: int| false),
        decreases f - k,
    {
        row.push(false);
        k = k + 1;
        assert(row@ =~= Seq::new(k as nat, |j: int| false));
    }
    let mut r: Vec<Vec<bool>> = Vec::new();
    let mut i: usize = 0;
    while i < n
        invariant
            i <= n,
            row@ == Seq::new(f as nat, |j: int| false),
            r@.len() == i,
            forall|q: int| 0 <= q < i ==> (#[trigger] r@[q])@ == Seq::new(f as nat, |j: int| false),
        decreases n - i,
    {
        r.push(copy_bits(&row));
        i = i + 1;
    }
    assert(bits(r@) =~= no_sets(n as nat, f as nat));
    r
}

proof fn lemma_no_sets_below(blocks: Seq<BasicBlock>, ctx: FlowContext, f: nat)
    ensures
        shaped(no_sets(blocks.len(), f), blocks.len(), f),
        below_solutions(no_sets(blocks.len(), f), no_sets(blocks.len(), f), blocks, ctx, f),
        below_step(no_sets(blocks.len(), f), no_sets(blocks.len(), f), blocks, ctx, f),
{
    let z = no_sets(blocks.len(), f);
    assert forall|x: Seq<Seq<bool>>, y: Seq<Seq<bool>>| #[trigger] is_solution(x, y, blocks, ctx, f) implies le_all(
        z,
        x,
    ) && le_all(z, y) by {
        assert forall|i: int| 0 <= i < z.len() implies le(#[trigger] z[i], x[i]) by {
            assert(x[i].len() == f);
        }
        assert forall|i: int| 0 <= i < z.len() implies le(#[trigger] z[i], y[i]) by {
            assert(x[i].len() == f);
        }
    }
    assert forall|c: int| 0 <= c < blocks.len() implies le(#[trigger] z[c], meet(preds_of(blocks, c), z, f)) && le(
        z[c],
        transfer(z[c], blocks[c], ctx),
    ) by {
        lemma_transfer(z[c], z[c], blocks[c], ctx);
    }
}

/// The diagnostics for the fields that a constructor may leave unassigned when it returns.
///
/// A forward "must" dataflow over the blocks finds, for each block, the watched fields that
/// every path into it has assigned; it is the least solution of the flow equations, reached by
/// iterating from the empty sets. Each returning block whose fields are not all assigned gives
/// one diagnostic naming the missing ones. Convenience constructors, and types with no watched
/// fields, give none.
#[verifier::rlimit(50)]
pub fn check_constructor_field_initialization(
    body: &MirBody,
    self_local: usize,
    layout: &StructLayout,
    kind: ConstructorKind,
    initializer: Option<&ConstructorInitializer>,
    span: Option<Span>,
    accessors: &Vec<PropertyAccessor>,
) -> (r: Vec<LoweringDiagnostic>)
    requires
        ids_are_positions(*body),
    ensures
        kind == ConstructorKind::Convenience ==> r@.len() == 0,
        tracked_fields(layout.fields@, layout.is_class).len() == 0 ==> r@.len() == 0,
        kind != ConstructorKind::Convenience && tracked_fields(layout.fields@, layout.is_class).len() > 0
            ==> exists|ins: Seq<Seq<bool>>, outs: Seq<Seq<bool>>|
            #[trigger] is_least_solution(
                ins,
                outs,
                body.blocks@,
                constructor_context(self_local, *layout, delegates_to_self(initializer), accessors@),
                tracked_fields(layout.fields@, layout.is_class).len(),
            ) && diag_models(r@) == return_diagnostics(
                body.blocks@,
                outs,
                tracked_fields(layout.fields@, layout.is_class),
                span,
            ),
{
    if kind == ConstructorKind::Convenience {
        return Vec::new();
    }
    let delegates = match initializer {
        Some(init) => init.target == ConstructorInitTarget::SelfType,
        None => false,
    };
    let watched = tracked_field_list(layout);
    let field_count = watched.len();
    if field_count == 0 {
        return Vec::new();
    }
    let names = field_name_list(&watched);
    let ghost fields = derefs(watched@);
    let ghost ctx = constructor_context(self_local, *layout, delegates, accessors@);
    let ghost blocks = body.blocks@;
    let ghost f = field_count as nat;
    assert(fields.len() == f);
    let n = body.blocks.len();
    let predecessors = compute_predecessors(body);
    proof {
        lemma_preds_in_range(*body);
        lemma_no_sets_below(blocks, ctx, f);
    }
    let mut in_sets = false_sets(n, field_count);
    let mut out_sets = false_sets(n, field_count);
    let mut changed = true;
    let ghost cap: int = n * f;
    assert(delegates == delegates_to_self(initializer));
    proof {
        lemma_total_bound(bits(in_sets@), f);
        lemma_total_bound(bits(out_sets@), f);
    }
    while changed
        invariant
            n == blocks.len(),
            blocks == body.blocks@,
            ids_are_positions(*body),
            predecessors@.len() == n,
            forall|t: int| 0 <= t < n ==> ints((#[trigger] predecessors@[t])@) == preds_of(blocks, t),
            preds_in_range(blocks),
            ctx == constructor_context(self_local, *layout, delegates, accessors@),
            views(names@) == ctx.names,
            f == field_count,
            in_sets@.len() == n,
            out_sets@.len() == n,
            forall|i: int| 0 <= i < n ==> (#[trigger] out_sets@[i])@.len() == field_count,
            forall|i: int| 0 <= i < n ==> (#[trigger] in_sets@[i])@.len() == field_count,
            shaped(bits(in_sets@), n as nat, f),
            shaped(bits(out_sets@), n as nat, f),
            below_solutions(bits(in_sets@), bits(out_sets@), blocks, ctx, f),
            below_step(bits(in_sets@), bits(out_sets@), blocks, ctx, f),
            cap == n * f,
            total(bits(in_sets@)) <= cap,
            total(bits(out_sets@)) <= cap,
            !changed ==> is_solution(bits(in_sets@), bits(out_sets@), blocks, ctx, f),
        decreases (cap + cap - total(bits(in_sets@)) - total(bits(out_sets@))) * 2 + if changed {
            1int
        } else {
            0int
        },
    {
        let ghost t0 = total(bits(in_sets@)) + total(bits(out_sets@));
        changed = false;
        let mut p: usize = 0;
        while p < n
            invariant
                n == blocks.len(),
                blocks == body.blocks@,
                ids_are_positions(*body),
                predecessors@.len() == n,
                forall|t: int| 0 <= t < n ==> ints((#[trigger] predecessors@[t])@) == preds_of(blocks, t),
                preds_in_range(blocks),
                ctx == constructor_context(self_local, *layout, delegates, accessors@),
                views(names@) == ctx.names,
                f == field_count,
                in_sets@.len() == n,
                out_sets@.len() == n,
                forall|i: int| 0 <= i < n ==> (#[trigger] out_sets@[i])@.len() == field_count,
                forall|i: int| 0 <= i < n ==> (#[trigger] in_sets@[i])@.len() == field_count,
                shaped(bits(in_sets@), n as nat, f),
                shaped(bits(out_sets@), n as nat, f),
                below_solutions(bits(in_sets@), bits(out_sets@), blocks, ctx, f),
                below_step(bits(in_sets@), bits(out_sets@), blocks, ctx, f),
                p <= n,
                total(bits(in_sets@)) + total(bits(out_sets@)) >= t0,
                changed ==> total(bits(in_sets@)) + total(bits(out_sets@)) > t0,
                !changed ==> forall|c: int|
                    0 <= c < p ==> #[trigger] bits(in_sets@)[c] == meet(preds_of(blocks, c), bits(out_sets@), f)
                        && bits(out_sets@)[c] == transfer(bits(in_sets@)[c], blocks[c], ctx),
            decreases n - p,
        {
            let block = &body.blocks[p];
            let idx = block.id;
            assert(idx == p);
            proof {
                let pv = predecessors@[idx as int]@;
                lemma_ints_len(pv);
                assert forall|j: int| 0 <= j < pv.len() implies #[trigger] pv[j] < out_sets@.len() by {
                    lemma_ints_index(pv, j);
                    assert(0 <= preds_of(blocks, idx as int)[j] < blocks.len());
                }
            }
            let new_in = intersect_predecessors(&predecessors[idx], &out_sets, field_count);
            assert(new_in@ == meet(preds_of(blocks, p as int), bits(out_sets@), f));
            if !same_bits(&new_in, &in_sets[idx]) {
                let ghost ib = bits(in_sets@);
                let ghost ob = bits(out_sets@);
                proof {
                    lemma_in_step(ib, ob, blocks, ctx, f, p as int);
                    lemma_total_update(ib, p as int, new_in@);
                    lemma_ones_le(ib[p as int], new_in@);
                    assert(ib[p as int] == in_sets@[p as int]@);
                }
                in_sets.set(idx, new_in);
                assert(bits(in_sets@) =~= ib.update(p as int, meet(preds_of(blocks, p as int), ob, f)));
                changed = true;
            }
            let state = copy_bits(&in_sets[idx]);
            let new_out = block_transfer(
                state,
                block,
                self_local,
                &names,
                accessors,
                layout.name.as_str(),
                delegates,
            );
            assert(new_out@ == transfer(bits(in_sets@)[p as int], blocks[p as int], ctx));
            if !same_bits(&new_out, &out_sets[idx]) {
                let ghost ib = bits(in_sets@);
                let ghost ob = bits(out_sets@);
                proof {
                    lemma_out_step(ib, ob, blocks, ctx, f, p as int);
                    lemma_total_update(ob, p as int, new_out@);
                    lemma_ones_le(ob[p as int], new_out@);
                    assert(ob[p as int] == out_sets@[p as int]@);
                }
                out_sets.set(idx, new_out);
                assert(bits(out_sets@) =~= ob.update(p as int, transfer(ib[p as int], blocks[p as int], ctx)));
                changed = true;
            }
            p = p + 1;
        }
        proof {
            lemma_total_bound(bits(in_sets@), f);
            lemma_total_bound(bits(out_sets@), f);
            if !changed {
                assert forall|b: int| 0 <= b < blocks.len() implies (#[trigger] bits(in_sets@)[b]).len() == f
                    && bits(out_sets@)[b].len() == f && bits(in_sets@)[b] == meet(
                    preds_of(blocks, b),
                    bits(out_sets@),
                    f,
                ) && bits(out_sets@)[b] == transfer(bits(in_sets@)[b], blocks[b], ctx) by {}
            }
        }
    }
    let ghost ins = bits(in_sets@);
    let ghost outs = bits(out_sets@);
    assert(is_least_solution(ins, outs, blocks, ctx, f));
    let mut diagnostics: Vec<LoweringDiagnostic> = Vec::new();
    let mut p: usize = 0;
    assert(blocks.subrange(0, 0) =~= Seq::<BasicBlock>::empty());
    while p < n
        invariant
            n == blocks.len(),
            blocks == body.blocks@,
            ids_are_positions(*body),
            outs == bits(out_sets@),
            out_sets@.len() == n,
            forall|i: int| 0 <= i < n ==> (#[trigger] out_sets@[i])@.len() == field_count,
            fields == derefs(watched@),
            fields.len() == field_count,
            p <= n,
            diag_models(diagnostics@) == return_diagnostics(blocks.subrange(0, p as int), outs, fields, span),
        decreases n - p,
    {
        let block = &body.blocks[p];
        let ghost sub = blocks.subrange(0, p + 1);
        assert(sub.drop_last() =~= blocks.subrange(0, p as int));
        assert(sub.last() == blocks[p as int]);
        let ghost before = diag_models(diagnostics@);
        assert(outs[p as int] == out_sets@[p as int]@);
        if matches!(block.terminator, Some(Terminator::Return)) {
            let idx = block.id;
            assert(idx == p);
            assert(block.terminator == Some(Terminator::Return));
            if !is_all_true(&out_sets[idx]) {
                let missing = collect_missing_fields(&out_sets[idx], &watched);
                if missing.len() > 0 {
                    let message = missing_fields_message(&missing);
                    diagnostics.push(LoweringDiagnostic { message, span });
                    assert(diag_models(diagnostics@) =~= before.push((missing_message(views(missing@)), span)));
                }
            }
        }
        p = p + 1;
    }
    assert(blocks.subrange(0, n as int) =~= blocks);
    diagnostics
}

} // verus!
