use vstd::prelude::*;

use crate::initializer::{trim_ws, unicode_ws};
use crate::lookup::{colons_to_dots, replace_colons};
use crate::text::{chars_of, join, join_seq, lower_seq, owned, str_eq, string_of, to_ascii_lower, views};
use crate::types::Ty;
use crate::values::{ConstValue, Span};

verus! {

/// An argument of an attribute: `name = value` or a bare value.
#[derive(Debug)]
pub struct AttributeArgument {
    pub name: Option<String>,
    pub value: String,
    pub span: Option<Span>,
}

/// An attribute written on a declaration (`@name(arguments)`).
#[derive(Debug)]
pub struct Attribute {
    pub name: String,
    pub arguments: Vec<AttributeArgument>,
    pub span: Option<Span>,
}

/// A diagnostic reported while lowering a declaration.
#[derive(Debug)]
pub struct LoweringDiagnostic {
    pub message: String,
    pub span: Option<Span>,
}

/// The model of a diagnostic: its message and span.
pub open spec fn diag_model(d: LoweringDiagnostic) -> (Seq<char>, Option<Span>) {
    (d.message@, d.span)
}

/// The models of a list of diagnostics.
pub open spec fn diag_models(v: Seq<LoweringDiagnostic>) -> Seq<(Seq<char>, Option<Span>)> {
    v.map_values(|d: LoweringDiagnostic| diag_model(d))
}

/// `s` without `_` and `-`.
pub open spec fn without_marks(s: Seq<char>) -> Seq<char>
    decreases s.len(),
{
    if s.len() == 0 {
        s
    } else if s.last() == '_' || s.last() == '-' {
        without_marks(s.drop_last())
    } else {
        without_marks(s.drop_last()).push(s.last())
    }
}

/// The name of an attribute in ASCII lower case, without `_` and `-`.
pub fn normalized_attr_name(name: &str) -> (r: String)
    ensures
        r@ == without_marks(lower_seq(name@)),
{
    let lowered = chars_of(to_ascii_lower(name).as_str());
    let mut out: Vec<char> = Vec::new();
    let mut i: usize = 0;
    while i < lowered.len()
        invariant
            i <= lowered.len(),
            out@ == without_marks(lowered@.subrange(0, i as int)),
        decreases lowered.len() - i,
    {
        let c = lowered[i];
        if c != '_' && c != '-' {
            out.push(c);
        }
        i = i + 1;
        assert(lowered@.subrange(0, i as int).drop_last() =~= lowered@.subrange(0, i - 1));
    }
    assert(lowered@.subrange(0, lowered.len() as int) =~= lowered@);
    string_of(&out)
}

/// The first attribute whose normalized name is `target`.
pub fn find_attr<'a>(attrs: &'a [Attribute], target: &str) -> (r: Option<&'a Attribute>)
    ensures
        match r {
            Some(a) => exists|i: int|
                0 <= i < attrs@.len() && attrs@[i] == *a && without_marks(lower_seq(a.name@))
                    == target@ && forall|j: int|
                    0 <= j < i ==> without_marks(lower_seq(#[trigger] attrs@[j].name@)) != target@,
            None => forall|j: int|
                0 <= j < attrs@.len() ==> without_marks(lower_seq(#[trigger] attrs@[j].name@))
                    != target@,
        },
{
    let mut i: usize = 0;
    while i < attrs.len()
        invariant
            i <= attrs@.len(),
            forall|j: int| 0 <= j < i ==> without_marks(lower_seq(#[trigger] attrs@[j].name@)) != target@,
        decreases attrs.len() - i,
    {
        let n = normalized_attr_name(attrs[i].name.as_str());
        if str_eq(n.as_str(), target) {
            return Some(&attrs[i]);
        }
        i = i + 1;
    }
    None
}

/// `value` rounded up to a multiple of `align` (unchanged for an alignment of at most one).
pub open spec fn aligned(value: nat, align: nat) -> nat {
    if align <= 1 {
        value
    } else {
        ((value + align - 1) / align as int) as nat * align
    }
}

/// Rounds `value` up to a multiple of `align`.
pub fn align_to(value: usize, align: usize) -> (r: usize)
    requires
        aligned(value as nat, align as nat) <= usize::MAX,
    ensures
        r == aligned(value as nat, align as nat),
{
    if align <= 1 {
        value
    } else {
        let d = value / align;
        assert(d < value || value == 0) by (nonlinear_arith)
            requires
                align > 1,
                d == value / align,
        ;
        let q = d + if value % align == 0 {
            0
        } else {
            1
        };
        proof {
            assert((value + align - 1) / align as int == q) by (nonlinear_arith)
                requires
                    align > 1,
                    d == value / align,
                    q == d + if value % align == 0 {
                        0int
                    } else {
                        1int
                    },
            ;
        }
        assert(q * align == aligned(value as nat, align as nat));
        q * align
    }
}

/// The non-empty `.`-separated parts of `s`, collected after `acc` with `cur` as the part
/// being read.
pub open spec fn split_parts(s: Seq<char>, cur: Seq<char>, acc: Seq<Seq<char>>) -> Seq<Seq<char>>
    decreases s.len(),
{
    if s.len() == 0 {
        if cur.len() > 0 {
            acc.push(cur)
        } else {
            acc
        }
    } else if s[0] == '.' {
        split_parts(
            s.drop_first(),
            Seq::empty(),
            if cur.len() > 0 {
                acc.push(cur)
            } else {
                acc
            },
        )
    } else {
        split_parts(s.drop_first(), cur.push(s[0]), acc)
    }
}

/// The non-empty segments of a path written with `.` or `::`.
pub open spec fn path_parts(s: Seq<char>) -> Seq<Seq<char>> {
    split_parts(colons_to_dots(s), Seq::empty(), Seq::empty())
}

fn parts_of(s: &str) -> (r: Vec<String>)
    ensures
        views(r@) == path_parts(s@),
{
    let v = chars_of(replace_colons(s).as_str());
    let mut acc: Vec<String> = Vec::new();
    let mut cur: Vec<char> = Vec::new();
    let mut i: usize = 0;
    assert(v@.subrange(0, v.len() as int) =~= v@);
    assert(views(acc@) =~= Seq::<Seq<char>>::empty());
    assert(cur@ =~= Seq::<char>::empty());
    while i < v.len()
        invariant
            i <= v.len(),
            v@ == colons_to_dots(s@),
            split_parts(v@.subrange(i as int, v.len() as int), cur@, views(acc@)) == path_parts(s@),
        decreases v.len() - i,
    {
        let ghost rest = v@.subrange(i as int, v.len() as int);
        assert(rest.drop_first() =~= v@.subrange(i + 1, v.len() as int));
        if v[i] == '.' {
            if cur.len() > 0 {
                let ghost before = views(acc@);
                acc.push(string_of(&cur));
                assert(views(acc@) =~= before.push(cur@));
            }
            cur = Vec::new();
        } else {
            cur.push(v[i]);
        }
        i = i + 1;
    }
    if cur.len() > 0 {
        let ghost before = views(acc@);
        acc.push(string_of(&cur));
        assert(views(acc@) =~= before.push(cur@));
    }
    acc
}

/// `name` qualified by a namespace: joined with `::` from their non-empty segments; a name
/// that already starts with the namespace's segments is not qualified again.
pub open spec fn qualify_spec(namespace: Option<Seq<char>>, name: Seq<char>) -> Seq<char> {
    match namespace {
        Some(prefix) if prefix.len() > 0 => {
            let p = path_parts(prefix);
            let n = path_parts(name);
            if p.len() > 0 && n.len() >= p.len() && n.subrange(0, p.len() as int) == p {
                join_seq(n, "::"@)
            } else if n.len() == 0 {
                join_seq(p, "::"@)
            } else {
                join_seq(p + n, "::"@)
            }
        },
        _ => name,
    }
}

fn same_prefix(n: &Vec<String>, p: &Vec<String>) -> (r: bool)
    requires
        p.len() <= n.len(),
    ensures
        r == (views(n@).subrange(0, p@.len() as int) == views(p@)),
{
    let mut i: usize = 0;
    while i < p.len()
        invariant
            i <= p.len() <= n.len(),
            forall|j: int| 0 <= j < i ==> views(n@)[j] == views(p@)[j],
        decreases p.len() - i,
    {
        if !str_eq(n[i].as_str(), p[i].as_str()) {
            assert(views(n@)[i as int] == n@[i as int]@ && views(p@)[i as int] == p@[i as int]@);
            assert(views(n@).subrange(0, p@.len() as int)[i as int] != views(p@)[i as int]);
            return false;
        }
        i = i + 1;
    }
    assert(views(n@).subrange(0, p@.len() as int) =~= views(p@));
    true
}

/// Qualifies `name` by `namespace` (see `qualify_spec`).
pub fn qualify(namespace: Option<&str>, name: &str) -> (r: String)
    ensures
        r@ == qualify_spec(crate::cache::opt_slice(namespace), name@),
{
    match namespace {
        Some(prefix) => {
            if prefix.unicode_len() == 0 {
                return owned(name);
            }
            let mut p = parts_of(prefix);
            let n = parts_of(name);
            if p.len() > 0 && n.len() >= p.len() && same_prefix(&n, &p) {
                join(&n, "::")
            } else if n.len() == 0 {
                join(&p, "::")
            } else {
                let ghost pv = views(p@);
                let mut k: usize = 0;
                while k < n.len()
                    invariant
                        k <= n.len(),
                        views(p@) == pv + views(n@).subrange(0, k as int),
                    decreases n.len() - k,
                {
                    let ghost prev = views(p@);
                    let item = n[k].clone();
                    assert(item@ == views(n@)[k as int]);
                    p.push(item);
                    assert(views(p@) =~= prev.push(views(n@)[k as int]));
                    k = k + 1;
                    assert(views(p@) =~= pv + views(n@).subrange(0, k as int));
                }
                assert(views(n@).subrange(0, n.len() as int) =~= views(n@));
                join(&p, "::")
            }
        },
        None => owned(name),
    }
}

/// A type written as a class name: the name and its `::`-separated segments.
#[derive(Debug)]
pub struct TypeExpr {
    pub name: String,
    pub base: Vec<String>,
}

/// The `::`-separated segments of `s`, empty ones included, collected after `acc` with `cur`
/// as the segment being read.
pub open spec fn colon_segments(s: Seq<char>, cur: Seq<char>, acc: Seq<Seq<char>>) -> Seq<Seq<char>>
    decreases s.len(),
{
    if s.len() == 0 {
        acc.push(cur)
    } else if s.len() >= 2 && s[0] == ':' && s[1] == ':' {
        colon_segments(s.subrange(2, s.len() as int), Seq::empty(), acc.push(cur))
    } else {
        colon_segments(s.drop_first(), cur.push(s[0]), acc)
    }
}

/// The type expression for a class name (see `colon_segments`).
pub fn type_expr_from_class(name: &str) -> (r: TypeExpr)
    ensures
        r.name@ == name@,
        views(r.base@) == colon_segments(name@, Seq::empty(), Seq::empty()),
{
    let v = chars_of(name);
    let mut base: Vec<String> = Vec::new();
    let mut cur: Vec<char> = Vec::new();
    let mut i: usize = 0;
    assert(v@.subrange(0, v.len() as int) =~= v@);
    assert(views(base@) =~= Seq::<Seq<char>>::empty());
    assert(cur@ =~= Seq::<char>::empty());
    while i < v.len()
        invariant
            i <= v.len(),
            v@ == name@,
            colon_segments(v@.subrange(i as int, v.len() as int), cur@, views(base@))
                == colon_segments(name@, Seq::empty(), Seq::empty()),
        decreases v.len() - i,
    {
        let ghost rest = v@.subrange(i as int, v.len() as int);
        if i + 1 < v.len() && v[i] == ':' && v[i + 1] == ':' {
            let ghost before = views(base@);
            base.push(string_of(&cur));
            assert(views(base@) =~= before.push(cur@));
            assert(rest.subrange(2, rest.len() as int) =~= v@.subrange(i + 2, v.len() as int));
            cur = Vec::new();
            i = i + 2;
        } else {
            assert(rest.drop_first() =~= v@.subrange(i + 1, v.len() as int));
            cur.push(v[i]);
            i = i + 1;
        }
    }
    let ghost before = views(base@);
    base.push(string_of(&cur));
    assert(views(base@) =~= before.push(cur@));
    TypeExpr { name: owned(name), base }
}

/// The kind of a generic parameter.
#[derive(Clone, Copy, Debug, PartialEq, Eq, Structural)]
pub enum GenericParamKind {
    Type,
    Const,
}

/// A generic parameter of a declaration.
#[derive(Debug)]
pub struct GenericParam {
    pub name: String,
    pub kind: GenericParamKind,
}

/// The generic parameters of a declaration.
#[derive(Debug)]
pub struct GenericParams {
    pub params: Vec<GenericParam>,
}

/// The names of the type parameters among `params`, in order.
pub open spec fn type_param_names(params: Seq<GenericParam>) -> Seq<Seq<char>>
    decreases params.len(),
{
    if params.len() == 0 {
        Seq::empty()
    } else if params.last().kind == GenericParamKind::Type {
        type_param_names(params.drop_last()).push(params.last().name@)
    } else {
        type_param_names(params.drop_last())
    }
}

/// The names of a declaration's type parameters (none without generic parameters).
pub fn collect_type_param_names(params: Option<&GenericParams>) -> (r: Vec<String>)
    ensures
        views(r@) == match params {
            Some(p) => type_param_names(p.params@),
            None => Seq::empty(),
        },
{
    let mut names: Vec<String> = Vec::new();
    if let Some(p) = params {
        let mut i: usize = 0;
        while i < p.params.len()
            invariant
                i <= p.params.len(),
                views(names@) == type_param_names(p.params@.subrange(0, i as int)),
            decreases p.params.len() - i,
        {
            let ghost before = views(names@);
            if p.params[i].kind == GenericParamKind::Type {
                names.push(p.params[i].name.clone());
                assert(views(names@) =~= before.push(p.params@[i as int].name@));
            }
            i = i + 1;
            assert(p.params@.subrange(0, i as int).drop_last() =~= p.params@.subrange(0, i - 1));
        }
        assert(p.params@.subrange(0, p.params.len() as int) =~= p.params@);
    }
    names
}

/// A default argument: a constant, or a thunk function that computes it.
#[derive(Debug)]
pub enum DefaultArgumentValue {
    Const(ConstValue),
    Thunk { symbol: String, metadata_count: usize, span: Option<Span> },
}

/// The default arguments recorded for each function, by internal name.
#[derive(Debug)]
pub struct DefaultArgumentMap {
    entries: Vec<(String, Vec<Option<DefaultArgumentValue>>)>,
}

/// The model of the default-argument map: each name with its slots, names unique.
pub type DefaultsModel = Map<Seq<char>, Seq<Option<DefaultArgumentValue>>>;

impl DefaultArgumentMap {
    /// The recorded slots of each function.
    pub closed spec fn view(&self) -> DefaultsModel {
        Map::new(
            |k: Seq<char>| exists|i: int| 0 <= i < self.entries@.len() && self.entries@[i].0@ == k,
            |k: Seq<char>|
                self.entries@[choose|i: int| 0 <= i < self.entries@.len() && self.entries@[i].0@ == k].1@,
        )
    }

    /// No function is recorded twice.
    #[verifier::type_invariant]
    closed spec fn unique(&self) -> bool {
        forall|i: int, j: int|
            0 <= i < j < self.entries@.len() ==> self.entries@[i].0@ != self.entries@[j].0@
    }

    /// An empty map.
    pub fn new() -> (r: DefaultArgumentMap)
        ensures
            r@ == Map::<Seq<char>, Seq<Option<DefaultArgumentValue>>>::empty(),
    {
        let r = DefaultArgumentMap { entries: Vec::new() };
        assert(r@ =~= Map::<Seq<char>, Seq<Option<DefaultArgumentValue>>>::empty());
        r
    }

    fn position(&self, internal: &str) -> (r: Option<usize>)
        ensures
            match r {
                Some(i) => i < self.entries@.len() && self.entries@[i as int].0@ == internal@,
                None => !self@.dom().contains(internal@),
            },
    {
        let mut i: usize = 0;
        while i < self.entries.len()
            invariant
                i <= self.entries@.len(),
                forall|j: int| 0 <= j < i ==> self.entries@[j].0@ != internal@,
            decreases self.entries.len() - i,
        {
            if str_eq(self.entries[i].0.as_str(), internal) {
                return Some(i);
            }
            i = i + 1;
        }
        None
    }

    /// Records the default argument slots of a function, replacing earlier ones.
    pub fn record(&mut self, internal: String, values: Vec<Option<DefaultArgumentValue>>)
        ensures
            final(self)@ == old(self)@.insert(internal@, values@),
    {
        proof {
            use_type_invariant(&*self);
        }
        let ghost key = internal@;
        let ghost vals = values@;
        let ghost before = self.entries@;
        match self.position(internal.as_str()) {
            Some(i) => {
                let mut entries: Vec<(String, Vec<Option<DefaultArgumentValue>>)> = Vec::new();
                std::mem::swap(&mut entries, &mut self.entries);
                entries.set(i, (internal, values));
                proof {
                    assert forall|a: int, b: int|
                        0 <= a < b < entries@.len() implies entries@[a].0@ != entries@[b].0@ by {
                        if a != i && b != i {
                            assert(entries@[a] == before[a] && entries@[b] == before[b]);
                        } else if a == i {
                            assert(entries@[b] == before[b]);
                            assert(before[i as int].0@ == key);
                        } else {
                            assert(entries@[a] == before[a]);
                            assert(before[i as int].0@ == key);
                        }
                    }
                }
                self.entries = entries;
                proof {
                    let old_map = Map::new(
                        |k: Seq<char>| exists|j: int| 0 <= j < before.len() && before[j].0@ == k,
                        |k: Seq<char>| before[choose|j: int| 0 <= j < before.len() && before[j].0@ == k].1@,
                    );
                    assert forall|k: Seq<char>| #[trigger] self@.dom().contains(k) == old_map.insert(key, vals).dom().contains(k) by {
                        if exists|j: int| 0 <= j < before.len() && before[j].0@ == k {
                            let j = choose|j: int| 0 <= j < before.len() && before[j].0@ == k;
                            assert(self.entries@[j].0@ == k);
                        }
                        if exists|j: int| 0 <= j < self.entries@.len() && self.entries@[j].0@ == k {
                            let j = choose|j: int| 0 <= j < self.entries@.len() && self.entries@[j].0@ == k;
                            if j != i {
                                assert(before[j].0@ == k);
                            }
                        }
                    }
                    assert forall|k: Seq<char>| #[trigger] self@.dom().contains(k) implies self@[k] == old_map.insert(key, vals)[k] by {
                        let j = choose|j: int| 0 <= j < self.entries@.len() && self.entries@[j].0@ == k;
                        if k == key {
                            assert(j == i);
                        } else {
                            assert(j != i);
                            assert(before[j].0@ == k);
                            let jb = choose|jb: int| 0 <= jb < before.len() && before[jb].0@ == k;
                            if jb != j {
                                assert(before[jb].0@ != before[j].0@);
                            }
                        }
                    }
                    assert(self@ =~= old_map.insert(key, vals));
                }
            },
            None => {
                let mut entries: Vec<(String, Vec<Option<DefaultArgumentValue>>)> = Vec::new();
                std::mem::swap(&mut entries, &mut self.entries);
                entries.push((internal, values));
                proof {
                    assert forall|a: int, b: int|
                        0 <= a < b < entries@.len() implies entries@[a].0@ != entries@[b].0@ by {
                        assert(entries@[a] == before[a]);
                        if b < before.len() {
                            assert(entries@[b] == before[b]);
                        } else {
                            assert(before[a].0@ != key);
                        }
                    }
                }
                self.entries = entries;
                proof {
                    let now = self.entries@;
                    let old_map = Map::new(
                        |k: Seq<char>| exists|j: int| 0 <= j < before.len() && before[j].0@ == k,
                        |k: Seq<char>| before[choose|j: int| 0 <= j < before.len() && before[j].0@ == k].1@,
                    );
                    assert(forall|j: int| 0 <= j < before.len() ==> now[j] == before[j]);
                    assert forall|k: Seq<char>| #[trigger] self@.dom().contains(k) == old_map.insert(key, vals).dom().contains(k) by {
                        if exists|j: int| 0 <= j < before.len() && before[j].0@ == k {
                            let j = choose|j: int| 0 <= j < before.len() && before[j].0@ == k;
                            assert(now[j].0@ == k);
                        }
                        if k == key {
                            assert(now[before.len() as int].0@ == k);
                        }
                    }
                    assert forall|k: Seq<char>| #[trigger] self@.dom().contains(k) implies self@[k] == old_map.insert(key, vals)[k] by {
                        let j = choose|j: int| 0 <= j < now.len() && now[j].0@ == k;
                        if k == key {
                            assert(j == before.len());
                        } else {
                            assert(j < before.len());
                            let jb = choose|jb: int| 0 <= jb < before.len() && before[jb].0@ == k;
                            if jb != j {
                                assert(before[jb].0@ != before[j].0@);
                            }
                        }
                    }
                    assert(self@ =~= old_map.insert(key, vals));
                }
            },
        }
    }

    /// The default argument in slot `index` of a function, if one was recorded there.
    pub fn value(&self, internal: &str, index: usize) -> (r: Option<&DefaultArgumentValue>)
        ensures
            match r {
                Some(v) => self@.dom().contains(internal@) && index < self@[internal@].len()
                    && self@[internal@][index as int] == Some(*v),
                None => !self@.dom().contains(internal@) || index >= self@[internal@].len()
                    || self@[internal@][index as int] is None,
            },
    {
        proof {
            use_type_invariant(self);
        }
        match self.position(internal) {
            Some(i) => {
                proof {
                    let j = choose|j: int| 0 <= j < self.entries@.len() && self.entries@[j].0@ == internal@;
                    if j != i {
                        assert(self.entries@[j].0@ != self.entries@[i as int].0@);
                    }
                }
                let slots = &self.entries[i].1;
                if index < slots.len() {
                    match &slots[index] {
                        Some(v) => Some(v),
                        None => None,
                    }
                } else {
                    None
                }
            },
            None => None,
        }
    }
}

/// `t` without one pair of matching surrounding quotes (`"` or `'`).
pub open spec fn unquote(t: Seq<char>) -> Seq<char> {
    if t.len() >= 2 && ((t[0] == '"' && t.last() == '"') || (t[0] == '\'' && t.last() == '\'')) {
        t.subrange(1, t.len() - 1)
    } else {
        t
    }
}

/// `s` without `_`.
pub open spec fn without_underscores(s: Seq<char>) -> Seq<char>
    decreases s.len(),
{
    if s.len() == 0 {
        s
    } else if s.last() == '_' {
        without_underscores(s.drop_last())
    } else {
        without_underscores(s.drop_last()).push(s.last())
    }
}

/// The radix that a `0x`, `0b` or `0o` prefix (either case) selects, and the digits after it.
pub open spec fn radix_and_digits(c: Seq<char>) -> (nat, Seq<char>) {
    if c.len() >= 2 && c[0] == '0' && (c[1] == 'x' || c[1] == 'X') {
        (16, c.subrange(2, c.len() as int))
    } else if c.len() >= 2 && c[0] == '0' && (c[1] == 'b' || c[1] == 'B') {
        (2, c.subrange(2, c.len() as int))
    } else if c.len() >= 2 && c[0] == '0' && (c[1] == 'o' || c[1] == 'O') {
        (8, c.subrange(2, c.len() as int))
    } else {
        (10, c)
    }
}

/// The value of a digit in a radix, if it is one.
pub open spec fn digit_value(ch: char, radix: nat) -> Option<nat> {
    let d: int = if '0' <= ch && ch <= '9' {
        ch as int - '0' as int
    } else if 'a' <= ch && ch <= 'z' {
        ch as int - 'a' as int + 10
    } else if 'A' <= ch && ch <= 'Z' {
        ch as int - 'A' as int + 10
    } else {
        radix as int
    };
    if 0 <= d < radix {
        Some(d as nat)
    } else {
        None
    }
}

/// The value of a string of digits in a radix; `None` where a character is not a digit.
pub open spec fn radix_value(ds: Seq<char>, radix: nat) -> Option<nat>
    decreases ds.len(),
{
    if ds.len() == 0 {
        Some(0)
    } else {
        match (radix_value(ds.drop_last(), radix), digit_value(ds.last(), radix)) {
            (Some(v), Some(d)) => Some(v * radix + d),
            _ => None,
        }
    }
}

/// `u64::from_str_radix`: an optional `+`, then at least one digit, the value within `u64`.
pub open spec fn parse_radix(ds: Seq<char>, radix: nat) -> Option<u64> {
    let body = if ds.len() > 0 && ds[0] == '+' {
        ds.drop_first()
    } else {
        ds
    };
    if body.len() == 0 {
        None
    } else {
        match radix_value(body, radix) {
            Some(v) => if v <= u64::MAX {
                Some(v as u64)
            } else {
                None
            },
            None => None,
        }
    }
}

/// The value of a numeric attribute argument: trimmed, unquoted, without `_`, with an
/// optional radix prefix.
pub open spec fn numeric_literal(value: Seq<char>) -> Option<u64> {
    let c = without_underscores(unquote(trim_ws(value)));
    if c.len() == 0 {
        None
    } else {
        let (radix, ds) = radix_and_digits(c);
        if ds.len() == 0 {
            None
        } else {
            parse_radix(ds, radix)
        }
    }
}

fn digit_of(ch: char, radix: u64) -> (r: Option<u64>)
    requires
        2 <= radix <= 16,
    ensures
        match digit_value(ch, radix as nat) {
            Some(d) => r == Some(d as u64),
            None => r is None,
        },
{
    let d: u64 = if '0' <= ch && ch <= '9' {
        (ch as u32 - '0' as u32) as u64
    } else if 'a' <= ch && ch <= 'z' {
        (ch as u32 - 'a' as u32 + 10) as u64
    } else if 'A' <= ch && ch <= 'Z' {
        (ch as u32 - 'A' as u32 + 10) as u64
    } else {
        radix
    };
    if d < radix {
        Some(d)
    } else {
        None
    }
}

proof fn lemma_radix_value_grows(ds: Seq<char>, radix: nat, k: int)
    requires
        radix >= 2,
        0 <= k <= ds.len(),
        radix_value(ds.subrange(0, k), radix) matches Some(p) && p > u64::MAX,
    ensures
        radix_value(ds, radix) matches Some(v) ==> v > u64::MAX,
    decreases ds.len() - k,
{
    if k < ds.len() {
        let next = ds.subrange(0, k + 1);
        assert(next.drop_last() =~= ds.subrange(0, k));
        if let Some(v) = radix_value(next, radix) {
            let p = radix_value(ds.subrange(0, k), radix)->0;
            assert(v >= p * radix) by (nonlinear_arith)
                requires
                    v >= p * radix,
            {
            }
            assert(p * radix >= p) by (nonlinear_arith)
                requires
                    radix >= 2,
            ;
            lemma_radix_value_grows(ds, radix, k + 1);
        } else {
            lemma_radix_value_none(ds, radix, k + 1);
        }
    } else {
        assert(ds.subrange(0, k) =~= ds);
    }
}

proof fn lemma_radix_value_none(ds: Seq<char>, radix: nat, k: int)
    requires
        0 <= k <= ds.len(),
        radix_value(ds.subrange(0, k), radix) is None,
    ensures
        radix_value(ds, radix) is None,
    decreases ds.len() - k,
{
    if k < ds.len() {
        let next = ds.subrange(0, k + 1);
        assert(next.drop_last() =~= ds.subrange(0, k));
        lemma_radix_value_none(ds, radix, k + 1);
    } else {
        assert(ds.subrange(0, k) =~= ds);
    }
}

fn from_str_radix(ds: &Vec<char>, radix: u64) -> (r: Option<u64>)
    requires
        2 <= radix <= 16,
    ensures
        r == parse_radix(ds@, radix as nat),
{
    let mut start: usize = 0;
    if ds.len() > 0 && ds[0] == '+' {
        start = 1;
    }
    let ghost body = if ds@.len() > 0 && ds@[0] == '+' {
        ds@.drop_first()
    } else {
        ds@
    };
    assert(body =~= ds@.subrange(start as int, ds@.len() as int));
    if start == ds.len() {
        return None;
    }
    let mut acc: u64 = 0;
    let mut i: usize = start;
    assert(body.subrange(0, 0) =~= Seq::<char>::empty());
    while i < ds.len()
        invariant
            start <= i <= ds.len(),
            body == ds@.subrange(start as int, ds@.len() as int),
            body == (if ds@.len() > 0 && ds@[0] == '+' {
                ds@.drop_first()
            } else {
                ds@
            }),
            body.len() > 0,
            2 <= radix <= 16,
            radix_value(body.subrange(0, i - start), radix as nat) == Some(acc as nat),
        decreases ds.len() - i,
    {
        let ghost prefix = body.subrange(0, i - start + 1);
        assert(prefix.drop_last() =~= body.subrange(0, i - start));
        assert(prefix.last() == ds@[i as int]);
        match digit_of(ds[i], radix) {
            None => {
                proof {
                    lemma_radix_value_none(body, radix as nat, i - start + 1);
                }
                return None;
            },
            Some(d) => {
                let ghost next: int = acc as int * radix as int + d as int;
                match acc.checked_mul(radix) {
                    None => {
                        proof {
                            assert(next > u64::MAX) by (nonlinear_arith)
                                requires
                                    acc as int * radix as int > u64::MAX,
                                    next == acc as int * radix as int + d as int,
                                    d >= 0,
                            ;
                            lemma_radix_value_grows(body, radix as nat, i - start + 1);
                        }
                        return None;
                    },
                    Some(m) => match m.checked_add(d) {
                        None => {
                            proof {
                                lemma_radix_value_grows(body, radix as nat, i - start + 1);
                            }
                            return None;
                        },
                        Some(v) => {
                            acc = v;
                        },
                    },
                }
            },
        }
        i = i + 1;
    }
    assert(body.subrange(0, ds.len() - start) =~= body);
    Some(acc)
}

/// Parses a numeric attribute argument (see `numeric_literal`).
pub fn parse_numeric_literal(value: &str) -> (r: Option<u64>)
    ensures
        r == numeric_literal(value@),
{
    let t = chars_of(crate::initializer::trim_text_ws(value).as_str());
    let n = t.len();
    let mut lo: usize = 0;
    let mut hi: usize = n;
    if n >= 2 && ((t[0] == '"' && t[n - 1] == '"') || (t[0] == '\'' && t[n - 1] == '\'')) {
        lo = 1;
        hi = n - 1;
    }
    let mut c: Vec<char> = Vec::new();
    let mut i = lo;
    let ghost u = t@.subrange(lo as int, hi as int);
    assert(u =~= unquote(t@)) by {
        if !(n >= 2 && ((t@[0] == '"' && t@.last() == '"') || (t@[0] == '\'' && t@.last() == '\''))) {
            assert(t@.subrange(0, n as int) =~= t@);
        }
    }
    while i < hi
        invariant
            lo <= i <= hi <= n == t.len(),
            u == t@.subrange(lo as int, hi as int),
            c@ == without_underscores(u.subrange(0, i - lo)),
        decreases hi - i,
    {
        if t[i] != '_' {
            c.push(t[i]);
        }
        i = i + 1;
        assert(u.subrange(0, i - lo).drop_last() =~= u.subrange(0, i - lo - 1));
    }
    assert(u.subrange(0, hi - lo) =~= u);
    assert(t@ == trim_ws(value@));
    assert(c@ == without_underscores(unquote(trim_ws(value@))));
    if c.len() == 0 {
        return None;
    }
    let mut radix: u64 = 10;
    let mut skip: usize = 0;
    if c.len() >= 2 && c[0] == '0' {
        if c[1] == 'x' || c[1] == 'X' {
            radix = 16;
            skip = 2;
        } else if c[1] == 'b' || c[1] == 'B' {
            radix = 2;
            skip = 2;
        } else if c[1] == 'o' || c[1] == 'O' {
            radix = 8;
            skip = 2;
        }
    }
    let mut ds: Vec<char> = Vec::new();
    let mut k = skip;
    while k < c.len()
        invariant
            skip <= k <= c.len(),
            ds@ == c@.subrange(skip as int, k as int),
        decreases c.len() - k,
    {
        ds.push(c[k]);
        k = k + 1;
        assert(ds@ =~= c@.subrange(skip as int, k as int));
    }
    assert(radix_and_digits(c@) == (radix as nat, ds@)) by {
        if skip == 0 {
            assert(c@.subrange(0, c@.len() as int) =~= c@);
        }
    }
    if ds.len() == 0 {
        return None;
    }
    from_str_radix(&ds, radix)
}

/// Where an attribute was written.
#[derive(Clone, Copy, Debug, PartialEq, Eq, Structural)]
pub struct AttrSource {
    pub span: Option<Span>,
}

/// An async frame size limit, in bytes.
#[derive(Clone, Copy, Debug, PartialEq, Eq, Structural)]
pub struct FrameLimitAttr {
    pub bytes: u64,
    pub span: Option<Span>,
}

/// What `@no_capture` forbids an async frame to capture.
#[derive(Clone, Copy, Debug, PartialEq, Eq, Structural)]
pub enum NoCaptureMode {
    Any,
    MoveOnly,
}

/// A `@no_capture` attribute.
#[derive(Clone, Copy, Debug, PartialEq, Eq, Structural)]
pub struct NoCaptureAttr {
    pub mode: NoCaptureMode,
    pub span: Option<Span>,
}

/// The frame policy attributes of an async function.
#[derive(Clone, Copy, Debug, PartialEq, Eq, Structural)]
pub struct AsyncFramePolicy {
    pub stack_only: Option<AttrSource>,
    pub frame_limit: Option<FrameLimitAttr>,
    pub no_capture: Option<NoCaptureAttr>,
}

impl AsyncFramePolicy {
    /// A policy without attributes.
    pub fn empty() -> (r: AsyncFramePolicy)
        ensures
            r == empty_policy(),
    {
        AsyncFramePolicy { stack_only: None, frame_limit: None, no_capture: None }
    }
}

/// The policy without attributes.
pub open spec fn empty_policy() -> AsyncFramePolicy {
    AsyncFramePolicy { stack_only: None, frame_limit: None, no_capture: None }
}

/// The position of the argument that gives the byte limit: the first unnamed one or the
/// first named `bytes` (in any case).
pub open spec fn bytes_argument(args: Seq<AttributeArgument>) -> Option<int>
    decreases args.len(),
{
    if args.len() == 0 {
        None
    } else {
        match bytes_argument(args.drop_last()) {
            Some(i) => Some(i),
            None => match args.last().name {
                None => Some(args.len() - 1),
                Some(n) => if crate::text::eq_ignore_ascii_case(n@, "bytes"@) {
                    Some(args.len() - 1)
                } else {
                    None
                },
            },
        }
    }
}

proof fn lemma_bytes_argument_range(args: Seq<AttributeArgument>)
    ensures
        bytes_argument(args) matches Some(i) ==> 0 <= i < args.len(),
    decreases args.len(),
{
    if args.len() > 0 {
        lemma_bytes_argument_range(args.drop_last());
    }
}

/// What `@frame_limit` gives: the byte count and the argument's span, or an error message
/// and its span.
pub open spec fn frame_limit_outcome(attr: Attribute) -> Result<(u64, Option<Span>), (Seq<char>, Option<Span>)> {
    match bytes_argument(attr.arguments@) {
        None => Err(
            ("expected byte limit for `@frame_limit`, e.g., `@frame_limit(4096)`"@, attr.span),
        ),
        Some(i) => {
            let arg = attr.arguments@[i];
            let value = trim_ws(arg.value@);
            match numeric_literal(value) {
                None => Err(
                    (
                        "could not parse `"@ + value
                            + "` as a byte count for `@frame_limit` (expected integer literal)"@,
                        arg.span,
                    ),
                ),
                Some(bytes) => if bytes == 0 {
                    Err(
                        (
                            "`@frame_limit` must be greater than zero bytes"@,
                            crate::values::span_or(arg.span, attr.span),
                        ),
                    )
                } else {
                    Ok((bytes, arg.span))
                },
            }
        },
    }
}

/// Reads the byte limit of a `@frame_limit` attribute (see `frame_limit_outcome`).
pub fn parse_frame_limit(attr: &Attribute) -> (r: Result<(u64, Option<Span>), (String, Option<Span>)>)
    ensures
        match (r, frame_limit_outcome(*attr)) {
            (Ok(a), Ok(b)) => a == b,
            (Err((m, s)), Err((em, es))) => m@ == em && s == es,
            _ => false,
        },
{
    let mut found: Option<usize> = None;
    let mut i: usize = 0;
    while i < attr.arguments.len()
        invariant
            i <= attr.arguments@.len(),
            found == match bytes_argument(attr.arguments@.subrange(0, i as int)) {
                Some(k) => Some(k as usize),
                None => None::<usize>,
            },
            found matches Some(k) ==> k < i,
        decreases attr.arguments.len() - i,
    {
        let ghost prefix = attr.arguments@.subrange(0, i + 1);
        assert(prefix.drop_last() =~= attr.arguments@.subrange(0, i as int));
        proof {
            lemma_bytes_argument_range(attr.arguments@.subrange(0, i as int));
        }
        if found.is_none() {
            let hit = match &attr.arguments[i].name {
                None => true,
                Some(n) => crate::text::str_eq_ignore_ascii_case(n.as_str(), "bytes"),
            };
            if hit {
                found = Some(i);
            }
        }
        i = i + 1;
    }
    assert(attr.arguments@.subrange(0, attr.arguments@.len() as int) =~= attr.arguments@);
    proof {
        lemma_bytes_argument_range(attr.arguments@);
    }
    let k = match found {
        Some(k) => k,
        None => {
            return Err(
                (
                    owned("expected byte limit for `@frame_limit`, e.g., `@frame_limit(4096)`"),
                    attr.span,
                ),
            );
        },
    };
    let argument = &attr.arguments[k];
    assert(bytes_argument(attr.arguments@) == Some(k as int));
    let span = argument.span;
    let value = crate::initializer::trim_text_ws(argument.value.as_str());
    match parse_numeric_literal(value.as_str()) {
        None => {
            let mut m = owned("could not parse `");
            m.append(value.as_str());
            m.append("` as a byte count for `@frame_limit` (expected integer literal)");
            Err((m, span))
        },
        Some(bytes) => {
            if bytes == 0 {
                Err(
                    (
                        owned("`@frame_limit` must be greater than zero bytes"),
                        crate::values::or_span(span, attr.span),
                    ),
                )
            } else {
                Ok((bytes, span))
            }
        },
    }
}

/// `s` without any leading or trailing quote characters (`"` and `'`).
pub open spec fn strip_quotes(s: Seq<char>) -> Seq<char>
    decreases s.len(),
{
    if s.len() > 0 && (s[0] == '"' || s[0] == '\'') {
        strip_quotes(s.drop_first())
    } else if s.len() > 0 && (s.last() == '"' || s.last() == '\'') {
        strip_quotes(s.drop_last())
    } else {
        s
    }
}

/// What `@no_capture` gives: its mode and span, or an error message and its span.
pub open spec fn no_capture_outcome(attr: Attribute) -> Result<(NoCaptureMode, Option<Span>), (Seq<char>, Option<Span>)> {
    if attr.arguments@.len() == 0 {
        Ok((NoCaptureMode::Any, attr.span))
    } else {
        let arg = attr.arguments@[0];
        let value = lower_seq(strip_quotes(arg.value@));
        if value == "any"@ || value == ""@ {
            Ok((NoCaptureMode::Any, crate::values::span_or(arg.span, attr.span)))
        } else if value == "move"@ || value == "moveonly"@ || value == "move_only"@ || value == "move-only"@ {
            Ok((NoCaptureMode::MoveOnly, crate::values::span_or(arg.span, attr.span)))
        } else {
            Err(
                (
                    "unsupported mode `"@ + value + "` for `@no_capture` (expected `move` or omitted)"@,
                    arg.span,
                ),
            )
        }
    }
}

fn strip_quote_chars(s: &str) -> (r: String)
    ensures
        r@ == strip_quotes(s@),
{
    let v = chars_of(s);
    let mut lo: usize = 0;
    let mut hi: usize = v.len();
    assert(v@.subrange(0, v.len() as int) =~= v@);
    while lo < hi && (v[lo] == '"' || v[lo] == '\'')
        invariant
            lo <= hi == v.len(),
            strip_quotes(v@.subrange(lo as int, hi as int)) == strip_quotes(v@),
        decreases hi - lo,
    {
        assert(v@.subrange(lo as int, hi as int).drop_first() =~= v@.subrange(lo + 1, hi as int));
        lo = lo + 1;
    }
    while lo < hi && (v[hi - 1] == '"' || v[hi - 1] == '\'')
        invariant
            lo <= hi <= v.len(),
            lo < hi ==> !(v@[lo as int] == '"' || v@[lo as int] == '\''),
            strip_quotes(v@.subrange(lo as int, hi as int)) == strip_quotes(v@),
        decreases hi - lo,
    {
        assert(v@.subrange(lo as int, hi as int).drop_last() =~= v@.subrange(lo as int, hi - 1));
        hi = hi - 1;
    }
    assert(v@.subrange(0, v.len() as int) =~= v@);
    let mut out: Vec<char> = Vec::new();
    let mut k = lo;
    while k < hi
        invariant
            lo <= k <= hi <= v.len(),
            out@ == v@.subrange(lo as int, k as int),
        decreases hi - k,
    {
        out.push(v[k]);
        k = k + 1;
        assert(out@ =~= v@.subrange(lo as int, k as int));
    }
    string_of(&out)
}

/// Reads the mode of a `@no_capture` attribute (see `no_capture_outcome`).
pub fn parse_no_capture(attr: &Attribute) -> (r: Result<(NoCaptureMode, Option<Span>), (String, Option<Span>)>)
    ensures
        match (r, no_capture_outcome(*attr)) {
            (Ok(a), Ok(b)) => a == b,
            (Err((m, s)), Err((em, es))) => m@ == em && s == es,
            _ => false,
        },
{
    if attr.arguments.len() == 0 {
        return Ok((NoCaptureMode::Any, attr.span));
    }
    let argument = &attr.arguments[0];
    let value = to_ascii_lower(strip_quote_chars(argument.value.as_str()).as_str());
    let v = value.as_str();
    if str_eq(v, "any") || str_eq(v, "") {
        Ok((NoCaptureMode::Any, crate::values::or_span(argument.span, attr.span)))
    } else if str_eq(v, "move") || str_eq(v, "moveonly") || str_eq(v, "move_only") || str_eq(v, "move-only") {
        Ok((NoCaptureMode::MoveOnly, crate::values::or_span(argument.span, attr.span)))
    } else {
        let mut m = owned("unsupported mode `");
        m.append(v);
        m.append("` for `@no_capture` (expected `move` or omitted)");
        Err((m, argument.span))
    }
}

/// The text of an async attribute diagnostic: the code in brackets, then the message.
pub open spec fn async_diag(code: Seq<char>, message: Seq<char>, span: Option<Span>) -> (Seq<char>, Option<Span>) {
    ("["@ + code + "] "@ + message, span)
}

/// A diagnostic about an async attribute, tagged with a diagnostic code.
pub fn async_attr_error(code: &str, message: &str, span: Option<Span>) -> (r: LoweringDiagnostic)
    ensures
        diag_model(r) == async_diag(code@, message@, span),
{
    let mut m = owned("[");
    m.append(code);
    m.append("] ");
    m.append(message);
    LoweringDiagnostic { message: m, span }
}

/// The policy and diagnostics after one more attribute of a function.
pub open spec fn policy_step(
    state: (AsyncFramePolicy, Seq<(Seq<char>, Option<Span>)>),
    attr: Attribute,
    is_async: bool,
    code: Seq<char>,
) -> (AsyncFramePolicy, Seq<(Seq<char>, Option<Span>)>) {
    let (policy, diags) = state;
    let name = lower_seq(attr.name@);
    if name == "stack_only"@ || name == "stackonly"@ {
        if !is_async {
            (policy, diags.push(async_diag(code, "`@stack_only` is only valid on async functions or testcases"@, attr.span)))
        } else if policy.stack_only is Some {
            (policy, diags.push(async_diag(code, "duplicate `@stack_only` attribute"@, attr.span)))
        } else {
            (AsyncFramePolicy { stack_only: Some(AttrSource { span: attr.span }), ..policy }, diags)
        }
    } else if name == "frame_limit"@ || name == "framelimit"@ {
        if !is_async {
            (policy, diags.push(async_diag(code, "`@frame_limit` is only valid on async functions or testcases"@, attr.span)))
        } else if policy.frame_limit is Some {
            (policy, diags.push(async_diag(code, "duplicate `@frame_limit` attribute"@, attr.span)))
        } else {
            match frame_limit_outcome(attr) {
                Ok((bytes, span)) => (
                    AsyncFramePolicy {
                        frame_limit: Some(FrameLimitAttr { bytes, span: crate::values::span_or(span, attr.span) }),
                        ..policy
                    },
                    diags,
                ),
                Err((message, span)) => (
                    policy,
                    diags.push(async_diag(code, message, crate::values::span_or(span, attr.span))),
                ),
            }
        }
    } else if name == "no_capture"@ || name == "nocapture"@ {
        if !is_async {
            (policy, diags.push(async_diag(code, "`@no_capture` is only valid on async functions or testcases"@, attr.span)))
        } else if policy.no_capture is Some {
            (policy, diags.push(async_diag(code, "duplicate `@no_capture` attribute"@, attr.span)))
        } else {
            match no_capture_outcome(attr) {
                Ok((mode, span)) => (
                    AsyncFramePolicy {
                        no_capture: Some(NoCaptureAttr { mode, span: crate::values::span_or(span, attr.span) }),
                        ..policy
                    },
                    diags,
                ),
                Err((message, span)) => (
                    policy,
                    diags.push(async_diag(code, message, crate::values::span_or(span, attr.span))),
                ),
            }
        }
    } else {
        state
    }
}

/// The frame policy of a function's attributes and the diagnostics they raise, in order.
pub open spec fn frame_policy(attrs: Seq<Attribute>, is_async: bool, code: Seq<char>) -> (
    AsyncFramePolicy,
    Seq<(Seq<char>, Option<Span>)>,
)
    decreases attrs.len(),
{
    if attrs.len() == 0 {
        (empty_policy(), Seq::empty())
    } else {
        policy_step(frame_policy(attrs.drop_last(), is_async, code), attrs.last(), is_async, code)
    }
}

/// Collects the async frame policy of a function from its attributes (see `frame_policy`);
/// `code` tags the diagnostics.
pub fn collect_async_frame_policy(attrs: &[Attribute], is_async: bool, code: &str) -> (r: (
    AsyncFramePolicy,
    Vec<LoweringDiagnostic>,
))
    ensures
        (r.0, diag_models(r.1@)) == frame_policy(attrs@, is_async, code@),
{
    let mut policy = AsyncFramePolicy::empty();
    let mut diagnostics: Vec<LoweringDiagnostic> = Vec::new();
    let mut i: usize = 0;
    assert(diag_models(diagnostics@) =~= Seq::<(Seq<char>, Option<Span>)>::empty());
    while i < attrs.len()
        invariant
            i <= attrs@.len(),
            (policy, diag_models(diagnostics@)) == frame_policy(attrs@.subrange(0, i as int), is_async, code@),
        decreases attrs.len() - i,
    {
        let ghost prefix = attrs@.subrange(0, i + 1);
        assert(prefix.drop_last() =~= attrs@.subrange(0, i as int));
        assert(prefix.last() == attrs@[i as int]);
        let ghost before = diag_models(diagnostics@);
        let attr = &attrs[i];
        let lowered = to_ascii_lower(attr.name.as_str());
        let name = lowered.as_str();
        if str_eq(name, "stack_only") || str_eq(name, "stackonly") {
            if !is_async {
                diagnostics.push(async_attr_error(code, "`@stack_only` is only valid on async functions or testcases", attr.span));
            } else if policy.stack_only.is_some() {
                diagnostics.push(async_attr_error(code, "duplicate `@stack_only` attribute", attr.span));
            } else {
                policy.stack_only = Some(AttrSource { span: attr.span });
            }
        } else if str_eq(name, "frame_limit") || str_eq(name, "framelimit") {
            if !is_async {
                diagnostics.push(async_attr_error(code, "`@frame_limit` is only valid on async functions or testcases", attr.span));
            } else if policy.frame_limit.is_some() {
                diagnostics.push(async_attr_error(code, "duplicate `@frame_limit` attribute", attr.span));
            } else {
                match parse_frame_limit(attr) {
                    Ok((bytes, span)) => {
                        policy.frame_limit = Some(FrameLimitAttr { bytes, span: crate::values::or_span(span, attr.span) });
                    },
                    Err((message, span)) => {
                        diagnostics.push(async_attr_error(code, message.as_str(), crate::values::or_span(span, attr.span)));
                    },
                }
            }
        } else if str_eq(name, "no_capture") || str_eq(name, "nocapture") {
            if !is_async {
                diagnostics.push(async_attr_error(code, "`@no_capture` is only valid on async functions or testcases", attr.span));
            } else if policy.no_capture.is_some() {
                diagnostics.push(async_attr_error(code, "duplicate `@no_capture` attribute", attr.span));
            } else {
                match parse_no_capture(attr) {
                    Ok((mode, span)) => {
                        policy.no_capture = Some(NoCaptureAttr { mode, span: crate::values::or_span(span, attr.span) });
                    },
                    Err((message, span)) => {
                        diagnostics.push(async_attr_error(code, message.as_str(), crate::values::or_span(span, attr.span)));
                    },
                }
            }
        }
        proof {
            let now = diag_models(diagnostics@);
            if now.len() > before.len() {
                assert(now =~= before.push(now.last()));
            } else {
                assert(now =~= before);
            }
        }
        i = i + 1;
    }
    assert(attrs@.subrange(0, attrs@.len() as int) =~= attrs@);
    (policy, diagnostics)
}

/// An attribute argument of a testcase, trimmed and without one pair of surrounding quotes.
pub open spec fn testcase_value(value: Seq<char>) -> Seq<char> {
    unquote(trim_ws(value))
}

/// Normalizes a testcase attribute argument (see `testcase_value`).
pub fn normalize_testcase_attribute_value(value: &str) -> (r: String)
    ensures
        r@ == testcase_value(value@),
{
    let t = chars_of(crate::initializer::trim_text_ws(value).as_str());
    let n = t.len();
    if n >= 2 && ((t[0] == '"' && t[n - 1] == '"') || (t[0] == '\'' && t[n - 1] == '\'')) {
        let mut out: Vec<char> = Vec::new();
        let mut k: usize = 1;
        while k < n - 1
            invariant
                1 <= k <= n - 1,
                n == t.len(),
                out@ == t@.subrange(1, k as int),
            decreases n - 1 - k,
        {
            out.push(t[k]);
            k = k + 1;
            assert(out@ =~= t@.subrange(1, k as int));
        }
        string_of(&out)
    } else {
        string_of(&t)
    }
}

/// Whether `c` may appear in a testcase id.
pub open spec fn id_char(c: char) -> bool {
    crate::initializer::ascii_alnum(c) || c == '-' || c == '_' || c == '.'
}

/// What reading testcase attributes has gathered: categories, the id and diagnostics.
pub struct TestcaseState {
    pub categories: Seq<Seq<char>>,
    pub id: Option<Seq<char>>,
    pub diags: Seq<(Seq<char>, Option<Span>)>,
}

/// The state after one more category argument.
pub open spec fn category_arg(st: TestcaseState, arg: AttributeArgument, attr_span: Option<Span>) -> TestcaseState {
    let value = trim_ws(testcase_value(arg.value@));
    if value.len() == 0 {
        TestcaseState {
            diags: st.diags.push(
                ("empty testcase category/tag argument"@, crate::values::span_or(arg.span, attr_span)),
            ),
            ..st
        }
    } else if st.categories.contains(lower_seq(value)) {
        st
    } else {
        TestcaseState { categories: st.categories.push(lower_seq(value)), ..st }
    }
}

/// The state after the category arguments `args`.
pub open spec fn category_args(st: TestcaseState, args: Seq<AttributeArgument>, attr_span: Option<Span>) -> TestcaseState
    decreases args.len(),
{
    if args.len() == 0 {
        st
    } else {
        category_arg(category_args(st, args.drop_last(), attr_span), args.last(), attr_span)
    }
}

/// The state after one more id argument.
pub open spec fn id_arg(st: TestcaseState, arg: AttributeArgument, attr_span: Option<Span>) -> TestcaseState {
    let value = trim_ws(testcase_value(arg.value@));
    let span = crate::values::span_or(arg.span, attr_span);
    if value.len() == 0 {
        TestcaseState { diags: st.diags.push(("testcase id cannot be empty"@, span)), ..st }
    } else if !(forall|i: int| 0 <= i < value.len() ==> id_char(#[trigger] value[i])) {
        TestcaseState {
            diags: st.diags.push(
                (
                    "testcase id `"@ + value
                        + "` contains unsupported characters; use letters, digits, '-', '_', or '.'"@,
                    span,
                ),
            ),
            ..st
        }
    } else if st.id is Some && st.id->0 != value {
        TestcaseState {
            diags: st.diags.push(
                (
                    "duplicate testcase id attributes; keeping `"@ + st.id->0 + "` and ignoring `"@ + value
                        + "`"@,
                    span,
                ),
            ),
            ..st
        }
    } else {
        TestcaseState { id: Some(value), ..st }
    }
}

/// The state after the id arguments `args`.
pub open spec fn id_args(st: TestcaseState, args: Seq<AttributeArgument>, attr_span: Option<Span>) -> TestcaseState
    decreases args.len(),
{
    if args.len() == 0 {
        st
    } else {
        id_arg(id_args(st, args.drop_last(), attr_span), args.last(), attr_span)
    }
}

/// Whether a lower-cased attribute name marks testcase categories.
pub open spec fn is_category_name(name: Seq<char>) -> bool {
    name == "category"@ || name == "categories"@ || name == "tag"@ || name == "test_group"@
        || name == "testgroup"@ || name == "group"@
}

/// Whether a lower-cased attribute name marks a testcase id.
pub open spec fn is_id_name(name: Seq<char>) -> bool {
    name == "id"@ || name == "test_id"@ || name == "testid"@
}

/// The state after one more testcase attribute.
pub open spec fn testcase_step(st: TestcaseState, attr: Attribute) -> TestcaseState {
    let name = lower_seq(attr.name@);
    if is_category_name(name) {
        let start = if attr.arguments@.len() == 0 {
            TestcaseState {
                diags: st.diags.push(
                    ("testcase category/tag attributes require at least one argument"@, attr.span),
                ),
                ..st
            }
        } else {
            st
        };
        category_args(start, attr.arguments@, attr.span)
    } else if is_id_name(name) {
        let after = id_args(st, attr.arguments@, attr.span);
        if attr.arguments@.len() == 0 {
            TestcaseState {
                diags: after.diags.push(("testcase id attribute requires a value"@, attr.span)),
                ..after
            }
        } else {
            after
        }
    } else {
        TestcaseState {
            diags: st.diags.push(
                (
                    "attribute `@"@ + attr.name@ + "` is not supported on testcase declarations"@,
                    attr.span,
                ),
            ),
            ..st
        }
    }
}

/// The state after the testcase attributes `attrs`, in order.
pub open spec fn testcase_fold(attrs: Seq<Attribute>) -> TestcaseState
    decreases attrs.len(),
{
    if attrs.len() == 0 {
        TestcaseState { categories: Seq::empty(), id: None, diags: Seq::empty() }
    } else {
        testcase_step(testcase_fold(attrs.drop_last()), attrs.last())
    }
}

/// Where `x` goes in the sorted `sorted`: after every name that does not sort after it.
pub open spec fn name_insert_pos(sorted: Seq<Seq<char>>, x: Seq<char>) -> int
    decreases sorted.len(),
{
    if sorted.len() == 0 {
        0
    } else if crate::labels::seq_lt(x, sorted.last()) {
        name_insert_pos(sorted.drop_last(), x)
    } else {
        sorted.len() as int
    }
}

/// `names` sorted by insertion, comparing by code point.
pub open spec fn sort_names(names: Seq<Seq<char>>) -> Seq<Seq<char>>
    decreases names.len(),
{
    if names.len() == 0 {
        Seq::empty()
    } else {
        let sorted = sort_names(names.drop_last());
        sorted.insert(name_insert_pos(sorted, names.last()), names.last())
    }
}

/// `names` without consecutive repeats.
pub open spec fn dedup_names(names: Seq<Seq<char>>) -> Seq<Seq<char>>
    decreases names.len(),
{
    if names.len() <= 1 {
        names
    } else if names.last() == names[names.len() - 2] {
        dedup_names(names.drop_last())
    } else {
        dedup_names(names.drop_last()).push(names.last())
    }
}

proof fn lemma_name_insert_pos(sorted: Seq<Seq<char>>, x: Seq<char>)
    ensures
        0 <= name_insert_pos(sorted, x) <= sorted.len(),
    decreases sorted.len(),
{
    if sorted.len() > 0 && crate::labels::seq_lt(x, sorted.last()) {
        lemma_name_insert_pos(sorted.drop_last(), x);
    }
}

fn insert_name(sorted: &mut Vec<String>, x: String)
    ensures
        views(final(sorted)@) == views(old(sorted)@).insert(name_insert_pos(views(old(sorted)@), x@), x@),
{
    let ghost s = views(sorted@);
    let mut pos: usize = sorted.len();
    assert(s.subrange(0, s.len() as int) =~= s);
    while pos > 0 && crate::labels::str_lt(x.as_str(), sorted[pos - 1].as_str())
        invariant
            pos <= sorted@.len(),
            s == views(sorted@),
            name_insert_pos(s, x@) == name_insert_pos(s.subrange(0, pos as int), x@),
        decreases pos,
    {
        let ghost sub = s.subrange(0, pos as int);
        assert(sub.drop_last() =~= s.subrange(0, pos - 1));
        assert(sub.last() == s[pos - 1]);
        pos = pos - 1;
    }
    proof {
        let sub = s.subrange(0, pos as int);
        if pos > 0 {
            assert(sub.last() == s[pos - 1]);
        }
        assert(name_insert_pos(sub, x@) == pos);
    }
    let ghost xv = x@;
    sorted.insert(pos, x);
    assert(views(sorted@) =~= s.insert(pos as int, xv));
}

fn sort_and_dedup(names: Vec<String>) -> (r: Vec<String>)
    ensures
        views(r@) == dedup_names(sort_names(views(names@))),
{
    let mut sorted: Vec<String> = Vec::new();
    let ghost all = views(names@);
    let mut i: usize = 0;
    assert(views(sorted@) =~= sort_names(all.subrange(0, 0)));
    while i < names.len()
        invariant
            i <= names.len(),
            all == views(names@),
            views(sorted@) == sort_names(all.subrange(0, i as int)),
        decreases names.len() - i,
    {
        let x = names[i].clone();
        let ghost cur = all.subrange(0, i + 1);
        assert(cur.drop_last() =~= all.subrange(0, i as int));
        assert(cur.last() == x@);
        insert_name(&mut sorted, x);
        i = i + 1;
    }
    assert(all.subrange(0, names.len() as int) =~= all);
    let ghost sv = views(sorted@);
    let mut out: Vec<String> = Vec::new();
    let mut k: usize = 0;
    assert(views(out@) =~= dedup_names(sv.subrange(0, 0)));
    while k < sorted.len()
        invariant
            k <= sorted.len(),
            sv == views(sorted@),
            views(out@) == dedup_names(sv.subrange(0, k as int)),
            k > 0 ==> views(out@).len() > 0 && views(out@).last() == sv[k - 1],
        decreases sorted.len() - k,
    {
        let ghost cur = sv.subrange(0, k + 1);
        assert(cur.drop_last() =~= sv.subrange(0, k as int));
        if k == 0 || !str_eq(sorted[k].as_str(), out[out.len() - 1].as_str()) {
            let ghost before = views(out@);
            proof {
                if k > 0 {
                    assert(views(out@).last() == out@[out@.len() - 1]@);
                    assert(cur.last() != cur[cur.len() - 2]);
                }
            }
            out.push(sorted[k].clone());
            assert(views(out@) =~= before.push(sv[k as int]));
            if k == 0 {
                assert(cur =~= seq![sv[0]]);
                assert(views(out@) =~= seq![sv[0]]);
            }
        } else {
            assert(cur[cur.len() - 2] == sv[k - 1]);
            assert(views(out@).last() == out@[out@.len() - 1]@);
        }
        k = k + 1;
    }
    assert(sv.subrange(0, sorted.len() as int) =~= sv);
    out
}

fn all_id_chars(v: &str) -> (r: bool)
    ensures
        r == (forall|i: int| 0 <= i < v@.len() ==> id_char(#[trigger] v@[i])),
{
    let c = chars_of(v);
    let mut i: usize = 0;
    while i < c.len()
        invariant
            i <= c.len(),
            c@ == v@,
            forall|j: int| 0 <= j < i ==> id_char(#[trigger] v@[j]),
        decreases c.len() - i,
    {
        let ch = c[i];
        if !(('a' <= ch && ch <= 'z') || ('A' <= ch && ch <= 'Z') || ('0' <= ch && ch <= '9') || ch == '-'
            || ch == '_' || ch == '.') {
            assert(!id_char(v@[i as int]));
            return false;
        }
        i = i + 1;
    }
    true
}

fn contains_name(list: &Vec<String>, name: &str) -> (r: bool)
    ensures
        r == views(list@).contains(name@),
{
    let mut i: usize = 0;
    while i < list.len()
        invariant
            i <= list.len(),
            forall|j: int| 0 <= j < i ==> views(list@)[j] != name@,
        decreases list.len() - i,
    {
        if str_eq(list[i].as_str(), name) {
            assert(views(list@)[i as int] == name@);
            return true;
        }
        i = i + 1;
    }
    false
}

/// Reads the categories, the explicit id and the diagnostics of a testcase's attributes (see
/// `testcase_fold`); the categories come out sorted, each once.
pub fn collect_testcase_attributes(attrs: &[Attribute]) -> (r: (Vec<String>, Option<String>, Vec<LoweringDiagnostic>))
    ensures
        views(r.0@) == dedup_names(sort_names(testcase_fold(attrs@).categories)),
        crate::cache::opt_str(r.1) == testcase_fold(attrs@).id,
        diag_models(r.2@) == testcase_fold(attrs@).diags,
{
    let mut categories: Vec<String> = Vec::new();
    let mut explicit_id: Option<String> = None;
    let mut diagnostics: Vec<LoweringDiagnostic> = Vec::new();
    let mut i: usize = 0;
    assert(views(categories@) =~= Seq::<Seq<char>>::empty());
    assert(diag_models(diagnostics@) =~= Seq::<(Seq<char>, Option<Span>)>::empty());
    while i < attrs.len()
        invariant
            i <= attrs@.len(),
            testcase_fold(attrs@.subrange(0, i as int)) == (TestcaseState {
                categories: views(categories@),
                id: crate::cache::opt_str(explicit_id),
                diags: diag_models(diagnostics@),
            }),
        decreases attrs.len() - i,
    {
        let ghost prefix = attrs@.subrange(0, i + 1);
        assert(prefix.drop_last() =~= attrs@.subrange(0, i as int));
        assert(prefix.last() == attrs@[i as int]);
        let attr = &attrs[i];
        let lowered = to_ascii_lower(attr.name.as_str());
        let name = lowered.as_str();
        if str_eq(name, "category") || str_eq(name, "categories") || str_eq(name, "tag") || str_eq(
            name,
            "test_group",
        ) || str_eq(name, "testgroup") || str_eq(name, "group") {
            if attr.arguments.len() == 0 {
                let ghost before = diag_models(diagnostics@);
                diagnostics.push(
                    LoweringDiagnostic {
                        message: owned("testcase category/tag attributes require at least one argument"),
                        span: attr.span,
                    },
                );
                assert(diag_models(diagnostics@) =~= before.push(
                    ("testcase category/tag attributes require at least one argument"@, attr.span),
                ));
            }
            let ghost start = TestcaseState {
                categories: views(categories@),
                id: crate::cache::opt_str(explicit_id),
                diags: diag_models(diagnostics@),
            };
            let mut j: usize = 0;
            while j < attr.arguments.len()
                invariant
                    j <= attr.arguments@.len(),
                    category_args(start, attr.arguments@.subrange(0, j as int), attr.span) == (TestcaseState {
                        categories: views(categories@),
                        id: crate::cache::opt_str(explicit_id),
                        diags: diag_models(diagnostics@),
                    }),
                decreases attr.arguments.len() - j,
            {
                let ghost sub = attr.arguments@.subrange(0, j + 1);
                assert(sub.drop_last() =~= attr.arguments@.subrange(0, j as int));
                let arg = &attr.arguments[j];
                let normalized = normalize_testcase_attribute_value(arg.value.as_str());
                let value = crate::initializer::trim_text_ws(normalized.as_str());
                if value.as_str().unicode_len() == 0 {
                    let ghost before = diag_models(diagnostics@);
                    let sp = crate::values::or_span(arg.span, attr.span);
                    diagnostics.push(LoweringDiagnostic { message: owned("empty testcase category/tag argument"), span: sp });
                    assert(diag_models(diagnostics@) =~= before.push(("empty testcase category/tag argument"@, sp)));
                } else {
                    let lowered_value = to_ascii_lower(value.as_str());
                    if !contains_name(&categories, lowered_value.as_str()) {
                        let ghost before = views(categories@);
                        let ghost lv = lowered_value@;
                        categories.push(lowered_value);
                        assert(views(categories@) =~= before.push(lv));
                    }
                }
                j = j + 1;
            }
            assert(attr.arguments@.subrange(0, attr.arguments@.len() as int) =~= attr.arguments@);
        } else if str_eq(name, "id") || str_eq(name, "test_id") || str_eq(name, "testid") {
            let ghost start = TestcaseState {
                categories: views(categories@),
                id: crate::cache::opt_str(explicit_id),
                diags: diag_models(diagnostics@),
            };
            let mut j: usize = 0;
            while j < attr.arguments.len()
                invariant
                    j <= attr.arguments@.len(),
                    id_args(start, attr.arguments@.subrange(0, j as int), attr.span) == (TestcaseState {
                        categories: views(categories@),
                        id: crate::cache::opt_str(explicit_id),
                        diags: diag_models(diagnostics@),
                    }),
                decreases attr.arguments.len() - j,
            {
                let ghost sub = attr.arguments@.subrange(0, j + 1);
                assert(sub.drop_last() =~= attr.arguments@.subrange(0, j as int));
                let arg = &attr.arguments[j];
                let normalized = normalize_testcase_attribute_value(arg.value.as_str());
                let value = crate::initializer::trim_text_ws(normalized.as_str());
                let sp = crate::values::or_span(arg.span, attr.span);
                let ghost before = diag_models(diagnostics@);
                if value.as_str().unicode_len() == 0 {
                    diagnostics.push(LoweringDiagnostic { message: owned("testcase id cannot be empty"), span: sp });
                    assert(diag_models(diagnostics@) =~= before.push(("testcase id cannot be empty"@, sp)));
                } else if !all_id_chars(value.as_str()) {
                    let mut m = owned("testcase id `");
                    m.append(value.as_str());
                    m.append("` contains unsupported characters; use letters, digits, '-', '_', or '.'");
                    let ghost mv = m@;
                    diagnostics.push(LoweringDiagnostic { message: m, span: sp });
                    assert(diag_models(diagnostics@) =~= before.push((mv, sp)));
                } else {
                    let conflict = match &explicit_id {
                        Some(current) => !str_eq(current.as_str(), value.as_str()),
                        None => false,
                    };
                    if conflict {
                        let current = match &explicit_id {
                            Some(c) => c.as_str(),
                            None => "",
                        };
                        let mut m = owned("duplicate testcase id attributes; keeping `");
                        m.append(current);
                        m.append("` and ignoring `");
                        m.append(value.as_str());
                        m.append("`");
                        let ghost mv = m@;
                        diagnostics.push(LoweringDiagnostic { message: m, span: sp });
                        assert(diag_models(diagnostics@) =~= before.push((mv, sp)));
                    } else {
                        explicit_id = Some(value);
                    }
                }
                j = j + 1;
            }
            assert(attr.arguments@.subrange(0, attr.arguments@.len() as int) =~= attr.arguments@);
            if attr.arguments.len() == 0 {
                let ghost before = diag_models(diagnostics@);
                diagnostics.push(LoweringDiagnostic { message: owned("testcase id attribute requires a value"), span: attr.span });
                assert(diag_models(diagnostics@) =~= before.push(("testcase id attribute requires a value"@, attr.span)));
            }
        } else {
            let ghost before = diag_models(diagnostics@);
            let mut m = owned("attribute `@");
            m.append(attr.name.as_str());
            m.append("` is not supported on testcase declarations");
            let ghost mv = m@;
            diagnostics.push(LoweringDiagnostic { message: m, span: attr.span });
            assert(diag_models(diagnostics@) =~= before.push((mv, attr.span)));
        }
        i = i + 1;
    }
    assert(attrs@.subrange(0, attrs@.len() as int) =~= attrs@);
    (sort_and_dedup(categories), explicit_id, diagnostics)
}

/// Whether two types are the same, names compared by their text.
pub open spec fn ty_same(a: Ty, b: Ty) -> bool
    decreases a,
{
    match (a, b) {
        (Ty::Unit, Ty::Unit) | (Ty::Unknown, Ty::Unknown) | (Ty::String, Ty::String) | (Ty::Str, Ty::Str) => true,
        (Ty::Named { name: n1, args: a1 }, Ty::Named { name: n2, args: a2 }) => n1@ == n2@ && a1@.len()
            == a2@.len() && forall|i: int| #![trigger a1@[i]] 0 <= i < a1@.len() ==> ty_same(a1@[i], a2@[i]),
        (Ty::Nullable(x), Ty::Nullable(y)) => ty_same(*x, *y),
        (Ty::Pointer(x), Ty::Pointer(y)) => ty_same(*x, *y),
        (Ty::Ref { element: x, readonly: r1 }, Ty::Ref { element: y, readonly: r2 }) => r1 == r2 && ty_same(*x, *y),
        (Ty::Array { element: x, rank: k1 }, Ty::Array { element: y, rank: k2 }) => k1 == k2 && ty_same(*x, *y),
        (Ty::Vec(x), Ty::Vec(y)) => ty_same(*x, *y),
        (Ty::Span(x), Ty::Span(y)) => ty_same(*x, *y),
        (Ty::ReadOnlySpan(x), Ty::ReadOnlySpan(y)) => ty_same(*x, *y),
        (Ty::Rc(x), Ty::Rc(y)) => ty_same(*x, *y),
        (Ty::Arc(x), Ty::Arc(y)) => ty_same(*x, *y),
        (Ty::Tuple(xs), Ty::Tuple(ys)) => xs@.len() == ys@.len() && forall|i: int|
            #![trigger xs@[i]]
            0 <= i < xs@.len() ==> ty_same(xs@[i], ys@[i]),
        (Ty::Fn { params: p1, ret: r1 }, Ty::Fn { params: p2, ret: r2 }) => p1@.len() == p2@.len() && (forall|
            i: int,
        |
            #![trigger p1@[i]]
            0 <= i < p1@.len() ==> ty_same(p1@[i], p2@[i])) && ty_same(*r1, *r2),
        (Ty::TraitObject { name: n1, opaque_impl: o1 }, Ty::TraitObject { name: n2, opaque_impl: o2 }) => n1@
            == n2@ && o1 == o2,
        _ => false,
    }
}

/// Whether `r` is `t` with every opaque `impl Trait` replaced by `c` (through nullable,
/// reference, array, vector, span, `Rc`, `Arc`, tuple, function and generic argument types).
pub open spec fn substituted(r: Ty, t: Ty, c: Ty) -> bool
    decreases t,
{
    match t {
        Ty::TraitObject { opaque_impl, .. } => if opaque_impl {
            ty_same(r, c)
        } else {
            ty_same(r, t)
        },
        Ty::Nullable(inner) => r is Nullable && substituted(*r->Nullable_0, *inner, c),
        Ty::Ref { element, readonly } => r is Ref && r->Ref_readonly == readonly && substituted(
            *r->Ref_element,
            *element,
            c,
        ),
        Ty::Array { element, rank } => r is Array && r->Array_rank == rank && substituted(
            *r->Array_element,
            *element,
            c,
        ),
        Ty::Vec(inner) => r is Vec && substituted(*r->Vec_0, *inner, c),
        Ty::Span(inner) => r is Span && substituted(*r->Span_0, *inner, c),
        Ty::ReadOnlySpan(inner) => r is ReadOnlySpan && substituted(*r->ReadOnlySpan_0, *inner, c),
        Ty::Rc(inner) => r is Rc && substituted(*r->Rc_0, *inner, c),
        Ty::Arc(inner) => r is Arc && substituted(*r->Arc_0, *inner, c),
        Ty::Tuple(elements) => r is Tuple && r->Tuple_0@.len() == elements@.len() && forall|i: int|
            #![trigger elements@[i]]
            0 <= i < elements@.len() ==> substituted(r->Tuple_0@[i], elements@[i], c),
        Ty::Fn { params, ret } => r is Fn && r->Fn_params@.len() == params@.len() && (forall|i: int|
            #![trigger params@[i]]
            0 <= i < params@.len() ==> substituted(r->Fn_params@[i], params@[i], c)) && substituted(
            *r->Fn_ret,
            *ret,
            c,
        ),
        Ty::Named { name, args } => r is Named && r->Named_name@ == name@ && r->Named_args@.len()
            == args@.len() && forall|i: int|
            #![trigger args@[i]]
            0 <= i < args@.len() ==> substituted(r->Named_args@[i], args@[i], c),
        _ => ty_same(r, t),
    }
}

/// A copy of a type (see `ty_same`).
pub fn copy_ty(t: &Ty) -> (r: Ty)
    ensures
        ty_same(r, *t),
    decreases t,
{
    match t {
        Ty::Unit => Ty::Unit,
        Ty::Unknown => Ty::Unknown,
        Ty::String => Ty::String,
        Ty::Str => Ty::Str,
        Ty::Named { name, args } => {
            let copied = copy_list(args);
            Ty::Named { name: name.clone(), args: copied }
        },
        Ty::Nullable(x) => Ty::Nullable(Box::new(copy_ty(x))),
        Ty::Pointer(x) => Ty::Pointer(Box::new(copy_ty(x))),
        Ty::Ref { element, readonly } => Ty::Ref { element: Box::new(copy_ty(element)), readonly: *readonly },
        Ty::Array { element, rank } => Ty::Array { element: Box::new(copy_ty(element)), rank: *rank },
        Ty::Vec(x) => Ty::Vec(Box::new(copy_ty(x))),
        Ty::Span(x) => Ty::Span(Box::new(copy_ty(x))),
        Ty::ReadOnlySpan(x) => Ty::ReadOnlySpan(Box::new(copy_ty(x))),
        Ty::Rc(x) => Ty::Rc(Box::new(copy_ty(x))),
        Ty::Arc(x) => Ty::Arc(Box::new(copy_ty(x))),
        Ty::Tuple(xs) => Ty::Tuple(copy_list(xs)),
        Ty::Fn { params, ret } => {
            let ps = copy_list(params);
            Ty::Fn { params: ps, ret: Box::new(copy_ty(ret)) }
        },
        Ty::TraitObject { name, opaque_impl } => Ty::TraitObject { name: name.clone(), opaque_impl: *opaque_impl },
    }
}

fn copy_list(xs: &Vec<Ty>) -> (r: Vec<Ty>)
    ensures
        r@.len() == xs@.len(),
        forall|i: int| 0 <= i < xs@.len() ==> ty_same(#[trigger] r@[i], xs@[i]),
    decreases xs, 1int,
{
    let mut out: Vec<Ty> = Vec::new();
    let mut i: usize = 0;
    while i < xs.len()
        invariant
            i <= xs.len(),
            out@.len() == i,
            forall|j: int| 0 <= j < i ==> ty_same(#[trigger] out@[j], xs@[j]),
        decreases xs.len() - i,
    {
        proof {
            assert(decreases_to!(*xs => xs@));
            assert(decreases_to!(xs@ => xs@[i as int]));
        }
        out.push(copy_ty(&xs[i]));
        i = i + 1;
    }
    out
}

fn substitute_list(xs: &Vec<Ty>, concrete: &Ty) -> (r: Vec<Ty>)
    ensures
        r@.len() == xs@.len(),
        forall|i: int| 0 <= i < xs@.len() ==> substituted(#[trigger] r@[i], xs@[i], *concrete),
    decreases xs, 1int,
{
    let mut out: Vec<Ty> = Vec::new();
    let mut i: usize = 0;
    while i < xs.len()
        invariant
            i <= xs.len(),
            out@.len() == i,
            forall|j: int| 0 <= j < i ==> substituted(#[trigger] out@[j], xs@[j], *concrete),
        decreases xs.len() - i,
    {
        proof {
            assert(decreases_to!(*xs => xs@));
            assert(decreases_to!(xs@ => xs@[i as int]));
        }
        out.push(substitute_opaque_ty(&xs[i], concrete));
        i = i + 1;
    }
    out
}

/// `target` with every opaque `impl Trait` replaced by `concrete` (see `substituted`).
pub fn substitute_opaque_ty(target: &Ty, concrete: &Ty) -> (r: Ty)
    ensures
        substituted(r, *target, *concrete),
    decreases target, 0int,
{
    match target {
        Ty::TraitObject { opaque_impl, .. } => if *opaque_impl {
            copy_ty(concrete)
        } else {
            copy_ty(target)
        },
        Ty::Nullable(inner) => Ty::Nullable(Box::new(substitute_opaque_ty(inner, concrete))),
        Ty::Ref { element, readonly } => Ty::Ref {
            element: Box::new(substitute_opaque_ty(element, concrete)),
            readonly: *readonly,
        },
        Ty::Array { element, rank } => Ty::Array {
            element: Box::new(substitute_opaque_ty(element, concrete)),
            rank: *rank,
        },
        Ty::Vec(inner) => Ty::Vec(Box::new(substitute_opaque_ty(inner, concrete))),
        Ty::Span(inner) => Ty::Span(Box::new(substitute_opaque_ty(inner, concrete))),
        Ty::ReadOnlySpan(inner) => Ty::ReadOnlySpan(Box::new(substitute_opaque_ty(inner, concrete))),
        Ty::Rc(inner) => Ty::Rc(Box::new(substitute_opaque_ty(inner, concrete))),
        Ty::Arc(inner) => Ty::Arc(Box::new(substitute_opaque_ty(inner, concrete))),
        Ty::Tuple(elements) => Ty::Tuple(substitute_list(elements, concrete)),
        Ty::Fn { params, ret } => {
            let ps = substitute_list(params, concrete);
            Ty::Fn { params: ps, ret: Box::new(substitute_opaque_ty(ret, concrete)) }
        },
        Ty::Named { name, args } => {
            let substituted_args = substitute_list(args, concrete);
            Ty::Named { name: name.clone(), args: substituted_args }
        },
        _ => copy_ty(target),
    }
}

/// The text of `name` outside angle brackets, trimmed of Unicode whitespace (an unmatched
/// `>` is dropped).
pub open spec fn outside_generics(name: Seq<char>, depth: nat) -> Seq<char>
    decreases name.len(),
{
    if name.len() == 0 {
        Seq::empty()
    } else {
        let c = name[0];
        let rest = name.drop_first();
        if c == '<' {
            outside_generics(rest, depth + 1)
        } else if c == '>' {
            outside_generics(rest, if depth > 0 {
                (depth - 1) as nat
            } else {
                0
            })
        } else if depth == 0 {
            seq![c] + outside_generics(rest, depth)
        } else {
            outside_generics(rest, depth)
        }
    }
}

/// A type name without its generic arguments, trimmed (see `outside_generics`).
pub fn strip_generics(name: &str) -> (r: String)
    ensures
        r@ == trim_ws(outside_generics(name@, 0)),
{
    let v = chars_of(name);
    let mut out: Vec<char> = Vec::new();
    let mut depth: usize = 0;
    let mut i: usize = 0;
    assert(v@.subrange(0, v.len() as int) =~= v@);
    while i < v.len()
        invariant
            i <= v.len(),
            v@ == name@,
            depth <= i,
            out@ + outside_generics(v@.subrange(i as int, v.len() as int), depth as nat) == outside_generics(
                name@,
                0,
            ),
        decreases v.len() - i,
    {
        let ghost rest = v@.subrange(i as int, v.len() as int);
        assert(rest.drop_first() =~= v@.subrange(i + 1, v.len() as int));
        let c = v[i];
        if c == '<' {
            depth = depth + 1;
        } else if c == '>' {
            if depth > 0 {
                depth = depth - 1;
            }
        } else if depth == 0 {
            let ghost before = out@;
            out.push(c);
            assert(out@ + outside_generics(rest.drop_first(), 0) =~= before + (seq![c] + outside_generics(
                rest.drop_first(),
                0,
            )));
        }
        i = i + 1;
    }
    assert(out@ + Seq::<char>::empty() =~= out@);
    crate::initializer::trim_text_ws(string_of(&out).as_str())
}

/// The span of an attribute present on a declaration, if any: `None` when it is absent,
/// `Some(span)` when it is present.
pub open spec fn attr_span_of(a: Option<Option<Span>>) -> Option<Span> {
    match a {
        Some(sp) => sp,
        None => None,
    }
}

/// What `@weak` and `@weak_import` on a function decide: the diagnostics, in order, and whether
/// the function is a weak import. Both together are an error, and `@weak_import` is then dropped;
/// `@weak_import` needs an `@extern` declaration without a body and an explicit ABI.
pub open spec fn weak_import_rules(
    weak: Option<Option<Span>>,
    weak_import: Option<Option<Span>>,
    is_extern: bool,
    has_extern_abi: bool,
    has_body: bool,
) -> (Seq<(Seq<char>, Option<Span>)>, bool) {
    if weak is Some && weak_import is Some {
        (
            seq![(
                "[MIRL0450] `@weak` and `@weak_import` cannot be combined on the same declaration"@,
                crate::values::span_or(attr_span_of(weak_import), attr_span_of(weak)),
            )],
            false,
        )
    } else if weak_import is None {
        (Seq::empty(), false)
    } else if !is_extern {
        (
            seq![(
                "[MIRL0451] `@weak_import` is only valid on `@extern` declarations without a body"@,
                attr_span_of(weak_import),
            )],
            false,
        )
    } else if has_body {
        (
            seq![("[MIRL0452] `@weak_import` declarations must not provide a body"@, attr_span_of(weak_import))],
            false,
        )
    } else if !has_extern_abi {
        (
            seq![("[MIRL0453] `@weak_import` requires an explicit `@extern` ABI"@, attr_span_of(weak_import))],
            false,
        )
    } else {
        (Seq::empty(), true)
    }
}

fn diag(message: &str, span: Option<Span>) -> (d: LoweringDiagnostic)
    ensures
        diag_model(d) == (message@, span),
{
    LoweringDiagnostic { message: owned(message), span }
}

/// Applies the `@weak`/`@weak_import` rules (see `weak_import_rules`); each attribute is given
/// as `Some` of its span when present.
pub fn weak_import_outcome(
    weak: Option<Option<Span>>,
    weak_import: Option<Option<Span>>,
    is_extern: bool,
    has_extern_abi: bool,
    has_body: bool,
) -> (r: (Vec<LoweringDiagnostic>, bool))
    ensures
        (diag_models(r.0@), r.1) == weak_import_rules(weak, weak_import, is_extern, has_extern_abi, has_body),
{
    let mut diagnostics: Vec<LoweringDiagnostic> = Vec::new();
    let span_of = |a: Option<Option<Span>>| -> (sp: Option<Span>)
        ensures
            sp == attr_span_of(a),
        {
            match a {
                Some(sp) => sp,
                None => None,
            }
        };
    let mut is_weak_import = weak_import.is_some();
    if weak.is_some() && weak_import.is_some() {
        let sp = match span_of(weak_import) {
            Some(s) => Some(s),
            None => span_of(weak),
        };
        diagnostics.push(diag("[MIRL0450] `@weak` and `@weak_import` cannot be combined on the same declaration", sp));
        is_weak_import = false;
    } else if is_weak_import && !is_extern {
        diagnostics.push(
            diag("[MIRL0451] `@weak_import` is only valid on `@extern` declarations without a body", span_of(weak_import)),
        );
        is_weak_import = false;
    } else if is_weak_import && has_body {
        diagnostics.push(diag("[MIRL0452] `@weak_import` declarations must not provide a body", span_of(weak_import)));
        is_weak_import = false;
    } else if is_weak_import && !has_extern_abi {
        diagnostics.push(diag("[MIRL0453] `@weak_import` requires an explicit `@extern` ABI", span_of(weak_import)));
        is_weak_import = false;
    }
    proof {
        assert(diag_models(diagnostics@) =~= weak_import_rules(weak, weak_import, is_extern, has_extern_abi, has_body).0);
    }
    (diagnostics, is_weak_import)
}

/// The diagnostic for `@conditional` (given as `Some` of its span when present) on a function
/// whose return type is not `void`.
pub fn conditional_return_check(conditional: Option<Option<Span>>, returns_unit: bool) -> (r: Option<
    LoweringDiagnostic,
>)
    ensures
        match r {
            Some(d) => conditional is Some && !returns_unit && diag_model(d) == (
                "[MIRL0330] `@conditional` requires a void return type"@,
                attr_span_of(conditional),
            ),
            None => conditional is None || returns_unit,
        },
{
    match conditional {
        Some(sp) => if returns_unit {
            None
        } else {
            Some(diag("[MIRL0330] `@conditional` requires a void return type", sp))
        },
        None => None,
    }
}

/// A declared parameter as the receiver rules read it: its name, the name of its type, and
/// whether it is an extension method's `this`.
#[derive(Debug)]
pub struct ReceiverParam {
    pub name: String,
    pub type_text: String,
    pub is_extension_this: bool,
}

/// The plain values of a parameter for the receiver rules.
pub open spec fn receiver_model(p: ReceiverParam) -> (Seq<char>, Seq<char>, bool) {
    (p.name@, p.type_text@, p.is_extension_this)
}

/// The plain values of a list of parameters.
pub open spec fn receiver_models(ps: Seq<ReceiverParam>) -> Seq<(Seq<char>, Seq<char>, bool)> {
    ps.map_values(|p: ReceiverParam| receiver_model(p))
}

/// Whether a parameter is written as the receiver: an extension `this`, `this` in any ASCII
/// case, or `self`.
pub open spec fn is_receiver(p: (Seq<char>, Seq<char>, bool)) -> bool {
    p.2 || crate::text::eq_ignore_ascii_case(p.0, "this"@) || p.0 == "self"@
}

/// The parameters of a function after its receiver is settled: a method that is not static gets
/// a leading `self` of type `Self` unless it already starts with a receiver, and a receiver
/// typed `var` gets the type `Self`. Other functions keep their parameters.
pub open spec fn receiver_params(
    ps: Seq<(Seq<char>, Seq<char>, bool)>,
    is_method: bool,
    is_static: bool,
) -> Seq<(Seq<char>, Seq<char>, bool)> {
    if !is_method || is_static {
        ps
    } else if ps.len() == 0 || !is_receiver(ps[0]) {
        ps.insert(0, ("self"@, "Self"@, false))
    } else if crate::text::eq_ignore_ascii_case(ps[0].1, "var"@) {
        ps.update(0, (ps[0].0, "Self"@, ps[0].2))
    } else {
        ps
    }
}

/// Settles the receiver of a function's parameters (see `receiver_params`).
pub fn with_receiver(params: Vec<ReceiverParam>, is_method: bool, is_static: bool) -> (r: Vec<ReceiverParam>)
    ensures
        receiver_models(r@) == receiver_params(receiver_models(params@), is_method, is_static),
{
    let mut params = params;
    if !is_method || is_static {
        return params;
    }
    let ghost m = receiver_models(params@);
    let receiver = params.len() > 0 && (params[0].is_extension_this || crate::text::str_eq_ignore_ascii_case(
        params[0].name.as_str(),
        "this",
    ) || str_eq(params[0].name.as_str(), "self"));
    proof {
        reveal_strlit("this");
        reveal_strlit("self");
        if params.len() > 0 {
            assert(m[0] == receiver_model(params@[0]));
        }
    }
    if !receiver {
        params.insert(0, ReceiverParam { name: owned("self"), type_text: owned("Self"), is_extension_this: false });
        proof {
            reveal_strlit("Self");
            assert(receiver_models(params@) =~= m.insert(0, ("self"@, "Self"@, false)));
        }
        return params;
    }
    if crate::text::str_eq_ignore_ascii_case(params[0].type_text.as_str(), "var") {
        let first = params.remove(0);
        params.insert(0, ReceiverParam { name: first.name, type_text: owned("Self"), is_extension_this: first.is_extension_this });
        proof {
            assert(receiver_models(params@) =~= m.update(0, (m[0].0, "Self"@, m[0].2)));
        }
    }
    params
}

} // verus!
