use vstd::prelude::*;

use std::rc::Rc;

use crate::ast::{Expression, FunctionDeclSymbol};
use crate::reflection::{TypeDescriptor, first_reflection, has_reflection, lemma_first_reflection};
use crate::layout::opt_view;
use crate::text::{namespace_chain, ns_chain, owned, qualified, qualify_with, str_eq, views};
use crate::types::Ty;
use crate::values::{ConstModel, ConstValue, Span};

verus! {

/// Who may see a declaration.
#[derive(Clone, Copy, Debug, PartialEq, Eq, Structural)]
pub enum Visibility {
    Public,
    Internal,
    Protected,
    Private,
    ProtectedInternal,
    PrivateProtected,
}

/// A field declared on a type.
#[derive(Debug)]
pub struct FieldSymbol {
    pub ty: String,
    pub visibility: Visibility,
    pub is_static: bool,
    pub is_readonly: bool,
    pub is_required: bool,
    pub span: Option<Span>,
    pub namespace: Option<String>,
}

/// A property declared on a type.
#[derive(Debug)]
pub struct PropertySymbol {
    pub ty: String,
    pub is_static: bool,
    /// The names of the property's accessors (`get`, `set`, `init`).
    pub accessors: Vec<String>,
    pub span: Option<Span>,
    pub is_required: bool,
    pub is_nullable: bool,
    pub visibility: Visibility,
    pub namespace: Option<String>,
}

/// A named constant, at namespace level or declared on a type.
#[derive(Debug)]
pub struct ConstSymbol {
    pub qualified: String,
    pub name: String,
    pub owner: Option<String>,
    pub namespace: Option<String>,
    pub ty: Rc<Ty>,
    pub initializer: Rc<Expression>,
    pub visibility: Visibility,
    pub span: Option<Span>,
    /// The constant's value, once it is known.
    pub value: Option<ConstValue>,
}

/// A static member that a `using static` import brings into scope, with the type that owns it.
#[derive(Debug)]
pub enum StaticUsingCandidate {
    Field { owner: String, symbol: FieldSymbol },
    Property { owner: String, symbol: PropertySymbol },
    Const { owner: String, symbol: ConstSymbol },
}

impl StaticUsingCandidate {
    /// The type that owns the member.
    pub fn owner(&self) -> (r: &str)
        ensures
            r@ == match *self {
                StaticUsingCandidate::Field { owner, .. } => owner@,
                StaticUsingCandidate::Property { owner, .. } => owner@,
                StaticUsingCandidate::Const { owner, .. } => owner@,
            },
    {
        match self {
            StaticUsingCandidate::Field { owner, .. } => owner.as_str(),
            StaticUsingCandidate::Property { owner, .. } => owner.as_str(),
            StaticUsingCandidate::Const { owner, .. } => owner.as_str(),
        }
    }
}

/// The declarations that constant evaluation can look up.
#[derive(Debug)]
pub struct SymbolIndex {
    /// Constants, in declaration order.
    pub constants: Vec<ConstSymbol>,
    /// Function declarations, in declaration order; overloads share a qualified name.
    pub functions: Vec<Rc<FunctionDeclSymbol>>,
    /// Reflection descriptors of exported types, keyed by the type's path.
    pub reflections: Vec<(String, TypeDescriptor)>,
}

/// The qualified names of the constants, in order.
pub open spec fn const_names(c: Seq<ConstSymbol>) -> Seq<Seq<char>> {
    c.map_values(|s: ConstSymbol| s.qualified@)
}

/// The qualified names of the functions, in order.
pub open spec fn fn_names(f: Seq<Rc<FunctionDeclSymbol>>) -> Seq<Seq<char>> {
    f.map_values(|s: Rc<FunctionDeclSymbol>| s.qualified@)
}

/// The first position at which `p` holds of a constant.
pub open spec fn first_const(c: Seq<ConstSymbol>, p: spec_fn(ConstSymbol) -> bool) -> Option<int> {
    if exists|i: int| 0 <= i < c.len() && p(c[i]) {
        Some(
            choose|i: int|
                0 <= i < c.len() && p(c[i]) && forall|j: int| 0 <= j < i ==> !p(#[trigger] c[j]),
        )
    } else {
        None
    }
}

/// Whether `i` is the first position at which `p` holds.
pub open spec fn first_at(c: Seq<ConstSymbol>, p: spec_fn(ConstSymbol) -> bool, i: int) -> bool {
    0 <= i < c.len() && p(c[i]) && forall|j: int| 0 <= j < i ==> !p(#[trigger] c[j])
}

proof fn lemma_first_const(c: Seq<ConstSymbol>, p: spec_fn(ConstSymbol) -> bool, i: int)
    requires
        first_at(c, p, i),
    ensures
        first_const(c, p) == Some(i),
{
    let k = choose|k: int|
        0 <= k < c.len() && p(c[k]) && forall|j: int| 0 <= j < k ==> !p(#[trigger] c[j]);
    if k < i {
        assert(!p(c[k]));
    } else if k > i {
        assert(!p(c[i]));
    }
}

proof fn lemma_exists_first(c: Seq<ConstSymbol>, p: spec_fn(ConstSymbol) -> bool, i: int)
    requires
        0 <= i < c.len(),
        p(c[i]),
    ensures
        exists|k: int| first_at(c, p, k),
    decreases i,
{
    if exists|k: int| 0 <= k < i && p(c[k]) {
        let k = choose|k: int| 0 <= k < i && p(c[k]);
        lemma_exists_first(c, p, k);
    } else {
        assert(first_at(c, p, i));
    }
}

pub proof fn lemma_first_const_some(c: Seq<ConstSymbol>, p: spec_fn(ConstSymbol) -> bool)
    requires
        first_const(c, p) is Some,
    ensures
        first_at(c, p, first_const(c, p)->0),
{
    let i = choose|i: int| 0 <= i < c.len() && p(c[i]);
    lemma_exists_first(c, p, i);
}

/// A constant named by its qualified name.
pub open spec fn named_const(q: Seq<char>) -> spec_fn(ConstSymbol) -> bool {
    |s: ConstSymbol| s.qualified@ == q
}

/// A constant declared on the type `owner` under the simple name `name`.
pub open spec fn owned_const(owner: Seq<char>, name: Seq<char>) -> spec_fn(ConstSymbol) -> bool {
    |s: ConstSymbol| s.owner is Some && s.owner->0@ == owner && s.name@ == name
}

/// A namespace-level constant (one without an owning type) with qualified name `q`.
pub open spec fn free_const(q: Seq<char>) -> spec_fn(ConstSymbol) -> bool {
    |s: ConstSymbol| s.qualified@ == q && s.owner is None
}

/// How a constant is sought.
pub enum ConstLookup<'a> {
    /// By qualified name.
    Qualified,
    /// By simple name, on the given owning type.
    Owned(&'a str),
    /// By qualified name, among namespace-level constants.
    Free,
}

/// The constant sought by a lookup of `q`.
pub open spec fn const_pred(q: Seq<char>, mode: ConstLookup) -> spec_fn(ConstSymbol) -> bool {
    match mode {
        ConstLookup::Qualified => named_const(q),
        ConstLookup::Owned(o) => owned_const(o@, q),
        ConstLookup::Free => free_const(q),
    }
}

impl SymbolIndex {
    /// An index with no declarations.
    pub fn new() -> (r: SymbolIndex)
        ensures
            r.constants@.len() == 0,
            r.functions@.len() == 0,
            r.reflections@.len() == 0,
    {
        SymbolIndex { constants: Vec::new(), functions: Vec::new(), reflections: Vec::new() }
    }

    fn find_const(&self, q: &str, mode: ConstLookup) -> (r: Option<usize>)
        ensures
            match r {
                Some(i) => first_const(self.constants@, const_pred(q@, mode)) == Some(i as int),
                None => first_const(self.constants@, const_pred(q@, mode)) is None,
            },
    {
        let ghost p = const_pred(q@, mode);
        let mut i: usize = 0;
        while i < self.constants.len()
            invariant
                i <= self.constants.len(),
                p == const_pred(q@, mode),
                forall|j: int| 0 <= j < i ==> !p(#[trigger] self.constants@[j]),
            decreases self.constants.len() - i,
        {
            let c = &self.constants[i];
            let hit = match mode {
                ConstLookup::Qualified => str_eq(c.qualified.as_str(), q),
                ConstLookup::Owned(o) => match &c.owner {
                    Some(co) => str_eq(co.as_str(), o) && str_eq(c.name.as_str(), q),
                    None => false,
                },
                ConstLookup::Free => c.owner.is_none() && str_eq(c.qualified.as_str(), q),
            };
            if hit {
                proof {
                    lemma_first_const(self.constants@, p, i as int);
                }
                return Some(i);
            }
            i = i + 1;
        }
        None
    }

    /// The position of the constant with qualified name `qualified`.
    pub fn const_symbol(&self, qualified: &str) -> (r: Option<usize>)
        ensures
            match r {
                Some(i) => first_const(self.constants@, named_const(qualified@)) == Some(i as int),
                None => first_const(self.constants@, named_const(qualified@)) is None,
            },
    {
        self.find_const(qualified, ConstLookup::Qualified)
    }

    /// The position of the constant `name` declared on the type `owner`.
    pub fn type_const(&self, owner: &str, name: &str) -> (r: Option<usize>)
        ensures
            match r {
                Some(i) => first_const(self.constants@, owned_const(owner@, name@)) == Some(
                    i as int,
                ),
                None => first_const(self.constants@, owned_const(owner@, name@)) is None,
            },
    {
        self.find_const(name, ConstLookup::Owned(owner))
    }

    /// The namespace-level constant that `name` denotes from `namespace`: `name` qualified by
    /// the namespace and then by each enclosing namespace, innermost first, then `name` itself.
    pub fn namespace_const(&self, namespace: Option<&str>, name: &str) -> (r: Option<usize>)
        ensures
            match r {
                Some(i) => exists|k: int|
                    0 <= k < free_candidates(opt_view(namespace), name@).len()
                        && first_const(
                        self.constants@,
                        free_const(free_candidates(opt_view(namespace), name@)[k]),
                    ) == Some(i as int) && forall|j: int|
                        0 <= j < k ==> first_const(
                            self.constants@,
                            free_const(#[trigger] free_candidates(opt_view(namespace), name@)[j]),
                        ) is None,
                None => forall|j: int|
                    0 <= j < free_candidates(opt_view(namespace), name@).len() ==> first_const(
                        self.constants@,
                        free_const(#[trigger] free_candidates(opt_view(namespace), name@)[j]),
                    ) is None,
            },
    {
        let mut cands: Vec<String> = Vec::new();
        if let Some(ns) = namespace {
            let chain = namespace_chain(ns);
            let mut i: usize = 0;
            while i < chain.len()
                invariant
                    i <= chain.len(),
                    views(chain@) == ns_chain(ns@),
                    views(cands@) == ns_chain(ns@).subrange(0, i as int).map_values(
                        |p: Seq<char>| qualify_with(p, name@),
                    ),
                decreases chain.len() - i,
            {
                let ghost prev = cands@;
                let item = qualified(chain[i].as_str(), name);
                assert(views(chain@)[i as int] == chain@[i as int]@);
                cands.push(item);
                assert(views(cands@) =~= views(prev).push(item@));
                assert(views(cands@) =~= ns_chain(ns@).subrange(0, i + 1).map_values(
                    |p: Seq<char>| qualify_with(p, name@),
                ));
                i = i + 1;
            }
            assert(ns_chain(ns@).subrange(0, chain.len() as int) =~= ns_chain(ns@));
        }
        let ghost before = cands@;
        cands.push(owned(name));
        assert(views(cands@) =~= free_candidates(opt_view(namespace), name@));
        let mut k: usize = 0;
        while k < cands.len()
            invariant
                k <= cands.len(),
                views(cands@) == free_candidates(opt_view(namespace), name@),
                forall|j: int|
                    0 <= j < k ==> first_const(
                        self.constants@,
                        free_const(#[trigger] free_candidates(opt_view(namespace), name@)[j]),
                    ) is None,
            decreases cands.len() - k,
        {
            assert(views(cands@)[k as int] == cands@[k as int]@);
            if let Some(i) = self.find_const(cands[k].as_str(), ConstLookup::Free) {
                return Some(i);
            }
            k = k + 1;
        }
        None
    }

    /// The overloads declared under the qualified name `name`, in declaration order.
    pub fn function_decls(&self, name: &str) -> (r: Vec<Rc<FunctionDeclSymbol>>)
        ensures
            r@ == overloads(self.functions@, name@),
    {
        let mut out: Vec<Rc<FunctionDeclSymbol>> = Vec::new();
        let mut i: usize = 0;
        while i < self.functions.len()
            invariant
                i <= self.functions.len(),
                out@ == overloads(self.functions@.subrange(0, i as int), name@),
            decreases self.functions.len() - i,
        {
            assert(self.functions@.subrange(0, i + 1).drop_last() =~= self.functions@.subrange(0, i as int));
            if str_eq(self.functions[i].qualified.as_str(), name) {
                out.push(Rc::clone(&self.functions[i]));
            }
            i = i + 1;
        }
        assert(self.functions@.subrange(0, self.functions.len() as int) =~= self.functions@);
        out
    }

    /// The number of overloads declared under `name`, when there is at least one.
    pub fn function_count(&self, name: &str) -> (r: Option<usize>)
        ensures
            overloads(self.functions@, name@).len() <= self.functions@.len(),
            r matches Some(c) ==> c == overloads(self.functions@, name@).len(),
            r == (if overloads(self.functions@, name@).len() > 0 {
                Some(overloads(self.functions@, name@).len() as usize)
            } else {
                None
            }),
    {
        proof {
            lemma_overloads_len(self.functions@, name@);
        }
        let decls = self.function_decls(name);
        if decls.len() > 0 {
            Some(decls.len())
        } else {
            None
        }
    }

    /// The qualified names of all constants, in declaration order.
    pub fn constant_names(&self) -> (r: Vec<String>)
        ensures
            views(r@) == const_names(self.constants@),
    {
        let mut out: Vec<String> = Vec::new();
        let mut i: usize = 0;
        while i < self.constants.len()
            invariant
                i <= self.constants.len(),
                views(out@) == const_names(self.constants@).subrange(0, i as int),
            decreases self.constants.len() - i,
        {
            let ghost prev = out@;
            let item = self.constants[i].qualified.clone();
            out.push(item);
            assert(views(out@) =~= views(prev).push(item@));
            assert(views(out@) =~= const_names(self.constants@).subrange(0, i + 1));
            i = i + 1;
        }
        assert(const_names(self.constants@).subrange(0, self.constants.len() as int) =~= const_names(
            self.constants@,
        ));
        out
    }

    /// Records the value of the constant named `qualified` (the first so named).
    pub fn update_const_value(&mut self, qualified: &str, value: ConstValue)
        ensures
            const_names(final(self).constants@) == const_names(old(self).constants@),
            final(self).functions == old(self).functions,
            final(self).reflections == old(self).reflections,
            match first_const(old(self).constants@, named_const(qualified@)) {
                Some(i) => final(self).constants@[i].value == Some(value) && forall|j: int|
                    0 <= j < old(self).constants@.len() && j != i ==> final(self).constants@[j]
                        == old(self).constants@[j],
                None => final(self).constants@ == old(self).constants@,
            },
            forall|j: int|
                0 <= j < old(self).constants@.len() ==> {
                    let a = #[trigger] final(self).constants@[j];
                    let b = old(self).constants@[j];
                    a.qualified == b.qualified && a.name == b.name && a.owner == b.owner
                        && a.namespace == b.namespace && a.ty == b.ty && a.initializer
                        == b.initializer && a.span == b.span
                },
    {
        if let Some(i) = self.const_symbol(qualified) {
            proof {
                lemma_first_const_some(self.constants@, named_const(qualified@));
            }
            let mut c = self.constants.remove(i);
            c.value = Some(value);
            self.constants.insert(i, c);
            assert(const_names(self.constants@) =~= const_names(old(self).constants@));
        }
    }

    /// The reflection descriptor recorded for the type `path` (the first one).
    pub fn reflection_descriptor(&self, path: &str) -> (r: Option<&TypeDescriptor>)
        ensures
            has_reflection(self.reflections@, path@) ==> (r matches Some(d) && *d
                == self.reflections@[first_reflection(self.reflections@, path@)].1),
            !has_reflection(self.reflections@, path@) ==> r is None,
    {
        let mut i: usize = 0;
        while i < self.reflections.len()
            invariant
                i <= self.reflections.len(),
                forall|j: int| 0 <= j < i ==> #[trigger] self.reflections@[j].0@ != path@,
            decreases self.reflections.len() - i,
        {
            if str_eq(self.reflections[i].0.as_str(), path) {
                proof {
                    lemma_first_reflection(self.reflections@, path@, i as int);
                }
                return Some(&self.reflections[i].1);
            }
            i = i + 1;
        }
        None
    }
}

/// The names a namespace-level constant `name` may have, seen from `namespace`.
pub open spec fn free_candidates(namespace: Option<Seq<char>>, name: Seq<char>) -> Seq<Seq<char>> {
    match namespace {
        Some(ns) => ns_chain(ns).map_values(|p: Seq<char>| qualify_with(p, name)).push(name),
        None => seq![name],
    }
}

/// The functions declared under the qualified name `name`, in order.
pub open spec fn overloads(f: Seq<Rc<FunctionDeclSymbol>>, name: Seq<char>) -> Seq<Rc<FunctionDeclSymbol>>
    decreases f.len(),
{
    if f.len() == 0 {
        f
    } else if f.last().qualified@ == name {
        overloads(f.drop_last(), name).push(f.last())
    } else {
        overloads(f.drop_last(), name)
    }
}

/// There are no more overloads of a name than functions.
pub proof fn lemma_overloads_len(f: Seq<Rc<FunctionDeclSymbol>>, name: Seq<char>)
    ensures
        overloads(f, name).len() <= f.len(),
    decreases f.len(),
{
    if f.len() > 0 {
        lemma_overloads_len(f.drop_last(), name);
    }
}

} // verus!
