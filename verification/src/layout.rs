use vstd::prelude::*;

use crate::text::{
    contains_seq, contains_str, dots_to_colons, first_known, first_match, is_first,
    is_first_known, lemma_first_known, lemma_first_match, lemma_no_match, namespace_chain,
    ns_chain, owned, qualified, qualify_with, replace_dots, str_eq, views,
};
use crate::types::{Ty, canonical, canonical_name};

verus! {

/// The kind of a type's layout.
#[derive(Clone, Copy, Debug, PartialEq, Eq, Structural)]
pub enum LayoutKind {
    Struct,
    Class,
    Enum,
    Union,
}

/// The layout of a field (or of a union view).
#[derive(Debug)]
pub struct FieldLayout {
    pub name: String,
    pub ty: String,
    pub offset: Option<usize>,
    pub is_readonly: bool,
    pub is_required: bool,
    pub display_name: Option<String>,
}

/// A variant of an enum layout.
#[derive(Debug)]
pub struct EnumVariantLayout {
    pub name: String,
    pub discriminant: i128,
}

/// The layout of a user type.
#[derive(Debug)]
pub struct TypeLayout {
    pub kind: LayoutKind,
    pub name: String,
    pub size: Option<usize>,
    pub align: Option<usize>,
    pub fields: Vec<FieldLayout>,
    pub variants: Vec<EnumVariantLayout>,
    pub bases: Vec<String>,
}

/// The size and alignment of a primitive type.
#[derive(Debug)]
pub struct PrimitiveLayout {
    pub name: String,
    pub size: usize,
    pub align: usize,
    /// Whether the type takes the size and alignment of a pointer instead.
    pub pointer_sized: bool,
}

/// The layouts known to the compiler.
#[derive(Debug)]
pub struct TypeLayoutTable {
    pub types: Vec<TypeLayout>,
    pub primitives: Vec<PrimitiveLayout>,
    pub pointer_size: usize,
    pub pointer_align: usize,
}

/// The names of a sequence of layouts.
pub open spec fn layout_names(types: Seq<TypeLayout>) -> Seq<Seq<char>> {
    types.map_values(|l: TypeLayout| l.name@)
}

/// The names of a sequence of primitive layouts.
pub open spec fn primitive_names(p: Seq<PrimitiveLayout>) -> Seq<Seq<char>> {
    p.map_values(|l: PrimitiveLayout| l.name@)
}

/// The size and alignment recorded in a layout, when both are known.
pub open spec fn layout_sa(l: TypeLayout) -> Option<(usize, usize)> {
    if l.size is Some && l.align is Some {
        Some((l.size->0, l.align->0))
    } else {
        None
    }
}

/// The size and alignment of a primitive layout for the table's pointer width.
pub open spec fn primitive_sa(t: TypeLayoutTable, p: PrimitiveLayout) -> (usize, usize) {
    if p.pointer_sized {
        (t.pointer_size, t.pointer_align)
    } else {
        (p.size, p.align)
    }
}

/// The layout registered under `name`, if any (the first one).
pub open spec fn spec_layout_for(t: TypeLayoutTable, name: Seq<char>) -> Option<TypeLayout> {
    match first_match(layout_names(t.types@), name) {
        Some(i) => Some(t.types@[i]),
        None => None,
    }
}

/// The type names tried, in order, when resolving `name` from a namespace and owner:
/// the name, the name with `.` written `::`, the owner's member of that name, then
/// the name under each enclosing namespace, innermost first.
pub open spec fn type_name_candidates(
    namespace: Option<Seq<char>>,
    owner: Option<Seq<char>>,
    name: Seq<char>,
) -> Seq<Seq<char>> {
    let c = dots_to_colons(name);
    let base = seq![name, c];
    let with_owner = match owner {
        Some(o) => base.push(qualify_with(o, c)),
        None => base,
    };
    match namespace {
        Some(ns) => with_owner + ns_chain(ns).map_values(|p: Seq<char>| qualify_with(p, c)),
        None => with_owner,
    }
}

/// The layout name that `name` resolves to from the given namespace and owner.
pub open spec fn spec_resolve_type(
    t: TypeLayoutTable,
    namespace: Option<Seq<char>>,
    owner: Option<Seq<char>>,
    name: Seq<char>,
) -> Option<Seq<char>> {
    let cands = type_name_candidates(namespace, owner, name);
    match first_known(layout_names(t.types@), cands) {
        Some(i) => Some(cands[i]),
        None => None,
    }
}

/// The size and alignment of a named type: a primitive first, then a layout of that
/// name, then (for names without `::`) the layout the name resolves to.
pub open spec fn spec_named_sa(t: TypeLayoutTable, name: Seq<char>, namespace: Option<Seq<char>>) -> Option<
    (usize, usize),
> {
    match first_match(primitive_names(t.primitives@), name) {
        Some(i) => Some(primitive_sa(t, t.primitives@[i])),
        None => match spec_layout_for(t, name) {
            Some(l) => layout_sa(l),
            None => if contains_seq(name, "::"@) {
                None
            } else {
                match spec_resolve_type(t, namespace, None, name) {
                    Some(r) => match spec_layout_for(t, r) {
                        Some(l) => layout_sa(l),
                        None => None,
                    },
                    None => None,
                }
            },
        },
    }
}

/// The size and alignment of a type.
pub open spec fn spec_ty_sa(t: TypeLayoutTable, ty: Ty, namespace: Option<Seq<char>>) -> Option<
    (usize, usize),
> {
    match ty {
        Ty::Unit => Some((0, 1)),
        Ty::Unknown => None,
        Ty::Array { .. } | Ty::Vec(_) | Ty::Fn { .. } | Ty::Pointer(_) | Ty::Ref { .. } | Ty::Rc(
            _,
        ) | Ty::Arc(_) => Some((t.pointer_size, t.pointer_align)),
        Ty::TraitObject { .. } => Some(((t.pointer_size * 2) as usize, t.pointer_align)),
        Ty::Span(_) | Ty::ReadOnlySpan(_) | Ty::Tuple(_) => match spec_layout_for(
            t,
            canonical(ty),
        ) {
            Some(l) => layout_sa(l),
            None => None,
        },
        Ty::String => spec_named_sa(t, "string"@, namespace),
        Ty::Str => spec_named_sa(t, "str"@, namespace),
        Ty::Named { .. } => spec_named_sa(t, canonical(ty), namespace),
        Ty::Nullable(inner) => match spec_layout_for(t, canonical(*inner) + "?"@) {
            Some(l) => layout_sa(l),
            None => None,
        },
    }
}

/// The optional view of an optional string slice.
pub open spec fn opt_view(o: Option<&str>) -> Option<Seq<char>> {
    match o {
        Some(s) => Some(s@),
        None => None,
    }
}

/// The size and alignment recorded in a layout, when both are known.
pub fn layout_size_and_align(layout: &TypeLayout) -> (r: Option<(usize, usize)>)
    ensures
        r == layout_sa(*layout),
{
    match (layout.size, layout.align) {
        (Some(s), Some(a)) => Some((s, a)),
        _ => None,
    }
}

/// The name of the layout of a nullable `inner`: its canonical name followed by `?`.
pub fn nullable_type_name(inner: &Ty) -> (r: String)
    ensures
        r@ == canonical(*inner) + "?"@,
{
    let mut r = canonical_name(inner);
    r.append("?");
    r
}

impl TypeLayoutTable {
    /// Whether the table is usable: a pointer takes between 1 and 16 bytes.
    pub open spec fn wf(&self) -> bool {
        1 <= self.pointer_size <= 16
    }

    /// An empty table for the given pointer width.
    pub fn new(pointer_size: usize, pointer_align: usize) -> (t: TypeLayoutTable)
        ensures
            t.types@.len() == 0,
            t.primitives@.len() == 0,
            t.pointer_size == pointer_size,
            t.pointer_align == pointer_align,
    {
        TypeLayoutTable { types: Vec::new(), primitives: Vec::new(), pointer_size, pointer_align }
    }

    /// The position of the first layout named `name`.
    pub fn layout_index(&self, name: &str) -> (r: Option<usize>)
        ensures
            r matches Some(i) ==> first_match(layout_names(self.types@), name@) == Some(i as int),
            r is None ==> first_match(layout_names(self.types@), name@) is None,
    {
        let mut i: usize = 0;
        while i < self.types.len()
            invariant
                i <= self.types.len(),
                forall|k: int| 0 <= k < i ==> layout_names(self.types@)[k] != name@,
            decreases self.types.len() - i,
        {
            if str_eq(self.types[i].name.as_str(), name) {
                proof {
                    assert(is_first(layout_names(self.types@), name@, i as int));
                    lemma_first_match(layout_names(self.types@), name@, i as int);
                }
                return Some(i);
            }
            i = i + 1;
        }
        proof {
            lemma_no_match(layout_names(self.types@), name@);
        }
        None
    }

    /// The layout registered under `name`, if any.
    pub fn layout_for_name(&self, name: &str) -> (r: Option<&TypeLayout>)
        ensures
            r matches Some(l) ==> spec_layout_for(*self, name@) == Some(*l),
            r is None ==> spec_layout_for(*self, name@) is None,
    {
        match self.layout_index(name) {
            Some(i) => Some(&self.types[i]),
            None => None,
        }
    }

    /// Whether a layout is registered under `name`.
    pub fn contains_type(&self, name: &str) -> (r: bool)
        ensures
            r == layout_names(self.types@).contains(name@),
    {
        let found = self.layout_index(name);
        proof {
            if found is Some {
                let i = found->0 as int;
                let j = choose|j: int| is_first(layout_names(self.types@), name@, j);
                assert(is_first(layout_names(self.types@), name@, j));
                assert(layout_names(self.types@)[j] == name@);
            } else {
                if layout_names(self.types@).contains(name@) {
                    let k = choose|k: int|
                        0 <= k < layout_names(self.types@).len() && layout_names(self.types@)[k]
                            == name@;
                    crate::text::lemma_first_match_exists(layout_names(self.types@), name@, k);
                }
            }
        }
        found.is_some()
    }

    /// The size and alignment of the primitive named `name`, if there is one.
    pub fn primitive_size_align(&self, name: &str) -> (r: Option<(usize, usize)>)
        ensures
            r == (match first_match(primitive_names(self.primitives@), name@) {
                Some(i) => Some(primitive_sa(*self, self.primitives@[i])),
                None => None,
            }),
    {
        let mut i: usize = 0;
        while i < self.primitives.len()
            invariant
                i <= self.primitives.len(),
                forall|k: int| 0 <= k < i ==> primitive_names(self.primitives@)[k] != name@,
            decreases self.primitives.len() - i,
        {
            if str_eq(self.primitives[i].name.as_str(), name) {
                proof {
                    assert(is_first(primitive_names(self.primitives@), name@, i as int));
                    lemma_first_match(primitive_names(self.primitives@), name@, i as int);
                }
                let p = &self.primitives[i];
                if p.pointer_sized {
                    return Some((self.pointer_size, self.pointer_align));
                } else {
                    return Some((p.size, p.align));
                }
            }
            i = i + 1;
        }
        proof {
            lemma_no_match(primitive_names(self.primitives@), name@);
        }
        None
    }

    fn type_candidates(namespace: Option<&str>, owner: Option<&str>, name: &str) -> (r: Vec<
        String,
    >)
        ensures
            views(r@) == type_name_candidates(opt_view(namespace), opt_view(owner), name@),
    {
        let c = replace_dots(name);
        let mut out: Vec<String> = Vec::new();
        out.push(owned(name));
        out.push(c.clone());
        let ghost base = seq![name@, c@];
        assert(views(out@) =~= base);
        if let Some(o) = owner {
            out.push(qualified(o, c.as_str()));
            assert(views(out@) =~= base.push(qualify_with(o@, c@)));
        }
        let ghost with_owner = views(out@);
        if let Some(ns) = namespace {
            let chain = namespace_chain(ns);
            let mut i: usize = 0;
            while i < chain.len()
                invariant
                    i <= chain.len(),
                    views(chain@) == ns_chain(ns@),
                    views(out@) == with_owner + ns_chain(ns@).subrange(0, i as int).map_values(
                        |p: Seq<char>| qualify_with(p, c@),
                    ),
                decreases chain.len() - i,
            {
                let ghost prev = views(out@);
                let q = qualified(chain[i].as_str(), c.as_str());
                out.push(q);
                assert(views(out@) =~= prev.push(q@));
                assert(chain@[i as int]@ == views(chain@)[i as int]);
                i = i + 1;
                assert(views(out@) =~= with_owner + ns_chain(ns@).subrange(0, i as int).map_values(
                    |p: Seq<char>| qualify_with(p, c@),
                ));
            }
            assert(ns_chain(ns@).subrange(0, chain@.len() as int) =~= ns_chain(ns@));
        }
        out
    }

    /// The layout name that `name` resolves to from a namespace and an owner type:
    /// the first of `type_name_candidates` that the table holds.
    pub fn resolve_type_layout_name(
        &self,
        namespace: Option<&str>,
        owner: Option<&str>,
        name: &str,
    ) -> (r: Option<String>)
        ensures
            r matches Some(s) ==> spec_resolve_type(*self, opt_view(namespace), opt_view(owner), name@)
                == Some(s@),
            r is None ==> spec_resolve_type(*self, opt_view(namespace), opt_view(owner), name@) is None,
    {
        let cands = Self::type_candidates(namespace, owner, name);
        let ghost known = layout_names(self.types@);
        let mut i: usize = 0;
        while i < cands.len()
            invariant
                i <= cands.len(),
                known == layout_names(self.types@),
                views(cands@) == type_name_candidates(opt_view(namespace), opt_view(owner), name@),
                forall|k: int| 0 <= k < i ==> !known.contains(#[trigger] views(cands@)[k]),
            decreases cands.len() - i,
        {
            if self.contains_type(cands[i].as_str()) {
                proof {
                    assert(is_first_known(known, views(cands@), i as int));
                    lemma_first_known(known, views(cands@), i as int);
                    assert(views(cands@)[i as int] == cands@[i as int]@);
                    let cs = type_name_candidates(opt_view(namespace), opt_view(owner), name@);
                    assert(cs == views(cands@));
                    assert(first_known(layout_names(self.types@), cs) == Some(i as int));
                    assert(spec_resolve_type(*self, opt_view(namespace), opt_view(owner), name@) == Some(cs[i as int]));
                }
                return Some(cands[i].clone());
            }
            i = i + 1;
        }
        None
    }

    /// The size and alignment of a named type (see `spec_named_sa`).
    pub fn size_and_align_for_named_type(&self, name: &str, namespace: Option<&str>) -> (r: Option<
        (usize, usize),
    >)
        ensures
            r == spec_named_sa(*self, name@, opt_view(namespace)),
    {
        if let Some(sa) = self.primitive_size_align(name) {
            return Some(sa);
        }
        if let Some(layout) = self.layout_for_name(name) {
            return layout_size_and_align(layout);
        }
        if contains_str(name, "::") {
            return None;
        }
        match self.resolve_type_layout_name(namespace, None, name) {
            Some(resolved) => match self.layout_for_name(resolved.as_str()) {
                Some(layout) => layout_size_and_align(layout),
                None => None,
            },
            None => None,
        }
    }

    fn layout_sa_by_name(&self, name: &str) -> (r: Option<(usize, usize)>)
        ensures
            r == (match spec_layout_for(*self, name@) {
                Some(l) => layout_sa(l),
                None => None,
            }),
    {
        match self.layout_for_name(name) {
            Some(layout) => layout_size_and_align(layout),
            None => None,
        }
    }

    /// The size and alignment of a type (see `spec_ty_sa`).
    pub fn size_and_align_for_ty(&self, ty: &Ty, namespace: Option<&str>) -> (r: Option<
        (usize, usize),
    >)
        requires
            self.wf(),
        ensures
            r == spec_ty_sa(*self, *ty, opt_view(namespace)),
    {
        match ty {
            Ty::Unit => Some((0, 1)),
            Ty::Unknown => None,
            Ty::Array { .. } | Ty::Vec(_) | Ty::Fn { .. } | Ty::Pointer(_) | Ty::Ref { .. } | Ty::Rc(
                _,
            ) | Ty::Arc(_) => Some((self.pointer_size, self.pointer_align)),
            Ty::TraitObject { .. } => Some((self.pointer_size * 2, self.pointer_align)),
            Ty::Span(_) | Ty::ReadOnlySpan(_) | Ty::Tuple(_) => {
                let name = canonical_name(ty);
                self.layout_sa_by_name(name.as_str())
            },
            Ty::String => self.size_and_align_for_named_type("string", namespace),
            Ty::Str => self.size_and_align_for_named_type("str", namespace),
            Ty::Named { .. } => {
                let name = canonical_name(ty);
                self.size_and_align_for_named_type(name.as_str(), namespace)
            },
            Ty::Nullable(inner) => {
                let key = nullable_type_name(inner);
                self.layout_sa_by_name(key.as_str())
            },
        }
    }
}

} // verus!
