use vstd::prelude::*;

use crate::text::{cat, chars_of, contains_str, join, join_seq, owned, str_eq, string_of, views};

verus! {

/// A type of the language.
#[derive(Debug)]
pub enum Ty {
    Unit,
    Unknown,
    String,
    Str,
    Named { name: String, args: Vec<Ty> },
    Nullable(Box<Ty>),
    Pointer(Box<Ty>),
    Ref { element: Box<Ty>, readonly: bool },
    Array { element: Box<Ty>, rank: usize },
    Vec(Box<Ty>),
    Span(Box<Ty>),
    ReadOnlySpan(Box<Ty>),
    Rc(Box<Ty>),
    Arc(Box<Ty>),
    Tuple(Vec<Ty>),
    Fn { params: Vec<Ty>, ret: Box<Ty> },
    TraitObject { name: String, opaque_impl: bool },
}

/// The number of elements in a type's list of component types, plus one.
pub open spec fn ty_width(t: Ty) -> nat {
    match t {
        Ty::Named { args, .. } => args@.len() + 1,
        Ty::Tuple(elements) => elements@.len() + 1,
        Ty::Fn { params, .. } => params@.len() + 1,
        _ => 0,
    }
}

/// The component types listed by a named, tuple or function type.
pub open spec fn ty_list(t: Ty) -> Seq<Ty> {
    match t {
        Ty::Named { args, .. } => args@,
        Ty::Tuple(elements) => elements@,
        Ty::Fn { params, .. } => params@,
        _ => Seq::empty(),
    }
}

/// `Name<arg>` text: the prefix, the component's name, and `>`.
pub open spec fn wrapped(prefix: Seq<char>, inner: Seq<char>) -> Seq<char> {
    prefix + inner + ">"@
}

/// The `,`-separators of an array of the given rank.
pub open spec fn rank_commas(rank: nat) -> Seq<char>
    decreases rank,
{
    if rank <= 1 {
        Seq::empty()
    } else {
        rank_commas((rank - 1) as nat).push(',')
    }
}

/// The canonical name of a type.
pub open spec fn canonical(t: Ty) -> Seq<char>
    decreases t, ty_width(t),
{
    match t {
        Ty::Unit => "void"@,
        Ty::Unknown => "<unknown>"@,
        Ty::String => "string"@,
        Ty::Str => "str"@,
        Ty::Named { name, args } => {
            if args@.len() == 0 {
                name@
            } else {
                name@ + "<"@ + join_seq(list_names(t, args@.len()), ", "@) + ">"@
            }
        },
        Ty::Nullable(inner) => canonical(*inner) + "?"@,
        Ty::Pointer(inner) => canonical(*inner) + "*"@,
        Ty::Ref { element, readonly } => if readonly {
            "ref readonly "@ + canonical(*element)
        } else {
            "ref "@ + canonical(*element)
        },
        Ty::Array { element, rank } => canonical(*element) + "["@ + rank_commas(rank as nat)
            + "]"@,
        Ty::Vec(inner) => wrapped("Vec<"@, canonical(*inner)),
        Ty::Span(inner) => wrapped("Span<"@, canonical(*inner)),
        Ty::ReadOnlySpan(inner) => wrapped("ReadOnlySpan<"@, canonical(*inner)),
        Ty::Rc(inner) => wrapped("Rc<"@, canonical(*inner)),
        Ty::Arc(inner) => wrapped("Arc<"@, canonical(*inner)),
        Ty::Tuple(elements) => "("@ + join_seq(list_names(t, elements@.len()), ", "@) + ")"@,
        Ty::Fn { params, ret } => "fn("@ + join_seq(list_names(t, params@.len()), ", "@)
            + ") -> "@ + canonical(*ret),
        Ty::TraitObject { name, opaque_impl } => if opaque_impl {
            "impl "@ + name@
        } else {
            "dyn "@ + name@
        },
    }
}

/// The canonical names of the first `n` component types of `t`.
pub open spec fn list_names(t: Ty, n: nat) -> Seq<Seq<char>>
    decreases t, n,
{
    match t {
        Ty::Named { args, .. } => if n == 0 || n > args@.len() {
            Seq::empty()
        } else {
            proof {
                assert(decreases_to!(t => args));
                assert(decreases_to!(args => args@));
                assert(decreases_to!(args@ => args@[n - 1]));
            }
            list_names(t, (n - 1) as nat).push(canonical(args@[n - 1]))
        },
        Ty::Tuple(elements) => if n == 0 || n > elements@.len() {
            Seq::empty()
        } else {
            proof {
                assert(decreases_to!(t => elements));
                assert(decreases_to!(elements => elements@));
                assert(decreases_to!(elements@ => elements@[n - 1]));
            }
            list_names(t, (n - 1) as nat).push(canonical(elements@[n - 1]))
        },
        Ty::Fn { params, .. } => if n == 0 || n > params@.len() {
            Seq::empty()
        } else {
            proof {
                assert(decreases_to!(t => params));
                assert(decreases_to!(params => params@));
                assert(decreases_to!(params@ => params@[n - 1]));
            }
            list_names(t, (n - 1) as nat).push(canonical(params@[n - 1]))
        },
        _ => Seq::empty(),
    }
}

fn names_of_list(t: &Ty, list: &Vec<Ty>) -> (r: Vec<String>)
    requires
        ty_list(*t) == list@,
        t is Named || t is Tuple || t is Fn,
    ensures
        views(r@) == list_names(*t, list@.len()),
    decreases *t, 0nat,
{
    let mut out: Vec<String> = Vec::new();
    let mut i: usize = 0;
    while i < list.len()
        invariant
            i <= list.len(),
            ty_list(*t) == list@,
            t is Named || t is Tuple || t is Fn,
            views(out@) == list_names(*t, i as nat),
        decreases list.len() - i,
    {
        proof {
            assert(list@ == ty_list(*t));
            if t is Named {
                assert(decreases_to!(*t => t->args));
                assert(decreases_to!(t->args => t->args@));
                assert(decreases_to!(t->args@ => t->args@[i as int]));
            } else if t is Tuple {
                assert(decreases_to!(*t => t->Tuple_0));
                assert(decreases_to!(t->Tuple_0 => t->Tuple_0@));
                assert(decreases_to!(t->Tuple_0@ => t->Tuple_0@[i as int]));
            } else {
                assert(decreases_to!(*t => t->params));
                assert(decreases_to!(t->params => t->params@));
                assert(decreases_to!(t->params@ => t->params@[i as int]));
            }
        }
        let name = canonical_name(&list[i]);
        let ghost prev = out@;
        out.push(name);
        i = i + 1;
        assert(views(out@) =~= views(prev).push(name@));
    }
    out
}

/// The canonical name of a type.
pub fn canonical_name(t: &Ty) -> (r: String)
    ensures
        r@ == canonical(*t),
    decreases *t, ty_width(*t) + 1,
{
    match t {
        Ty::Unit => owned("void"),
        Ty::Unknown => owned("<unknown>"),
        Ty::String => owned("string"),
        Ty::Str => owned("str"),
        Ty::Named { name, args } => {
            if args.len() == 0 {
                name.clone()
            } else {
                let names = names_of_list(t, args);
                let mut r = name.clone();
                r.append("<");
                let joined = join(&names, ", ");
                r.append(joined.as_str());
                r.append(">");
                r
            }
        },
        Ty::Nullable(inner) => {
            let mut r = canonical_name(inner);
            r.append("?");
            r
        },
        Ty::Pointer(inner) => {
            let mut r = canonical_name(inner);
            r.append("*");
            r
        },
        Ty::Ref { element, readonly } => {
            let inner = canonical_name(element);
            if *readonly {
                cat("ref readonly ", inner.as_str())
            } else {
                cat("ref ", inner.as_str())
            }
        },
        Ty::Array { element, rank } => {
            let mut r = canonical_name(element);
            r.append("[");
            let mut k: usize = 1;
            let mut commas: Vec<char> = Vec::new();
            while k < *rank
                invariant
                    1 <= k <= (if *rank >= 1 { *rank } else { 1 }),
                    commas@ == rank_commas(k as nat),
                decreases *rank - k,
            {
                commas.push(',');
                k = k + 1;
            }
            proof {
                if *rank <= 1 {
                    assert(rank_commas(*rank as nat) == rank_commas(k as nat));
                }
            }
            let c = string_of(&commas);
            r.append(c.as_str());
            r.append("]");
            r
        },
        Ty::Vec(inner) => {
            let mut r = cat("Vec<", canonical_name(inner).as_str());
            r.append(">");
            r
        },
        Ty::Span(inner) => {
            let mut r = cat("Span<", canonical_name(inner).as_str());
            r.append(">");
            r
        },
        Ty::ReadOnlySpan(inner) => {
            let mut r = cat("ReadOnlySpan<", canonical_name(inner).as_str());
            r.append(">");
            r
        },
        Ty::Rc(inner) => {
            let mut r = cat("Rc<", canonical_name(inner).as_str());
            r.append(">");
            r
        },
        Ty::Arc(inner) => {
            let mut r = cat("Arc<", canonical_name(inner).as_str());
            r.append(">");
            r
        },
        Ty::Tuple(elements) => {
            let names = names_of_list(t, elements);
            let mut r = owned("(");
            let joined = join(&names, ", ");
            r.append(joined.as_str());
            r.append(")");
            r
        },
        Ty::Fn { params, ret } => {
            let names = names_of_list(t, params);
            let mut r = owned("fn(");
            let joined = join(&names, ", ");
            r.append(joined.as_str());
            r.append(") -> ");
            let ret_name = canonical_name(ret);
            r.append(ret_name.as_str());
            r
        },
        Ty::TraitObject { name, opaque_impl } => {
            if *opaque_impl {
                cat("impl ", name.as_str())
            } else {
                cat("dyn ", name.as_str())
            }
        },
    }
}

/// Whether `c` is an ASCII whitespace character.
pub open spec fn is_ws(c: char) -> bool {
    c == ' ' || c == '\t' || c == '\n' || c == '\r' || c == '\x0B' || c == '\x0C'
}

/// `s` without leading whitespace.
pub open spec fn trim_start(s: Seq<char>) -> Seq<char>
    decreases s.len(),
{
    if s.len() > 0 && is_ws(s[0]) {
        trim_start(s.drop_first())
    } else {
        s
    }
}

/// `s` without trailing whitespace.
pub open spec fn trim_end(s: Seq<char>) -> Seq<char>
    decreases s.len(),
{
    if s.len() > 0 && is_ws(s.last()) {
        trim_end(s.drop_last())
    } else {
        s
    }
}

/// `s` without leading and trailing whitespace.
pub open spec fn trim(s: Seq<char>) -> Seq<char> {
    trim_end(trim_start(s))
}

fn is_ws_char(c: char) -> (r: bool)
    ensures
        r == is_ws(c),
{
    c == ' ' || c == '\t' || c == '\n' || c == '\r' || c == '\x0B' || c == '\x0C'
}

proof fn lemma_trim_start_skip(s: Seq<char>, i: int)
    requires
        0 <= i <= s.len(),
        forall|k: int| 0 <= k < i ==> is_ws(#[trigger] s[k]),
    ensures
        trim_start(s) == trim_start(s.subrange(i, s.len() as int)),
    decreases i,
{
    if i > 0 {
        lemma_trim_start_skip(s.drop_first(), i - 1);
        assert(s.drop_first().subrange(i - 1, s.drop_first().len() as int) =~= s.subrange(
            i,
            s.len() as int,
        ));
    } else {
        assert(s.subrange(0, s.len() as int) =~= s);
    }
}

proof fn lemma_trim_end_skip(s: Seq<char>, j: int)
    requires
        0 <= j <= s.len(),
        forall|k: int| j <= k < s.len() ==> is_ws(#[trigger] s[k]),
    ensures
        trim_end(s) == trim_end(s.subrange(0, j)),
    decreases s.len() - j,
{
    if j < s.len() {
        lemma_trim_end_skip(s.drop_last(), j);
        assert(s.drop_last().subrange(0, j) =~= s.subrange(0, j));
    } else {
        assert(s.subrange(0, j) =~= s);
    }
}

/// `v` without leading and trailing whitespace.
pub fn trim_chars(v: &Vec<char>) -> (r: Vec<char>)
    ensures
        r@ == trim(v@),
{
    let mut i: usize = 0;
    while i < v.len() && is_ws_char(v[i])
        invariant
            i <= v.len(),
            forall|k: int| 0 <= k < i ==> is_ws(#[trigger] v@[k]),
        decreases v.len() - i,
    {
        i = i + 1;
    }
    proof {
        lemma_trim_start_skip(v@, i as int);
    }
    let ghost rest = v@.subrange(i as int, v@.len() as int);
    let mut j: usize = v.len();
    while j > i && is_ws_char(v[j - 1])
        invariant
            i <= j <= v.len(),
            forall|k: int| j <= k < v.len() ==> is_ws(#[trigger] v@[k]),
        decreases j,
    {
        j = j - 1;
    }
    proof {
        assert(trim_start(rest) == rest);
        lemma_trim_end_skip(rest, j - i);
        assert(rest.subrange(0, j - i) =~= v@.subrange(i as int, j as int));
    }
    let mut out: Vec<char> = Vec::new();
    let mut k: usize = i;
    while k < j
        invariant
            i <= k <= j,
            j <= v.len(),
            out@ == v@.subrange(i as int, k as int),
        decreases j - k,
    {
        out.push(v[k]);
        k = k + 1;
        assert(out@ =~= v@.subrange(i as int, k as int));
    }
    proof {
        if i < v.len() {
            assert(!is_ws(rest[0]));
        }
    }
    out
}

/// `s` without leading and trailing whitespace.
pub fn trim_text(s: &str) -> (r: String)
    ensures
        r@ == trim(s@),
{
    let v = chars_of(s);
    string_of(&trim_chars(&v))
}

/// Characters allowed in a type name.
pub open spec fn name_char(c: char) -> bool {
    ('a' <= c && c <= 'z') || ('A' <= c && c <= 'Z') || ('0' <= c && c <= '9') || c == '_'
        || c == '.' || c == ':' || c == '<' || c == '>' || c == ',' || c == ' '
}

/// Characters that may start a type name.
pub open spec fn name_start_char(c: char) -> bool {
    ('a' <= c && c <= 'z') || ('A' <= c && c <= 'Z') || c == '_'
}

/// Whether `s` is a plain type name.
pub open spec fn valid_type_name(s: Seq<char>) -> bool {
    s.len() > 0 && name_start_char(s[0]) && forall|k: int| 0 <= k < s.len() ==> name_char(
        #[trigger] s[k],
    )
}

/// Whether `text` is written in the type grammar: a base type followed by any number
/// of `?`, `*` and `[]` suffixes, where a base type is `string`, `str`, `void` or a
/// plain name.
pub open spec fn type_text_valid(text: Seq<char>) -> bool
    decreases text.len(),
{
    let t = trim(text);
    if t.len() == 0 {
        false
    } else if t.last() == '?' || t.last() == '*' {
        proof { trim_len_le(text); }
        type_text_valid(t.drop_last())
    } else if t.len() >= 2 && t[t.len() - 2] == '[' && t.last() == ']' {
        proof { trim_len_le(text); }
        type_text_valid(t.subrange(0, t.len() - 2))
    } else {
        t == "string"@ || t == "str"@ || t == "void"@ || valid_type_name(t)
    }
}

/// Whether the type `ty` is what `text` denotes in the type grammar.
pub open spec fn type_denoted(text: Seq<char>, ty: Ty) -> bool
    decreases text.len(),
{
    let t = trim(text);
    if t.len() == 0 {
        false
    } else if t.last() == '?' {
        proof { trim_len_le(text); }
        (ty matches Ty::Nullable(inner) && type_denoted(t.drop_last(), *inner))
    } else if t.last() == '*' {
        proof { trim_len_le(text); }
        (ty matches Ty::Pointer(inner) && type_denoted(t.drop_last(), *inner))
    } else if t.len() >= 2 && t[t.len() - 2] == '[' && t.last() == ']' {
        proof { trim_len_le(text); }
        (ty matches Ty::Array { element, rank } && rank == 1 && type_denoted(
            t.subrange(0, t.len() - 2),
            *element,
        ))
    } else if t == "string"@ {
        ty is String
    } else if t == "str"@ {
        ty is Str
    } else if t == "void"@ {
        ty is Unit
    } else {
        valid_type_name(t) && (ty matches Ty::Named { name, args } && name@ == t && args@.len()
            == 0)
    }
}

/// Trimming never makes text longer.
pub proof fn trim_len_le(s: Seq<char>)
    ensures
        trim(s).len() <= s.len(),
{
    lemma_trim_start_len(s);
    lemma_trim_end_len(trim_start(s));
}

proof fn lemma_trim_start_len(s: Seq<char>)
    ensures
        trim_start(s).len() <= s.len(),
    decreases s.len(),
{
    if s.len() > 0 && is_ws(s[0]) {
        lemma_trim_start_len(s.drop_first());
    }
}

proof fn lemma_trim_end_len(s: Seq<char>)
    ensures
        trim_end(s).len() <= s.len(),
    decreases s.len(),
{
    if s.len() > 0 && is_ws(s.last()) {
        lemma_trim_end_len(s.drop_last());
    }
}

fn is_name_char(c: char) -> (r: bool)
    ensures
        r == name_char(c),
{
    ('a' <= c && c <= 'z') || ('A' <= c && c <= 'Z') || ('0' <= c && c <= '9') || c == '_'
        || c == '.' || c == ':' || c == '<' || c == '>' || c == ',' || c == ' '
}

fn is_valid_type_name(v: &Vec<char>) -> (r: bool)
    ensures
        r == valid_type_name(v@),
{
    if v.len() == 0 {
        return false;
    }
    let c = v[0];
    if !(('a' <= c && c <= 'z') || ('A' <= c && c <= 'Z') || c == '_') {
        return false;
    }
    let mut i: usize = 0;
    while i < v.len()
        invariant
            i <= v.len(),
            forall|k: int| 0 <= k < i ==> name_char(#[trigger] v@[k]),
        decreases v.len() - i,
    {
        if !is_name_char(v[i]) {
            return false;
        }
        i = i + 1;
    }
    true
}

fn literal_chars(s: &str) -> (v: Vec<char>)
    ensures
        v@ == s@,
{
    chars_of(s)
}

fn parse_type_chars(text: &Vec<char>) -> (r: Option<Ty>)
    ensures
        r is Some <==> type_text_valid(text@),
        r matches Some(t) ==> type_denoted(text@, t),
    decreases text@.len(),
{
    let t = trim_chars(text);
    proof {
        trim_len_le(text@);
    }
    let n = t.len();
    if n == 0 {
        return None;
    }
    if t[n - 1] == '?' || t[n - 1] == '*' {
        let mut prefix = t.clone();
        prefix.pop();
        assert(prefix@ =~= t@.drop_last());
        let inner = parse_type_chars(&prefix);
        return match inner {
            Some(i) => if t[n - 1] == '?' {
                Some(Ty::Nullable(Box::new(i)))
            } else {
                Some(Ty::Pointer(Box::new(i)))
            },
            None => None,
        };
    }
    if n >= 2 && t[n - 2] == '[' && t[n - 1] == ']' {
        let mut prefix = t.clone();
        prefix.pop();
        prefix.pop();
        assert(prefix@ =~= t@.subrange(0, t@.len() - 2));
        let inner = parse_type_chars(&prefix);
        return match inner {
            Some(i) => Some(Ty::Array { element: Box::new(i), rank: 1 }),
            None => None,
        };
    }
    let word = string_of(&t);
    if str_eq(word.as_str(), "string") {
        return Some(Ty::String);
    }
    if str_eq(word.as_str(), "str") {
        return Some(Ty::Str);
    }
    if str_eq(word.as_str(), "void") {
        return Some(Ty::Unit);
    }
    if is_valid_type_name(&t) {
        Some(Ty::Named { name: word, args: Vec::new() })
    } else {
        None
    }
}

/// Parses a type written in the type grammar (see `type_text_valid`).
pub fn parse_type_text(text: &str) -> (r: Option<Ty>)
    ensures
        r is Some <==> type_text_valid(text@),
        r matches Some(t) ==> type_denoted(text@, t),
{
    let v = chars_of(text);
    parse_type_chars(&v)
}

} // verus!
