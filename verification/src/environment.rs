use vstd::prelude::*;

use crate::text::{cat3, owned, str_eq};
use crate::values::{
    ConstEvalError, ConstModel, ConstValue, Span, duplicate_fields, error, field_models,
    span_or,
};

verus! {

/// The model of an optional value.
pub open spec fn opt_model(v: Option<ConstValue>) -> Option<ConstModel> {
    match v {
        Some(x) => Some(x@),
        None => None,
    }
}

/// The value bound to `name` among named values: the first binding of that name.
pub open spec fn named_lookup(bindings: Seq<(Seq<char>, ConstModel)>, name: Seq<char>) -> Option<
    ConstModel,
>
    decreases bindings.len(),
{
    if bindings.len() == 0 {
        None
    } else if bindings[0].0 == name {
        Some(bindings[0].1)
    } else {
        named_lookup(bindings.drop_first(), name)
    }
}

/// Finds the value bound to `name` in a list of named values.
pub fn lookup_named(bindings: &Vec<(String, ConstValue)>, name: &str) -> (r: Option<ConstValue>)
    ensures
        opt_model(r) == named_lookup(field_models(bindings@), name@),
{
    let mut i: usize = 0;
    assert(field_models(bindings@).subrange(0, bindings@.len() as int) =~= field_models(bindings@));
    while i < bindings.len()
        invariant
            i <= bindings.len(),
            named_lookup(field_models(bindings@), name@) == named_lookup(
                field_models(bindings@).subrange(i as int, bindings@.len() as int),
                name@,
            ),
        decreases bindings.len() - i,
    {
        let ghost rest = field_models(bindings@).subrange(i as int, bindings@.len() as int);
        if str_eq(bindings[i].0.as_str(), name) {
            assert(rest[0] == (bindings@[i as int].0@, bindings@[i as int].1@));
            return Some(bindings[i].1.duplicate());
        }
        assert(rest.drop_first() =~= field_models(bindings@).subrange(
            i + 1,
            bindings@.len() as int,
        ));
        i = i + 1;
    }
    None
}

/// Whether a name is bound among named values.
pub fn contains_name(bindings: &Vec<(String, ConstValue)>, name: &str) -> (r: bool)
    ensures
        r == (named_lookup(field_models(bindings@), name@) is Some),
{
    lookup_named(bindings, name).is_some()
}

/// A source of local variable values for an expression.
pub trait LocalResolver {
    /// The value bound to `name`, if any.
    spec fn resolved(&self, name: Seq<char>) -> Option<ConstModel>;

    /// The value bound to `name`, if any.
    fn get(&mut self, name: &str) -> (r: Option<ConstValue>)
        ensures
            opt_model(r) == old(self).resolved(name@),
            forall|n: Seq<char>| final(self).resolved(n) == old(self).resolved(n),
    ;

    /// Sets the value bound to `name`.
    fn assign(&mut self, name: &str, value: ConstValue, span: Option<Span>) -> (r: Result<
        (),
        ConstEvalError,
    >)
        ensures
            r is Ok ==> final(self).resolved(name@) == Some(value@),
            r is Ok ==> forall|n: Seq<char>|
                n != name@ ==> final(self).resolved(n) == old(self).resolved(n),
            r is Err ==> forall|n: Seq<char>| final(self).resolved(n) == old(self).resolved(n),
    ;
}

/// Read-only local values, as available to a constant initializer.
#[derive(Debug)]
pub struct ImmutableLocals {
    pub bindings: Vec<(String, ConstValue)>,
}

impl ImmutableLocals {
    pub fn new(bindings: Vec<(String, ConstValue)>) -> (r: ImmutableLocals)
        ensures
            r.bindings == bindings,
    {
        ImmutableLocals { bindings }
    }
}

/// The message for assigning to a read-only local.
pub open spec fn not_assignable_in_const_message(name: Seq<char>) -> Seq<char> {
    "identifier `"@ + name + "` is not assignable in a constant expression"@
}

impl LocalResolver for ImmutableLocals {
    open spec fn resolved(&self, name: Seq<char>) -> Option<ConstModel> {
        named_lookup(field_models(self.bindings@), name)
    }

    fn get(&mut self, name: &str) -> (r: Option<ConstValue>) {
        lookup_named(&self.bindings, name)
    }

    fn assign(&mut self, name: &str, value: ConstValue, span: Option<Span>) -> (r: Result<
        (),
        ConstEvalError,
    >)
        ensures
            r matches Err(e) && e.message@ == not_assignable_in_const_message(name@) && e.span == span,
            *final(self) == *old(self),
    {
        Err(
            error(
                cat3("identifier `", name, "` is not assignable in a constant expression"),
                span,
            ),
        )
    }
}

/// A variable of a compile-time function.
#[derive(Debug)]
pub struct Binding {
    pub value: ConstValue,
    pub mutable: bool,
    pub span: Option<Span>,
}

/// The model of a binding.
pub struct BindingModel {
    pub value: ConstModel,
    pub mutable: bool,
    pub span: Option<Span>,
}

impl View for Binding {
    type V = BindingModel;

    open spec fn view(&self) -> BindingModel {
        BindingModel { value: self.value@, mutable: self.mutable, span: self.span }
    }
}

/// The model of a scope: its bindings, in declaration order.
pub type ScopeModel = Seq<(Seq<char>, BindingModel)>;

/// The model of a list of bindings.
pub open spec fn scope_model(b: Seq<(String, Binding)>) -> ScopeModel {
    b.map_values(|p: (String, Binding)| (p.0@, p.1@))
}

/// The position of `name` in a scope, if it is declared there.
pub open spec fn scope_find(scope: ScopeModel, name: Seq<char>) -> Option<int> {
    if exists|i: int| 0 <= i < scope.len() && scope[i].0 == name {
        Some(choose|i: int| 0 <= i < scope.len() && scope[i].0 == name)
    } else {
        None
    }
}

/// Whether no name is declared twice in a scope.
pub open spec fn scope_unique(scope: ScopeModel) -> bool {
    forall|i: int, j: int|
        0 <= i < scope.len() && 0 <= j < scope.len() && i != j ==> scope[i].0 != scope[j].0
}

/// The binding of `name` that is visible in a stack of scopes: the one in the
/// innermost scope that declares it.
pub open spec fn frame_lookup(scopes: Seq<ScopeModel>, name: Seq<char>) -> Option<BindingModel>
    decreases scopes.len(),
{
    if scopes.len() == 0 {
        None
    } else {
        match scope_find(scopes.last(), name) {
            Some(i) => Some(scopes.last()[i].1),
            None => frame_lookup(scopes.drop_last(), name),
        }
    }
}

/// The innermost scope that declares `name`, if any.
pub open spec fn frame_scope_of(scopes: Seq<ScopeModel>, name: Seq<char>) -> Option<int>
    decreases scopes.len(),
{
    if scopes.len() == 0 {
        None
    } else {
        match scope_find(scopes.last(), name) {
            Some(i) => Some(scopes.len() - 1),
            None => frame_scope_of(scopes.drop_last(), name),
        }
    }
}

proof fn lemma_scope_of_range(scopes: Seq<ScopeModel>, name: Seq<char>)
    ensures
        frame_scope_of(scopes, name) matches Some(s) ==> 0 <= s < scopes.len(),
    decreases scopes.len(),
{
    if scopes.len() > 0 {
        lemma_scope_of_range(scopes.drop_last(), name);
    }
}

proof fn lemma_scope_of_found(scopes: Seq<ScopeModel>, name: Seq<char>)
    ensures
        frame_scope_of(scopes, name) matches Some(s) ==> scope_find(scopes[s], name) is Some,
    decreases scopes.len(),
{
    if scopes.len() > 0 {
        lemma_scope_of_found(scopes.drop_last(), name);
        if scope_find(scopes.last(), name) is None {
            if let Some(s) = frame_scope_of(scopes.drop_last(), name) {
                lemma_scope_of_range(scopes.drop_last(), name);
                assert(scopes.drop_last()[s] == scopes[s]);
            }
        }
    }
}

/// The scopes after the visible binding of `name` takes the value `v`.
pub open spec fn frame_assign(scopes: Seq<ScopeModel>, name: Seq<char>, v: ConstModel) -> Seq<
    ScopeModel,
> {
    match frame_scope_of(scopes, name) {
        Some(s) => {
            let i = scope_find(scopes[s], name)->0;
            scopes.update(
                s,
                scopes[s].update(
                    i,
                    (name, BindingModel { value: v, mutable: scopes[s][i].1.mutable, span: scopes[s][i].1.span }),
                ),
            )
        },
        None => scopes,
    }
}

/// Whether two stacks of scopes declare the same names, in the same places, with the same
/// mutability (their values may differ).
pub open spec fn same_bindings(a: Seq<ScopeModel>, b: Seq<ScopeModel>) -> bool {
    &&& a.len() == b.len()
    &&& forall|s: int| 0 <= s < a.len() ==> (#[trigger] a[s]).len() == b[s].len()
    &&& forall|s: int, i: int|
        0 <= s < a.len() && 0 <= i < a[s].len() ==> (#[trigger] a[s][i]).0 == b[s][i].0 && a[s][i].1.mutable
            == b[s][i].1.mutable
}

/// Whether `name` is declared in the innermost scope with the given mutability.
pub open spec fn declared_last(scopes: Seq<ScopeModel>, name: Seq<char>, mutable: bool) -> bool {
    scopes.len() > 0 && exists|i: int|
        0 <= i < scopes.last().len() && #[trigger] scopes.last()[i].0 == name && scopes.last()[i].1.mutable
            == mutable
}

/// Assigning a variable changes values only.
pub proof fn lemma_assign_same_bindings(scopes: Seq<ScopeModel>, name: Seq<char>, v: ConstModel)
    ensures
        same_bindings(scopes, frame_assign(scopes, name, v)),
{
    lemma_scope_of_range(scopes, name);
    match frame_scope_of(scopes, name) {
        Some(s) => {
            lemma_scope_of_found(scopes, name);
            let i = scope_find(scopes[s], name)->0;
            assert(0 <= i < scopes[s].len());
        },
        None => {},
    }
}

/// Keeping the bindings of a stack keeps what its innermost scope declares.
pub proof fn lemma_declared_kept(a: Seq<ScopeModel>, b: Seq<ScopeModel>, name: Seq<char>, mutable: bool)
    requires
        same_bindings(a, b),
        declared_last(a, name, mutable),
    ensures
        declared_last(b, name, mutable),
{
    let last = a.len() - 1;
    let i = choose|i: int| 0 <= i < a.last().len() && #[trigger] a.last()[i].0 == name && a.last()[i].1.mutable == mutable;
    assert(a[last][i].0 == b[last][i].0);
    assert(b.last()[i].0 == name);
}

/// The scopes after `name` is declared in the innermost scope.
pub open spec fn frame_declare(scopes: Seq<ScopeModel>, name: Seq<char>, b: BindingModel) -> Seq<
    ScopeModel,
> {
    scopes.update(scopes.len() - 1, scopes.last().push((name, b)))
}

/// Declaring a name in the innermost scope keeps what it declared before, and declares the name.
pub proof fn lemma_declare_declares(scopes: Seq<ScopeModel>, name: Seq<char>, b: BindingModel)
    requires
        scopes.len() > 0,
    ensures
        declared_last(frame_declare(scopes, name, b), name, b.mutable),
        frame_declare(scopes, name, b).len() == scopes.len(),
        forall|n: Seq<char>, m: bool|
            declared_last(scopes, n, m) ==> #[trigger] declared_last(frame_declare(scopes, name, b), n, m),
{
    let d = frame_declare(scopes, name, b);
    assert(d.last() == scopes.last().push((name, b)));
    assert(d.last()[scopes.last().len() as int].0 == name);
    assert forall|n: Seq<char>, m: bool| declared_last(scopes, n, m) implies #[trigger] declared_last(d, n, m) by {
        let i = choose|i: int| 0 <= i < scopes.last().len() && #[trigger] scopes.last()[i].0 == n && scopes.last()[i].1.mutable == m;
        assert(d.last()[i] == scopes.last()[i]);
    }
}

/// One level of lexical scope in a compile-time function.
#[derive(Debug)]
struct ScopeFrame {
    bindings: Vec<(String, Binding)>,
}

impl ScopeFrame {
    fn new() -> (r: ScopeFrame)
        ensures
            r.bindings@.len() == 0,
    {
        ScopeFrame { bindings: Vec::new() }
    }
}

/// The variables of a running compile-time function, as a stack of scopes.
#[derive(Debug)]
pub struct FunctionFrame {
    scopes: Vec<ScopeFrame>,
}

/// The message for assigning to an immutable variable.
pub open spec fn immutable_assign_message(name: Seq<char>) -> Seq<char> {
    "cannot assign to immutable variable `"@ + name + "` in compile-time function"@
}

/// The message for assigning to an undeclared variable.
pub open spec fn undeclared_message(name: Seq<char>) -> Seq<char> {
    "identifier `"@ + name + "` is not declared in this scope of compile-time function"@
}

/// The message for declaring without a scope.
pub open spec fn no_scope_message(name: Seq<char>) -> Seq<char> {
    "internal error: attempted to declare `"@ + name + "` without an active scope"@
}

/// The message for declaring a name twice in one scope.
pub open spec fn redeclared_message(name: Seq<char>) -> Seq<char> {
    "variable `"@ + name + "` is already declared in this scope of compile-time function"@
}

fn copy_binding(b: &Binding) -> (r: Binding)
    ensures
        r@ == b@,
{
    Binding { value: b.value.duplicate(), mutable: b.mutable, span: b.span }
}

impl FunctionFrame {
    /// The model of the frame: its scopes, outermost first.
    pub closed spec fn view(&self) -> Seq<ScopeModel> {
        self.scopes@.map_values(|s: ScopeFrame| scope_model(s.bindings@))
    }

    /// Every scope declares each name at most once.
    #[verifier::type_invariant]
    closed spec fn wf(&self) -> bool {
        forall|i: int| 0 <= i < self.scopes@.len() ==> scope_unique(scope_model(#[trigger] self.scopes@[i].bindings@))
    }

    /// The value visible under `name`, if any.
    pub open spec fn lookup(&self, name: Seq<char>) -> Option<ConstModel> {
        match frame_lookup(self.view(), name) {
            Some(b) => Some(b.value),
            None => None,
        }
    }

    /// A frame without scopes.
    pub fn new() -> (r: FunctionFrame)
        ensures
            r.view().len() == 0,
    {
        FunctionFrame { scopes: Vec::new() }
    }

    /// Opens a new innermost scope.
    pub fn push_scope(&mut self)
        ensures
            final(self).view() == old(self).view().push(Seq::empty()),
    {
        proof {
            use_type_invariant(&*self);
        }
        let ghost prev = self.scopes@;
        let mut scopes: Vec<ScopeFrame> = Vec::new();
        std::mem::swap(&mut scopes, &mut self.scopes);
        scopes.push(ScopeFrame::new());
        self.scopes = scopes;
        proof {
            assert(scope_model(self.scopes@.last().bindings@) =~= Seq::empty());
            assert(self.view() =~= old(self).view().push(Seq::empty()));
            assert forall|i: int| 0 <= i < self.scopes@.len() implies scope_unique(
                scope_model(#[trigger] self.scopes@[i].bindings@),
            ) by {
                if i < prev.len() {
                    assert(self.scopes@[i] == prev[i]);
                }
            }
        }
    }

    /// Closes the innermost scope, if any.
    pub fn pop_scope(&mut self)
        ensures
            old(self).view().len() > 0 ==> final(self).view() == old(self).view().drop_last(),
            old(self).view().len() == 0 ==> final(self).view() == old(self).view(),
    {
        proof {
            use_type_invariant(&*self);
        }
        let ghost prev = self.scopes@;
        let mut scopes: Vec<ScopeFrame> = Vec::new();
        std::mem::swap(&mut scopes, &mut self.scopes);
        let _ = scopes.pop();
        self.scopes = scopes;
        proof {
            if prev.len() > 0 {
                assert(self.scopes@ =~= prev.drop_last());
                assert(self.view() =~= old(self).view().drop_last());
            }
            assert forall|i: int| 0 <= i < self.scopes@.len() implies scope_unique(
                scope_model(#[trigger] self.scopes@[i].bindings@),
            ) by {
                assert(self.scopes@[i] == prev[i]);
            }
        }
    }

    fn find_in_scope(scope: &ScopeFrame, name: &str) -> (r: Option<usize>)
        requires
            scope_unique(scope_model(scope.bindings@)),
        ensures
            r matches Some(i) ==> scope_find(scope_model(scope.bindings@), name@) == Some(i as int),
            r is None ==> scope_find(scope_model(scope.bindings@), name@) is None,
            r matches Some(i) ==> i < scope.bindings@.len(),
    {
        let ghost m = scope_model(scope.bindings@);
        let mut i: usize = 0;
        while i < scope.bindings.len()
            invariant
                i <= scope.bindings.len(),
                m == scope_model(scope.bindings@),
                scope_unique(m),
                forall|k: int| 0 <= k < i ==> m[k].0 != name@,
            decreases scope.bindings.len() - i,
        {
            if str_eq(scope.bindings[i].0.as_str(), name) {
                proof {
                    assert(m[i as int].0 == name@);
                    let j = choose|j: int| 0 <= j < m.len() && m[j].0 == name@;
                    assert(j == i);
                }
                return Some(i);
            }
            i = i + 1;
        }
        None
    }

    /// Declares `name` in the innermost scope.
    pub fn declare(&mut self, name: &str, value: ConstValue, mutable: bool, span: Option<Span>) -> (r:
        Result<(), ConstEvalError>)
        ensures
            old(self).view().len() == 0 ==> (r matches Err(e) && e.message@ == no_scope_message(
                name@,
            ) && e.span == span && final(self).view() == old(self).view()),
            old(self).view().len() > 0 && scope_find(old(self).view().last(), name@) is Some ==> (r matches Err(e)
                && e.message@ == redeclared_message(name@) && e.span == span_or(
                old(self).view().last()[scope_find(old(self).view().last(), name@)->0].1.span,
                span,
            ) && final(self).view() == old(self).view()),
            old(self).view().len() > 0 && scope_find(old(self).view().last(), name@) is None ==> r is Ok
                && final(self).view() == frame_declare(
                old(self).view(),
                name@,
                BindingModel { value: value@, mutable, span },
            ),
    {
        proof {
            use_type_invariant(&*self);
        }
        let n = self.scopes.len();
        if n == 0 {
            return Err(
                error(
                    cat3("internal error: attempted to declare `", name, "` without an active scope"),
                    span,
                ),
            );
        }
        proof {
            assert(scope_unique(scope_model(self.scopes@[n - 1].bindings@)));
            assert(self.view().last() == scope_model(self.scopes@[n - 1].bindings@));
        }
        match Self::find_in_scope(&self.scopes[n - 1], name) {
            Some(i) => {
                let existing_span = self.scopes[n - 1].bindings[i].1.span;
                let s = match existing_span {
                    Some(x) => Some(x),
                    None => span,
                };
                Err(
                    error(
                        cat3(
                            "variable `",
                            name,
                            "` is already declared in this scope of compile-time function",
                        ),
                        s,
                    ),
                )
            },
            None => {
                let ghost prev = self.scopes@;
                let mut scopes: Vec<ScopeFrame> = Vec::new();
                std::mem::swap(&mut scopes, &mut self.scopes);
                let mut last = scopes.pop().unwrap();
                let ghost old_b = last.bindings@;
                last.bindings.push((owned(name), Binding { value, mutable, span }));
                proof {
                    assert(scope_model(last.bindings@) =~= scope_model(old_b).push(
                        (name@, BindingModel { value: value@, mutable, span }),
                    ));
                    assert forall|a: int, b: int|
                        0 <= a < scope_model(last.bindings@).len() && 0 <= b < scope_model(
                            last.bindings@,
                        ).len() && a != b implies scope_model(last.bindings@)[a].0 != scope_model(
                        last.bindings@,
                    )[b].0 by {
                        if a < old_b.len() && b < old_b.len() {
                        } else if a == old_b.len() {
                            assert(scope_model(old_b)[b].0 != name@);
                        } else {
                            assert(scope_model(old_b)[a].0 != name@);
                        }
                    }
                }
                scopes.push(last);
                self.scopes = scopes;
                proof {
                    assert(self.scopes@ =~= prev.update(n - 1, last));
                    assert(self.view() =~= frame_declare(
                        old(self).view(),
                        name@,
                        BindingModel { value: value@, mutable, span },
                    ));
                    assert forall|k: int| 0 <= k < self.scopes@.len() implies scope_unique(
                        scope_model(#[trigger] self.scopes@[k].bindings@),
                    ) by {
                        if k < n - 1 {
                            assert(self.scopes@[k] == prev[k]);
                        }
                    }
                }
                Ok(())
            },
        }
    }

    /// Finds the innermost scope that declares `name`, and the binding's position there.
    fn locate(&self, name: &str) -> (r: Option<(usize, usize)>)
        ensures
            r matches Some((s, i)) ==> frame_scope_of(self.view(), name@) == Some(s as int)
                && scope_find(self.view()[s as int], name@) == Some(i as int) && s
                < self.scopes@.len() && i < self.scopes@[s as int].bindings@.len(),
            r is None ==> frame_scope_of(self.view(), name@) is None,
    {
        proof {
            use_type_invariant(&*self);
        }
        let mut s: usize = self.scopes.len();
        assert(self.view().subrange(0, self.scopes@.len() as int) =~= self.view());
        while s > 0
            invariant
                s <= self.scopes@.len(),
                self.wf(),
                frame_scope_of(self.view(), name@) == frame_scope_of(
                    self.view().subrange(0, s as int),
                    name@,
                ),
            decreases s,
        {
            let ghost sub = self.view().subrange(0, s as int);
            proof {
                assert(sub.last() == scope_model(self.scopes@[s - 1].bindings@));
                assert(scope_unique(scope_model(self.scopes@[s - 1].bindings@)));
            }
            match Self::find_in_scope(&self.scopes[s - 1], name) {
                Some(i) => {
                    return Some((s - 1, i));
                },
                None => {
                    assert(sub.drop_last() =~= self.view().subrange(0, s - 1));
                },
            }
            s = s - 1;
        }
        None
    }

    /// The value visible under `name`, if any.
    pub fn get_value(&self, name: &str) -> (r: Option<ConstValue>)
        ensures
            opt_model(r) == self.lookup(name@),
    {
        proof {
            use_type_invariant(&*self);
        }
        proof {
            lemma_lookup_via_scope(self.view(), name@);
        }
        match self.locate(name) {
            Some((s, i)) => Some(self.scopes[s].bindings[i].1.value.duplicate()),
            None => None,
        }
    }

    /// Sets the value visible under `name`, when it names a mutable variable.
    pub fn assign_value(&mut self, name: &str, value: ConstValue, span: Option<Span>) -> (r: Result<
        (),
        ConstEvalError,
    >)
        ensures
            frame_lookup(old(self).view(), name@) is None ==> (r matches Err(e) && e.message@
                == undeclared_message(name@) && e.span == span && final(self).view() == old(
                self,
            ).view()),
            frame_lookup(old(self).view(), name@) is Some && !frame_lookup(old(self).view(), name@)->0.mutable ==> (r matches Err(e)
                && e.message@ == immutable_assign_message(name@) && e.span == span_or(frame_lookup(old(self).view(), name@)->0.span, span)
                && final(self).view() == old(self).view()),
            frame_lookup(old(self).view(), name@) is Some && frame_lookup(old(self).view(), name@)->0.mutable ==> r is Ok
                && final(self).view() == frame_assign(old(self).view(), name@, value@),
    {
        proof {
            use_type_invariant(&*self);
        }
        proof {
            lemma_lookup_via_scope(self.view(), name@);
        }
        match self.locate(name) {
            None => Err(
                error(
                    cat3(
                        "identifier `",
                        name,
                        "` is not declared in this scope of compile-time function",
                    ),
                    span,
                ),
            ),
            Some((s, i)) => {
                let mutable = self.scopes[s].bindings[i].1.mutable;
                let bspan = self.scopes[s].bindings[i].1.span;
                if !mutable {
                    let es = match bspan {
                        Some(x) => Some(x),
                        None => span,
                    };
                    return Err(
                        error(
                            cat3(
                                "cannot assign to immutable variable `",
                                name,
                                "` in compile-time function",
                            ),
                            es,
                        ),
                    );
                }
                let ghost prev = self.scopes@;
                let mut rebuilt: Vec<(String, Binding)> = Vec::new();
                let mut k: usize = 0;
                let ghost target = scope_model(self.scopes@[s as int].bindings@).update(
                    i as int,
                    (name@, BindingModel { value: value@, mutable, span: bspan }),
                );
                let mut value_slot: Option<ConstValue> = Some(value);
                while k < self.scopes[s].bindings.len()
                    invariant
                        s < self.scopes@.len(),
                        i < self.scopes@[s as int].bindings@.len(),
                        k <= self.scopes@[s as int].bindings@.len(),
                        scope_find(self.view()[s as int], name@) == Some(i as int),
                        self.view()[s as int] == scope_model(self.scopes@[s as int].bindings@),
                        mutable == self.scopes@[s as int].bindings@[i as int].1.mutable,
                        bspan == self.scopes@[s as int].bindings@[i as int].1.span,
                        target == scope_model(self.scopes@[s as int].bindings@).update(
                            i as int,
                            (name@, BindingModel { value: value@, mutable, span: bspan }),
                        ),
                        k <= i ==> value_slot == Some(value),
                        scope_model(rebuilt@) == target.subrange(0, k as int),
                    decreases self.scopes@[s as int].bindings@.len() - k,
                {
                    let entry_name = self.scopes[s].bindings[k].0.clone();
                    if k == i {
                        let v = value_slot.take().unwrap();
                        proof {
                            let j = choose|j: int|
                                0 <= j < self.view()[s as int].len() && self.view()[s as int][j].0
                                    == name@;
                            assert(self.view()[s as int][i as int].0 == entry_name@);
                        }
                        let ghost prevr = rebuilt@;
                        rebuilt.push((entry_name, Binding { value: v, mutable, span: bspan }));
                        assert(scope_model(rebuilt@) =~= scope_model(prevr).push(
                            (entry_name@, BindingModel { value: value@, mutable, span: bspan }),
                        ));
                    } else {
                        let b = copy_binding(&self.scopes[s].bindings[k].1);
                        let ghost prevr = rebuilt@;
                        rebuilt.push((entry_name, b));
                        assert(scope_model(rebuilt@) =~= scope_model(prevr).push(
                            (entry_name@, b@),
                        ));
                    }
                    k = k + 1;
                    assert(scope_model(rebuilt@) =~= target.subrange(0, k as int));
                }
                assert(target.subrange(0, target.len() as int) =~= target);
                proof {
                    assert(scope_unique(scope_model(self.scopes@[s as int].bindings@)));
                }
                let mut scopes: Vec<ScopeFrame> = Vec::new();
                std::mem::swap(&mut scopes, &mut self.scopes);
                scopes.set(s, ScopeFrame { bindings: rebuilt });
                self.scopes = scopes;
                proof {
                    assert(self.view() =~= frame_assign(old(self).view(), name@, value@));
                    assert forall|q: int| 0 <= q < self.scopes@.len() implies scope_unique(
                        scope_model(#[trigger] self.scopes@[q].bindings@),
                    ) by {
                        if q != s {
                            assert(self.scopes@[q] == prev[q]);
                        } else {
                            assert(scope_unique(scope_model(prev[q].bindings@)));
                        }
                    }
                }
                Ok(())
            },
        }
    }
}

/// The visible binding of a name is the one in the innermost scope that declares it.
pub proof fn lemma_lookup_via_scope(scopes: Seq<ScopeModel>, name: Seq<char>)
    ensures
        frame_lookup(scopes, name) matches Some(b) ==> frame_scope_of(scopes, name) matches Some(s)
            && 0 <= s < scopes.len() && scope_find(scopes[s], name) is Some
            && b == scopes[s][scope_find(scopes[s], name)->0].1,
        frame_lookup(scopes, name) is None <==> frame_scope_of(scopes, name) is None,
    decreases scopes.len(),
{
    if scopes.len() > 0 {
        lemma_lookup_via_scope(scopes.drop_last(), name);
        if scope_find(scopes.last(), name) is None {
            if let Some(s) = frame_scope_of(scopes.drop_last(), name) {
                assert(scopes.drop_last()[s] == scopes[s]);
            }
        }
    }
}

/// Whether every scope of a stack declares each name at most once.
pub open spec fn frames_unique(scopes: Seq<ScopeModel>) -> bool {
    forall|k: int| 0 <= k < scopes.len() ==> scope_unique(#[trigger] scopes[k])
}

proof fn lemma_frames_unique(f: FunctionFrame)
    requires
        f.wf(),
    ensures
        frames_unique(f.view()),
{
    assert forall|k: int| 0 <= k < f.view().len() implies scope_unique(#[trigger] f.view()[k]) by {
        assert(f.view()[k] == scope_model(f.scopes@[k].bindings@));
    }
}

/// Whether two scopes declare the same names at the same positions.
pub open spec fn same_names(a: ScopeModel, b: ScopeModel) -> bool {
    a.len() == b.len() && forall|k: int| 0 <= k < a.len() ==> a[k].0 == b[k].0
}

/// Scopes with the same names find a name at the same position.
pub proof fn lemma_scope_find_same_names(a: ScopeModel, b: ScopeModel, n: Seq<char>)
    requires
        same_names(a, b),
        scope_unique(a),
    ensures
        scope_find(a, n) == scope_find(b, n),
        scope_find(a, n) matches Some(i) ==> 0 <= i < a.len() && a[i].0 == n,
{
    if exists|i: int| 0 <= i < a.len() && a[i].0 == n {
        let i = choose|i: int| 0 <= i < a.len() && a[i].0 == n;
        assert(b[i].0 == n);
        let j = choose|j: int| 0 <= j < b.len() && b[j].0 == n;
        assert(a[j].0 == n);
    } else {
        assert forall|j: int| 0 <= j < b.len() implies b[j].0 != n by {
            assert(a[j].0 == b[j].0);
        }
    }
}

/// After an assignment, the assigned name is bound to the new value.
pub proof fn lemma_assign_same(scopes: Seq<ScopeModel>, name: Seq<char>, v: ConstModel)
    requires
        frames_unique(scopes),
        frame_lookup(scopes, name) is Some,
    ensures
        frame_lookup(frame_assign(scopes, name, v), name) matches Some(b) && b.value == v,
    decreases scopes.len(),
{
    lemma_lookup_via_scope(scopes, name);
    let s = frame_scope_of(scopes, name)->0;
    let i = scope_find(scopes[s], name)->0;
    let new_scopes = frame_assign(scopes, name, v);
    lemma_scope_find_same_names(scopes[s], scopes[s], name);
    if s == scopes.len() - 1 {
        assert(same_names(scopes[s], new_scopes[s]));
        lemma_scope_find_same_names(scopes[s], new_scopes[s], name);
    } else {
        assert(scope_find(scopes.last(), name) is None);
        assert(new_scopes.last() == scopes.last());
        assert(frame_scope_of(scopes.drop_last(), name) == Some(s));
        assert(frame_assign(scopes.drop_last(), name, v) =~= new_scopes.drop_last());
        lemma_assign_same(scopes.drop_last(), name, v);
    }
}

/// An assignment leaves every other name's binding as it was.
pub proof fn lemma_assign_other(scopes: Seq<ScopeModel>, name: Seq<char>, v: ConstModel, n: Seq<char>)
    requires
        frames_unique(scopes),
        n != name,
    ensures
        frame_lookup(frame_assign(scopes, name, v), n) == frame_lookup(scopes, n),
    decreases scopes.len(),
{
    lemma_lookup_via_scope(scopes, name);
    if frame_scope_of(scopes, name) is Some && scopes.len() > 0 {
        let s = frame_scope_of(scopes, name)->0;
        let new_scopes = frame_assign(scopes, name, v);
        lemma_scope_find_same_names(scopes[s], scopes[s], name);
        let i = scope_find(scopes[s], name)->0;
        assert(same_names(scopes[s], new_scopes[s]));
        let last = scopes.len() - 1;
        assert(same_names(scopes[last], new_scopes[last]));
        lemma_scope_find_same_names(scopes[last], new_scopes[last], n);
        if s == last {
            if let Some(j) = scope_find(scopes[last], n) {
                assert(j != i);
            } else {
                assert(new_scopes.drop_last() =~= scopes.drop_last());
            }
        } else {
            assert(new_scopes.last() == scopes.last());
            assert(frame_scope_of(scopes.drop_last(), name) == Some(s));
            assert(frame_assign(scopes.drop_last(), name, v) =~= new_scopes.drop_last());
            lemma_assign_other(scopes.drop_last(), name, v, n);
        }
    }
}

impl LocalResolver for FunctionFrame {
    open spec fn resolved(&self, name: Seq<char>) -> Option<ConstModel> {
        self.lookup(name)
    }

    fn get(&mut self, name: &str) -> (r: Option<ConstValue>) {
        self.get_value(name)
    }

    fn assign(&mut self, name: &str, value: ConstValue, span: Option<Span>) -> (r: Result<
        (),
        ConstEvalError,
    >)
        ensures
            frame_lookup(old(self).view(), name@) is None ==> (r matches Err(e) && e.message@
                == undeclared_message(name@) && e.span == span && final(self).view() == old(
                self,
            ).view()),
            frame_lookup(old(self).view(), name@) is Some && !frame_lookup(old(self).view(), name@)->0.mutable ==> (r matches Err(e)
                && e.message@ == immutable_assign_message(name@) && e.span == span_or(frame_lookup(old(self).view(), name@)->0.span, span)
                && final(self).view() == old(self).view()),
            frame_lookup(old(self).view(), name@) is Some && frame_lookup(old(self).view(), name@)->0.mutable ==> r is Ok
                && final(self).view() == frame_assign(old(self).view(), name@, value@),
    {
        proof {
            use_type_invariant(&*self);
            lemma_frames_unique(*self);
            if frame_lookup(self.view(), name@) is Some {
                lemma_assign_same(self.view(), name@, value@);
            }
            assert forall|n: Seq<char>| n != name@ implies frame_lookup(
                frame_assign(self.view(), name@, value@),
                n,
            ) == frame_lookup(self.view(), n) by {
                lemma_assign_other(self.view(), name@, value@, n);
            }
        }
        self.assign_value(name, value, span)
    }
}

/// The local variables visible to an expression.
#[derive(Debug)]
pub enum LocalScope {
    Absent,
    Immutable(ImmutableLocals),
    Frame(FunctionFrame),
}

/// The value a local scope binds to `name`, if any.
pub open spec fn local_lookup(l: LocalScope, name: Seq<char>) -> Option<ConstModel> {
    match l {
        LocalScope::Absent => None,
        LocalScope::Immutable(i) => i.resolved(name),
        LocalScope::Frame(f) => f.lookup(name),
    }
}

/// The message for assigning to a parameter.
pub open spec fn param_assign_message(name: Seq<char>) -> Seq<char> {
    "cannot assign to parameter `"@ + name + "` in compile-time function"@
}

/// The message for assigning where no locals exist.
pub open spec fn not_assignable_message(name: Seq<char>) -> Seq<char> {
    "identifier `"@ + name + "` is not assignable in this context"@
}

/// What an expression can see while it is evaluated: where it stands, and the
/// parameters and locals in scope.
#[derive(Debug)]
pub struct EvalEnv {
    pub namespace: Option<String>,
    pub owner: Option<String>,
    pub span: Option<Span>,
    pub params: Option<Vec<(String, ConstValue)>>,
    pub locals: LocalScope,
}

/// The value a parameter list binds to `name`, if any.
pub open spec fn params_lookup(p: Option<Vec<(String, ConstValue)>>, name: Seq<char>) -> Option<
    ConstModel,
> {
    match p {
        Some(v) => named_lookup(field_models(v@), name),
        None => None,
    }
}

/// The value an environment gives `name`: a local first, then a parameter.
pub open spec fn env_resolve(env: EvalEnv, name: Seq<char>) -> Option<ConstModel> {
    match local_lookup(env.locals, name) {
        Some(v) => Some(v),
        None => params_lookup(env.params, name),
    }
}

/// Whether two environments agree on everything but their locals.
pub open spec fn same_place(a: EvalEnv, b: EvalEnv) -> bool {
    a.namespace == b.namespace && a.owner == b.owner && a.span == b.span && a.params == b.params
}

impl EvalEnv {
    /// An environment with no parameters and no locals.
    pub fn new(namespace: Option<String>, owner: Option<String>, span: Option<Span>) -> (r: EvalEnv)
        ensures
            r.namespace == namespace,
            r.owner == owner,
            r.span == span,
            r.params is None,
            r.locals is Absent,
    {
        EvalEnv { namespace, owner, span, params: None, locals: LocalScope::Absent }
    }

    /// The value of `name`: a local first, then a parameter.
    pub fn resolve_identifier(&mut self, name: &str) -> (r: Option<ConstValue>)
        ensures
            opt_model(r) == env_resolve(*old(self), name@),
            *final(self) == *old(self),
    {
        let local = match &self.locals {
            LocalScope::Absent => None,
            LocalScope::Immutable(l) => lookup_named(&l.bindings, name),
            LocalScope::Frame(f) => f.get_value(name),
        };
        if local.is_some() {
            return local;
        }
        match &self.params {
            Some(p) => lookup_named(p, name),
            None => None,
        }
    }

    /// Assigns to the local `name`; parameters and read-only locals cannot be assigned.
    pub fn assign_identifier(&mut self, name: &str, value: ConstValue) -> (r: Result<
        (),
        ConstEvalError,
    >)
        ensures
            same_place(*final(self), *old(self)),
            old(self).locals matches LocalScope::Frame(f) ==> (final(self).locals matches LocalScope::Frame(g)
                && same_bindings(f.view(), g.view())),
            old(self).locals is Absent ==> final(self).locals is Absent,
            old(self).locals matches LocalScope::Immutable(x) ==> final(self).locals == LocalScope::Immutable(x),
            params_lookup(old(self).params, name@) is Some ==> (r matches Err(e) && e.message@
                == param_assign_message(name@) && e.span == old(self).span && *final(self) == *old(
                self,
            )),
            params_lookup(old(self).params, name@) is None ==> (match old(self).locals {
                LocalScope::Absent => r matches Err(e) && e.message@ == not_assignable_message(
                    name@,
                ) && e.span == old(self).span && *final(self) == *old(self),
                LocalScope::Immutable(_) => r matches Err(e) && e.message@
                    == not_assignable_in_const_message(name@) && e.span == old(self).span
                    && *final(self) == *old(self),
                LocalScope::Frame(f) => final(self).locals matches LocalScope::Frame(g) && (
                if frame_lookup(f.view(), name@) is None {
                    r matches Err(e) && e.message@ == undeclared_message(name@) && e.span == old(
                        self,
                    ).span && g.view() == f.view()
                } else if !frame_lookup(f.view(), name@)->0.mutable {
                    r matches Err(e) && e.message@ == immutable_assign_message(name@) && e.span
                        == span_or(frame_lookup(f.view(), name@)->0.span, old(self).span)
                        && g.view() == f.view()
                } else {
                    r is Ok && g.view() == frame_assign(f.view(), name@, value@)
                }),
            }),
            r is Ok ==> local_lookup(final(self).locals, name@) == Some(value@),
            r is Ok ==> forall|n: Seq<char>|
                n != name@ ==> local_lookup(final(self).locals, n) == local_lookup(
                    old(self).locals,
                    n,
                ),
    {
        if let Some(p) = &self.params {
            if contains_name(p, name) {
                return Err(
                    error(cat3("cannot assign to parameter `", name, "` in compile-time function"), self.span),
                );
            }
        }
        let span = self.span;
        match &mut self.locals {
            LocalScope::Absent => Err(
                error(cat3("identifier `", name, "` is not assignable in this context"), span),
            ),
            LocalScope::Immutable(_) => Err(
                error(cat3("identifier `", name, "` is not assignable in a constant expression"), span),
            ),
            LocalScope::Frame(f) => {
                proof {
                    use_type_invariant(&*f);
                    lemma_frames_unique(*f);
                    if frame_lookup(f.view(), name@) is Some {
                        lemma_assign_same(f.view(), name@, value@);
                    }
                    lemma_scope_of_range(f.view(), name@);
                    lemma_assign_same_bindings(f.view(), name@, value@);
                    assert forall|n: Seq<char>| n != name@ implies frame_lookup(
                        frame_assign(f.view(), name@, value@),
                        n,
                    ) == frame_lookup(f.view(), n) by {
                        lemma_assign_other(f.view(), name@, value@, n);
                    }
                }
                f.assign_value(name, value, span)
            },
        }
    }
}

} // verus!
