use vstd::prelude::*;

use crate::lowering::LoweringDiagnostic;
use crate::text::{eq_ignore_ascii_case, owned, str_eq_ignore_ascii_case};
use crate::types::Ty;
use crate::values::Span;

verus! {

/// The keywords that a `foreach` binding gives meaning to; `Other` stands for the rest.
#[derive(Clone, Copy, Debug, PartialEq, Eq, Structural)]
pub enum Keyword {
    In,
    Ref,
    Let,
    Var,
    Other,
}

/// The kind of a lexed token, as far as a `foreach` binding tells kinds apart.
#[derive(Clone, Copy, Debug, PartialEq, Eq, Structural)]
pub enum TokenKind {
    Whitespace,
    Comment,
    Unknown(char),
    Identifier,
    Keyword(Keyword),
    Other,
}

/// A lexed token: its kind, its text and where it stands.
#[derive(Debug)]
pub struct Token {
    pub kind: TokenKind,
    pub lexeme: String,
    pub span: Span,
}

/// How a `foreach` loop binds each element.
#[derive(Clone, Copy, Debug, PartialEq, Eq, Structural)]
pub enum ForeachBindingMode {
    Value,
    In,
    Ref,
    RefReadonly,
}

/// A parsed `foreach` binding: its mode, whether the local is mutable, its type and its name.
#[derive(Debug)]
pub struct ForeachBindingInfo {
    pub mode: ForeachBindingMode,
    pub mutable: bool,
    pub ty: Ty,
    pub name: String,
}

/// Whether a token carries meaning (not whitespace, a comment or an unknown character).
pub open spec fn is_significant(k: TokenKind) -> bool {
    match k {
        TokenKind::Whitespace => false,
        TokenKind::Comment => false,
        TokenKind::Unknown(_) => false,
        _ => true,
    }
}

/// The tokens that carry meaning, in order.
pub open spec fn significant(ts: Seq<Token>) -> Seq<Token>
    decreases ts.len(),
{
    if ts.len() == 0 {
        Seq::empty()
    } else if is_significant(ts.last().kind) {
        significant(ts.drop_last()).push(ts.last())
    } else {
        significant(ts.drop_last())
    }
}

/// The tokens referred to by a list of references.
pub open spec fn token_refs(v: Seq<&Token>) -> Seq<Token> {
    v.map_values(|x: &Token| *x)
}

/// The text of a list of tokens, put together without separators.
pub open spec fn lexemes(ts: Seq<Token>) -> Seq<char>
    decreases ts.len(),
{
    if ts.len() == 0 {
        Seq::empty()
    } else {
        lexemes(ts.drop_last()) + ts.last().lexeme@
    }
}

/// The binding mode that leading modifiers give, and where the binding proper starts.
pub open spec fn mode_prefix(t: Seq<Token>) -> (ForeachBindingMode, int) {
    if t.len() > 0 && t[0].kind == TokenKind::Keyword(Keyword::In) {
        (ForeachBindingMode::In, 1)
    } else if t.len() > 0 && t[0].kind == TokenKind::Keyword(Keyword::Ref) {
        if t.len() > 1 && t[1].kind == TokenKind::Identifier && eq_ignore_ascii_case(t[1].lexeme@, "readonly"@) {
            (ForeachBindingMode::RefReadonly, 2)
        } else {
            (ForeachBindingMode::Ref, 1)
        }
    } else {
        (ForeachBindingMode::Value, 0)
    }
}

/// What a binding declares: its mode, whether it is mutable, its type text (none for `let`
/// and `var`) and its name.
pub struct BindingModel {
    pub mode: ForeachBindingMode,
    pub mutable: bool,
    pub type_text: Option<Seq<char>>,
    pub name: Seq<char>,
}

/// The binding that the significant tokens `t` declare, or the diagnostic's message and span.
pub open spec fn binding_of(t: Seq<Token>, span: Option<Span>) -> Result<BindingModel, (Seq<char>, Option<Span>)> {
    let (mode, i) = mode_prefix(t);
    if t.len() == 0 {
        Err(("foreach binding requires an identifier"@, span))
    } else if i >= t.len() {
        Err(("foreach binding requires a variable name"@, span))
    } else if t[i].kind == TokenKind::Keyword(Keyword::Let) && i + 1 >= t.len() {
        Err(("expected identifier after `let` in foreach binding"@, span))
    } else if t[i].kind == TokenKind::Keyword(Keyword::Var) && i + 1 >= t.len() {
        Err(("expected identifier after `var` in foreach binding"@, span))
    } else if t[i].kind != TokenKind::Keyword(Keyword::Let) && t[i].kind != TokenKind::Keyword(Keyword::Var)
        && t.len() - i < 2 {
        Err(("typed foreach binding requires `Type Identifier`"@, span))
    } else if t[i].kind != TokenKind::Keyword(Keyword::Let) && t[i].kind != TokenKind::Keyword(Keyword::Var)
        && lexemes(t.subrange(i, t.len() - 1)).len() == 0 {
        Err(("could not parse type in foreach binding"@, span))
    } else {
        let is_let = t[i].kind == TokenKind::Keyword(Keyword::Let);
        let is_var = t[i].kind == TokenKind::Keyword(Keyword::Var);
        let name_index = if is_let || is_var {
            i + 1
        } else {
            t.len() - 1
        };
        if t[name_index].kind != TokenKind::Identifier {
            Err(("foreach binding name must be an identifier"@, Some(t[name_index].span)))
        } else if name_index + 1 < t.len() {
            Err(("foreach binding does not allow trailing tokens"@, span))
        } else if is_let && (mode == ForeachBindingMode::Ref || mode == ForeachBindingMode::RefReadonly) {
            Err(("`let` foreach bindings cannot use `ref` modifiers"@, span))
        } else {
            Ok(
                BindingModel {
                    mode,
                    mutable: mode == ForeachBindingMode::Ref,
                    type_text: if is_let || is_var {
                        None
                    } else {
                        Some(lexemes(t.subrange(i, t.len() - 1)))
                    },
                    name: t[name_index].lexeme@,
                },
            )
        }
    }
}

/// Whether a parsed binding is the one that `m` describes.
pub open spec fn binding_matches(b: ForeachBindingInfo, m: BindingModel) -> bool {
    &&& b.mode == m.mode
    &&& b.mutable == m.mutable
    &&& b.name@ == m.name
    &&& match m.type_text {
        None => b.ty == Ty::Unknown,
        Some(text) => b.ty matches Ty::Named { name, args } && name@ == text && args@.len() == 0,
    }
}

/// The tokens of `tokens` that carry meaning (see `significant`).
pub fn significant_tokens(tokens: &Vec<Token>) -> (r: Vec<&Token>)
    ensures
        token_refs(r@) == significant(tokens@),
{
    let mut out: Vec<&Token> = Vec::new();
    let mut i: usize = 0;
    while i < tokens.len()
        invariant
            i <= tokens@.len(),
            token_refs(out@) == significant(tokens@.subrange(0, i as int)),
        decreases tokens.len() - i,
    {
        let ghost sub = tokens@.subrange(0, i + 1);
        assert(sub.drop_last() =~= tokens@.subrange(0, i as int));
        let t = &tokens[i];
        let keep = match t.kind {
            TokenKind::Whitespace => false,
            TokenKind::Comment => false,
            TokenKind::Unknown(_) => false,
            _ => true,
        };
        let ghost before = token_refs(out@);
        if keep {
            out.push(t);
            assert(token_refs(out@) =~= before.push(*t));
        }
        i = i + 1;
    }
    assert(tokens@.subrange(0, tokens@.len() as int) =~= tokens@);
    out
}

fn diagnostic(message: &str, span: Option<Span>) -> (r: LoweringDiagnostic)
    ensures
        r.message@ == message@,
        r.span == span,
{
    LoweringDiagnostic { message: owned(message), span }
}

/// The text of the tokens `t[from..to]`, put together (see `lexemes`).
fn join_lexemes(t: &Vec<&Token>, from: usize, to: usize) -> (r: String)
    requires
        from <= to <= t@.len(),
    ensures
        r@ == lexemes(token_refs(t@).subrange(from as int, to as int)),
{
    let mut r = String::new();
    let mut k: usize = from;
    assert(token_refs(t@).subrange(from as int, from as int) =~= Seq::<Token>::empty());
    while k < to
        invariant
            from <= k <= to <= t@.len(),
            r@ == lexemes(token_refs(t@).subrange(from as int, k as int)),
        decreases to - k,
    {
        let ghost sub = token_refs(t@).subrange(from as int, k + 1);
        assert(sub.drop_last() =~= token_refs(t@).subrange(from as int, k as int));
        assert(sub.last() == *t@[k as int]);
        r.append(t[k].lexeme.as_str());
        k = k + 1;
    }
    r
}

/// Parses the binding of a `foreach` loop from its lexed tokens (whitespace, comments and
/// unknown characters are skipped): an optional `in`, `ref` or `ref readonly` modifier, then
/// `let name`, `var name` or `Type name`.
pub fn parse_foreach_binding(tokens: &Vec<Token>, span: Option<Span>) -> (r: Result<
    ForeachBindingInfo,
    LoweringDiagnostic,
>)
    ensures
        match binding_of(significant(tokens@), span) {
            Ok(m) => r matches Ok(b) && binding_matches(b, m),
            Err((message, at)) => r matches Err(d) && d.message@ == message && d.span == at,
        },
{
    let t = significant_tokens(tokens);
    let ghost ts = token_refs(t@);
    assert(ts.len() == t@.len());
    if t.len() == 0 {
        return Err(diagnostic("foreach binding requires an identifier", span));
    }
    let mut index: usize = 0;
    let mut mode = ForeachBindingMode::Value;
    match t[0].kind {
        TokenKind::Keyword(Keyword::In) => {
            mode = ForeachBindingMode::In;
            index = 1;
        },
        TokenKind::Keyword(Keyword::Ref) => {
            mode = ForeachBindingMode::Ref;
            index = 1;
            if t.len() > 1 {
                let next = t[1];
                if next.kind == TokenKind::Identifier && str_eq_ignore_ascii_case(next.lexeme.as_str(), "readonly") {
                    mode = ForeachBindingMode::RefReadonly;
                    index = 2;
                }
            }
        },
        _ => {},
    }
    proof {
        reveal_strlit("readonly");
    }
    assert(mode_prefix(ts) == (mode, index as int));
    if index >= t.len() {
        return Err(diagnostic("foreach binding requires a variable name", span));
    }
    let is_let = t[index].kind == TokenKind::Keyword(Keyword::Let);
    let is_var = t[index].kind == TokenKind::Keyword(Keyword::Var);
    let name_index: usize;
    let mut type_text: Option<String> = None;
    if is_let {
        if index + 1 >= t.len() {
            return Err(diagnostic("expected identifier after `let` in foreach binding", span));
        }
        name_index = index + 1;
    } else if is_var {
        if index + 1 >= t.len() {
            return Err(diagnostic("expected identifier after `var` in foreach binding", span));
        }
        name_index = index + 1;
    } else {
        if t.len() - index < 2 {
            return Err(diagnostic("typed foreach binding requires `Type Identifier`", span));
        }
        name_index = t.len() - 1;
        let text = join_lexemes(&t, index, name_index);
        if text.unicode_len() == 0 {
            return Err(diagnostic("could not parse type in foreach binding", span));
        }
        type_text = Some(text);
    }
    let name_token = t[name_index];
    if name_token.kind != TokenKind::Identifier {
        return Err(diagnostic("foreach binding name must be an identifier", Some(name_token.span)));
    }
    if name_index + 1 < t.len() {
        return Err(diagnostic("foreach binding does not allow trailing tokens", span));
    }
    if is_let && (mode == ForeachBindingMode::Ref || mode == ForeachBindingMode::RefReadonly) {
        return Err(diagnostic("`let` foreach bindings cannot use `ref` modifiers", span));
    }
    let ty = match type_text {
        Some(text) => Ty::Named { name: text, args: Vec::new() },
        None => Ty::Unknown,
    };
    Ok(
        ForeachBindingInfo {
            mode,
            mutable: mode == ForeachBindingMode::Ref,
            ty,
            name: name_token.lexeme.clone(),
        },
    )
}

} // verus!
