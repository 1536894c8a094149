use chic_consteval::foreach::{parse_foreach_binding, ForeachBindingMode, Keyword, Token, TokenKind};
use chic_consteval::types::Ty;
use chic_consteval::values::Span;

fn tok(kind: TokenKind, lexeme: &str, at: usize) -> Token {
    Token { kind, lexeme: lexeme.to_string(), span: Span::new(at, at + lexeme.len()) }
}

fn ident(lexeme: &str, at: usize) -> Token {
    tok(TokenKind::Identifier, lexeme, at)
}

fn kw(k: Keyword, lexeme: &str, at: usize) -> Token {
    tok(TokenKind::Keyword(k), lexeme, at)
}

fn space(at: usize) -> Token {
    tok(TokenKind::Whitespace, " ", at)
}

fn span() -> Option<Span> {
    Some(Span::new(0, 40))
}

fn error_of(tokens: Vec<Token>) -> (String, Option<Span>) {
    match parse_foreach_binding(&tokens, span()) {
        Err(d) => (d.message, d.span),
        Ok(b) => panic!("binding `{}` should be rejected", b.name),
    }
}

#[test]
fn let_binding_is_an_untyped_value() {
    let tokens = vec![kw(Keyword::Let, "let", 0), space(3), ident("item", 4)];
    let b = parse_foreach_binding(&tokens, span()).expect("binding parses");
    assert_eq!(b.mode, ForeachBindingMode::Value);
    assert!(!b.mutable);
    assert_eq!(b.name, "item");
    assert!(matches!(b.ty, Ty::Unknown));
}

#[test]
fn typed_binding_joins_type_tokens() {
    let tokens = vec![
        ident("List", 0),
        tok(TokenKind::Other, "<", 4),
        kw(Keyword::Other, "int", 5),
        tok(TokenKind::Other, ">", 8),
        space(9),
        tok(TokenKind::Comment, "/* c */", 10),
        ident("xs", 17),
    ];
    let b = parse_foreach_binding(&tokens, span()).expect("binding parses");
    assert_eq!(b.mode, ForeachBindingMode::Value);
    assert_eq!(b.name, "xs");
    match b.ty {
        Ty::Named { name, args } => {
            assert_eq!(name, "List<int>");
            assert!(args.is_empty());
        }
        _ => panic!("typed binding should carry a named type"),
    }
}

#[test]
fn ref_modifiers_set_mode_and_mutability() {
    let tokens = vec![kw(Keyword::Ref, "ref", 0), kw(Keyword::Var, "var", 4), ident("x", 8)];
    let b = parse_foreach_binding(&tokens, span()).expect("ref var parses");
    assert_eq!(b.mode, ForeachBindingMode::Ref);
    assert!(b.mutable);
    let tokens = vec![kw(Keyword::Ref, "ref", 0), ident("ReadOnly", 4), kw(Keyword::Var, "var", 13), ident("x", 17)];
    let b = parse_foreach_binding(&tokens, span()).expect("ref readonly var parses");
    assert_eq!(b.mode, ForeachBindingMode::RefReadonly);
    assert!(!b.mutable);
    let tokens = vec![kw(Keyword::In, "in", 0), ident("int", 3), ident("x", 7)];
    let b = parse_foreach_binding(&tokens, span()).expect("in int x parses");
    assert_eq!(b.mode, ForeachBindingMode::In);
    assert!(!b.mutable);
}

#[test]
fn malformed_bindings_are_rejected_with_their_messages() {
    assert_eq!(
        error_of(vec![space(0)]),
        ("foreach binding requires an identifier".to_string(), span())
    );
    assert_eq!(
        error_of(vec![kw(Keyword::Ref, "ref", 0)]),
        ("foreach binding requires a variable name".to_string(), span())
    );
    assert_eq!(
        error_of(vec![kw(Keyword::Let, "let", 0)]),
        ("expected identifier after `let` in foreach binding".to_string(), span())
    );
    assert_eq!(
        error_of(vec![kw(Keyword::Var, "var", 0)]),
        ("expected identifier after `var` in foreach binding".to_string(), span())
    );
    assert_eq!(
        error_of(vec![ident("x", 0)]),
        ("typed foreach binding requires `Type Identifier`".to_string(), span())
    );
    assert_eq!(
        error_of(vec![tok(TokenKind::Other, "", 0), ident("x", 1)]),
        ("could not parse type in foreach binding".to_string(), span())
    );
    assert_eq!(
        error_of(vec![kw(Keyword::Let, "let", 0), tok(TokenKind::Other, "42", 4)]),
        ("foreach binding name must be an identifier".to_string(), Some(Span::new(4, 6)))
    );
    assert_eq!(
        error_of(vec![kw(Keyword::Var, "var", 0), ident("x", 4), ident("y", 6)]),
        ("foreach binding does not allow trailing tokens".to_string(), span())
    );
    assert_eq!(
        error_of(vec![kw(Keyword::Ref, "ref", 0), kw(Keyword::Let, "let", 4), ident("x", 8)]),
        ("`let` foreach bindings cannot use `ref` modifiers".to_string(), span())
    );
}
