use chic_consteval::initializer::{format_missing_required_message, parse_object_initializer};

#[test]
fn parse_object_initializer_covers_success_and_failure() {
    assert!(parse_object_initializer("").is_none(), "empty text should fail");
    assert!(
        parse_object_initializer("new Type(").is_none(),
        "unbalanced constructor call should fail"
    );
    let parsed = parse_object_initializer(
        "new Demo.Point<int> { X = 1, Y = other(2), Z = { nested = true }, W = array[0] }",
    )
    .expect("initializer should parse");
    assert_eq!(parsed.type_path, "Demo.Point<int>");
    assert_eq!(parsed.members, vec!["X", "Y", "Z", "W"]);
}

#[test]
fn parse_object_initializer_rejects_malformed_inputs() {
    let cases = [
        "",
        "new",
        "new { x = 1 }",
        "Type(",
        "Type { = 1 }",
        "Type { value = (1 }",
        "Type { value = [1 }",
        "Type { value 1 }",
        "Type { value = 1 } trailing",
    ];
    for text in cases {
        assert!(
            parse_object_initializer(text).is_none(),
            "initializer `{text}` should be rejected"
        );
    }
}

#[test]
fn format_missing_required_message_handles_plural() {
    let single = format_missing_required_message("Demo", &["Field".to_string()]);
    assert!(
        single.contains("required member `Field`"),
        "single required member should be mentioned"
    );
    let multiple = format_missing_required_message("Demo", &["A".into(), "B".into(), "C".into()]);
    assert!(
        multiple.contains("members `A`, `B` and `C`"),
        "plural required members should be enumerated"
    );
}

#[test]
fn format_missing_required_message_exact_texts() {
    assert_eq!(
        format_missing_required_message("Demo", &["Field".to_string()]),
        "initializer for `Demo` must assign required member `Field`"
    );
    assert_eq!(
        format_missing_required_message("Demo", &["A".to_string(), "B".to_string()]),
        "initializer for `Demo` must assign required members `A` and `B`"
    );
}

#[test]
fn parse_object_initializer_accepts_constructor_arguments_and_empty_bodies() {
    let parsed = parse_object_initializer("  Point(1, (2)) { X = f(a, b),Y=2 }  ")
        .expect("initializer with arguments should parse");
    assert_eq!(parsed.type_path, "Point");
    assert_eq!(parsed.members, vec!["X", "Y"]);
    let empty = parse_object_initializer("new Empty {}").expect("empty body parses");
    assert_eq!(empty.type_path, "Empty");
    assert!(empty.members.is_empty());
    let keyword_prefix = parse_object_initializer("newtype { a = 1 }").expect("type named newtype");
    assert_eq!(keyword_prefix.type_path, "newtype");
    assert!(parse_object_initializer("Type { a = 1 ) }").is_none());
    assert!(parse_object_initializer("Type { a = 1 ] }").is_none());
}

#[test]
fn leading_new_keyword_is_skipped() {
    for text in ["Demo.Point { X = 1, Y = 2 }", "  Box<int>(3) { Value = f(1) }", "Broken {", "   "] {
        let with_new = parse_object_initializer(&format!("new {text}"));
        let without = parse_object_initializer(text);
        match (with_new, without) {
            (Some(a), Some(b)) => {
                assert_eq!(a.type_path, b.type_path);
                assert_eq!(a.members, b.members);
            }
            (None, None) => {}
            (a, b) => panic!("`{text}` parsed differently: {:?} / {:?}", a.is_some(), b.is_some()),
        }
    }
}
