use derivative_attr::attr::Field;
use derivative_attr::meta::{Attribute, Lit, Meta};

fn fd_word(name: &str) -> Meta {
    Meta::Word(name.to_string())
}

fn fd_pair(key: &str, value: &str) -> Meta {
    Meta::NameValue(key.to_string(), Lit::Str(value.to_string()))
}

fn fd_list(name: &str, children: Vec<Meta>) -> Meta {
    Meta::List(name.to_string(), children)
}

fn fd_derivative(children: Vec<Meta>) -> Attribute {
    Attribute { value: fd_list("derivative", children) }
}

fn fd_predicates(clause: &str) -> Vec<syn::WherePredicate> {
    syn::parse_where_clause(clause).unwrap().predicates
}

fn fd_shown(field: &Result<Field, String>) -> String {
    format!("{:?}", field)
}

#[test]
fn field_without_attributes_has_nothing_set() {
    let field = Field::from_ast(&[]).unwrap();
    assert_eq!(field.clone_bound(), None);
    assert_eq!(field.copy_bound(), None);
    assert_eq!(field.debug_bound(), None);
    assert_eq!(field.debug_format_with(), None);
    assert!(!field.ignore_debug());
    assert_eq!(field.default_bound(), None);
    assert_eq!(field.default_value(), None);
    assert_eq!(field.eq_bound(), None);
    assert_eq!(field.partial_eq_bound(), None);
    assert_eq!(field.partial_eq_compare_with(), None);
    assert!(!field.ignore_partial_eq());
}

#[test]
fn field_attributes_of_others_are_not_read() {
    let attrs = vec![
        Attribute { value: fd_pair("doc", "the field") },
        Attribute { value: fd_list("serde", vec![fd_pair("rename", "x")]) },
        fd_derivative(vec![]),
    ];
    assert_eq!(fd_shown(&Field::from_ast(&attrs)), fd_shown(&Field::from_ast(&[])));
    assert_eq!(fd_shown(&Ok(Field::default())), fd_shown(&Field::from_ast(&[])));
}

#[test]
fn bare_capability_on_a_field_sets_nothing() {
    let attrs = vec![fd_derivative(vec![
        fd_word("Debug"),
        fd_word("Default"),
        fd_word("Eq"),
        fd_word("PartialEq"),
    ])];
    assert_eq!(fd_shown(&Field::from_ast(&attrs)), fd_shown(&Field::from_ast(&[])));
}

#[test]
fn debug_options_of_a_field_are_read() {
    let attrs = vec![fd_derivative(vec![fd_list(
        "Debug",
        vec![
            fd_pair("bound", "T: Debug"),
            fd_pair("format_with", "path::to::fmt"),
            fd_pair("ignore", "true"),
        ],
    )])];
    let field = Field::from_ast(&attrs).unwrap();
    assert_eq!(field.debug_bound(), Some(&fd_predicates("where T: Debug")[..]));
    assert_eq!(field.debug_format_with(), Some(&syn::parse_path("path::to::fmt").unwrap()));
    assert!(field.ignore_debug());
    assert!(!field.ignore_partial_eq());
    assert_eq!(field.partial_eq_bound(), None);
    assert_eq!(field.partial_eq_compare_with(), None);
}

#[test]
fn default_options_of_a_field_are_read() {
    let attrs = vec![fd_derivative(vec![fd_list(
        "Default",
        vec![fd_pair("bound", "T: Default"), fd_pair("value", "42 + 1")],
    )])];
    let field = Field::from_ast(&attrs).unwrap();
    assert_eq!(field.default_bound(), Some(&fd_predicates("where T: Default")[..]));
    assert_eq!(field.default_value(), Some(&syn::parse_expr("42 + 1").unwrap()));
    assert_eq!(field.debug_bound(), None);
}

#[test]
fn eq_bound_of_a_field_is_read() {
    let attrs = vec![fd_derivative(vec![fd_list(
        "Eq",
        vec![fd_pair("bound", "T: Eq"), fd_pair("bound", "U: Eq")],
    )])];
    let field = Field::from_ast(&attrs).unwrap();
    assert_eq!(field.eq_bound(), Some(&fd_predicates("where T: Eq, U: Eq")[..]));
    assert_eq!(field.partial_eq_bound(), None);
}

#[test]
fn partial_eq_options_of_a_field_are_read() {
    let attrs = vec![fd_derivative(vec![fd_list(
        "PartialEq",
        vec![
            fd_pair("bound", "T: PartialEq"),
            fd_pair("compare_with", "my::cmp"),
            fd_pair("ignore", "true"),
        ],
    )])];
    let field = Field::from_ast(&attrs).unwrap();
    assert_eq!(field.partial_eq_bound(), Some(&fd_predicates("where T: PartialEq")[..]));
    assert_eq!(field.partial_eq_compare_with(), Some(&syn::parse_path("my::cmp").unwrap()));
    assert!(field.ignore_partial_eq());
    assert!(!field.ignore_debug());
    assert_eq!(field.debug_format_with(), None);
}

#[test]
fn later_fragment_replaces_the_earlier() {
    let attrs = vec![
        fd_derivative(vec![fd_list("Debug", vec![fd_pair("format_with", "first::fmt")])]),
        fd_derivative(vec![fd_list(
            "Debug",
            vec![fd_pair("format_with", "second::fmt"), fd_pair("format_with", "third::fmt")],
        )]),
        fd_derivative(vec![fd_list(
            "Default",
            vec![fd_pair("value", "1"), fd_pair("value", "2")],
        )]),
    ];
    let field = Field::from_ast(&attrs).unwrap();
    assert_eq!(field.debug_format_with(), Some(&syn::parse_path("third::fmt").unwrap()));
    assert_eq!(field.default_value(), Some(&syn::parse_expr("2").unwrap()));
}

#[test]
fn field_bounds_merge_across_attributes() {
    let attrs = vec![
        fd_derivative(vec![fd_list("Debug", vec![fd_pair("bound", "A: Debug")])]),
        fd_derivative(vec![
            fd_pair("Debug", "ignore"),
            fd_list("Debug", vec![fd_pair("bound", "B: Debug")]),
        ]),
    ];
    let field = Field::from_ast(&attrs).unwrap();
    assert_eq!(field.debug_bound(), Some(&fd_predicates("where A: Debug, B: Debug")[..]));
    assert!(field.ignore_debug());
}

#[test]
fn bare_ignore_is_ignore_set_to_true() {
    for capability in ["Debug", "PartialEq"] {
        let short = Field::from_ast(&[fd_derivative(vec![fd_pair(capability, "ignore")])]);
        let long = Field::from_ast(&[fd_derivative(vec![fd_list(
            capability,
            vec![fd_pair("ignore", "true")],
        )])]);
        assert!(short.is_ok());
        assert_eq!(fd_shown(&short), fd_shown(&long));
        assert_ne!(fd_shown(&short), fd_shown(&Field::from_ast(&[])));
    }
    let field = Field::from_ast(&[fd_derivative(vec![fd_pair("Debug", "ignore")])]).unwrap();
    assert!(field.ignore_debug());
    assert!(!field.ignore_partial_eq());
}

#[test]
fn ignore_set_to_false_is_off() {
    let attrs = vec![fd_derivative(vec![
        fd_pair("PartialEq", "ignore"),
        fd_list("PartialEq", vec![fd_pair("ignore", "false")]),
    ])];
    assert!(!Field::from_ast(&attrs).unwrap().ignore_partial_eq());
}

#[test]
fn required_value_given_bare_is_refused_by_name() {
    let attrs = vec![fd_derivative(vec![fd_pair("Debug", "format_with")])];
    let message = Field::from_ast(&attrs).unwrap_err();
    assert!(message.contains("format_with"));
    assert_eq!(message, "format_with needs a value".to_string());
    let attrs = vec![fd_derivative(vec![fd_pair("Default", "value")])];
    assert_eq!(Field::from_ast(&attrs).unwrap_err(), "value needs a value".to_string());
    let attrs = vec![fd_derivative(vec![fd_pair("PartialEq", "compare_with")])];
    assert_eq!(Field::from_ast(&attrs).unwrap_err(), "compare_with needs a value".to_string());
    for capability in ["Debug", "Default", "Eq", "PartialEq"] {
        let attrs = vec![fd_derivative(vec![fd_pair(capability, "bound")])];
        assert_eq!(Field::from_ast(&attrs).unwrap_err(), "bound needs a value".to_string());
    }
}

#[test]
fn required_value_given_as_a_bare_word_in_a_list_fails() {
    let attrs = vec![fd_derivative(vec![fd_list("Debug", vec![fd_word("format_with")])])];
    assert!(Field::from_ast(&attrs).is_err());
    assert_eq!(Field::from_ast(&attrs).unwrap_err(), "expected named value".to_string());
}

#[test]
fn type_only_option_is_unknown_on_a_field() {
    let attrs = vec![fd_derivative(vec![fd_list("Debug", vec![fd_pair("transparent", "true")])])];
    assert_eq!(
        Field::from_ast(&attrs).unwrap_err(),
        "unknown attribute \"transparent\"".to_string()
    );
    let attrs = vec![fd_derivative(vec![fd_pair("Debug", "transparent")])];
    assert_eq!(
        Field::from_ast(&attrs).unwrap_err(),
        "unknown attribute \"transparent\"".to_string()
    );
    let attrs = vec![fd_derivative(vec![fd_pair("Default", "new")])];
    assert_eq!(Field::from_ast(&attrs).unwrap_err(), "unknown attribute \"new\"".to_string());
    let attrs = vec![fd_derivative(vec![fd_pair("PartialEq", "feature_allow_slow_enum")])];
    assert_eq!(
        Field::from_ast(&attrs).unwrap_err(),
        "unknown attribute \"feature_allow_slow_enum\"".to_string()
    );
}

#[test]
fn type_only_option_as_a_bare_word_in_a_list_fails_on_a_field() {
    let attrs = vec![fd_derivative(vec![fd_list("Debug", vec![fd_word("transparent")])])];
    assert!(Field::from_ast(&attrs).is_err());
}

#[test]
fn clone_and_copy_are_not_configured_on_a_field() {
    let attrs = vec![fd_derivative(vec![fd_word("Clone")])];
    assert_eq!(Field::from_ast(&attrs).unwrap_err(), "unknown trait \"Clone\"".to_string());
    let attrs = vec![fd_derivative(vec![fd_pair("Clone", "clone_from")])];
    assert_eq!(Field::from_ast(&attrs).unwrap_err(), "unknown trait \"Clone\"".to_string());
    let attrs = vec![fd_derivative(vec![fd_list("Copy", vec![fd_pair("bound", "T: Copy")])])];
    assert_eq!(Field::from_ast(&attrs).unwrap_err(), "unknown trait \"Copy\"".to_string());
    let attrs = vec![fd_derivative(vec![fd_word("Hash")])];
    assert_eq!(Field::from_ast(&attrs).unwrap_err(), "unknown trait \"Hash\"".to_string());
}

#[test]
fn unknown_option_on_a_field_is_refused_by_name() {
    for capability in ["Debug", "Default", "Eq", "PartialEq"] {
        let attrs = vec![fd_derivative(vec![fd_list(capability, vec![fd_pair("bogus", "x")])])];
        assert_eq!(
            Field::from_ast(&attrs).unwrap_err(),
            "unknown attribute \"bogus\"".to_string()
        );
    }
    let attrs = vec![fd_derivative(vec![fd_list("Eq", vec![fd_pair("ignore", "true")])])];
    assert_eq!(Field::from_ast(&attrs).unwrap_err(), "unknown attribute \"ignore\"".to_string());
    let attrs = vec![fd_derivative(vec![fd_list("Debug", vec![fd_pair("value", "1")])])];
    assert_eq!(Field::from_ast(&attrs).unwrap_err(), "unknown attribute \"value\"".to_string());
}

#[test]
fn fragment_that_does_not_parse_is_refused_with_the_parser_message() {
    let attrs = vec![fd_derivative(vec![fd_list("Debug", vec![fd_pair("format_with", "a::")])])];
    assert_eq!(Field::from_ast(&attrs).unwrap_err(), syn::parse_path("a::").unwrap_err());
    let attrs = vec![fd_derivative(vec![fd_list("Default", vec![fd_pair("value", "(1")])])];
    assert_eq!(Field::from_ast(&attrs).unwrap_err(), syn::parse_expr("(1").unwrap_err());
    let attrs = vec![fd_derivative(vec![fd_list("Eq", vec![fd_pair("bound", "T:: ::")])])];
    assert_eq!(
        Field::from_ast(&attrs).unwrap_err(),
        syn::parse_where_clause("where T:: ::").unwrap_err()
    );
}

#[test]
fn invalid_ignore_is_refused_by_name() {
    let attrs = vec![fd_derivative(vec![fd_list("Debug", vec![fd_pair("ignore", "1")])])];
    assert_eq!(Field::from_ast(&attrs).unwrap_err(), "Invalid value for `ignore`".to_string());
}

#[test]
fn clone_and_copy_bounds_of_a_field_stay_unset() {
    let attrs = vec![fd_derivative(vec![
        fd_list("Debug", vec![fd_pair("bound", "T: Debug")]),
        fd_list("Default", vec![fd_pair("bound", "T: Default")]),
        fd_list("Eq", vec![fd_pair("bound", "T: Eq")]),
        fd_list("PartialEq", vec![fd_pair("bound", "T: PartialEq")]),
    ])];
    let field = Field::from_ast(&attrs).unwrap();
    assert_eq!(field.clone_bound(), None);
    assert_eq!(field.copy_bound(), None);
    assert_eq!(field.debug_bound(), Some(&fd_predicates("where T: Debug")[..]));
    assert_eq!(field.default_bound(), Some(&fd_predicates("where T: Default")[..]));
    assert_eq!(field.eq_bound(), Some(&fd_predicates("where T: Eq")[..]));
    assert_eq!(field.partial_eq_bound(), Some(&fd_predicates("where T: PartialEq")[..]));
}
