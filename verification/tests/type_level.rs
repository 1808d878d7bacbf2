use derivative_attr::attr::Input;
use derivative_attr::meta::{Attribute, Lit, Meta};

fn ty_word(name: &str) -> Meta {
    Meta::Word(name.to_string())
}

fn ty_pair(key: &str, value: &str) -> Meta {
    Meta::NameValue(key.to_string(), Lit::Str(value.to_string()))
}

fn ty_list(name: &str, children: Vec<Meta>) -> Meta {
    Meta::List(name.to_string(), children)
}

fn ty_derivative(children: Vec<Meta>) -> Attribute {
    Attribute { value: ty_list("derivative", children) }
}

fn ty_predicates(clause: &str) -> Vec<syn::WherePredicate> {
    syn::parse_where_clause(clause).unwrap().predicates
}

fn ty_shown(input: &Result<Input, String>) -> String {
    format!("{:?}", input)
}

#[test]
fn no_attributes_leave_every_capability_absent() {
    let input = Input::from_ast(&[]).unwrap();
    assert!(input.clone.is_none());
    assert!(input.copy.is_none());
    assert!(input.debug.is_none());
    assert!(input.default.is_none());
    assert!(input.eq.is_none());
    assert!(input.partial_eq.is_none());
    assert_eq!(input.clone_bound(), None);
    assert_eq!(input.copy_bound(), None);
    assert_eq!(input.debug_bound(), None);
    assert_eq!(input.default_bound(), None);
    assert_eq!(input.eq_bound(), None);
    assert_eq!(input.partial_eq_bound(), None);
    assert!(!input.debug_transparent());
    assert!(!input.partial_eq_on_enum());
}

#[test]
fn attributes_of_others_are_not_read() {
    let attrs = vec![
        Attribute { value: ty_word("inline") },
        Attribute { value: ty_list("derive", vec![ty_word("Hash"), ty_word("Debug")]) },
        Attribute { value: ty_pair("doc", "Debug") },
        Attribute { value: Meta::NameValue("recursion_limit".to_string(), Lit::Other) },
        Attribute { value: ty_word("derivative") },
        Attribute { value: ty_pair("derivative", "Debug") },
        ty_derivative(vec![]),
    ];
    let input = Input::from_ast(&attrs).unwrap();
    assert_eq!(ty_shown(&Ok(input)), ty_shown(&Input::from_ast(&[])));
}

#[test]
fn default_configuration_is_that_of_no_attributes() {
    assert_eq!(ty_shown(&Ok(Input::default())), ty_shown(&Input::from_ast(&[])));
}

#[test]
fn bare_capability_is_present_with_nothing_set() {
    let input = Input::from_ast(&[ty_derivative(vec![ty_word("Debug")])]).unwrap();
    assert!(input.debug.is_some());
    assert_eq!(input.debug_bound(), None);
    assert!(!input.debug_transparent());
    assert!(input.clone.is_none());
    assert!(input.copy.is_none());
    assert!(input.default.is_none());
    assert!(input.eq.is_none());
    assert!(input.partial_eq.is_none());
}

#[test]
fn empty_option_list_makes_the_capability_present() {
    let input = Input::from_ast(&[ty_derivative(vec![ty_list("Eq", vec![])])]).unwrap();
    assert!(input.eq.is_some());
    assert_eq!(input.eq_bound(), None);
    assert!(input.partial_eq.is_none());
}

#[test]
fn each_name_reaches_its_own_record() {
    let attrs = vec![ty_derivative(vec![
        ty_list("Clone", vec![ty_pair("bound", "A: Clone")]),
        ty_list("Copy", vec![ty_pair("bound", "B: Copy")]),
        ty_list("Debug", vec![ty_pair("bound", "C: Debug")]),
        ty_list("Default", vec![ty_pair("bound", "D: Default")]),
        ty_list("Eq", vec![ty_pair("bound", "E: Eq")]),
        ty_list("PartialEq", vec![ty_pair("bound", "F: PartialEq")]),
    ])];
    let input = Input::from_ast(&attrs).unwrap();
    assert_eq!(input.clone_bound(), Some(&ty_predicates("where A: Clone")[..]));
    assert_eq!(input.copy_bound(), Some(&ty_predicates("where B: Copy")[..]));
    assert_eq!(input.debug_bound(), Some(&ty_predicates("where C: Debug")[..]));
    assert_eq!(input.default_bound(), Some(&ty_predicates("where D: Default")[..]));
    assert_eq!(input.eq_bound(), Some(&ty_predicates("where E: Eq")[..]));
    assert_eq!(input.partial_eq_bound(), Some(&ty_predicates("where F: PartialEq")[..]));
}

#[test]
fn bounds_are_appended_in_the_order_written() {
    let attrs = vec![ty_derivative(vec![ty_list(
        "Clone",
        vec![
            ty_pair("bound", "T: Copy"),
            ty_pair("bound", "U: Clone, V: Send"),
            ty_pair("bound", ""),
            ty_pair("bound", "T: Copy"),
        ],
    )])];
    let input = Input::from_ast(&attrs).unwrap();
    assert_eq!(
        input.clone_bound(),
        Some(&ty_predicates("where T: Copy, U: Clone, V: Send, T: Copy")[..])
    );
    assert_eq!(input.clone_bound().map(|bounds| bounds.len()), Some(4));
}

#[test]
fn bounds_merge_across_nodes_and_attributes() {
    let attrs = vec![
        ty_derivative(vec![
            ty_list("Eq", vec![ty_pair("bound", "A: Eq")]),
            ty_list("PartialEq", vec![ty_pair("bound", "X: PartialEq")]),
            ty_list("Eq", vec![ty_pair("bound", "B: Eq")]),
        ]),
        Attribute { value: ty_word("inline") },
        ty_derivative(vec![ty_list("Eq", vec![ty_pair("bound", "C: Eq")])]),
    ];
    let input = Input::from_ast(&attrs).unwrap();
    assert_eq!(input.eq_bound(), Some(&ty_predicates("where A: Eq, B: Eq, C: Eq")[..]));
    assert_eq!(input.partial_eq_bound(), Some(&ty_predicates("where X: PartialEq")[..]));
}

#[test]
fn empty_bound_gives_an_empty_list() {
    let attrs = vec![ty_derivative(vec![ty_list("Copy", vec![ty_pair("bound", "")])])];
    let input = Input::from_ast(&attrs).unwrap();
    assert_eq!(input.copy_bound(), Some(&[][..]));
}

#[test]
fn bare_flag_is_the_flag_set_to_true() {
    let cases = [
        ("Clone", "clone_from"),
        ("Debug", "transparent"),
        ("Default", "new"),
        ("PartialEq", "feature_allow_slow_enum"),
    ];
    for (capability, flag) in cases {
        let short = Input::from_ast(&[ty_derivative(vec![ty_pair(capability, flag)])]);
        let long = Input::from_ast(&[ty_derivative(vec![ty_list(
            capability,
            vec![ty_pair(flag, "true")],
        )])]);
        assert!(short.is_ok());
        assert_eq!(ty_shown(&short), ty_shown(&long));
        let unset = Input::from_ast(&[ty_derivative(vec![ty_word(capability)])]);
        assert_ne!(ty_shown(&short), ty_shown(&unset));
    }
}

#[test]
fn flags_are_read_into_their_records() {
    let attrs = vec![ty_derivative(vec![
        ty_pair("Clone", "clone_from"),
        ty_list("Debug", vec![ty_pair("transparent", "true")]),
        ty_pair("Default", "new"),
        ty_list("PartialEq", vec![ty_pair("feature_allow_slow_enum", "true")]),
    ])];
    let input = Input::from_ast(&attrs).unwrap();
    assert!(input.clone.as_ref().unwrap().clone_from);
    assert!(input.debug_transparent());
    assert!(input.debug.as_ref().unwrap().transparent);
    assert!(input.default.as_ref().unwrap().new);
    assert!(input.partial_eq_on_enum());
    assert_eq!(input.clone_bound(), None);
}

#[test]
fn flag_set_to_false_is_off() {
    let attrs = vec![ty_derivative(vec![
        ty_list("Debug", vec![ty_pair("transparent", "false")]),
        ty_list("PartialEq", vec![ty_pair("feature_allow_slow_enum", "false")]),
    ])];
    let input = Input::from_ast(&attrs).unwrap();
    assert!(input.debug.is_some());
    assert!(!input.debug_transparent());
    assert!(!input.partial_eq_on_enum());
}

#[test]
fn last_value_of_a_flag_stands() {
    let attrs = vec![
        ty_derivative(vec![ty_pair("Debug", "transparent")]),
        ty_derivative(vec![ty_list("Debug", vec![ty_pair("transparent", "false")])]),
    ];
    assert!(!Input::from_ast(&attrs).unwrap().debug_transparent());
    let attrs = vec![ty_derivative(vec![ty_list(
        "Debug",
        vec![ty_pair("transparent", "false"), ty_pair("transparent", "true")],
    )])];
    assert!(Input::from_ast(&attrs).unwrap().debug_transparent());
}

#[test]
fn flag_with_another_value_is_refused() {
    let attrs = vec![ty_derivative(vec![ty_list("Debug", vec![ty_pair("transparent", "yes")])])];
    assert_eq!(
        Input::from_ast(&attrs).unwrap_err(),
        "Invalid value for `transparent`".to_string()
    );
    let attrs = vec![ty_derivative(vec![ty_list(
        "PartialEq",
        vec![ty_pair("feature_allow_slow_enum", "")],
    )])];
    assert_eq!(
        Input::from_ast(&attrs).unwrap_err(),
        "Invalid value for `feature_allow_slow_enum`".to_string()
    );
}

#[test]
fn unknown_capability_is_refused_by_name() {
    let message = Input::from_ast(&[ty_derivative(vec![ty_word("Hash")])]).unwrap_err();
    assert!(message.contains("Hash"));
    assert_eq!(message, "unknown trait \"Hash\"".to_string());
}

#[test]
fn unknown_capability_is_refused_whatever_its_options() {
    let attrs = vec![ty_derivative(vec![ty_list("Hash", vec![ty_pair("bound", "T: Copy")])])];
    assert_eq!(Input::from_ast(&attrs).unwrap_err(), "unknown trait \"Hash\"".to_string());
    let attrs = vec![ty_derivative(vec![ty_pair("Ord", "transparent")])];
    assert_eq!(Input::from_ast(&attrs).unwrap_err(), "unknown trait \"Ord\"".to_string());
    let attrs = vec![ty_derivative(vec![ty_word("debug")])];
    assert_eq!(Input::from_ast(&attrs).unwrap_err(), "unknown trait \"debug\"".to_string());
    let attrs = vec![ty_derivative(vec![ty_word("")])];
    assert_eq!(Input::from_ast(&attrs).unwrap_err(), "unknown trait \"\"".to_string());
}

#[test]
fn unknown_capability_fails_wherever_it_stands() {
    let attrs = vec![
        ty_derivative(vec![ty_word("Debug"), ty_word("Clone")]),
        Attribute { value: ty_word("inline") },
        ty_derivative(vec![ty_word("Eq"), ty_word("Hash"), ty_word("Copy")]),
    ];
    assert_eq!(Input::from_ast(&attrs).unwrap_err(), "unknown trait \"Hash\"".to_string());
}

#[test]
fn unknown_option_is_refused_by_name() {
    let attrs = vec![ty_derivative(vec![ty_list("Debug", vec![ty_pair("bogus", "x")])])];
    let message = Input::from_ast(&attrs).unwrap_err();
    assert!(message.contains("bogus"));
    assert_eq!(message, "unknown attribute \"bogus\"".to_string());
}

#[test]
fn unknown_option_fails_among_known_ones() {
    let attrs = vec![ty_derivative(vec![ty_list(
        "Debug",
        vec![ty_pair("bound", "T: Copy"), ty_pair("bogus", "x"), ty_pair("transparent", "true")],
    )])];
    assert_eq!(Input::from_ast(&attrs).unwrap_err(), "unknown attribute \"bogus\"".to_string());
}

#[test]
fn shorthand_with_an_unknown_option_is_refused() {
    let attrs = vec![ty_derivative(vec![ty_pair("Debug", "bogus")])];
    assert_eq!(Input::from_ast(&attrs).unwrap_err(), "unknown attribute \"bogus\"".to_string());
    let attrs = vec![ty_derivative(vec![ty_pair("Copy", "transparent")])];
    assert_eq!(
        Input::from_ast(&attrs).unwrap_err(),
        "unknown attribute \"transparent\"".to_string()
    );
}

#[test]
fn options_of_another_capability_are_unknown() {
    let cases = [
        ("Clone", "transparent"),
        ("Copy", "clone_from"),
        ("Debug", "new"),
        ("Debug", "ignore"),
        ("Debug", "format_with"),
        ("Default", "value"),
        ("Eq", "feature_allow_slow_enum"),
        ("PartialEq", "compare_with"),
        ("PartialEq", "ignore"),
    ];
    for (capability, key) in cases {
        let attrs = vec![ty_derivative(vec![ty_list(capability, vec![ty_pair(key, "true")])])];
        assert_eq!(
            Input::from_ast(&attrs).unwrap_err(),
            format!("unknown attribute \"{}\"", key)
        );
    }
}

#[test]
fn bare_bound_is_refused_on_a_type() {
    for capability in ["Clone", "Copy", "Debug", "Default", "Eq", "PartialEq"] {
        let attrs = vec![ty_derivative(vec![ty_pair(capability, "bound")])];
        assert_eq!(Input::from_ast(&attrs).unwrap_err(), "bound needs a value".to_string());
    }
}

#[test]
fn debug_bound_and_transparent_round_trip() {
    let first = ty_derivative(vec![ty_list(
        "Debug",
        vec![ty_pair("bound", "T: Copy"), ty_pair("transparent", "true")],
    )]);
    let input = Input::from_ast(&[first]).unwrap();
    assert_eq!(input.debug_bound(), Some(&ty_predicates("where T: Copy")[..]));
    assert!(input.debug_transparent());

    let first = ty_derivative(vec![ty_list(
        "Debug",
        vec![ty_pair("bound", "T: Copy"), ty_pair("transparent", "true")],
    )]);
    let second = ty_derivative(vec![ty_list("Debug", vec![ty_pair("bound", "U: Clone")])]);
    let input = Input::from_ast(&[first, second]).unwrap();
    assert_eq!(input.debug_bound(), Some(&ty_predicates("where T: Copy, U: Clone")[..]));
    assert_eq!(input.debug_bound().map(|bounds| bounds.len()), Some(2));
    assert!(input.debug_transparent());
}

#[test]
fn debug_bound_and_shorthand_transparent_round_trip() {
    let first = ty_derivative(vec![
        ty_list("Debug", vec![ty_pair("bound", "T: Copy")]),
        ty_pair("Debug", "transparent"),
    ]);
    let second = ty_derivative(vec![ty_list("Debug", vec![ty_pair("bound", "U: Clone")])]);
    let input = Input::from_ast(&[first, second]).unwrap();
    assert_eq!(input.debug_bound(), Some(&ty_predicates("where T: Copy, U: Clone")[..]));
    assert!(input.debug_transparent());
}

#[test]
fn bare_word_among_the_options_is_refused() {
    let attrs = vec![ty_derivative(vec![ty_list(
        "Debug",
        vec![ty_pair("bound", "T: Copy"), ty_word("transparent")],
    )])];
    assert_eq!(Input::from_ast(&attrs).unwrap_err(), "expected named value".to_string());
}

#[test]
fn value_that_is_no_string_is_refused() {
    let attrs = vec![ty_derivative(vec![Meta::NameValue("Debug".to_string(), Lit::Other)])];
    assert_eq!(Input::from_ast(&attrs).unwrap_err(), "expected string".to_string());
    let attrs = vec![ty_derivative(vec![ty_list(
        "Debug",
        vec![Meta::NameValue("transparent".to_string(), Lit::Other)],
    )])];
    assert_eq!(Input::from_ast(&attrs).unwrap_err(), "expected string".to_string());
}

#[test]
fn node_is_read_before_its_name_is_looked_up() {
    let attrs = vec![ty_derivative(vec![ty_list("Hash", vec![ty_word("bound")])])];
    assert_eq!(Input::from_ast(&attrs).unwrap_err(), "expected named value".to_string());
}

#[test]
fn first_refusal_ends_the_parse() {
    let attrs = vec![ty_derivative(vec![
        ty_list("Debug", vec![ty_pair("transparent", "maybe")]),
        ty_word("Hash"),
    ])];
    assert_eq!(
        Input::from_ast(&attrs).unwrap_err(),
        "Invalid value for `transparent`".to_string()
    );
    let attrs = vec![ty_derivative(vec![
        ty_word("Hash"),
        ty_list("Debug", vec![ty_pair("transparent", "maybe")]),
    ])];
    assert_eq!(Input::from_ast(&attrs).unwrap_err(), "unknown trait \"Hash\"".to_string());
}

#[test]
fn bound_that_does_not_parse_is_refused_with_the_parser_message() {
    let attrs = vec![ty_derivative(vec![ty_list("Clone", vec![ty_pair("bound", "T: Copy +")])])];
    let expected = syn::parse_where_clause("where T: Copy +").unwrap_err();
    assert_eq!(Input::from_ast(&attrs).unwrap_err(), expected);
}

#[test]
fn options_split_over_two_nodes_give_the_same() {
    let one = Input::from_ast(&[ty_derivative(vec![ty_list(
        "Default",
        vec![ty_pair("bound", "T: Default"), ty_pair("new", "true"), ty_pair("bound", "U: Copy")],
    )])]);
    let two = Input::from_ast(&[ty_derivative(vec![
        ty_list("Default", vec![ty_pair("bound", "T: Default")]),
        ty_list("Default", vec![ty_pair("new", "true"), ty_pair("bound", "U: Copy")]),
    ])]);
    let three = Input::from_ast(&[
        ty_derivative(vec![ty_list("Default", vec![ty_pair("bound", "T: Default")])]),
        ty_derivative(vec![ty_pair("Default", "new")]),
        ty_derivative(vec![ty_list("Default", vec![ty_pair("bound", "U: Copy")])]),
    ]);
    assert!(one.is_ok());
    assert_eq!(ty_shown(&one), ty_shown(&two));
    assert_eq!(ty_shown(&one), ty_shown(&three));
    let input = one.unwrap();
    assert_eq!(input.default_bound(), Some(&ty_predicates("where T: Default, U: Copy")[..]));
    assert!(input.default.as_ref().unwrap().new);
}

#[test]
fn capability_is_present_exactly_if_named() {
    let attrs = vec![
        ty_derivative(vec![ty_word("Copy"), ty_pair("Clone", "clone_from")]),
        ty_derivative(vec![ty_list("PartialEq", vec![])]),
        Attribute { value: ty_list("derive", vec![ty_word("Debug"), ty_word("Eq")]) },
    ];
    let input = Input::from_ast(&attrs).unwrap();
    assert!(input.clone.is_some());
    assert!(input.copy.is_some());
    assert!(input.partial_eq.is_some());
    assert!(input.debug.is_none());
    assert!(input.default.is_none());
    assert!(input.eq.is_none());
}
