use derivative_attr::meta::{
    derivative_attribute, read_items, read_named_value, read_named_values, str_or_err, Attribute,
    Lit, Meta, MetaItem,
};
use derivative_attr::text::{join, prefixed, str_eq};

fn reader_word(name: &str) -> Meta {
    Meta::Word(name.to_string())
}

fn reader_pair(key: &str, value: &str) -> Meta {
    Meta::NameValue(key.to_string(), Lit::Str(value.to_string()))
}

fn reader_list(name: &str, children: Vec<Meta>) -> Meta {
    Meta::List(name.to_string(), children)
}

#[test]
fn bare_word_has_no_options() {
    let item = reader_word("Debug");
    assert_eq!(read_items(&item), Ok(MetaItem("Debug", vec![])));
}

#[test]
fn name_value_is_one_option_without_value() {
    let item = reader_pair("Debug", "foo");
    assert_eq!(read_items(&item), Ok(MetaItem("Debug", vec![("foo", None)])));
}

#[test]
fn list_is_one_option_for_each_child() {
    let item = reader_list("Debug", vec![reader_pair("foo", "bar")]);
    assert_eq!(read_items(&item), Ok(MetaItem("Debug", vec![("foo", Some("bar"))])));
}

#[test]
fn list_keeps_the_order_of_its_children() {
    let item = reader_list(
        "PartialEq",
        vec![reader_pair("bound", "T: Eq"), reader_pair("ignore", "true"), reader_pair("bound", "")],
    );
    assert_eq!(
        read_items(&item),
        Ok(MetaItem(
            "PartialEq",
            vec![("bound", Some("T: Eq")), ("ignore", Some("true")), ("bound", Some(""))]
        ))
    );
}

#[test]
fn empty_list_has_no_options() {
    let item = reader_list("Copy", vec![]);
    assert_eq!(read_items(&item), Ok(MetaItem("Copy", vec![])));
}

#[test]
fn nested_word_is_refused() {
    let item = reader_list("Debug", vec![reader_word("transparent")]);
    assert_eq!(read_items(&item), Err("expected named value".to_string()));
}

#[test]
fn nested_list_is_refused() {
    let item = reader_list("Debug", vec![reader_list("bound", vec![reader_pair("a", "b")])]);
    assert_eq!(read_items(&item), Err("expected named value".to_string()));
}

#[test]
fn literal_other_than_string_is_refused() {
    let item = Meta::NameValue("Debug".to_string(), Lit::Other);
    assert_eq!(read_items(&item), Err("expected string".to_string()));
    let item = reader_list("Debug", vec![Meta::NameValue("bound".to_string(), Lit::Other)]);
    assert_eq!(read_items(&item), Err("expected string".to_string()));
}

#[test]
fn first_refused_child_decides_the_message() {
    let item = reader_list(
        "Debug",
        vec![
            reader_pair("bound", "T: Copy"),
            Meta::NameValue("ignore".to_string(), Lit::Other),
            reader_word("transparent"),
        ],
    );
    assert_eq!(read_items(&item), Err("expected string".to_string()));
    let item = reader_list(
        "Debug",
        vec![reader_word("transparent"), Meta::NameValue("ignore".to_string(), Lit::Other)],
    );
    assert_eq!(read_items(&item), Err("expected named value".to_string()));
}

#[test]
fn named_value_reads_key_and_string() {
    let child = reader_pair("bound", "T: Copy");
    assert_eq!(read_named_value(&child), Ok(("bound", Some("T: Copy"))));
    assert_eq!(read_named_value(&reader_word("bound")), Err("expected named value".to_string()));
}

#[test]
fn named_values_of_no_children_are_empty() {
    let children: Vec<Meta> = vec![];
    assert_eq!(read_named_values(&children), Ok(vec![]));
    let children = vec![reader_pair("a", "1"), reader_pair("b", "2")];
    assert_eq!(read_named_values(&children), Ok(vec![("a", Some("1")), ("b", Some("2"))]));
}

#[test]
fn string_literal_gives_its_string() {
    assert_eq!(str_or_err(&Lit::Str("T: Copy".to_string())), Ok("T: Copy"));
    assert_eq!(str_or_err(&Lit::Str(String::new())), Ok(""));
    assert_eq!(str_or_err(&Lit::Other), Err("expected string".to_string()));
}

#[test]
fn derivative_list_hands_out_its_nodes() {
    let children = vec![reader_word("Debug"), reader_pair("Clone", "clone_from")];
    let attr = Attribute {
        value: reader_list(
            "derivative",
            vec![reader_word("Debug"), reader_pair("Clone", "clone_from")],
        ),
    };
    assert_eq!(derivative_attribute(&attr), Some(&children[..]));
    let attr = Attribute { value: reader_list("derivative", vec![]) };
    assert_eq!(derivative_attribute(&attr), Some(&[][..]));
}

#[test]
fn other_attributes_are_passed_over() {
    let attr = Attribute { value: reader_list("derive", vec![reader_word("Debug")]) };
    assert_eq!(derivative_attribute(&attr), None);
    let attr = Attribute { value: reader_word("derivative") };
    assert_eq!(derivative_attribute(&attr), None);
    let attr = Attribute { value: reader_pair("derivative", "Debug") };
    assert_eq!(derivative_attribute(&attr), None);
    let attr = Attribute { value: reader_list("Derivative", vec![reader_word("Debug")]) };
    assert_eq!(derivative_attribute(&attr), None);
}

#[test]
fn strings_compare_by_their_characters() {
    assert!(str_eq("", ""));
    assert!(str_eq("bound", "bound"));
    assert!(!str_eq("bound", "bounds"));
    assert!(!str_eq("bound", "bounD"));
    assert!(!str_eq("transparent", "format_with"));
    assert!(str_eq("é∀", "é∀"));
    assert!(!str_eq("é", "e"));
}

#[test]
fn strings_are_joined_in_order() {
    assert_eq!(prefixed("where ", "T: Copy"), "where T: Copy");
    assert_eq!(prefixed("", ""), "");
    assert_eq!(join("unknown trait \"", "Hash", "\""), "unknown trait \"Hash\"");
    assert_eq!(join("a", "", "c"), "ac");
}
