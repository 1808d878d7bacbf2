//! The annotations of a declaration, and their reading into capability names with options.

use vstd::prelude::*;
use crate::fold::{fold_until_error, lemma_fold_next, lemma_fold_prefix_error};
use crate::text::{str_eq, text};

verus! {

/// A literal on the right of `=`. Only a string literal is read.
#[derive(Debug, PartialEq, Eq)]
pub enum Lit {
    /// A string literal, with the characters that it stands for.
    Str(String),
    /// Any other literal: a number, a character, a boolean, a byte string.
    Other,
}

/// One annotation node.
#[derive(Debug, PartialEq, Eq)]
pub enum Meta {
    /// A bare word: `Debug`.
    Word(String),
    /// A name with a list of nodes: `Debug(bound = "T: Copy")`.
    List(String, Vec<Meta>),
    /// A name with a literal: `Debug = "transparent"`.
    NameValue(String, Lit),
}

/// An attribute of a declaration: `#[derivative(Debug)]`, `#[inline]`.
#[derive(Debug, PartialEq, Eq)]
pub struct Attribute {
    /// What stands between the brackets.
    pub value: Meta,
}

/// An option of a capability: its key, and its value if it has one.
pub type OptionView = (Seq<char>, Option<Seq<char>>);

/// A capability name with its options in the order written.
pub struct Node {
    /// The name of the capability.
    pub name: Seq<char>,
    /// The options, each with its key and with its value if it has one.
    pub options: Seq<OptionView>,
}

/// A capability name with its options, borrowed from the annotation that it was read from:
///
/// * `Debug` is `("Debug", [])`;
/// * `Debug = "foo"` is `("Debug", [("foo", None)])`;
/// * `Debug(foo = "bar")` is `("Debug", [("foo", Some("bar"))])`.
#[derive(Debug, PartialEq, Eq)]
pub struct MetaItem<'a>(pub &'a str, pub Vec<(&'a str, Option<&'a str>)>);

/// The characters of a borrowed option.
pub open spec fn option_view(option: (&str, Option<&str>)) -> OptionView {
    (option.0@, text(option.1))
}

/// The characters of borrowed options.
pub open spec fn options_view(options: Seq<(&str, Option<&str>)>) -> Seq<OptionView> {
    Seq::new(options.len(), |i: int| option_view(options[i]))
}

impl<'a> View for MetaItem<'a> {
    type V = Node;

    open spec fn view(&self) -> Node {
        Node { name: self.0@, options: options_view(self.1@) }
    }
}

/// The string that a literal holds. A literal of another kind is refused.
pub open spec fn string_of(lit: Lit) -> Result<Seq<char>, Seq<char>> {
    match lit {
        Lit::Str(value) => Ok(value@),
        Lit::Other => Err("expected string"@),
    }
}

/// The option that a node inside a list stands for. Only `key = "value"` is an option; a bare
/// word or a nested list is refused.
pub open spec fn named_value(child: Meta) -> Result<OptionView, Seq<char>> {
    match child {
        Meta::NameValue(key, lit) => match string_of(lit) {
            Ok(value) => Ok((key@, Some(value))),
            Err(message) => Err(message),
        },
        Meta::Word(_) => Err("expected named value"@),
        Meta::List(_, _) => Err("expected named value"@),
    }
}

/// The step that reads one more node inside a list and adds its option to those read before.
pub open spec fn push_named() -> spec_fn(Seq<OptionView>, Meta) -> Result<
    Seq<OptionView>,
    Seq<char>,
> {
    |options: Seq<OptionView>, child: Meta|
        match named_value(child) {
            Ok(option) => Ok(options.push(option)),
            Err(message) => Err(message),
        }
}

/// The options that the nodes inside a list stand for, or the message of the first node that
/// is refused.
pub open spec fn named_values(children: Seq<Meta>) -> Result<Seq<OptionView>, Seq<char>> {
    fold_until_error(Seq::<OptionView>::empty(), children, push_named())
}

/// The options of a list, said directly: where every node is `key = "value"`, there is one
/// option for each node, in the order of the nodes; otherwise the message is that of the first
/// node that is not.
pub proof fn lemma_named_values(children: Seq<Meta>)
    ensures
        match named_values(children) {
            Ok(options) => options.len() == children.len() && forall|i: int|
                0 <= i < children.len() ==> named_value(#[trigger] children[i]) == Ok::<
                    OptionView,
                    Seq<char>,
                >(options[i]),
            Err(message) => exists|k: int|
                0 <= k < children.len() && named_value(#[trigger] children[k]) == Err::<
                    OptionView,
                    Seq<char>,
                >(message) && forall|i: int| 0 <= i < k ==> named_value(#[trigger] children[i]) is Ok,
        },
    decreases children.len(),
{
    if children.len() > 0 {
        let front = children.drop_last();
        let last = children.len() - 1;
        lemma_named_values(front);
        assert forall|i: int| 0 <= i < front.len() implies front[i] == children[i] by {}
        match named_values(front) {
            Ok(options) => {
                match named_value(children[last]) {
                    Ok(option) => {
                        let all = options.push(option);
                        assert forall|i: int| 0 <= i < children.len() implies named_value(
                            #[trigger] children[i],
                        ) == Ok::<OptionView, Seq<char>>(all[i]) by {
                            if i < last {
                                assert(named_value(front[i]) == Ok::<OptionView, Seq<char>>(
                                    options[i],
                                ));
                            }
                        }
                    },
                    Err(message) => {
                        assert forall|i: int| 0 <= i < last implies named_value(
                            #[trigger] children[i],
                        ) is Ok by {
                            assert(named_value(front[i]) is Ok);
                        }
                        assert(named_value(children[last]) == Err::<OptionView, Seq<char>>(message));
                    },
                }
            },
            Err(message) => {
                let k = choose|k: int|
                    0 <= k < front.len() && named_value(#[trigger] front[k]) == Err::<
                        OptionView,
                        Seq<char>,
                    >(message) && forall|i: int| 0 <= i < k ==> named_value(#[trigger] front[i]) is Ok;
                assert forall|i: int| 0 <= i < k implies named_value(#[trigger] children[i]) is Ok by {
                    assert(named_value(front[i]) is Ok);
                }
                assert(named_value(children[k]) == Err::<OptionView, Seq<char>>(message));
            },
        }
    }
}

/// The capability name and options that a node stands for:
///
/// * a bare word names a capability without options;
/// * `Name = "x"` names a capability with the one option `x`, which has no value;
/// * `Name(key = "value", ..)` names a capability with one option for each node in the list.
pub open spec fn node_of(item: Meta) -> Result<Node, Seq<char>> {
    match item {
        Meta::Word(name) => Ok(Node { name: name@, options: Seq::empty() }),
        Meta::List(name, children) => match named_values(children@) {
            Ok(options) => Ok(Node { name: name@, options }),
            Err(message) => Err(message),
        },
        Meta::NameValue(name, lit) => match string_of(lit) {
            Ok(value) => Ok(Node { name: name@, options: seq![(value, None)] }),
            Err(message) => Err(message),
        },
    }
}

/// The name that a node starts with.
pub open spec fn meta_name(item: Meta) -> Seq<char> {
    match item {
        Meta::Word(name) => name@,
        Meta::List(name, _) => name@,
        Meta::NameValue(name, _) => name@,
    }
}

/// The nodes listed in an attribute `derivative(..)`; none for any other attribute.
pub open spec fn derivative_nodes(attr: Attribute) -> Option<Seq<Meta>> {
    match attr.value {
        Meta::List(name, children) => if name@ == "derivative"@ {
            Some(children@)
        } else {
            None
        },
        Meta::Word(_) => None,
        Meta::NameValue(_, _) => None,
    }
}

/// Gets the string out of a string literal, or refuses a literal of another kind.
pub fn str_or_err(lit: &Lit) -> (read: Result<&str, String>)
    ensures
        match read {
            Ok(value) => string_of(*lit) == Ok::<Seq<char>, Seq<char>>(value@),
            Err(message) => string_of(*lit) == Err::<Seq<char>, Seq<char>>(message@),
        },
{
    match lit {
        Lit::Str(value) => Ok(value.as_str()),
        Lit::Other => Err(String::from_str("expected string")),
    }
}

/// Reads one node inside a list as an option.
pub fn read_named_value<'a>(child: &'a Meta) -> (read: Result<(&'a str, Option<&'a str>), String>)
    ensures
        match read {
            Ok(option) => named_value(*child) == Ok::<OptionView, Seq<char>>(option_view(option)),
            Err(message) => named_value(*child) == Err::<OptionView, Seq<char>>(message@),
        },
{
    match child {
        Meta::NameValue(key, lit) => {
            match str_or_err(lit) {
                Ok(value) => Ok((key.as_str(), Some(value))),
                Err(message) => Err(message),
            }
        },
        Meta::Word(_) => Err(String::from_str("expected named value")),
        Meta::List(_, _) => Err(String::from_str("expected named value")),
    }
}

/// Reads the nodes inside a list as options, up to the first that is refused.
pub fn read_named_values<'a>(children: &'a Vec<Meta>) -> (read: Result<
    Vec<(&'a str, Option<&'a str>)>,
    String,
>)
    ensures
        match read {
            Ok(options) => named_values(children@) == Ok::<Seq<OptionView>, Seq<char>>(
                options_view(options@),
            ),
            Err(message) => named_values(children@) == Err::<Seq<OptionView>, Seq<char>>(message@),
        },
{
    let mut options: Vec<(&'a str, Option<&'a str>)> = Vec::new();
    let mut i: usize = 0;
    assert(options_view(options@) =~= Seq::<OptionView>::empty());
    while i < children.len()
        invariant
            i <= children.len(),
            named_values(children@.take(i as int)) == Ok::<Seq<OptionView>, Seq<char>>(
                options_view(options@),
            ),
        decreases children.len() - i,
    {
        proof {
            lemma_fold_next(Seq::<OptionView>::empty(), children@, push_named(), i as int);
        }
        match read_named_value(&children[i]) {
            Ok(option) => {
                let ghost before = options_view(options@);
                options.push(option);
                assert(options_view(options@) =~= before.push(option_view(option)));
            },
            Err(message) => {
                proof {
                    lemma_fold_prefix_error(
                        Seq::<OptionView>::empty(),
                        children@,
                        push_named(),
                        i as int + 1,
                    );
                }
                return Err(message);
            },
        }
        i += 1;
    }
    assert(children@.take(i as int) =~= children@);
    Ok(options)
}

/// Reads a node as a capability name with its options.
pub fn read_items<'a>(item: &'a Meta) -> (read: Result<MetaItem<'a>, String>)
    ensures
        match read {
            Ok(node) => node_of(*item) == Ok::<Node, Seq<char>>(node@),
            Err(message) => node_of(*item) == Err::<Node, Seq<char>>(message@),
        },
{
    match item {
        Meta::Word(name) => {
            let options: Vec<(&'a str, Option<&'a str>)> = Vec::new();
            assert(options_view(options@) =~= Seq::<OptionView>::empty());
            Ok(MetaItem(name.as_str(), options))
        },
        Meta::List(name, children) => {
            match read_named_values(children) {
                Ok(options) => Ok(MetaItem(name.as_str(), options)),
                Err(message) => Err(message),
            }
        },
        Meta::NameValue(name, lit) => {
            match str_or_err(lit) {
                Ok(value) => {
                    let mut options: Vec<(&'a str, Option<&'a str>)> = Vec::new();
                    options.push((value, None));
                    assert(options_view(options@) =~= seq![(value@, None::<Seq<char>>)]);
                    Ok(MetaItem(name.as_str(), options))
                },
                Err(message) => Err(message),
            }
        },
    }
}

/// Filters the nodes of `derivative(..)` out of an attribute.
pub fn derivative_attribute(attr: &Attribute) -> (found: Option<&[Meta]>)
    ensures
        match found {
            Some(children) => derivative_nodes(*attr) == Some(children@),
            None => derivative_nodes(*attr) is None,
        },
{
    match &attr.value {
        Meta::List(name, children) => {
            if str_eq(name.as_str(), "derivative") {
                Some(children.as_slice())
            } else {
                None
            }
        },
        Meta::Word(_) => None,
        Meta::NameValue(_, _) => None,
    }
}

} // verus!
