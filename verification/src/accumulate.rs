//! The two interfaces through which annotations reach a configuration, and the loops that
//! drive them.
//!
//! A record of one capability takes options one at a time. A configuration of a declaration
//! takes capability nodes one at a time and routes each to the record that it names.

use vstd::prelude::*;
use crate::fold::{
    fold_until_error,
    lemma_fold_blocked,
    lemma_fold_concat,
    lemma_fold_next,
    lemma_fold_prefix_error,
    lemma_fold_single,
};
use crate::meta::{
    derivative_attribute,
    derivative_nodes,
    node_of,
    options_view,
    read_items,
    Attribute,
    Meta,
    MetaItem,
    Node,
    OptionView,
};
use crate::text::{needs_value, text, unknown_attribute, unknown_trait};
use crate::value::{
    bound_of,
    bound_parses,
    boolean_of,
    concatenated,
    expression_of,
    gathered,
    predicates_of,
    reference_of,
};

verus! {

/// What the value of an option is read as.
pub enum Kind {
    /// A list of bounds, added to those given before.
    Bound,
    /// A boolean, which a bare option switches on.
    Flag,
    /// The path of a function.
    Reference,
    /// An expression.
    Expression,
}

/// The message with which an option of the given kind is refused for its value, if it is.
pub open spec fn refusal(
    kind: Kind,
    key: Seq<char>,
    value: Option<Seq<char>>,
    bounds: Option<Seq<syn::WherePredicate>>,
) -> Option<Seq<char>> {
    match kind {
        Kind::Bound => match bound_of(bounds, value) {
            Ok(_) => None,
            Err(message) => Some(message),
        },
        Kind::Flag => match boolean_of(value, true, key) {
            Ok(_) => None,
            Err(message) => Some(message),
        },
        Kind::Reference => match reference_of(value, key) {
            Ok(_) => None,
            Err(message) => Some(message),
        },
        Kind::Expression => match expression_of(value, key) {
            Ok(_) => None,
            Err(message) => Some(message),
        },
    }
}

/// The settings of one capability, built up from its options.
pub trait Accumulator: View + Sized {
    /// The kind of the option `key`; none for a key that the capability does not know.
    spec fn kind(key: Seq<char>) -> Option<Kind>;

    /// The bounds that the record holds.
    spec fn bounds(state: Self::V) -> Option<Seq<syn::WherePredicate>>;

    /// The record after the option `key`, or the message with which the option is refused.
    spec fn accepted(state: Self::V, key: Seq<char>, value: Option<Seq<char>>) -> Result<
        Self::V,
        Seq<char>,
    >;

    /// The kind of an option decides when it is refused and with which message, and what it
    /// does to the bounds: an unknown key is always refused; a known one is refused for its
    /// value alone; only `bound` is of kind `Bound` and only it touches the bounds; a bare
    /// flag is the flag set to `"true"`.
    proof fn lemma_accepted(state: Self::V, key: Seq<char>, value: Option<Seq<char>>)
        ensures
            match Self::kind(key) {
                None => Self::accepted(state, key, value) == Err::<Self::V, Seq<char>>(
                    unknown_attribute(key),
                ),
                Some(kind) => match refusal(kind, key, value, Self::bounds(state)) {
                    Some(message) => Self::accepted(state, key, value) == Err::<
                        Self::V,
                        Seq<char>,
                    >(message),
                    None => Self::accepted(state, key, value) is Ok,
                },
            },
            Self::kind(key) == Some(Kind::Bound) <==> key == "bound"@,
            Self::accepted(state, key, value) matches Ok(next) ==> Self::bounds(next) == if key
                == "bound"@ {
                Some(bound_of(Self::bounds(state), value)->Ok_0)
            } else {
                Self::bounds(state)
            },
            Self::kind(key) == Some(Kind::Flag) ==> Self::accepted(state, key, None)
                == Self::accepted(state, key, Some("true"@)),
    ;

    /// Every option but `bound` overwrites: given twice, the second stands as if the first had
    /// not been given.
    proof fn lemma_overwritten(
        state: Self::V,
        key: Seq<char>,
        first: Option<Seq<char>>,
        second: Option<Seq<char>>,
    )
        requires
            key != "bound"@,
        ensures
            Self::accepted(state, key, first) matches Ok(between) ==> Self::accepted(
                between,
                key,
                second,
            ) == Self::accepted(state, key, second),
    ;

    /// Takes one option into the record.
    fn accept(self, key: &str, value: Option<&str>) -> (taken: Result<Self, String>)
        ensures
            match taken {
                Ok(record) => Self::accepted(self@, key@, text(value)) == Ok::<Self::V, Seq<char>>(
                    record@,
                ),
                Err(message) => Self::accepted(self@, key@, text(value)) == Err::<
                    Self::V,
                    Seq<char>,
                >(message@),
            },
    ;
}

/// The configuration of one declaration, built up from capability nodes.
pub trait Dispatcher: View + Sized {
    /// Whether `name` is a capability of this kind of declaration.
    spec fn knows(name: Seq<char>) -> bool;

    /// The kind of the option `key` of the capability `name`; none where the capability or
    /// the key is unknown.
    spec fn kind(name: Seq<char>, key: Seq<char>) -> Option<Kind>;

    /// The bounds that the capability `name` holds; none where it is absent or unknown.
    spec fn bounds(state: Self::V, name: Seq<char>) -> Option<Seq<syn::WherePredicate>>;

    /// The configuration after the node, or the message with which the node is refused.
    spec fn routed(state: Self::V, node: Node) -> Result<Self::V, Seq<char>>;

    /// An unknown capability is refused by name, whatever its options, and has no options of
    /// any kind. A known one is accepted without options, and refused if any of its options is
    /// unknown to it. With a single option: an unknown key is refused by name, a bare option
    /// that needs a value is refused by name, and a bare flag is the flag set to `"true"`.
    proof fn lemma_routed(state: Self::V, node: Node)
        ensures
            !Self::knows(node.name) ==> Self::routed(state, node) == Err::<Self::V, Seq<char>>(
                unknown_trait(node.name),
            ),
            !Self::knows(node.name) ==> forall|key: Seq<char>|
                (#[trigger] Self::kind(node.name, key)) is None,
            Self::knows(node.name) && node.options.len() == 0 ==> Self::routed(state, node) is Ok,
            Self::knows(node.name) ==> forall|k: int|
                0 <= k < node.options.len() && Self::kind(node.name, (#[trigger] node.options[k]).0)
                    is None ==> Self::routed(state, node) is Err,
            Self::knows(node.name) && node.options.len() == 1 ==> match Self::kind(
                node.name,
                node.options[0].0,
            ) {
                None => Self::routed(state, node) == Err::<Self::V, Seq<char>>(
                    unknown_attribute(node.options[0].0),
                ),
                Some(Kind::Flag) => node.options[0].1 is None ==> Self::routed(state, node) is Ok
                    && Self::routed(state, node) == Self::routed(
                    state,
                    Node { name: node.name, options: seq![(node.options[0].0, Some("true"@))] },
                ),
                Some(_) => node.options[0].1 is None ==> Self::routed(state, node) == Err::<
                    Self::V,
                    Seq<char>,
                >(needs_value(node.options[0].0)),
            },
    ;

    /// Bounds are merged by appending: after a node of a known capability whose options are
    /// `bound = "B1"`, .., `bound = "Bn"`, the capability holds the bounds it had before,
    /// followed by the predicates of `B1`, then those of `B2`, and so on.
    proof fn lemma_routed_bounds(state: Self::V, name: Seq<char>, values: Seq<Seq<char>>)
        requires
            Self::knows(name),
            forall|i: int| 0 <= i < values.len() ==> bound_parses(#[trigger] values[i]),
        ensures
            Self::routed(state, Node { name, options: bound_options(values) }) matches Ok(next)
                && Self::bounds(next, name) == if values.len() == 0 {
                Self::bounds(state, name)
            } else {
                Some(gathered(Self::bounds(state, name)) + concatenated(values))
            },
    ;

    /// Nodes of one name merge: a node with its options split over two nodes of the same
    /// name, one after the other, gives what the one node gives.
    proof fn lemma_routed_in_parts(
        state: Self::V,
        name: Seq<char>,
        front: Seq<OptionView>,
        back: Seq<OptionView>,
    )
        ensures
            Self::routed(state, Node { name, options: front + back }) == match Self::routed(
                state,
                Node { name, options: front },
            ) {
                Ok(reached) => Self::routed(reached, Node { name, options: back }),
                Err(message) => Err(message),
            },
    ;

    /// Routes one capability node to the record that its name selects.
    fn route(self, item: &MetaItem) -> (taken: Result<Self, String>)
        ensures
            match taken {
                Ok(config) => Self::routed(self@, item@) == Ok::<Self::V, Seq<char>>(config@),
                Err(message) => Self::routed(self@, item@) == Err::<Self::V, Seq<char>>(message@),
            },
    ;
}

/// The record to go on from: the one that is there, or else a blank one.
pub open spec fn opened<V>(slot: Option<V>, blank: V) -> V {
    match slot {
        Some(record) => record,
        None => blank,
    }
}

/// One option `bound = "<value>"` for each of the values.
pub open spec fn bound_options(values: Seq<Seq<char>>) -> Seq<OptionView> {
    Seq::new(values.len(), |i: int| ("bound"@, Some(values[i])))
}

/// The step that takes one option into a record.
pub open spec fn accept_step<A: Accumulator>() -> spec_fn(A::V, OptionView) -> Result<
    A::V,
    Seq<char>,
> {
    |state: A::V, option: OptionView| A::accepted(state, option.0, option.1)
}

/// The record after all the options in order, or the message of the first that is refused.
pub open spec fn accepted_all<A: Accumulator>(state: A::V, options: Seq<OptionView>) -> Result<
    A::V,
    Seq<char>,
> {
    fold_until_error(state, options, accept_step::<A>())
}

/// The step that reads one annotation node and routes it.
pub open spec fn route_step<D: Dispatcher>() -> spec_fn(D::V, Meta) -> Result<D::V, Seq<char>> {
    |state: D::V, item: Meta|
        match node_of(item) {
            Ok(node) => D::routed(state, node),
            Err(message) => Err(message),
        }
}

/// The configuration after all the nodes in order, or the message of the first that is
/// refused.
pub open spec fn routed_all<D: Dispatcher>(state: D::V, items: Seq<Meta>) -> Result<
    D::V,
    Seq<char>,
> {
    fold_until_error(state, items, route_step::<D>())
}

/// The step that takes one attribute: the nodes of a `derivative(..)` are routed, any other
/// attribute is passed over.
pub open spec fn attribute_step<D: Dispatcher>() -> spec_fn(D::V, Attribute) -> Result<
    D::V,
    Seq<char>,
> {
    |state: D::V, attr: Attribute|
        match derivative_nodes(attr) {
            Some(items) => routed_all::<D>(state, items),
            None => Ok(state),
        }
}

/// The configuration that the attributes of a declaration give, starting from `state`, or
/// the message of the first thing in them that is refused.
pub open spec fn configured<D: Dispatcher>(state: D::V, attrs: Seq<Attribute>) -> Result<
    D::V,
    Seq<char>,
> {
    fold_until_error(state, attrs, attribute_step::<D>())
}

/// Bounds are merged by appending. After the options `bound = "B1"`, .., `bound = "Bn"` the
/// record holds the bounds it had before, followed by the predicates of `B1`, then those of
/// `B2`, and so on in the order written. Without any such option the bounds stay as they were.
pub proof fn lemma_bounds_append<A: Accumulator>(state: A::V, values: Seq<Seq<char>>)
    requires
        forall|i: int| 0 <= i < values.len() ==> bound_parses(#[trigger] values[i]),
    ensures
        accepted_all::<A>(state, bound_options(values)) matches Ok(filled) && A::bounds(filled)
            == if values.len() == 0 {
            A::bounds(state)
        } else {
            Some(gathered(A::bounds(state)) + concatenated(values))
        },
    decreases values.len(),
{
    if values.len() > 0 {
        let front = values.drop_last();
        assert(bound_options(values).drop_last() =~= bound_options(front));
        assert(bound_options(values).last() == ("bound"@, Some(values.last())));
        assert forall|i: int| 0 <= i < front.len() implies bound_parses(#[trigger] front[i]) by {
            assert(front[i] == values[i]);
        }
        lemma_bounds_append::<A>(state, front);
        let reached = accepted_all::<A>(state, bound_options(front))->Ok_0;
        assert(bound_parses(values[values.len() - 1]));
        A::lemma_accepted(reached, "bound"@, Some(values.last()));
        if front.len() == 0 {
            assert(gathered(A::bounds(state)) + concatenated(values) =~= gathered(A::bounds(state))
                + predicates_of(values.last()));
        } else {
            assert(gathered(A::bounds(state)) + concatenated(values) =~= (gathered(
                A::bounds(state),
            ) + concatenated(front)) + predicates_of(values.last()));
        }
    }
}

/// Taking one list of options after another, from the record that the first has given, is
/// taking the two lists as one.
pub proof fn lemma_accepted_in_parts<A: Accumulator>(
    state: A::V,
    front: Seq<OptionView>,
    back: Seq<OptionView>,
)
    ensures
        accepted_all::<A>(state, front + back) == match accepted_all::<A>(state, front) {
            Ok(reached) => accepted_all::<A>(reached, back),
            Err(message) => Err(message),
        },
{
    lemma_fold_concat(state, front, back, accept_step::<A>());
}

/// What the options of one node do to a record: nothing if there are none; a refusal if any
/// key is unknown. A single option does what `accepted` says: an unknown key is refused by
/// name, a bare option that needs a value is refused by name, and a bare flag is the flag
/// set to `"true"`.
pub proof fn lemma_accepted_all<A: Accumulator>(state: A::V, options: Seq<OptionView>)
    ensures
        options.len() == 0 ==> accepted_all::<A>(state, options) == Ok::<A::V, Seq<char>>(state),
        forall|k: int|
            0 <= k < options.len() && A::kind((#[trigger] options[k]).0) is None ==> accepted_all::<
                A,
            >(state, options) is Err,
        options.len() == 1 ==> accepted_all::<A>(state, options) == A::accepted(
            state,
            options[0].0,
            options[0].1,
        ),
        options.len() == 1 ==> match A::kind(options[0].0) {
            None => accepted_all::<A>(state, options) == Err::<A::V, Seq<char>>(
                unknown_attribute(options[0].0),
            ),
            Some(Kind::Flag) => options[0].1 is None ==> accepted_all::<A>(state, options) is Ok
                && accepted_all::<A>(state, options) == accepted_all::<A>(
                state,
                seq![(options[0].0, Some("true"@))],
            ),
            Some(_) => options[0].1 is None ==> accepted_all::<A>(state, options) == Err::<
                A::V,
                Seq<char>,
            >(needs_value(options[0].0)),
        },
{
    assert forall|k: int|
        0 <= k < options.len() && A::kind((#[trigger] options[k]).0) is None implies accepted_all::<
        A,
    >(state, options) is Err by {
        assert forall|reached: A::V| (#[trigger] accept_step::<A>()(reached, options[k])) is Err by {
            A::lemma_accepted(reached, options[k].0, options[k].1);
        }
        lemma_fold_blocked(state, options, accept_step::<A>(), k);
    }
    if options.len() == 1 {
        let key = options[0].0;
        assert(options =~= seq![options[0]]);
        lemma_fold_single(state, options[0], accept_step::<A>());
        lemma_fold_single(state, (key, Some("true"@)), accept_step::<A>());
        A::lemma_accepted(state, key, options[0].1);
    }
}

/// Takes the options into the record in order, and stops at the first that is refused.
pub fn accept_all<A: Accumulator>(record: A, options: &Vec<(&str, Option<&str>)>) -> (taken: Result<
    A,
    String,
>)
    ensures
        match taken {
            Ok(filled) => accepted_all::<A>(record@, options_view(options@)) == Ok::<
                A::V,
                Seq<char>,
            >(filled@),
            Err(message) => accepted_all::<A>(record@, options_view(options@)) == Err::<
                A::V,
                Seq<char>,
            >(message@),
        },
{
    let ghost all = options_view(options@);
    let mut current = record;
    let mut i: usize = 0;
    while i < options.len()
        invariant
            i <= options.len(),
            all == options_view(options@),
            accepted_all::<A>(record@, all.take(i as int)) == Ok::<A::V, Seq<char>>(current@),
        decreases options.len() - i,
    {
        proof {
            lemma_fold_next(record@, all, accept_step::<A>(), i as int);
        }
        let (key, value) = options[i];
        match current.accept(key, value) {
            Ok(next) => {
                current = next;
            },
            Err(message) => {
                proof {
                    lemma_fold_prefix_error(record@, all, accept_step::<A>(), i as int + 1);
                }
                return Err(message);
            },
        }
        i += 1;
    }
    assert(all.take(i as int) =~= all);
    Ok(current)
}

/// Reads the nodes in order and routes each, and stops at the first that is refused.
pub fn route_all<D: Dispatcher>(config: D, items: &[Meta]) -> (taken: Result<D, String>)
    ensures
        match taken {
            Ok(filled) => routed_all::<D>(config@, items@) == Ok::<D::V, Seq<char>>(filled@),
            Err(message) => routed_all::<D>(config@, items@) == Err::<D::V, Seq<char>>(message@),
        },
{
    let mut current = config;
    let mut i: usize = 0;
    while i < items.len()
        invariant
            i <= items.len(),
            routed_all::<D>(config@, items@.take(i as int)) == Ok::<D::V, Seq<char>>(current@),
        decreases items.len() - i,
    {
        proof {
            lemma_fold_next(config@, items@, route_step::<D>(), i as int);
        }
        let taken = match read_items(&items[i]) {
            Ok(item) => current.route(&item),
            Err(message) => Err(message),
        };
        match taken {
            Ok(next) => {
                current = next;
            },
            Err(message) => {
                proof {
                    lemma_fold_prefix_error(config@, items@, route_step::<D>(), i as int + 1);
                }
                return Err(message);
            },
        }
        i += 1;
    }
    assert(items@.take(i as int) =~= items@);
    Ok(current)
}

/// Reads the attributes of a declaration into a configuration, and stops at the first thing
/// that is refused.
pub fn configure<D: Dispatcher>(config: D, attrs: &[Attribute]) -> (taken: Result<D, String>)
    ensures
        match taken {
            Ok(filled) => configured::<D>(config@, attrs@) == Ok::<D::V, Seq<char>>(filled@),
            Err(message) => configured::<D>(config@, attrs@) == Err::<D::V, Seq<char>>(message@),
        },
{
    let mut current = config;
    let mut i: usize = 0;
    while i < attrs.len()
        invariant
            i <= attrs.len(),
            configured::<D>(config@, attrs@.take(i as int)) == Ok::<D::V, Seq<char>>(current@),
        decreases attrs.len() - i,
    {
        proof {
            lemma_fold_next(config@, attrs@, attribute_step::<D>(), i as int);
        }
        match derivative_attribute(&attrs[i]) {
            Some(items) => {
                match route_all(current, items) {
                    Ok(next) => {
                        current = next;
                    },
                    Err(message) => {
                        proof {
                            lemma_fold_prefix_error(
                                config@,
                                attrs@,
                                attribute_step::<D>(),
                                i as int + 1,
                            );
                        }
                        return Err(message);
                    },
                }
            },
            None => {},
        }
        i += 1;
    }
    assert(attrs@.take(i as int) =~= attrs@);
    Ok(current)
}

} // verus!
