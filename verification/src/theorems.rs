//! What holds of every declaration, whatever its annotations are.

use vstd::prelude::*;
use crate::accumulate::{
    attribute_step,
    bound_options,
    configured,
    route_step,
    routed_all,
    Accumulator,
    Dispatcher,
    Kind,
};
use crate::attr::{lemma_names_differ, Field, FieldView, Input, InputView};
use crate::fold::{
    lemma_fold_blocked,
    lemma_fold_concat,
    lemma_fold_idle,
    lemma_fold_keeps,
    lemma_fold_single,
};
use crate::meta::{derivative_nodes, meta_name, node_of, Attribute, Lit, Meta, Node, OptionView};
use crate::text::{needs_value, unknown_attribute, unknown_trait};
use crate::value::{bound_parses, concatenated, gathered};

verus! {

/// Whether none of the attributes lists a node under `derivative`.
pub open spec fn unannotated(attrs: Seq<Attribute>) -> bool {
    forall|i: int|
        0 <= i < attrs.len() ==> match derivative_nodes(#[trigger] attrs[i]) {
            Some(nodes) => nodes.len() == 0,
            None => true,
        }
}

/// Attributes that list no node under `derivative` leave a configuration as it is.
pub proof fn lemma_unannotated<D: Dispatcher>(state: D::V, attrs: Seq<Attribute>)
    requires
        unannotated(attrs),
    ensures
        configured::<D>(state, attrs) == Ok::<D::V, Seq<char>>(state),
{
    assert forall|k: int| 0 <= k < attrs.len() implies (#[trigger] attribute_step::<D>()(
        state,
        attrs[k],
    )) == Ok::<D::V, Seq<char>>(state) by {
        match derivative_nodes(attrs[k]) {
            Some(nodes) => {
                assert(routed_all::<D>(state, nodes) == Ok::<D::V, Seq<char>>(state));
            },
            None => {},
        }
    }
    lemma_fold_idle(state, attrs, attribute_step::<D>());
}

/// A declaration without annotations: on a type every capability is absent, on a field
/// every record is there with nothing set.
pub proof fn lemma_unannotated_declaration(attrs: Seq<Attribute>)
    requires
        unannotated(attrs),
    ensures
        Input::parsed(attrs) == Ok::<InputView, Seq<char>>(InputView::blank()),
        Field::parsed(attrs) == Ok::<FieldView, Seq<char>>(FieldView::blank()),
{
    lemma_unannotated::<Input>(InputView::blank(), attrs);
    lemma_unannotated::<Field>(FieldView::blank(), attrs);
}

/// Whether the attribute at `i` is a `derivative(..)` with a node at `j`.
pub open spec fn listed(attrs: Seq<Attribute>, i: int, j: int) -> bool {
    &&& 0 <= i < attrs.len()
    &&& derivative_nodes(attrs[i]) matches Some(nodes)
    &&& 0 <= j < nodes.len()
}

/// The node at `j` under the attribute at `i`.
pub open spec fn node_at(attrs: Seq<Attribute>, i: int, j: int) -> Meta {
    derivative_nodes(attrs[i])->0[j]
}

/// Whether some node under a `derivative(..)` starts with `name`.
pub open spec fn mentions(attrs: Seq<Attribute>, name: Seq<char>) -> bool {
    exists|i: int, j: int|
        listed(attrs, i, j) && meta_name(#[trigger] node_at(attrs, i, j)) == name
}

/// A node that is accepted makes its own capability present and leaves the presence of the
/// others as it was.
proof fn lemma_presence_step(state: InputView, node: Node, name: Seq<char>)
    requires
        Input::routed(state, node) is Ok,
        Input::knows(name),
    ensures
        Input::routed(state, node)->Ok_0.present(name) <==> state.present(name) || node.name
            == name,
{
    lemma_names_differ();
}

/// Presence after the nodes of one attribute.
proof fn lemma_presence_nodes(state: InputView, nodes: Seq<Meta>, name: Seq<char>)
    requires
        routed_all::<Input>(state, nodes) is Ok,
        Input::knows(name),
    ensures
        routed_all::<Input>(state, nodes)->Ok_0.present(name) <==> state.present(name) || exists|
            j: int,
        |
            0 <= j < nodes.len() && meta_name(#[trigger] nodes[j]) == name,
    decreases nodes.len(),
{
    if nodes.len() > 0 {
        let front = nodes.drop_last();
        let reached = routed_all::<Input>(state, front)->Ok_0;
        lemma_presence_nodes(state, front, name);
        let node = node_of(nodes.last())->Ok_0;
        assert(node.name == meta_name(nodes.last()));
        lemma_presence_step(reached, node, name);
        if exists|j: int| 0 <= j < nodes.len() && meta_name(#[trigger] nodes[j]) == name {
            let j = choose|j: int| 0 <= j < nodes.len() && meta_name(#[trigger] nodes[j]) == name;
            if j < front.len() {
                assert(meta_name(front[j]) == name);
            }
        }
        if exists|j: int| 0 <= j < front.len() && meta_name(#[trigger] front[j]) == name {
            let j = choose|j: int| 0 <= j < front.len() && meta_name(#[trigger] front[j]) == name;
            assert(meta_name(nodes[j]) == name);
        }
        if meta_name(nodes.last()) == name {
            assert(meta_name(nodes[nodes.len() - 1]) == name);
        }
    }
}

/// Presence after the attributes of a declaration.
proof fn lemma_presence_attrs(state: InputView, attrs: Seq<Attribute>, name: Seq<char>)
    requires
        configured::<Input>(state, attrs) is Ok,
        Input::knows(name),
    ensures
        configured::<Input>(state, attrs)->Ok_0.present(name) <==> state.present(name) || mentions(
            attrs,
            name,
        ),
    decreases attrs.len(),
{
    if attrs.len() > 0 {
        let front = attrs.drop_last();
        let last = attrs.len() - 1;
        let reached = configured::<Input>(state, front)->Ok_0;
        lemma_presence_attrs(state, front, name);
        let here = match derivative_nodes(attrs[last]) {
            Some(nodes) => exists|j: int|
                0 <= j < nodes.len() && meta_name(#[trigger] nodes[j]) == name,
            None => false,
        };
        if let Some(nodes) = derivative_nodes(attrs[last]) {
            lemma_presence_nodes(reached, nodes, name);
        }
        assert(configured::<Input>(state, attrs)->Ok_0.present(name) <==> reached.present(name)
            || here);
        if mentions(attrs, name) {
            let (i, j) = choose|i: int, j: int|
                listed(attrs, i, j) && meta_name(#[trigger] node_at(attrs, i, j)) == name;
            if i < last {
                assert(listed(front, i, j) && meta_name(node_at(front, i, j)) == name);
            } else {
                let nodes = derivative_nodes(attrs[last])->0;
                assert(meta_name(nodes[j]) == name);
            }
        }
        if mentions(front, name) {
            let (i, j) = choose|i: int, j: int|
                listed(front, i, j) && meta_name(#[trigger] node_at(front, i, j)) == name;
            assert(listed(attrs, i, j) && meta_name(node_at(attrs, i, j)) == name);
        }
        if here {
            let nodes = derivative_nodes(attrs[last])->0;
            let j = choose|j: int| 0 <= j < nodes.len() && meta_name(#[trigger] nodes[j]) == name;
            assert(listed(attrs, last, j) && meta_name(node_at(attrs, last, j)) == name);
        }
    } else {
        assert(!mentions(attrs, name));
    }
}

/// On a type a capability is present exactly if a node under `derivative` names it: absent
/// is not the same as named without options.
pub proof fn lemma_present_iff_named(attrs: Seq<Attribute>, name: Seq<char>)
    requires
        Input::parsed(attrs) is Ok,
        Input::knows(name),
    ensures
        Input::parsed(attrs)->Ok_0.present(name) <==> mentions(attrs, name),
{
    lemma_presence_attrs(InputView::blank(), attrs, name);
}

/// `Clone` and `Copy` are not configured on a field: whatever its annotations, their bounds
/// stay unset.
pub proof fn lemma_field_clone_and_copy_unset(attrs: Seq<Attribute>)
    requires
        Field::parsed(attrs) is Ok,
    ensures
        Field::parsed(attrs)->Ok_0.clone.bounds is None,
        Field::parsed(attrs)->Ok_0.copy_bound is None,
{
    let kept = |config: FieldView| config.clone.bounds is None && config.copy_bound is None;
    assert forall|reached: FieldView, k: int|
        0 <= k < attrs.len() && kept(reached) && (#[trigger] attribute_step::<Field>()(
            reached,
            attrs[k],
        )) is Ok implies kept(attribute_step::<Field>()(reached, attrs[k])->Ok_0) by {
        if let Some(nodes) = derivative_nodes(attrs[k]) {
            lemma_fold_keeps(reached, nodes, route_step::<Field>(), kept);
        }
    }
    lemma_fold_keeps(FieldView::blank(), attrs, attribute_step::<Field>(), kept);
}

/// Annotations merge: reading one list of attributes after another, from the configuration
/// that the first has given, is reading the two lists as one.
pub proof fn lemma_configured_in_parts<D: Dispatcher>(
    state: D::V,
    front: Seq<Attribute>,
    back: Seq<Attribute>,
)
    ensures
        configured::<D>(state, front + back) == match configured::<D>(state, front) {
            Ok(reached) => configured::<D>(reached, back),
            Err(message) => Err(message),
        },
{
    lemma_fold_concat(state, front, back, attribute_step::<D>());
}

/// Nodes of one capability merge as well: the options of a node may stand in two nodes of
/// the same name, one after the other.
pub proof fn lemma_nodes_merge<D: Dispatcher>(
    state: D::V,
    name: Seq<char>,
    front: Seq<OptionView>,
    back: Seq<OptionView>,
)
    ensures
        D::routed(state, Node { name, options: front + back }) == match D::routed(
            state,
            Node { name, options: front },
        ) {
            Ok(reached) => D::routed(reached, Node { name, options: back }),
            Err(message) => Err(message),
        },
{
    D::lemma_routed_in_parts(state, name, front, back);
}

/// Bounds are merged by appending, whatever the declaration and the capability: after a node
/// whose options are `bound = "B1"`, .., `bound = "Bn"`, the capability holds the bounds it
/// had before, followed by the predicates of `B1`, then those of `B2`, and so on in the order
/// written. A node without options leaves the bounds as they were.
pub proof fn lemma_bounds_append_node<D: Dispatcher>(
    state: D::V,
    name: Seq<char>,
    values: Seq<Seq<char>>,
)
    requires
        D::knows(name),
        forall|i: int| 0 <= i < values.len() ==> bound_parses(#[trigger] values[i]),
    ensures
        D::routed(state, Node { name, options: bound_options(values) }) matches Ok(next)
            && D::bounds(next, name) == if values.len() == 0 {
            D::bounds(state, name)
        } else {
            Some(gathered(D::bounds(state, name)) + concatenated(values))
        },
{
    D::lemma_routed_bounds(state, name, values);
}

/// A bare flag is the flag set to `"true"`: both leave the same record.
pub proof fn lemma_bare_flag<A: Accumulator>(state: A::V, key: Seq<char>)
    requires
        A::kind(key) == Some(Kind::Flag),
    ensures
        A::accepted(state, key, None) is Ok,
        A::accepted(state, key, None) == A::accepted(state, key, Some("true"@)),
{
    A::lemma_accepted(state, key, None);
}

/// The shorthand `Capability = "flag"` is `Capability(flag = "true")`: read and routed, both
/// leave the same configuration.
pub proof fn lemma_shorthand_flag<D: Dispatcher>(state: D::V, short: Meta, long: Meta)
    requires
        ({
            &&& short matches Meta::NameValue(name, Lit::Str(flag))
            &&& long matches Meta::List(long_name, children)
            &&& children@.len() == 1
            &&& children@[0] matches Meta::NameValue(key, Lit::Str(value))
            &&& long_name@ == name@
            &&& key@ == flag@
            &&& value@ == "true"@
            &&& D::kind(name@, flag@) == Some(Kind::Flag)
        }),
    ensures
        route_step::<D>()(state, short) is Ok,
        route_step::<D>()(state, short) == route_step::<D>()(state, long),
{
    let node = node_of(short)->Ok_0;
    assert(node.options =~= seq![(node.options[0].0, None::<Seq<char>>)]);
    if let Meta::List(_, children) = long {
        lemma_fold_single(Seq::<OptionView>::empty(), children@[0], crate::meta::push_named());
        assert(children@ =~= seq![children@[0]]);
        assert(Seq::<OptionView>::empty().push((node.options[0].0, Some("true"@))) =~= seq![
            (node.options[0].0, Some("true"@)),
        ]);
    }
    D::lemma_routed(state, node);
    D::lemma_routed(state, node_of(long)->Ok_0);
}

/// Options other than `bound` do not merge: of two values for one key the later stands, as
/// if the earlier had not been given.
pub proof fn lemma_last_value_stands<A: Accumulator>(
    state: A::V,
    key: Seq<char>,
    first: Option<Seq<char>>,
    second: Option<Seq<char>>,
)
    requires
        key != "bound"@,
        A::accepted(state, key, first) is Ok,
    ensures
        A::accepted(A::accepted(state, key, first)->Ok_0, key, second) == A::accepted(
            state,
            key,
            second,
        ),
{
    A::lemma_overwritten(state, key, first, second);
}

/// All or nothing: a node that is refused whatever the configuration before it leaves the
/// declaration without a configuration, wherever under `derivative` it stands.
pub proof fn lemma_refused_node_fails<D: Dispatcher>(
    state: D::V,
    attrs: Seq<Attribute>,
    i: int,
    j: int,
)
    requires
        listed(attrs, i, j),
        forall|before: D::V| (#[trigger] route_step::<D>()(before, node_at(attrs, i, j))) is Err,
    ensures
        configured::<D>(state, attrs) is Err,
{
    let nodes = derivative_nodes(attrs[i])->0;
    assert forall|reached: D::V| (#[trigger] attribute_step::<D>()(reached, attrs[i])) is Err by {
        lemma_fold_blocked(reached, nodes, route_step::<D>(), j);
    }
    lemma_fold_blocked(state, attrs, attribute_step::<D>(), i);
}

/// A declaration with a node that is not of one of the three forms, or that holds a value
/// that is no string, has no configuration.
pub proof fn lemma_malformed_node_fails<D: Dispatcher>(
    state: D::V,
    attrs: Seq<Attribute>,
    i: int,
    j: int,
)
    requires
        listed(attrs, i, j),
        node_of(node_at(attrs, i, j)) is Err,
    ensures
        configured::<D>(state, attrs) is Err,
{
    lemma_refused_node_fails::<D>(state, attrs, i, j);
}

/// A capability name outside the closed set is refused by name, whatever options come
/// with it.
pub proof fn lemma_unknown_capability<D: Dispatcher>(state: D::V, node: Node)
    requires
        !D::knows(node.name),
    ensures
        D::routed(state, node) == Err::<D::V, Seq<char>>(unknown_trait(node.name)),
{
    D::lemma_routed(state, node);
}

/// A declaration that names an unknown capability anywhere under `derivative` has no
/// configuration.
pub proof fn lemma_unknown_capability_fails<D: Dispatcher>(
    state: D::V,
    attrs: Seq<Attribute>,
    i: int,
    j: int,
)
    requires
        listed(attrs, i, j),
        !D::knows(meta_name(node_at(attrs, i, j))),
    ensures
        configured::<D>(state, attrs) is Err,
{
    assert forall|before: D::V| (#[trigger] route_step::<D>()(before, node_at(attrs, i, j)))
        is Err by {
        if let Ok(node) = node_of(node_at(attrs, i, j)) {
            D::lemma_routed(before, node);
        }
    }
    lemma_refused_node_fails::<D>(state, attrs, i, j);
}

/// An option key that the capability does not know is refused by name, whatever its value.
pub proof fn lemma_unknown_key<A: Accumulator>(state: A::V, key: Seq<char>, value: Option<Seq<char>>)
    requires
        A::kind(key) is None,
    ensures
        A::accepted(state, key, value) == Err::<A::V, Seq<char>>(unknown_attribute(key)),
{
    A::lemma_accepted(state, key, value);
}

/// A node of a known capability with an option that the capability does not know is refused,
/// wherever among the options it stands. Where it is the only option, it is refused by name.
pub proof fn lemma_unknown_option<D: Dispatcher>(state: D::V, node: Node, k: int)
    requires
        D::knows(node.name),
        0 <= k < node.options.len(),
        D::kind(node.name, node.options[k].0) is None,
    ensures
        D::routed(state, node) is Err,
        node.options.len() == 1 ==> D::routed(state, node) == Err::<D::V, Seq<char>>(
            unknown_attribute(node.options[k].0),
        ),
{
    D::lemma_routed(state, node);
}

/// A declaration with an option that the capability does not know, anywhere among the
/// options of any node of a known capability, has no configuration.
pub proof fn lemma_unknown_option_fails<D: Dispatcher>(
    state: D::V,
    attrs: Seq<Attribute>,
    i: int,
    j: int,
    k: int,
)
    requires
        listed(attrs, i, j),
        ({
            &&& node_of(node_at(attrs, i, j)) matches Ok(node)
            &&& D::knows(node.name)
            &&& 0 <= k < node.options.len()
            &&& D::kind(node.name, node.options[k].0) is None
        }),
    ensures
        configured::<D>(state, attrs) is Err,
{
    let node = node_of(node_at(attrs, i, j))->Ok_0;
    assert forall|before: D::V| (#[trigger] route_step::<D>()(before, node_at(attrs, i, j)))
        is Err by {
        D::lemma_routed(before, node);
        assert(D::kind(node.name, node.options[k].0) is None);
    }
    lemma_refused_node_fails::<D>(state, attrs, i, j);
}

/// An option that must carry a value is refused by name when it is given bare.
pub proof fn lemma_bare_value<A: Accumulator>(state: A::V, key: Seq<char>)
    requires
        A::kind(key) is Some,
        A::kind(key) != Some(Kind::Flag),
    ensures
        A::accepted(state, key, None) == Err::<A::V, Seq<char>>(needs_value(key)),
{
    A::lemma_accepted(state, key, None);
}

/// The shorthand `Capability = "option"` is refused by the option's name where the option
/// must carry a value.
pub proof fn lemma_bare_value_node<D: Dispatcher>(state: D::V, name: Seq<char>, key: Seq<char>)
    requires
        D::kind(name, key) is Some,
        D::kind(name, key) != Some(Kind::Flag),
    ensures
        D::routed(state, Node { name, options: seq![(key, None)] }) == Err::<D::V, Seq<char>>(
            needs_value(key),
        ),
{
    D::lemma_routed(state, Node { name, options: seq![(key, None)] });
}

/// A declaration with the shorthand `Capability = "option"` anywhere under `derivative`,
/// for an option that must carry a value, has no configuration.
pub proof fn lemma_bare_value_fails<D: Dispatcher>(
    state: D::V,
    attrs: Seq<Attribute>,
    i: int,
    j: int,
)
    requires
        listed(attrs, i, j),
        ({
            &&& node_at(attrs, i, j) matches Meta::NameValue(name, Lit::Str(key))
            &&& D::kind(name@, key@) is Some
            &&& D::kind(name@, key@) != Some(Kind::Flag)
        }),
    ensures
        configured::<D>(state, attrs) is Err,
{
    let node = node_of(node_at(attrs, i, j))->Ok_0;
    assert(node.options =~= seq![(node.options[0].0, None::<Seq<char>>)]);
    assert forall|before: D::V| (#[trigger] route_step::<D>()(before, node_at(attrs, i, j)))
        is Err by {
        lemma_bare_value_node::<D>(before, node.name, node.options[0].0);
    }
    lemma_refused_node_fails::<D>(state, attrs, i, j);
}

/// `transparent` and `new` are options of a type, not of a field: on a field the capability
/// does not know them, whatever value they carry. `clone_from` cannot even be reached there,
/// since `Clone` is not configured on a field.
pub proof fn lemma_type_only_options(
    state: FieldView,
    value: Option<Seq<char>>,
    options: Seq<OptionView>,
)
    ensures
        Input::kind("Debug"@, "transparent"@) == Some(Kind::Flag),
        Input::kind("Default"@, "new"@) == Some(Kind::Flag),
        Input::kind("Clone"@, "clone_from"@) == Some(Kind::Flag),
        Field::routed(state, Node { name: "Debug"@, options: seq![("transparent"@, value)] })
            == Err::<FieldView, Seq<char>>(unknown_attribute("transparent"@)),
        Field::routed(state, Node { name: "Default"@, options: seq![("new"@, value)] }) == Err::<
            FieldView,
            Seq<char>,
        >(unknown_attribute("new"@)),
        Field::routed(state, Node { name: "Clone"@, options }) == Err::<FieldView, Seq<char>>(
            unknown_trait("Clone"@),
        ),
{
    lemma_names_differ();
    reveal_strlit("bound");
    reveal_strlit("clone_from");
    reveal_strlit("transparent");
    reveal_strlit("new");
    reveal_strlit("format_with");
    reveal_strlit("ignore");
    reveal_strlit("value");
    assert("bound"@.len() == 5);
    assert("clone_from"@.len() == 10);
    assert("transparent"@.len() == 11 && "transparent"@[0] == 't');
    assert("new"@.len() == 3);
    assert("format_with"@.len() == 11 && "format_with"@[0] == 'f');
    assert("ignore"@.len() == 6);
    assert("value"@.len() == 5);
    Field::lemma_routed(
        state,
        Node { name: "Debug"@, options: seq![("transparent"@, value)] },
    );
    Field::lemma_routed(state, Node { name: "Default"@, options: seq![("new"@, value)] });
    Field::lemma_routed(state, Node { name: "Clone"@, options });
}

} // verus!
