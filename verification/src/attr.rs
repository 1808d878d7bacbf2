//! The configuration of a type declaration and of a field, as their `derivative`
//! annotations give it.

use vstd::prelude::*;
use crate::accumulate::{
    accept_all,
    accepted_all,
    configure,
    configured,
    lemma_accepted_all,
    lemma_accepted_in_parts,
    lemma_bounds_append,
    opened,
    Accumulator,
    Dispatcher,
    Kind,
};
use crate::meta::{Attribute, MetaItem, Node, OptionView};
use crate::text::{join, str_eq, unknown_attribute, unknown_trait};
use crate::value::{
    boolean_of,
    bound_of,
    expression_of,
    items,
    parse_boolean_meta_item,
    parse_bound,
    parse_expression,
    parse_reference,
    reference_of,
    slice_items,
};

verus! {

/// The `derivative` annotations on a type (`struct` or `enum`). A capability that was never
/// named is absent, which is not the same as named without options.
#[derive(Debug)]
pub struct Input {
    /// Whether `Clone` is present, and its settings.
    pub clone: Option<InputClone>,
    /// Whether `Copy` is present, and its settings.
    pub copy: Option<InputCopy>,
    /// Whether `Debug` is present, and its settings.
    pub debug: Option<InputDebug>,
    /// Whether `Default` is present, and its settings.
    pub default: Option<InputDefault>,
    /// Whether `Eq` is present, and its settings.
    pub eq: Option<InputEq>,
    /// Whether `PartialEq` is present, and its settings.
    pub partial_eq: Option<InputPartialEq>,
}

/// The `derivative` annotations on a field. Every record is there from the start, with
/// nothing set.
#[derive(Debug)]
pub struct Field {
    /// The settings for `Clone`.
    clone: FieldClone,
    /// The bounds for `Copy`.
    copy_bound: Option<Vec<syn::WherePredicate>>,
    /// The settings for `Debug`.
    debug: FieldDebug,
    /// The settings for `Default`.
    default: FieldDefault,
    /// The settings for `Eq`.
    eq: FieldEq,
    /// The settings for `PartialEq`.
    partial_eq: FieldPartialEq,
}

/// The `derivative(Clone(..))` settings of a type.
#[derive(Debug)]
pub struct InputClone {
    /// The bounds, if a `bound` option was given.
    bounds: Option<Vec<syn::WherePredicate>>,
    /// Whether the implementation is to have an explicit `clone_from`.
    pub clone_from: bool,
}

/// The `derivative(Copy(..))` settings of a type.
#[derive(Debug)]
pub struct InputCopy {
    /// The bounds, if a `bound` option was given.
    bounds: Option<Vec<syn::WherePredicate>>,
}

/// The `derivative(Debug(..))` settings of a type.
#[derive(Debug)]
pub struct InputDebug {
    /// The bounds, if a `bound` option was given.
    bounds: Option<Vec<syn::WherePredicate>>,
    /// Whether the type is marked `transparent`.
    pub transparent: bool,
}

/// The `derivative(Default(..))` settings of a type.
#[derive(Debug)]
pub struct InputDefault {
    /// The bounds, if a `bound` option was given.
    bounds: Option<Vec<syn::WherePredicate>>,
    /// Whether the type is marked with `new`.
    pub new: bool,
}

/// The `derivative(Eq(..))` settings of a type.
#[derive(Debug)]
pub struct InputEq {
    /// The bounds, if a `bound` option was given.
    bounds: Option<Vec<syn::WherePredicate>>,
}

/// The `derivative(PartialEq(..))` settings of a type.
#[derive(Debug)]
pub struct InputPartialEq {
    /// The bounds, if a `bound` option was given.
    bounds: Option<Vec<syn::WherePredicate>>,
    /// Whether `derivative(PartialEq)` is allowed on an enum.
    on_enum: bool,
}

/// The `derivative(Clone(..))` settings of a field.
#[derive(Debug)]
pub struct FieldClone {
    /// The bounds, if a `bound` option was given.
    bounds: Option<Vec<syn::WherePredicate>>,
}

/// The `derivative(Debug(..))` settings of a field.
#[derive(Debug)]
pub struct FieldDebug {
    /// The bounds, if a `bound` option was given.
    bounds: Option<Vec<syn::WherePredicate>>,
    /// The path to the formatting function, if a `format_with` option was given.
    format_with: Option<syn::Path>,
    /// Whether the field is left out of the output.
    ignore: bool,
}

/// The `derivative(Default(..))` settings of a field.
#[derive(Debug)]
pub struct FieldDefault {
    /// The bounds, if a `bound` option was given.
    bounds: Option<Vec<syn::WherePredicate>>,
    /// The default value of the field, if a `value` option was given.
    pub value: Option<syn::Expr>,
}

/// The `derivative(Eq(..))` settings of a field.
#[derive(Debug)]
pub struct FieldEq {
    /// The bounds, if a `bound` option was given.
    bounds: Option<Vec<syn::WherePredicate>>,
}

/// The `derivative(PartialEq(..))` settings of a field.
#[derive(Debug)]
pub struct FieldPartialEq {
    /// The bounds, if a `bound` option was given.
    bounds: Option<Vec<syn::WherePredicate>>,
    /// The path to the comparison function, if a `compare_with` option was given.
    compare_with: Option<syn::Path>,
    /// Whether the field is left out of the comparison.
    ignore: bool,
}

/// What an `InputClone` holds.
pub struct InputCloneView {
    pub bounds: Option<Seq<syn::WherePredicate>>,
    pub clone_from: bool,
}

/// What an `InputCopy` holds.
pub struct InputCopyView {
    pub bounds: Option<Seq<syn::WherePredicate>>,
}

/// What an `InputDebug` holds.
pub struct InputDebugView {
    pub bounds: Option<Seq<syn::WherePredicate>>,
    pub transparent: bool,
}

/// What an `InputDefault` holds.
pub struct InputDefaultView {
    pub bounds: Option<Seq<syn::WherePredicate>>,
    pub new: bool,
}

/// What an `InputEq` holds.
pub struct InputEqView {
    pub bounds: Option<Seq<syn::WherePredicate>>,
}

/// What an `InputPartialEq` holds.
pub struct InputPartialEqView {
    pub bounds: Option<Seq<syn::WherePredicate>>,
    pub on_enum: bool,
}

/// What an `Input` holds.
pub struct InputView {
    pub clone: Option<InputCloneView>,
    pub copy: Option<InputCopyView>,
    pub debug: Option<InputDebugView>,
    pub default: Option<InputDefaultView>,
    pub eq: Option<InputEqView>,
    pub partial_eq: Option<InputPartialEqView>,
}

/// What a `FieldClone` holds.
pub struct FieldCloneView {
    pub bounds: Option<Seq<syn::WherePredicate>>,
}

/// What a `FieldDebug` holds.
pub struct FieldDebugView {
    pub bounds: Option<Seq<syn::WherePredicate>>,
    pub format_with: Option<syn::Path>,
    pub ignore: bool,
}

/// What a `FieldDefault` holds.
pub struct FieldDefaultView {
    pub bounds: Option<Seq<syn::WherePredicate>>,
    pub value: Option<syn::Expr>,
}

/// What a `FieldEq` holds.
pub struct FieldEqView {
    pub bounds: Option<Seq<syn::WherePredicate>>,
}

/// What a `FieldPartialEq` holds.
pub struct FieldPartialEqView {
    pub bounds: Option<Seq<syn::WherePredicate>>,
    pub compare_with: Option<syn::Path>,
    pub ignore: bool,
}

/// What a `Field` holds.
pub struct FieldView {
    pub clone: FieldCloneView,
    pub copy_bound: Option<Seq<syn::WherePredicate>>,
    pub debug: FieldDebugView,
    pub default: FieldDefaultView,
    pub eq: FieldEqView,
    pub partial_eq: FieldPartialEqView,
}

impl InputCloneView {
    /// The record of a capability that was named without options.
    pub open spec fn blank() -> Self {
        InputCloneView { bounds: None, clone_from: false }
    }
}

impl InputCopyView {
    /// The record of a capability that was named without options.
    pub open spec fn blank() -> Self {
        InputCopyView { bounds: None }
    }
}

impl InputDebugView {
    /// The record of a capability that was named without options.
    pub open spec fn blank() -> Self {
        InputDebugView { bounds: None, transparent: false }
    }
}

impl InputDefaultView {
    /// The record of a capability that was named without options.
    pub open spec fn blank() -> Self {
        InputDefaultView { bounds: None, new: false }
    }
}

impl InputEqView {
    /// The record of a capability that was named without options.
    pub open spec fn blank() -> Self {
        InputEqView { bounds: None }
    }
}

impl InputPartialEqView {
    /// The record of a capability that was named without options.
    pub open spec fn blank() -> Self {
        InputPartialEqView { bounds: None, on_enum: false }
    }
}

impl InputView {
    /// Whether the capability `name` is present.
    pub open spec fn present(self, name: Seq<char>) -> bool {
        if name == "Clone"@ {
            self.clone is Some
        } else if name == "Copy"@ {
            self.copy is Some
        } else if name == "Debug"@ {
            self.debug is Some
        } else if name == "Default"@ {
            self.default is Some
        } else if name == "Eq"@ {
            self.eq is Some
        } else if name == "PartialEq"@ {
            self.partial_eq is Some
        } else {
            false
        }
    }

    /// The configuration of a type without annotations: every capability absent.
    pub open spec fn blank() -> Self {
        InputView { clone: None, copy: None, debug: None, default: None, eq: None, partial_eq: None }
    }
}

impl FieldCloneView {
    /// The record with nothing set.
    pub open spec fn blank() -> Self {
        FieldCloneView { bounds: None }
    }
}

impl FieldDebugView {
    /// The record with nothing set.
    pub open spec fn blank() -> Self {
        FieldDebugView { bounds: None, format_with: None, ignore: false }
    }
}

impl FieldDefaultView {
    /// The record with nothing set.
    pub open spec fn blank() -> Self {
        FieldDefaultView { bounds: None, value: None }
    }
}

impl FieldEqView {
    /// The record with nothing set.
    pub open spec fn blank() -> Self {
        FieldEqView { bounds: None }
    }
}

impl FieldPartialEqView {
    /// The record with nothing set.
    pub open spec fn blank() -> Self {
        FieldPartialEqView { bounds: None, compare_with: None, ignore: false }
    }
}

impl FieldView {
    /// The configuration of a field without annotations: every record there, nothing set.
    pub open spec fn blank() -> Self {
        FieldView {
            clone: FieldCloneView::blank(),
            copy_bound: None,
            debug: FieldDebugView::blank(),
            default: FieldDefaultView::blank(),
            eq: FieldEqView::blank(),
            partial_eq: FieldPartialEqView::blank(),
        }
    }
}

impl View for InputClone {
    type V = InputCloneView;

    closed spec fn view(&self) -> InputCloneView {
        InputCloneView { bounds: items(self.bounds), clone_from: self.clone_from }
    }
}

impl View for InputCopy {
    type V = InputCopyView;

    closed spec fn view(&self) -> InputCopyView {
        InputCopyView { bounds: items(self.bounds) }
    }
}

impl View for InputDebug {
    type V = InputDebugView;

    closed spec fn view(&self) -> InputDebugView {
        InputDebugView { bounds: items(self.bounds), transparent: self.transparent }
    }
}

impl View for InputDefault {
    type V = InputDefaultView;

    closed spec fn view(&self) -> InputDefaultView {
        InputDefaultView { bounds: items(self.bounds), new: self.new }
    }
}

impl View for InputEq {
    type V = InputEqView;

    closed spec fn view(&self) -> InputEqView {
        InputEqView { bounds: items(self.bounds) }
    }
}

impl View for InputPartialEq {
    type V = InputPartialEqView;

    closed spec fn view(&self) -> InputPartialEqView {
        InputPartialEqView { bounds: items(self.bounds), on_enum: self.on_enum }
    }
}

impl View for Input {
    type V = InputView;

    open spec fn view(&self) -> InputView {
        InputView {
            clone: match self.clone {
                Some(record) => Some(record@),
                None => None,
            },
            copy: match self.copy {
                Some(record) => Some(record@),
                None => None,
            },
            debug: match self.debug {
                Some(record) => Some(record@),
                None => None,
            },
            default: match self.default {
                Some(record) => Some(record@),
                None => None,
            },
            eq: match self.eq {
                Some(record) => Some(record@),
                None => None,
            },
            partial_eq: match self.partial_eq {
                Some(record) => Some(record@),
                None => None,
            },
        }
    }
}

impl View for FieldClone {
    type V = FieldCloneView;

    closed spec fn view(&self) -> FieldCloneView {
        FieldCloneView { bounds: items(self.bounds) }
    }
}

impl View for FieldDebug {
    type V = FieldDebugView;

    closed spec fn view(&self) -> FieldDebugView {
        FieldDebugView {
            bounds: items(self.bounds),
            format_with: self.format_with,
            ignore: self.ignore,
        }
    }
}

impl View for FieldDefault {
    type V = FieldDefaultView;

    closed spec fn view(&self) -> FieldDefaultView {
        FieldDefaultView { bounds: items(self.bounds), value: self.value }
    }
}

impl View for FieldEq {
    type V = FieldEqView;

    closed spec fn view(&self) -> FieldEqView {
        FieldEqView { bounds: items(self.bounds) }
    }
}

impl View for FieldPartialEq {
    type V = FieldPartialEqView;

    closed spec fn view(&self) -> FieldPartialEqView {
        FieldPartialEqView {
            bounds: items(self.bounds),
            compare_with: self.compare_with,
            ignore: self.ignore,
        }
    }
}

impl View for Field {
    type V = FieldView;

    closed spec fn view(&self) -> FieldView {
        FieldView {
            clone: self.clone@,
            copy_bound: items(self.copy_bound),
            debug: self.debug@,
            default: self.default@,
            eq: self.eq@,
            partial_eq: self.partial_eq@,
        }
    }
}

/// The six capability names are six different strings.
pub proof fn lemma_names_differ()
    ensures
        "Clone"@ != "Copy"@,
        "Clone"@ != "Debug"@,
        "Clone"@ != "Default"@,
        "Clone"@ != "Eq"@,
        "Clone"@ != "PartialEq"@,
        "Copy"@ != "Debug"@,
        "Copy"@ != "Default"@,
        "Copy"@ != "Eq"@,
        "Copy"@ != "PartialEq"@,
        "Debug"@ != "Default"@,
        "Debug"@ != "Eq"@,
        "Debug"@ != "PartialEq"@,
        "Default"@ != "Eq"@,
        "Default"@ != "PartialEq"@,
        "Eq"@ != "PartialEq"@,
{
    reveal_strlit("Clone");
    reveal_strlit("Copy");
    reveal_strlit("Debug");
    reveal_strlit("Default");
    reveal_strlit("Eq");
    reveal_strlit("PartialEq");
    assert("Clone"@.len() == 5 && "Clone"@[0] == 'C');
    assert("Copy"@.len() == 4);
    assert("Debug"@.len() == 5 && "Debug"@[0] == 'D');
    assert("Default"@.len() == 7);
    assert("Eq"@.len() == 2);
    assert("PartialEq"@.len() == 9);
}

impl Default for InputClone {
    /// The record of a capability that was named without options.
    fn default() -> (record: Self)
        ensures
            record@ == InputCloneView::blank(),
    {
        InputClone { bounds: None, clone_from: false }
    }
}

impl Default for InputCopy {
    /// The record of a capability that was named without options.
    fn default() -> (record: Self)
        ensures
            record@ == InputCopyView::blank(),
    {
        InputCopy { bounds: None }
    }
}

impl Default for InputDebug {
    /// The record of a capability that was named without options.
    fn default() -> (record: Self)
        ensures
            record@ == InputDebugView::blank(),
    {
        InputDebug { bounds: None, transparent: false }
    }
}

impl Default for InputDefault {
    /// The record of a capability that was named without options.
    fn default() -> (record: Self)
        ensures
            record@ == InputDefaultView::blank(),
    {
        InputDefault { bounds: None, new: false }
    }
}

impl Default for InputEq {
    /// The record of a capability that was named without options.
    fn default() -> (record: Self)
        ensures
            record@ == InputEqView::blank(),
    {
        InputEq { bounds: None }
    }
}

impl Default for InputPartialEq {
    /// The record of a capability that was named without options.
    fn default() -> (record: Self)
        ensures
            record@ == InputPartialEqView::blank(),
    {
        InputPartialEq { bounds: None, on_enum: false }
    }
}

impl Default for FieldClone {
    /// The record with nothing set.
    fn default() -> (record: Self)
        ensures
            record@ == FieldCloneView::blank(),
    {
        FieldClone { bounds: None }
    }
}

impl Default for FieldDebug {
    /// The record with nothing set.
    fn default() -> (record: Self)
        ensures
            record@ == FieldDebugView::blank(),
    {
        FieldDebug { bounds: None, format_with: None, ignore: false }
    }
}

impl Default for FieldDefault {
    /// The record with nothing set.
    fn default() -> (record: Self)
        ensures
            record@ == FieldDefaultView::blank(),
    {
        FieldDefault { bounds: None, value: None }
    }
}

impl Default for FieldEq {
    /// The record with nothing set.
    fn default() -> (record: Self)
        ensures
            record@ == FieldEqView::blank(),
    {
        FieldEq { bounds: None }
    }
}

impl Default for FieldPartialEq {
    /// The record with nothing set.
    fn default() -> (record: Self)
        ensures
            record@ == FieldPartialEqView::blank(),
    {
        FieldPartialEq { bounds: None, compare_with: None, ignore: false }
    }
}

impl Default for Input {
    /// The configuration of a type without annotations.
    fn default() -> (config: Self)
        ensures
            config@ == InputView::blank(),
    {
        Input { clone: None, copy: None, debug: None, default: None, eq: None, partial_eq: None }
    }
}

impl Default for Field {
    /// The configuration of a field without annotations.
    fn default() -> (config: Self)
        ensures
            config@ == FieldView::blank(),
    {
        Field {
            clone: FieldClone::default(),
            copy_bound: None,
            debug: FieldDebug::default(),
            default: FieldDefault::default(),
            eq: FieldEq::default(),
            partial_eq: FieldPartialEq::default(),
        }
    }
}

impl Accumulator for InputClone {
    /// The options are `bound` and `clone_from`.
    open spec fn kind(key: Seq<char>) -> Option<Kind> {
        if key == "bound"@ {
            Some(Kind::Bound)
        } else if key == "clone_from"@ {
            Some(Kind::Flag)
        } else {
            None
        }
    }

    open spec fn bounds(state: InputCloneView) -> Option<Seq<syn::WherePredicate>> {
        state.bounds
    }

    /// Each option sets its own field and leaves the others as they are; a key that is not
    /// an option of the capability is refused.
    open spec fn accepted(state: InputCloneView, key: Seq<char>, value: Option<Seq<char>>) -> Result<
        InputCloneView,
        Seq<char>,
    > {
        if key == "bound"@ {
            match bound_of(state.bounds, value) {
                Ok(bounds) => Ok(InputCloneView { bounds: Some(bounds), ..state }),
                Err(message) => Err(message),
            }
        } else if key == "clone_from"@ {
            match boolean_of(value, true, key) {
                Ok(flag) => Ok(InputCloneView { clone_from: flag, ..state }),
                Err(message) => Err(message),
            }
        } else {
            Err(unknown_attribute(key))
        }
    }

    proof fn lemma_accepted(state: InputCloneView, key: Seq<char>, value: Option<Seq<char>>) {
    }

    proof fn lemma_overwritten(
        state: InputCloneView,
        key: Seq<char>,
        first: Option<Seq<char>>,
        second: Option<Seq<char>>,
    ) {
    }

    fn accept(self, key: &str, value: Option<&str>) -> (taken: Result<Self, String>) {
        let mut record = self;
        if str_eq(key, "bound") {
            match parse_bound(&mut record.bounds, value) {
                Ok(()) => Ok(record),
                Err(message) => Err(message),
            }
        } else if str_eq(key, "clone_from") {
            match parse_boolean_meta_item(&value, true, "clone_from") {
                Ok(flag) => {
                    record.clone_from = flag;
                    Ok(record)
                },
                Err(message) => Err(message),
            }
        } else {
            Err(join("unknown attribute \"", key, "\""))
        }
    }
}

impl Accumulator for InputCopy {
    /// The one option is `bound`.
    open spec fn kind(key: Seq<char>) -> Option<Kind> {
        if key == "bound"@ {
            Some(Kind::Bound)
        } else {
            None
        }
    }

    open spec fn bounds(state: InputCopyView) -> Option<Seq<syn::WherePredicate>> {
        state.bounds
    }

    /// Each option sets its own field and leaves the others as they are; a key that is not
    /// an option of the capability is refused.
    open spec fn accepted(state: InputCopyView, key: Seq<char>, value: Option<Seq<char>>) -> Result<
        InputCopyView,
        Seq<char>,
    > {
        if key == "bound"@ {
            match bound_of(state.bounds, value) {
                Ok(bounds) => Ok(InputCopyView { bounds: Some(bounds) }),
                Err(message) => Err(message),
            }
        } else {
            Err(unknown_attribute(key))
        }
    }

    proof fn lemma_accepted(state: InputCopyView, key: Seq<char>, value: Option<Seq<char>>) {
    }

    proof fn lemma_overwritten(
        state: InputCopyView,
        key: Seq<char>,
        first: Option<Seq<char>>,
        second: Option<Seq<char>>,
    ) {
    }

    fn accept(self, key: &str, value: Option<&str>) -> (taken: Result<Self, String>) {
        let mut record = self;
        if str_eq(key, "bound") {
            match parse_bound(&mut record.bounds, value) {
                Ok(()) => Ok(record),
                Err(message) => Err(message),
            }
        } else {
            Err(join("unknown attribute \"", key, "\""))
        }
    }
}

impl Accumulator for InputDebug {
    /// The options are `bound` and `transparent`.
    open spec fn kind(key: Seq<char>) -> Option<Kind> {
        if key == "bound"@ {
            Some(Kind::Bound)
        } else if key == "transparent"@ {
            Some(Kind::Flag)
        } else {
            None
        }
    }

    open spec fn bounds(state: InputDebugView) -> Option<Seq<syn::WherePredicate>> {
        state.bounds
    }

    /// Each option sets its own field and leaves the others as they are; a key that is not
    /// an option of the capability is refused.
    open spec fn accepted(state: InputDebugView, key: Seq<char>, value: Option<Seq<char>>) -> Result<
        InputDebugView,
        Seq<char>,
    > {
        if key == "bound"@ {
            match bound_of(state.bounds, value) {
                Ok(bounds) => Ok(InputDebugView { bounds: Some(bounds), ..state }),
                Err(message) => Err(message),
            }
        } else if key == "transparent"@ {
            match boolean_of(value, true, key) {
                Ok(flag) => Ok(InputDebugView { transparent: flag, ..state }),
                Err(message) => Err(message),
            }
        } else {
            Err(unknown_attribute(key))
        }
    }

    proof fn lemma_accepted(state: InputDebugView, key: Seq<char>, value: Option<Seq<char>>) {
    }

    proof fn lemma_overwritten(
        state: InputDebugView,
        key: Seq<char>,
        first: Option<Seq<char>>,
        second: Option<Seq<char>>,
    ) {
    }

    fn accept(self, key: &str, value: Option<&str>) -> (taken: Result<Self, String>) {
        let mut record = self;
        if str_eq(key, "bound") {
            match parse_bound(&mut record.bounds, value) {
                Ok(()) => Ok(record),
                Err(message) => Err(message),
            }
        } else if str_eq(key, "transparent") {
            match parse_boolean_meta_item(&value, true, "transparent") {
                Ok(flag) => {
                    record.transparent = flag;
                    Ok(record)
                },
                Err(message) => Err(message),
            }
        } else {
            Err(join("unknown attribute \"", key, "\""))
        }
    }
}

impl Accumulator for InputDefault {
    /// The options are `bound` and `new`.
    open spec fn kind(key: Seq<char>) -> Option<Kind> {
        if key == "bound"@ {
            Some(Kind::Bound)
        } else if key == "new"@ {
            Some(Kind::Flag)
        } else {
            None
        }
    }

    open spec fn bounds(state: InputDefaultView) -> Option<Seq<syn::WherePredicate>> {
        state.bounds
    }

    /// Each option sets its own field and leaves the others as they are; a key that is not
    /// an option of the capability is refused.
    open spec fn accepted(state: InputDefaultView, key: Seq<char>, value: Option<Seq<char>>) -> Result<
        InputDefaultView,
        Seq<char>,
    > {
        if key == "bound"@ {
            match bound_of(state.bounds, value) {
                Ok(bounds) => Ok(InputDefaultView { bounds: Some(bounds), ..state }),
                Err(message) => Err(message),
            }
        } else if key == "new"@ {
            match boolean_of(value, true, key) {
                Ok(flag) => Ok(InputDefaultView { new: flag, ..state }),
                Err(message) => Err(message),
            }
        } else {
            Err(unknown_attribute(key))
        }
    }

    proof fn lemma_accepted(state: InputDefaultView, key: Seq<char>, value: Option<Seq<char>>) {
    }

    proof fn lemma_overwritten(
        state: InputDefaultView,
        key: Seq<char>,
        first: Option<Seq<char>>,
        second: Option<Seq<char>>,
    ) {
    }

    fn accept(self, key: &str, value: Option<&str>) -> (taken: Result<Self, String>) {
        let mut record = self;
        if str_eq(key, "bound") {
            match parse_bound(&mut record.bounds, value) {
                Ok(()) => Ok(record),
                Err(message) => Err(message),
            }
        } else if str_eq(key, "new") {
            match parse_boolean_meta_item(&value, true, "new") {
                Ok(flag) => {
                    record.new = flag;
                    Ok(record)
                },
                Err(message) => Err(message),
            }
        } else {
            Err(join("unknown attribute \"", key, "\""))
        }
    }
}

impl Accumulator for InputEq {
    /// The one option is `bound`.
    open spec fn kind(key: Seq<char>) -> Option<Kind> {
        if key == "bound"@ {
            Some(Kind::Bound)
        } else {
            None
        }
    }

    open spec fn bounds(state: InputEqView) -> Option<Seq<syn::WherePredicate>> {
        state.bounds
    }

    /// Each option sets its own field and leaves the others as they are; a key that is not
    /// an option of the capability is refused.
    open spec fn accepted(state: InputEqView, key: Seq<char>, value: Option<Seq<char>>) -> Result<
        InputEqView,
        Seq<char>,
    > {
        if key == "bound"@ {
            match bound_of(state.bounds, value) {
                Ok(bounds) => Ok(InputEqView { bounds: Some(bounds) }),
                Err(message) => Err(message),
            }
        } else {
            Err(unknown_attribute(key))
        }
    }

    proof fn lemma_accepted(state: InputEqView, key: Seq<char>, value: Option<Seq<char>>) {
    }

    proof fn lemma_overwritten(
        state: InputEqView,
        key: Seq<char>,
        first: Option<Seq<char>>,
        second: Option<Seq<char>>,
    ) {
    }

    fn accept(self, key: &str, value: Option<&str>) -> (taken: Result<Self, String>) {
        let mut record = self;
        if str_eq(key, "bound") {
            match parse_bound(&mut record.bounds, value) {
                Ok(()) => Ok(record),
                Err(message) => Err(message),
            }
        } else {
            Err(join("unknown attribute \"", key, "\""))
        }
    }
}

impl Accumulator for InputPartialEq {
    /// The options are `bound` and `feature_allow_slow_enum`.
    open spec fn kind(key: Seq<char>) -> Option<Kind> {
        if key == "bound"@ {
            Some(Kind::Bound)
        } else if key == "feature_allow_slow_enum"@ {
            Some(Kind::Flag)
        } else {
            None
        }
    }

    open spec fn bounds(state: InputPartialEqView) -> Option<Seq<syn::WherePredicate>> {
        state.bounds
    }

    /// Each option sets its own field and leaves the others as they are; a key that is not
    /// an option of the capability is refused.
    open spec fn accepted(state: InputPartialEqView, key: Seq<char>, value: Option<Seq<char>>) -> Result<
        InputPartialEqView,
        Seq<char>,
    > {
        if key == "bound"@ {
            match bound_of(state.bounds, value) {
                Ok(bounds) => Ok(InputPartialEqView { bounds: Some(bounds), ..state }),
                Err(message) => Err(message),
            }
        } else if key == "feature_allow_slow_enum"@ {
            match boolean_of(value, true, key) {
                Ok(flag) => Ok(InputPartialEqView { on_enum: flag, ..state }),
                Err(message) => Err(message),
            }
        } else {
            Err(unknown_attribute(key))
        }
    }

    proof fn lemma_accepted(state: InputPartialEqView, key: Seq<char>, value: Option<Seq<char>>) {
    }

    proof fn lemma_overwritten(
        state: InputPartialEqView,
        key: Seq<char>,
        first: Option<Seq<char>>,
        second: Option<Seq<char>>,
    ) {
    }

    fn accept(self, key: &str, value: Option<&str>) -> (taken: Result<Self, String>) {
        let mut record = self;
        if str_eq(key, "bound") {
            match parse_bound(&mut record.bounds, value) {
                Ok(()) => Ok(record),
                Err(message) => Err(message),
            }
        } else if str_eq(key, "feature_allow_slow_enum") {
            match parse_boolean_meta_item(&value, true, "feature_allow_slow_enum") {
                Ok(flag) => {
                    record.on_enum = flag;
                    Ok(record)
                },
                Err(message) => Err(message),
            }
        } else {
            Err(join("unknown attribute \"", key, "\""))
        }
    }
}

impl Accumulator for FieldDebug {
    /// The options are `bound`, `format_with` and `ignore`.
    open spec fn kind(key: Seq<char>) -> Option<Kind> {
        if key == "bound"@ {
            Some(Kind::Bound)
        } else if key == "format_with"@ {
            Some(Kind::Reference)
        } else if key == "ignore"@ {
            Some(Kind::Flag)
        } else {
            None
        }
    }

    open spec fn bounds(state: FieldDebugView) -> Option<Seq<syn::WherePredicate>> {
        state.bounds
    }

    /// Each option sets its own field and leaves the others as they are; a key that is not
    /// an option of the capability is refused.
    open spec fn accepted(state: FieldDebugView, key: Seq<char>, value: Option<Seq<char>>) -> Result<
        FieldDebugView,
        Seq<char>,
    > {
        if key == "bound"@ {
            match bound_of(state.bounds, value) {
                Ok(bounds) => Ok(FieldDebugView { bounds: Some(bounds), ..state }),
                Err(message) => Err(message),
            }
        } else if key == "format_with"@ {
            match reference_of(value, key) {
                Ok(path) => Ok(FieldDebugView { format_with: Some(path), ..state }),
                Err(message) => Err(message),
            }
        } else if key == "ignore"@ {
            match boolean_of(value, true, key) {
                Ok(flag) => Ok(FieldDebugView { ignore: flag, ..state }),
                Err(message) => Err(message),
            }
        } else {
            Err(unknown_attribute(key))
        }
    }

    proof fn lemma_accepted(state: FieldDebugView, key: Seq<char>, value: Option<Seq<char>>) {
    }

    proof fn lemma_overwritten(
        state: FieldDebugView,
        key: Seq<char>,
        first: Option<Seq<char>>,
        second: Option<Seq<char>>,
    ) {
    }

    fn accept(self, key: &str, value: Option<&str>) -> (taken: Result<Self, String>) {
        let mut record = self;
        if str_eq(key, "bound") {
            match parse_bound(&mut record.bounds, value) {
                Ok(()) => Ok(record),
                Err(message) => Err(message),
            }
        } else if str_eq(key, "format_with") {
            match parse_reference(&mut record.format_with, value, "format_with") {
                Ok(()) => Ok(record),
                Err(message) => Err(message),
            }
        } else if str_eq(key, "ignore") {
            match parse_boolean_meta_item(&value, true, "ignore") {
                Ok(flag) => {
                    record.ignore = flag;
                    Ok(record)
                },
                Err(message) => Err(message),
            }
        } else {
            Err(join("unknown attribute \"", key, "\""))
        }
    }
}

impl Accumulator for FieldDefault {
    /// The options are `bound` and `value`.
    open spec fn kind(key: Seq<char>) -> Option<Kind> {
        if key == "bound"@ {
            Some(Kind::Bound)
        } else if key == "value"@ {
            Some(Kind::Expression)
        } else {
            None
        }
    }

    open spec fn bounds(state: FieldDefaultView) -> Option<Seq<syn::WherePredicate>> {
        state.bounds
    }

    /// Each option sets its own field and leaves the others as they are; a key that is not
    /// an option of the capability is refused.
    open spec fn accepted(state: FieldDefaultView, key: Seq<char>, value: Option<Seq<char>>) -> Result<
        FieldDefaultView,
        Seq<char>,
    > {
        if key == "bound"@ {
            match bound_of(state.bounds, value) {
                Ok(bounds) => Ok(FieldDefaultView { bounds: Some(bounds), ..state }),
                Err(message) => Err(message),
            }
        } else if key == "value"@ {
            match expression_of(value, key) {
                Ok(expr) => Ok(FieldDefaultView { value: Some(expr), ..state }),
                Err(message) => Err(message),
            }
        } else {
            Err(unknown_attribute(key))
        }
    }

    proof fn lemma_accepted(state: FieldDefaultView, key: Seq<char>, value: Option<Seq<char>>) {
    }

    proof fn lemma_overwritten(
        state: FieldDefaultView,
        key: Seq<char>,
        first: Option<Seq<char>>,
        second: Option<Seq<char>>,
    ) {
    }

    fn accept(self, key: &str, value: Option<&str>) -> (taken: Result<Self, String>) {
        let mut record = self;
        if str_eq(key, "bound") {
            match parse_bound(&mut record.bounds, value) {
                Ok(()) => Ok(record),
                Err(message) => Err(message),
            }
        } else if str_eq(key, "value") {
            match parse_expression(&mut record.value, value, "value") {
                Ok(()) => Ok(record),
                Err(message) => Err(message),
            }
        } else {
            Err(join("unknown attribute \"", key, "\""))
        }
    }
}

impl Accumulator for FieldEq {
    /// The one option is `bound`.
    open spec fn kind(key: Seq<char>) -> Option<Kind> {
        if key == "bound"@ {
            Some(Kind::Bound)
        } else {
            None
        }
    }

    open spec fn bounds(state: FieldEqView) -> Option<Seq<syn::WherePredicate>> {
        state.bounds
    }

    /// Each option sets its own field and leaves the others as they are; a key that is not
    /// an option of the capability is refused.
    open spec fn accepted(state: FieldEqView, key: Seq<char>, value: Option<Seq<char>>) -> Result<
        FieldEqView,
        Seq<char>,
    > {
        if key == "bound"@ {
            match bound_of(state.bounds, value) {
                Ok(bounds) => Ok(FieldEqView { bounds: Some(bounds) }),
                Err(message) => Err(message),
            }
        } else {
            Err(unknown_attribute(key))
        }
    }

    proof fn lemma_accepted(state: FieldEqView, key: Seq<char>, value: Option<Seq<char>>) {
    }

    proof fn lemma_overwritten(
        state: FieldEqView,
        key: Seq<char>,
        first: Option<Seq<char>>,
        second: Option<Seq<char>>,
    ) {
    }

    fn accept(self, key: &str, value: Option<&str>) -> (taken: Result<Self, String>) {
        let mut record = self;
        if str_eq(key, "bound") {
            match parse_bound(&mut record.bounds, value) {
                Ok(()) => Ok(record),
                Err(message) => Err(message),
            }
        } else {
            Err(join("unknown attribute \"", key, "\""))
        }
    }
}

impl Accumulator for FieldPartialEq {
    /// The options are `bound`, `compare_with` and `ignore`.
    open spec fn kind(key: Seq<char>) -> Option<Kind> {
        if key == "bound"@ {
            Some(Kind::Bound)
        } else if key == "compare_with"@ {
            Some(Kind::Reference)
        } else if key == "ignore"@ {
            Some(Kind::Flag)
        } else {
            None
        }
    }

    open spec fn bounds(state: FieldPartialEqView) -> Option<Seq<syn::WherePredicate>> {
        state.bounds
    }

    /// Each option sets its own field and leaves the others as they are; a key that is not
    /// an option of the capability is refused.
    open spec fn accepted(state: FieldPartialEqView, key: Seq<char>, value: Option<Seq<char>>) -> Result<
        FieldPartialEqView,
        Seq<char>,
    > {
        if key == "bound"@ {
            match bound_of(state.bounds, value) {
                Ok(bounds) => Ok(FieldPartialEqView { bounds: Some(bounds), ..state }),
                Err(message) => Err(message),
            }
        } else if key == "compare_with"@ {
            match reference_of(value, key) {
                Ok(path) => Ok(FieldPartialEqView { compare_with: Some(path), ..state }),
                Err(message) => Err(message),
            }
        } else if key == "ignore"@ {
            match boolean_of(value, true, key) {
                Ok(flag) => Ok(FieldPartialEqView { ignore: flag, ..state }),
                Err(message) => Err(message),
            }
        } else {
            Err(unknown_attribute(key))
        }
    }

    proof fn lemma_accepted(state: FieldPartialEqView, key: Seq<char>, value: Option<Seq<char>>) {
    }

    proof fn lemma_overwritten(
        state: FieldPartialEqView,
        key: Seq<char>,
        first: Option<Seq<char>>,
        second: Option<Seq<char>>,
    ) {
    }

    fn accept(self, key: &str, value: Option<&str>) -> (taken: Result<Self, String>) {
        let mut record = self;
        if str_eq(key, "bound") {
            match parse_bound(&mut record.bounds, value) {
                Ok(()) => Ok(record),
                Err(message) => Err(message),
            }
        } else if str_eq(key, "compare_with") {
            match parse_reference(&mut record.compare_with, value, "compare_with") {
                Ok(()) => Ok(record),
                Err(message) => Err(message),
            }
        } else if str_eq(key, "ignore") {
            match parse_boolean_meta_item(&value, true, "ignore") {
                Ok(flag) => {
                    record.ignore = flag;
                    Ok(record)
                },
                Err(message) => Err(message),
            }
        } else {
            Err(join("unknown attribute \"", key, "\""))
        }
    }
}

impl Dispatcher for Input {
    /// The six capabilities that a type can be given.
    open spec fn knows(name: Seq<char>) -> bool {
        name == "Clone"@
            || name == "Copy"@
            || name == "Debug"@
            || name == "Default"@
            || name == "Eq"@
            || name == "PartialEq"@
    }

    open spec fn kind(name: Seq<char>, key: Seq<char>) -> Option<Kind> {
        if name == "Clone"@ {
            InputClone::kind(key)
        } else if name == "Copy"@ {
            InputCopy::kind(key)
        } else if name == "Debug"@ {
            InputDebug::kind(key)
        } else if name == "Default"@ {
            InputDefault::kind(key)
        } else if name == "Eq"@ {
            InputEq::kind(key)
        } else if name == "PartialEq"@ {
            InputPartialEq::kind(key)
        } else {
            None
        }
    }

    open spec fn bounds(state: InputView, name: Seq<char>) -> Option<Seq<syn::WherePredicate>> {
        if name == "Clone"@ {
            opened(state.clone, InputCloneView::blank()).bounds
        } else if name == "Copy"@ {
            opened(state.copy, InputCopyView::blank()).bounds
        } else if name == "Debug"@ {
            opened(state.debug, InputDebugView::blank()).bounds
        } else if name == "Default"@ {
            opened(state.default, InputDefaultView::blank()).bounds
        } else if name == "Eq"@ {
            opened(state.eq, InputEqView::blank()).bounds
        } else if name == "PartialEq"@ {
            opened(state.partial_eq, InputPartialEqView::blank()).bounds
        } else {
            None
        }
    }

    /// A node named `Clone`, `Copy`, `Debug`, `Default`, `Eq` or `PartialEq` makes that
    /// capability present and adds the node's options to its record; the other records stay
    /// as they are. Any other name is refused.
    open spec fn routed(state: InputView, node: Node) -> Result<InputView, Seq<char>> {
        if node.name == "Clone"@ {
            match accepted_all::<InputClone>(opened(state.clone, InputCloneView::blank()), node.options) {
                Ok(filled) => Ok(InputView { clone: Some(filled), ..state }),
                Err(message) => Err(message),
            }
        } else if node.name == "Copy"@ {
            match accepted_all::<InputCopy>(opened(state.copy, InputCopyView::blank()), node.options) {
                Ok(filled) => Ok(InputView { copy: Some(filled), ..state }),
                Err(message) => Err(message),
            }
        } else if node.name == "Debug"@ {
            match accepted_all::<InputDebug>(opened(state.debug, InputDebugView::blank()), node.options) {
                Ok(filled) => Ok(InputView { debug: Some(filled), ..state }),
                Err(message) => Err(message),
            }
        } else if node.name == "Default"@ {
            match accepted_all::<InputDefault>(opened(state.default, InputDefaultView::blank()), node.options) {
                Ok(filled) => Ok(InputView { default: Some(filled), ..state }),
                Err(message) => Err(message),
            }
        } else if node.name == "Eq"@ {
            match accepted_all::<InputEq>(opened(state.eq, InputEqView::blank()), node.options) {
                Ok(filled) => Ok(InputView { eq: Some(filled), ..state }),
                Err(message) => Err(message),
            }
        } else if node.name == "PartialEq"@ {
            match accepted_all::<InputPartialEq>(opened(state.partial_eq, InputPartialEqView::blank()), node.options) {
                Ok(filled) => Ok(InputView { partial_eq: Some(filled), ..state }),
                Err(message) => Err(message),
            }
        } else {
            Err(unknown_trait(node.name))
        }
    }

    proof fn lemma_routed(state: InputView, node: Node) {
        if node.name == "Clone"@ {
            lemma_accepted_all::<InputClone>(opened(state.clone, InputCloneView::blank()), node.options);
        } else if node.name == "Copy"@ {
            lemma_accepted_all::<InputCopy>(opened(state.copy, InputCopyView::blank()), node.options);
        } else if node.name == "Debug"@ {
            lemma_accepted_all::<InputDebug>(opened(state.debug, InputDebugView::blank()), node.options);
        } else if node.name == "Default"@ {
            lemma_accepted_all::<InputDefault>(opened(state.default, InputDefaultView::blank()), node.options);
        } else if node.name == "Eq"@ {
            lemma_accepted_all::<InputEq>(opened(state.eq, InputEqView::blank()), node.options);
        } else if node.name == "PartialEq"@ {
            lemma_accepted_all::<InputPartialEq>(opened(state.partial_eq, InputPartialEqView::blank()), node.options);
        }
    }

    proof fn lemma_routed_bounds(state: InputView, name: Seq<char>, values: Seq<Seq<char>>) {
        if name == "Clone"@ {
            lemma_bounds_append::<InputClone>(opened(state.clone, InputCloneView::blank()), values);
        } else if name == "Copy"@ {
            lemma_bounds_append::<InputCopy>(opened(state.copy, InputCopyView::blank()), values);
        } else if name == "Debug"@ {
            lemma_bounds_append::<InputDebug>(opened(state.debug, InputDebugView::blank()), values);
        } else if name == "Default"@ {
            lemma_bounds_append::<InputDefault>(opened(state.default, InputDefaultView::blank()), values);
        } else if name == "Eq"@ {
            lemma_bounds_append::<InputEq>(opened(state.eq, InputEqView::blank()), values);
        } else if name == "PartialEq"@ {
            lemma_bounds_append::<InputPartialEq>(opened(state.partial_eq, InputPartialEqView::blank()), values);
        }
    }

    proof fn lemma_routed_in_parts(
        state: InputView,
        name: Seq<char>,
        front: Seq<OptionView>,
        back: Seq<OptionView>,
    ) {
        if name == "Clone"@ {
            lemma_accepted_in_parts::<InputClone>(opened(state.clone, InputCloneView::blank()), front, back);
        } else if name == "Copy"@ {
            lemma_accepted_in_parts::<InputCopy>(opened(state.copy, InputCopyView::blank()), front, back);
        } else if name == "Debug"@ {
            lemma_accepted_in_parts::<InputDebug>(opened(state.debug, InputDebugView::blank()), front, back);
        } else if name == "Default"@ {
            lemma_accepted_in_parts::<InputDefault>(opened(state.default, InputDefaultView::blank()), front, back);
        } else if name == "Eq"@ {
            lemma_accepted_in_parts::<InputEq>(opened(state.eq, InputEqView::blank()), front, back);
        } else if name == "PartialEq"@ {
            lemma_accepted_in_parts::<InputPartialEq>(opened(state.partial_eq, InputPartialEqView::blank()), front, back);
        }
    }

    fn route(self, item: &MetaItem) -> (taken: Result<Self, String>) {
        let mut config = self;
        if str_eq(item.0, "Clone") {
            match accept_all(config.clone.take().unwrap_or(InputClone::default()), &item.1) {
                Ok(filled) => {
                    config.clone = Some(filled);
                    Ok(config)
                },
                Err(message) => Err(message),
            }
        } else if str_eq(item.0, "Copy") {
            match accept_all(config.copy.take().unwrap_or(InputCopy::default()), &item.1) {
                Ok(filled) => {
                    config.copy = Some(filled);
                    Ok(config)
                },
                Err(message) => Err(message),
            }
        } else if str_eq(item.0, "Debug") {
            match accept_all(config.debug.take().unwrap_or(InputDebug::default()), &item.1) {
                Ok(filled) => {
                    config.debug = Some(filled);
                    Ok(config)
                },
                Err(message) => Err(message),
            }
        } else if str_eq(item.0, "Default") {
            match accept_all(config.default.take().unwrap_or(InputDefault::default()), &item.1) {
                Ok(filled) => {
                    config.default = Some(filled);
                    Ok(config)
                },
                Err(message) => Err(message),
            }
        } else if str_eq(item.0, "Eq") {
            match accept_all(config.eq.take().unwrap_or(InputEq::default()), &item.1) {
                Ok(filled) => {
                    config.eq = Some(filled);
                    Ok(config)
                },
                Err(message) => Err(message),
            }
        } else if str_eq(item.0, "PartialEq") {
            match accept_all(config.partial_eq.take().unwrap_or(InputPartialEq::default()), &item.1) {
                Ok(filled) => {
                    config.partial_eq = Some(filled);
                    Ok(config)
                },
                Err(message) => Err(message),
            }
        } else {
            Err(join("unknown trait \"", item.0, "\""))
        }
    }
}

impl Dispatcher for Field {
    /// The four capabilities that can be configured on a field.
    open spec fn knows(name: Seq<char>) -> bool {
        name == "Debug"@
            || name == "Default"@
            || name == "Eq"@
            || name == "PartialEq"@
    }

    open spec fn kind(name: Seq<char>, key: Seq<char>) -> Option<Kind> {
        if name == "Debug"@ {
            FieldDebug::kind(key)
        } else if name == "Default"@ {
            FieldDefault::kind(key)
        } else if name == "Eq"@ {
            FieldEq::kind(key)
        } else if name == "PartialEq"@ {
            FieldPartialEq::kind(key)
        } else {
            None
        }
    }

    open spec fn bounds(state: FieldView, name: Seq<char>) -> Option<Seq<syn::WherePredicate>> {
        if name == "Debug"@ {
            state.debug.bounds
        } else if name == "Default"@ {
            state.default.bounds
        } else if name == "Eq"@ {
            state.eq.bounds
        } else if name == "PartialEq"@ {
            state.partial_eq.bounds
        } else {
            None
        }
    }

    /// A node named `Debug`, `Default`, `Eq` or `PartialEq` adds its options to that record;
    /// the other records stay as they are. Any other name is refused.
    open spec fn routed(state: FieldView, node: Node) -> Result<FieldView, Seq<char>> {
        if node.name == "Debug"@ {
            match accepted_all::<FieldDebug>(state.debug, node.options) {
                Ok(filled) => Ok(FieldView { debug: filled, ..state }),
                Err(message) => Err(message),
            }
        } else if node.name == "Default"@ {
            match accepted_all::<FieldDefault>(state.default, node.options) {
                Ok(filled) => Ok(FieldView { default: filled, ..state }),
                Err(message) => Err(message),
            }
        } else if node.name == "Eq"@ {
            match accepted_all::<FieldEq>(state.eq, node.options) {
                Ok(filled) => Ok(FieldView { eq: filled, ..state }),
                Err(message) => Err(message),
            }
        } else if node.name == "PartialEq"@ {
            match accepted_all::<FieldPartialEq>(state.partial_eq, node.options) {
                Ok(filled) => Ok(FieldView { partial_eq: filled, ..state }),
                Err(message) => Err(message),
            }
        } else {
            Err(unknown_trait(node.name))
        }
    }

    proof fn lemma_routed(state: FieldView, node: Node) {
        if node.name == "Debug"@ {
            lemma_accepted_all::<FieldDebug>(state.debug, node.options);
        } else if node.name == "Default"@ {
            lemma_accepted_all::<FieldDefault>(state.default, node.options);
        } else if node.name == "Eq"@ {
            lemma_accepted_all::<FieldEq>(state.eq, node.options);
        } else if node.name == "PartialEq"@ {
            lemma_accepted_all::<FieldPartialEq>(state.partial_eq, node.options);
        }
    }

    proof fn lemma_routed_bounds(state: FieldView, name: Seq<char>, values: Seq<Seq<char>>) {
        if name == "Debug"@ {
            lemma_bounds_append::<FieldDebug>(state.debug, values);
        } else if name == "Default"@ {
            lemma_bounds_append::<FieldDefault>(state.default, values);
        } else if name == "Eq"@ {
            lemma_bounds_append::<FieldEq>(state.eq, values);
        } else if name == "PartialEq"@ {
            lemma_bounds_append::<FieldPartialEq>(state.partial_eq, values);
        }
    }

    proof fn lemma_routed_in_parts(
        state: FieldView,
        name: Seq<char>,
        front: Seq<OptionView>,
        back: Seq<OptionView>,
    ) {
        if name == "Debug"@ {
            lemma_accepted_in_parts::<FieldDebug>(state.debug, front, back);
        } else if name == "Default"@ {
            lemma_accepted_in_parts::<FieldDefault>(state.default, front, back);
        } else if name == "Eq"@ {
            lemma_accepted_in_parts::<FieldEq>(state.eq, front, back);
        } else if name == "PartialEq"@ {
            lemma_accepted_in_parts::<FieldPartialEq>(state.partial_eq, front, back);
        }
    }

    fn route(self, item: &MetaItem) -> (taken: Result<Self, String>) {
        let mut config = self;
        if str_eq(item.0, "Debug") {
            match accept_all(config.debug, &item.1) {
                Ok(filled) => {
                    config.debug = filled;
                    Ok(config)
                },
                Err(message) => Err(message),
            }
        } else if str_eq(item.0, "Default") {
            match accept_all(config.default, &item.1) {
                Ok(filled) => {
                    config.default = filled;
                    Ok(config)
                },
                Err(message) => Err(message),
            }
        } else if str_eq(item.0, "Eq") {
            match accept_all(config.eq, &item.1) {
                Ok(filled) => {
                    config.eq = filled;
                    Ok(config)
                },
                Err(message) => Err(message),
            }
        } else if str_eq(item.0, "PartialEq") {
            match accept_all(config.partial_eq, &item.1) {
                Ok(filled) => {
                    config.partial_eq = filled;
                    Ok(config)
                },
                Err(message) => Err(message),
            }
        } else {
            Err(join("unknown trait \"", item.0, "\""))
        }
    }
}

impl Input {
    /// The configuration that the attributes of a type give, or the message of the first thing
    /// in them that is refused.
    pub open spec fn parsed(attrs: Seq<Attribute>) -> Result<InputView, Seq<char>> {
        configured::<Input>(InputView::blank(), attrs)
    }

    /// Parses the `derivative` attributes on a type.
    pub fn from_ast(attrs: &[Attribute]) -> (parsed: Result<Input, String>)
        ensures
            match parsed {
                Ok(input) => Self::parsed(attrs@) == Ok::<InputView, Seq<char>>(input@),
                Err(message) => Self::parsed(attrs@) == Err::<InputView, Seq<char>>(message@),
            },
    {
        configure(Input::default(), attrs)
    }

    /// The bounds of `Clone`, if the capability is present and a `bound` option was given.
    pub fn clone_bound(&self) -> (bounds: Option<&[syn::WherePredicate]>)
        ensures
            slice_items(bounds) == match self@.clone {
                Some(record) => record.bounds,
                None => None,
            },
            slice_items(bounds) == <Input as Dispatcher>::bounds(self@, "Clone"@),
    {
        proof {
            lemma_names_differ();
        }
        match &self.clone {
            Some(record) => match &record.bounds {
                Some(bounds) => Some(bounds.as_slice()),
                None => None,
            },
            None => None,
        }
    }

    /// The bounds of `Copy`, if the capability is present and a `bound` option was given.
    pub fn copy_bound(&self) -> (bounds: Option<&[syn::WherePredicate]>)
        ensures
            slice_items(bounds) == match self@.copy {
                Some(record) => record.bounds,
                None => None,
            },
            slice_items(bounds) == <Input as Dispatcher>::bounds(self@, "Copy"@),
    {
        proof {
            lemma_names_differ();
        }
        match &self.copy {
            Some(record) => match &record.bounds {
                Some(bounds) => Some(bounds.as_slice()),
                None => None,
            },
            None => None,
        }
    }

    /// The bounds of `Debug`, if the capability is present and a `bound` option was given.
    pub fn debug_bound(&self) -> (bounds: Option<&[syn::WherePredicate]>)
        ensures
            slice_items(bounds) == match self@.debug {
                Some(record) => record.bounds,
                None => None,
            },
            slice_items(bounds) == <Input as Dispatcher>::bounds(self@, "Debug"@),
    {
        proof {
            lemma_names_differ();
        }
        match &self.debug {
            Some(record) => match &record.bounds {
                Some(bounds) => Some(bounds.as_slice()),
                None => None,
            },
            None => None,
        }
    }

    /// Whether `Debug` is present and marked `transparent`.
    pub fn debug_transparent(&self) -> (flag: bool)
        ensures
            flag == match self@.debug {
                Some(record) => record.transparent,
                None => false,
            },
    {
        match &self.debug {
            Some(record) => record.transparent,
            None => false,
        }
    }

    /// The bounds of `Default`, if the capability is present and a `bound` option was given.
    pub fn default_bound(&self) -> (bounds: Option<&[syn::WherePredicate]>)
        ensures
            slice_items(bounds) == match self@.default {
                Some(record) => record.bounds,
                None => None,
            },
            slice_items(bounds) == <Input as Dispatcher>::bounds(self@, "Default"@),
    {
        proof {
            lemma_names_differ();
        }
        match &self.default {
            Some(record) => match &record.bounds {
                Some(bounds) => Some(bounds.as_slice()),
                None => None,
            },
            None => None,
        }
    }

    /// The bounds of `Eq`, if the capability is present and a `bound` option was given.
    pub fn eq_bound(&self) -> (bounds: Option<&[syn::WherePredicate]>)
        ensures
            slice_items(bounds) == match self@.eq {
                Some(record) => record.bounds,
                None => None,
            },
            slice_items(bounds) == <Input as Dispatcher>::bounds(self@, "Eq"@),
    {
        proof {
            lemma_names_differ();
        }
        match &self.eq {
            Some(record) => match &record.bounds {
                Some(bounds) => Some(bounds.as_slice()),
                None => None,
            },
            None => None,
        }
    }

    /// The bounds of `PartialEq`, if the capability is present and a `bound` option was given.
    pub fn partial_eq_bound(&self) -> (bounds: Option<&[syn::WherePredicate]>)
        ensures
            slice_items(bounds) == match self@.partial_eq {
                Some(record) => record.bounds,
                None => None,
            },
            slice_items(bounds) == <Input as Dispatcher>::bounds(self@, "PartialEq"@),
    {
        proof {
            lemma_names_differ();
        }
        match &self.partial_eq {
            Some(record) => match &record.bounds {
                Some(bounds) => Some(bounds.as_slice()),
                None => None,
            },
            None => None,
        }
    }

    /// Whether `PartialEq` is present and allowed on an enum.
    pub fn partial_eq_on_enum(&self) -> (flag: bool)
        ensures
            flag == match self@.partial_eq {
                Some(record) => record.on_enum,
                None => false,
            },
    {
        match &self.partial_eq {
            Some(record) => record.on_enum,
            None => false,
        }
    }
}

impl Field {
    /// The configuration that the attributes of a field give, or the message of the first
    /// thing in them that is refused.
    pub open spec fn parsed(attrs: Seq<Attribute>) -> Result<FieldView, Seq<char>> {
        configured::<Field>(FieldView::blank(), attrs)
    }

    /// Parses the `derivative` attributes on a field.
    pub fn from_ast(attrs: &[Attribute]) -> (parsed: Result<Field, String>)
        ensures
            match parsed {
                Ok(field) => Self::parsed(attrs@) == Ok::<FieldView, Seq<char>>(field@),
                Err(message) => Self::parsed(attrs@) == Err::<FieldView, Seq<char>>(message@),
            },
    {
        configure(Field::default(), attrs)
    }

    /// The bounds of `Clone`, if a `bound` option was given.
    pub fn clone_bound(&self) -> (bounds: Option<&[syn::WherePredicate]>)
        ensures
            slice_items(bounds) == self@.clone.bounds,
    {
        match &self.clone.bounds {
            Some(bounds) => Some(bounds.as_slice()),
            None => None,
        }
    }

    /// The bounds of `Copy`, if a `bound` option was given.
    pub fn copy_bound(&self) -> (bounds: Option<&[syn::WherePredicate]>)
        ensures
            slice_items(bounds) == self@.copy_bound,
    {
        match &self.copy_bound {
            Some(bounds) => Some(bounds.as_slice()),
            None => None,
        }
    }

    /// The bounds of `Debug`, if a `bound` option was given.
    pub fn debug_bound(&self) -> (bounds: Option<&[syn::WherePredicate]>)
        ensures
            slice_items(bounds) == self@.debug.bounds,
            slice_items(bounds) == <Field as Dispatcher>::bounds(self@, "Debug"@),
    {
        proof {
            lemma_names_differ();
        }
        match &self.debug.bounds {
            Some(bounds) => Some(bounds.as_slice()),
            None => None,
        }
    }

    /// The path to the formatting function, if a `format_with` option was given.
    pub fn debug_format_with(&self) -> (path: Option<&syn::Path>)
        ensures
            match path {
                Some(fragment) => self@.debug.format_with == Some(*fragment),
                None => self@.debug.format_with is None,
            },
    {
        self.debug.format_with.as_ref()
    }

    /// Whether the field is left out of the `Debug` output.
    pub fn ignore_debug(&self) -> (flag: bool)
        ensures
            flag == self@.debug.ignore,
    {
        self.debug.ignore
    }

    /// The bounds of `Default`, if a `bound` option was given.
    pub fn default_bound(&self) -> (bounds: Option<&[syn::WherePredicate]>)
        ensures
            slice_items(bounds) == self@.default.bounds,
            slice_items(bounds) == <Field as Dispatcher>::bounds(self@, "Default"@),
    {
        proof {
            lemma_names_differ();
        }
        match &self.default.bounds {
            Some(bounds) => Some(bounds.as_slice()),
            None => None,
        }
    }

    /// The default value of the field, if a `value` option was given.
    pub fn default_value(&self) -> (value: Option<&syn::Expr>)
        ensures
            match value {
                Some(fragment) => self@.default.value == Some(*fragment),
                None => self@.default.value is None,
            },
    {
        self.default.value.as_ref()
    }

    /// The bounds of `Eq`, if a `bound` option was given.
    pub fn eq_bound(&self) -> (bounds: Option<&[syn::WherePredicate]>)
        ensures
            slice_items(bounds) == self@.eq.bounds,
            slice_items(bounds) == <Field as Dispatcher>::bounds(self@, "Eq"@),
    {
        proof {
            lemma_names_differ();
        }
        match &self.eq.bounds {
            Some(bounds) => Some(bounds.as_slice()),
            None => None,
        }
    }

    /// The bounds of `PartialEq`, if a `bound` option was given.
    pub fn partial_eq_bound(&self) -> (bounds: Option<&[syn::WherePredicate]>)
        ensures
            slice_items(bounds) == self@.partial_eq.bounds,
            slice_items(bounds) == <Field as Dispatcher>::bounds(self@, "PartialEq"@),
    {
        proof {
            lemma_names_differ();
        }
        match &self.partial_eq.bounds {
            Some(bounds) => Some(bounds.as_slice()),
            None => None,
        }
    }

    /// The path to the comparison function, if a `compare_with` option was given.
    pub fn partial_eq_compare_with(&self) -> (path: Option<&syn::Path>)
        ensures
            match path {
                Some(fragment) => self@.partial_eq.compare_with == Some(*fragment),
                None => self@.partial_eq.compare_with is None,
            },
    {
        self.partial_eq.compare_with.as_ref()
    }

    /// Whether the field is left out of the comparison.
    pub fn ignore_partial_eq(&self) -> (flag: bool)
        ensures
            flag == self@.partial_eq.ignore,
    {
        self.partial_eq.ignore
    }
}

} // verus!
