//! The values that an option can carry: a boolean, a list of bounds, a path, an expression.

use vstd::prelude::*;
use crate::grammar::{expr_of, parse_expr, parse_path, parse_where_clause, path_of, where_clause_of};
use crate::text::{invalid_value, join, needs_value, outcome, prefixed, str_eq, text};

verus! {

/// What a boolean option means: `"true"` and `"false"` are themselves, a bare option is
/// `default`, and any other value is refused with a message that names the option.
pub open spec fn boolean_of(item: Option<Seq<char>>, default: bool, name: Seq<char>) -> Result<
    bool,
    Seq<char>,
> {
    match item {
        None => Ok(default),
        Some(value) => if value == "true"@ {
            Ok(true)
        } else if value == "false"@ {
            Ok(false)
        } else {
            Err(invalid_value(name))
        },
    }
}

/// Reads the value of a boolean option called `name`.
pub fn parse_boolean_meta_item(item: &Option<&str>, default: bool, name: &str) -> (parsed: Result<
    bool,
    String,
>)
    ensures
        outcome(parsed) == boolean_of(text(*item), default, name@),
{
    match *item {
        None => Ok(default),
        Some(value) => {
            if str_eq(value, "true") {
                Ok(true)
            } else if str_eq(value, "false") {
                Ok(false)
            } else {
                Err(join("Invalid value for `", name, "`"))
            }
        },
    }
}

/// The elements of an optional vector.
pub open spec fn items<T>(list: Option<Vec<T>>) -> Option<Seq<T>> {
    match list {
        Some(v) => Some(v@),
        None => None,
    }
}

/// The elements of an optional slice.
pub open spec fn slice_items<T>(list: Option<&[T]>) -> Option<Seq<T>> {
    match list {
        Some(v) => Some(v@),
        None => None,
    }
}

/// The bounds gathered so far, none counting as an empty list.
pub open spec fn gathered(bounds: Option<Seq<syn::WherePredicate>>) -> Seq<syn::WherePredicate> {
    match bounds {
        Some(b) => b,
        None => Seq::empty(),
    }
}

/// `bounds` followed by the predicates of a parsed clause, or the parser's message.
pub open spec fn appended(
    bounds: Seq<syn::WherePredicate>,
    parsed: Result<Seq<syn::WherePredicate>, Seq<char>>,
) -> Result<Seq<syn::WherePredicate>, Seq<char>> {
    match parsed {
        Ok(predicates) => Ok(bounds + predicates),
        Err(message) => Err(message),
    }
}

/// What a `bound` option does to the bounds gathered so far. A bare option is refused. An
/// empty value adds nothing. Any other value is parsed as the clause `where <value>`, whose
/// predicates are added at the end.
pub open spec fn bound_of(bounds: Option<Seq<syn::WherePredicate>>, value: Option<Seq<char>>) -> Result<
    Seq<syn::WherePredicate>,
    Seq<char>,
> {
    match value {
        None => Err(needs_value("bound"@)),
        Some(bound) => if bound.len() == 0 {
            Ok(gathered(bounds))
        } else {
            appended(gathered(bounds), where_clause_of("where "@ + bound))
        },
    }
}

/// Whether the value of a `bound` option is one that the grammar takes: it is empty, or
/// `where <value>` parses as a clause.
pub open spec fn bound_parses(value: Seq<char>) -> bool {
    value.len() == 0 || where_clause_of("where "@ + value) is Ok
}

/// The predicates that the value of a `bound` option stands for.
pub open spec fn predicates_of(value: Seq<char>) -> Seq<syn::WherePredicate> {
    if value.len() == 0 {
        Seq::empty()
    } else {
        where_clause_of("where "@ + value)->Ok_0
    }
}

/// The predicates of the values, one value after another.
pub open spec fn concatenated(values: Seq<Seq<char>>) -> Seq<syn::WherePredicate>
    decreases values.len(),
{
    if values.len() == 0 {
        Seq::empty()
    } else {
        concatenated(values.drop_last()) + predicates_of(values.last())
    }
}

/// What an option that names a function means: a bare option is refused, any value is
/// parsed as a path.
pub open spec fn reference_of(value: Option<Seq<char>>, name: Seq<char>) -> Result<
    syn::Path,
    Seq<char>,
> {
    match value {
        None => Err(needs_value(name)),
        Some(source) => path_of(source),
    }
}

/// What an option that holds an expression means: a bare option is refused, any value is
/// parsed as an expression.
pub open spec fn expression_of(value: Option<Seq<char>>, name: Seq<char>) -> Result<
    syn::Expr,
    Seq<char>,
> {
    match value {
        None => Err(needs_value(name)),
        Some(source) => expr_of(source),
    }
}

/// Adds the predicates of a parsed clause to `bounds`, or hands on the parser's message and
/// leaves `bounds` as they were.
pub fn append_parsed(
    bounds: &mut Vec<syn::WherePredicate>,
    parsed: Result<Vec<syn::WherePredicate>, String>,
) -> (done: Result<(), String>)
    ensures
        match parsed {
            Ok(predicates) => done is Ok && final(bounds)@ == old(bounds)@ + predicates@,
            Err(message) => done == Err::<(), String>(message) && final(bounds)@ == old(bounds)@,
        },
{
    match parsed {
        Ok(predicates) => {
            let mut predicates = predicates;
            bounds.append(&mut predicates);
            Ok(())
        },
        Err(message) => Err(message),
    }
}

/// Stores a parsed fragment in `slot`, over whatever was there, or hands on the parser's
/// message and leaves `slot` as it was.
pub fn store_parsed<T>(slot: &mut Option<T>, parsed: Result<T, String>) -> (done: Result<(), String>)
    ensures
        match parsed {
            Ok(fragment) => done is Ok && *final(slot) == Some(fragment),
            Err(message) => done == Err::<(), String>(message) && *final(slot) == *old(slot),
        },
{
    match parsed {
        Ok(fragment) => {
            *slot = Some(fragment);
            Ok(())
        },
        Err(message) => Err(message),
    }
}

/// Reads a `bound` option into the bounds gathered so far. On failure nothing is left in
/// `opt_bounds`.
pub fn parse_bound(opt_bounds: &mut Option<Vec<syn::WherePredicate>>, value: Option<&str>) -> (done:
    Result<(), String>)
    ensures
        match bound_of(items(*old(opt_bounds)), text(value)) {
            Ok(bounds) => done is Ok && items(*final(opt_bounds)) == Some(bounds),
            Err(message) => outcome(done) == Err::<(), Seq<char>>(message) && *final(opt_bounds)
                is None,
        },
{
    let mut bounds = match opt_bounds.take() {
        Some(bounds) => bounds,
        None => Vec::new(),
    };
    let bound = match value {
        Some(bound) => bound,
        None => {
            return Err(prefixed("bound", " needs a value"));
        },
    };
    if !bound.is_empty() {
        let clause = prefixed("where ", bound);
        let parsed = parse_where_clause(clause.as_str());
        match append_parsed(&mut bounds, parsed) {
            Ok(()) => {},
            Err(message) => {
                return Err(message);
            },
        }
    }
    *opt_bounds = Some(bounds);
    Ok(())
}

/// Reads the value of the option `name` as a path and stores it in `slot`. On failure
/// `slot` is left as it was.
pub fn parse_reference(slot: &mut Option<syn::Path>, value: Option<&str>, name: &str) -> (done:
    Result<(), String>)
    ensures
        match reference_of(text(value), name@) {
            Ok(path) => done is Ok && *final(slot) == Some(path),
            Err(message) => outcome(done) == Err::<(), Seq<char>>(message) && *final(slot) == *old(
                slot,
            ),
        },
{
    match value {
        Some(source) => store_parsed(slot, parse_path(source)),
        None => Err(prefixed(name, " needs a value")),
    }
}

/// Reads the value of the option `name` as an expression and stores it in `slot`. On
/// failure `slot` is left as it was.
pub fn parse_expression(slot: &mut Option<syn::Expr>, value: Option<&str>, name: &str) -> (done:
    Result<(), String>)
    ensures
        match expression_of(text(value), name@) {
            Ok(expr) => done is Ok && *final(slot) == Some(expr),
            Err(message) => outcome(done) == Err::<(), Seq<char>>(message) && *final(slot) == *old(
                slot,
            ),
        },
{
    match value {
        Some(source) => store_parsed(slot, parse_expr(source)),
        None => Err(prefixed(name, " needs a value")),
    }
}

} // verus!
