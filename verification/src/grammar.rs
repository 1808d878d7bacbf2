//! The grammar of bounds, paths and expressions, which the `syn` crate parses.
//!
//! The fragments that it returns are carried through unread. What it returns for a given
//! string is known to the verifier by name only.

use vstd::prelude::*;

verus! {

/// One predicate of a `where` clause, as `syn` represents it.
#[verifier::external_type_specification]
#[verifier::external_body]
pub struct ExWherePredicate(syn::WherePredicate);

/// A path such as `std::fmt::Debug`, as `syn` represents it.
#[verifier::external_type_specification]
#[verifier::external_body]
pub struct ExPath(syn::Path);

/// An expression, as `syn` represents it.
#[verifier::external_type_specification]
#[verifier::external_body]
pub struct ExExpr(syn::Expr);

/// What `syn::parse_where_clause` returns for `input`: the predicates of the clause, or its
/// message.
pub uninterp spec fn where_clause_of(input: Seq<char>) -> Result<
    Seq<syn::WherePredicate>,
    Seq<char>,
>;

/// What `syn::parse_path` returns for `input`: the path, or its message.
pub uninterp spec fn path_of(input: Seq<char>) -> Result<syn::Path, Seq<char>>;

/// What `syn::parse_expr` returns for `input`: the expression, or its message.
pub uninterp spec fn expr_of(input: Seq<char>) -> Result<syn::Expr, Seq<char>>;

/// Calls `syn::parse_where_clause` and hands out the predicates of the clause it returns.
///
/// Trusted: the parser is a function of the characters of `input` alone, so the result is
/// the one that `where_clause_of` names. Nothing is claimed about which strings parse. The
/// parser descends once for each level of nesting in `input`, on the stack.
#[verifier::external_body]
pub(crate) fn parse_where_clause(input: &str) -> (parsed: Result<Vec<syn::WherePredicate>, String>)
    ensures
        match parsed {
            Ok(predicates) => where_clause_of(input@) == Ok::<
                Seq<syn::WherePredicate>,
                Seq<char>,
            >(predicates@),
            Err(message) => where_clause_of(input@) == Err::<Seq<syn::WherePredicate>, Seq<char>>(
                message@,
            ),
        },
{
    match syn::parse_where_clause(input) {
        Ok(clause) => Ok(clause.predicates),
        Err(message) => Err(message),
    }
}

/// Calls `syn::parse_path`.
///
/// Trusted: the parser is a function of the characters of `input` alone, so the result is
/// the one that `path_of` names. Nothing is claimed about which strings parse. The parser
/// descends once for each level of nesting in `input`, on the stack.
#[verifier::external_body]
pub(crate) fn parse_path(input: &str) -> (parsed: Result<syn::Path, String>)
    ensures
        match parsed {
            Ok(path) => path_of(input@) == Ok::<syn::Path, Seq<char>>(path),
            Err(message) => path_of(input@) == Err::<syn::Path, Seq<char>>(message@),
        },
{
    syn::parse_path(input)
}

/// Calls `syn::parse_expr`.
///
/// Trusted: the parser is a function of the characters of `input` alone, so the result is
/// the one that `expr_of` names. Nothing is claimed about which strings parse. The parser
/// descends once for each level of nesting in `input`, on the stack.
#[verifier::external_body]
pub(crate) fn parse_expr(input: &str) -> (parsed: Result<syn::Expr, String>)
    ensures
        match parsed {
            Ok(expr) => expr_of(input@) == Ok::<syn::Expr, Seq<char>>(expr),
            Err(message) => expr_of(input@) == Err::<syn::Expr, Seq<char>>(message@),
        },
{
    syn::parse_expr(input)
}

} // verus!
