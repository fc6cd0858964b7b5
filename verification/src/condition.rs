//! `showIf` conditions of VIA menu controls, evaluated by `evalexpr`.
//!
//! Conditions are evaluated with `evalexpr`'s builtin functions disabled, because some of
//! them panic on some arguments (`str::substring` off a character boundary, `math::abs`,
//! `shl` and `shr` on overflow): a condition that calls a function fails to evaluate, and
//! the control it belongs to then does not hold. Without functions, building and evaluating
//! an expression returns an error rather than panicking. (Both recurse once per level of
//! nesting, so only the stack, like memory, bounds how deeply a condition can nest.)

use vstd::prelude::*;
use evalexpr::{Context, ContextWithMutableVariables, DefaultNumericTypes, HashMapContext, Value};

verus! {

/// Whether `evalexpr` accepts `expression` as an expression (`evalexpr::build_operator_tree`
/// returns `Ok`).
pub uninterp spec fn expression_parses(expression: Seq<char>) -> bool;

/// What `evalexpr` makes of `expression` as a boolean, with the variable `identifier` bound
/// to the integer `value` and builtin functions disabled: `Some(b)` where it evaluates to
/// the boolean `b`, `None` where evaluation fails or gives no boolean. (Without the crate's
/// `rand` feature, which this crate does not enable, evaluation depends on nothing else.)
pub uninterp spec fn expression_truth(expression: Seq<char>, identifier: Seq<char>, value: i32) -> Option<bool>;

/// Calls `evalexpr::build_operator_tree` on `expression` and reports whether it succeeded.
/// Claimed: the answer is `expression_parses` of the text, a function of the text alone.
#[verifier::external_body]
pub fn expression_is_valid(expression: &str) -> (valid: bool)
    ensures
        valid == expression_parses(expression@),
{
    evalexpr::build_operator_tree::<DefaultNumericTypes>(expression).is_ok()
}

/// Builds an `evalexpr::HashMapContext` with builtin functions disabled and `identifier`
/// bound to `Value::Int(value)`, and calls `evalexpr::eval_boolean_with_context` on
/// `expression` in it (which builds the operator tree of `expression` and evaluates it).
/// Claimed: the outcome, `Ok(b)` as `Some(b)` and any error as `None`, is
/// `expression_truth` of the three arguments. With builtin functions disabled, no builtin
/// runs.
#[verifier::external_body]
pub fn evaluate_with_variable(expression: &str, identifier: &str, value: i32) -> (truth: Option<bool>)
    ensures
        truth == expression_truth(expression@, identifier@, value),
{
    let mut context = HashMapContext::<DefaultNumericTypes>::new();
    if context.set_builtin_functions_disabled(true).is_err() {
        return None;
    }
    if context.set_value(identifier.to_string(), Value::Int(value.into())).is_err() {
        return None;
    }
    evalexpr::eval_boolean_with_context(expression, &context).ok()
}

} // verus!
