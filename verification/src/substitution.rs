//! One pass of substitution, done by the `svi` crate.
use vstd::prelude::*;

use crate::reference::{refusal, rendered, replacements};
use crate::string_map::{distinct_keys, entries_map, StringMap};
use crate::text::pair_views;

verus! {

/// What one pass yields: the text and the replaced values with their names, or
/// the cause of its failure.
pub type Pass = Result<(String, Vec<(String, String)>), String>;

/// The view of a [`Pass`].
pub type PassView = Result<(Seq<char>, Set<(Seq<char>, Seq<char>)>), Seq<char>>;

/// The view of a pass.
pub open spec fn pass_view(pass: Pass) -> PassView {
    match pass {
        Ok((text, pairs)) => Ok((text@, pair_views(pairs@).to_set())),
        Err(cause) => Err(cause@),
    }
}

/// What a pass over `input` with `values` yields.
pub open spec fn pass_over(input: Seq<char>, values: Map<Seq<char>, Seq<char>>) -> PassView {
    match refusal(input) {
        Some(cause) => Err(cause),
        None => Ok((rendered(input, values), replacements(input, values))),
    }
}

/// Calls `svi::interpolate_variables` with double brackets, leaving a reference
/// without a value as it is.
///
/// Claimed of it: it fails on the first segment that is empty, begins with a
/// character outside ASCII, or is neither escaped nor closed, and its error
/// says so; otherwise every reference that has a value is replaced by it, and
/// the values that were put in are reported with their names. Nothing is claimed
/// of the order of the report, which varies from call to call.
#[verifier::external_body]
fn svi_interpolate(input: &str, variables: &Vec<(String, String)>) -> (r: Pass)
    requires
        distinct_keys(variables@),
    ensures
        pass_view(r) == pass_over(input@, entries_map(variables@)),
{
    let variables = variables.iter().cloned().collect();
    match svi::interpolate_variables(input, &variables, svi::Interpolator::DoubleBrackets, false) {
        Ok(done) => Ok(done),
        Err(error) => Err(error.to_string()),
    }
}

/// Puts the values of `variables` into `input`, in one pass.
pub fn interpolate_variables(input: &str, variables: &StringMap) -> (r: Pass)
    ensures
        pass_view(r) == pass_over(input@, variables@),
{
    svi_interpolate(input, variables.entries())
}

} // verus!
