//! The work of the first auxiliary chain.

use vstd::prelude::*;
use vstd::string::StringExecFns;

verus! {

/// The result of the chain's computation on an input: a fixed label and the
/// input.
pub fn specific_algorithm(input: &str) -> (result: String)
    ensures
        result@ == "Result of computation for input: "@ + input@,
{
    let mut result = "Result of computation for input: ".to_owned();
    result.append(input);
    result
}

} // verus!
