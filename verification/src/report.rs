//! The seeds as text.

use crate::names::decimal;
use crate::nodes::{ascending, lists};
use std::collections::BTreeSet;
use vstd::prelude::*;

verus! {

/// The error type of `serde_json`.
#[verifier::external_type_specification]
#[verifier::external_body]
pub struct ExJsonError(serde_json::Error);

/// The numbers in decimal, with commas between them.
pub open spec fn comma_separated(list: Seq<usize>) -> Seq<char>
    decreases list.len(),
{
    if list.len() == 0 {
        Seq::empty()
    } else if list.len() == 1 {
        decimal(list[0] as nat)
    } else {
        comma_separated(list.drop_last()) + seq![','] + decimal(list.last() as nat)
    }
}

/// The JSON text of a list of numbers.
pub open spec fn json_array(list: Seq<usize>) -> Seq<char> {
    seq!['['] + comma_separated(list) + seq![']']
}

/// Calls `serde_json::to_string`, which writes a list of numbers as a JSON array without blanks:
/// brackets around the numbers in decimal, with commas between them. It writes to memory and
/// does not fail on such a list.
#[verifier::external_body]
fn to_json(list: &Vec<usize>) -> (text: Result<String, serde_json::Error>)
    ensures
        text is Ok,
        text->Ok_0@ == json_array(list@),
{
    serde_json::to_string(list)
}

/// The JSON array of the seeds in increasing order.
pub fn seeds_json(seeds: &BTreeSet<usize>) -> (text: String)
    ensures
        exists|order: Seq<usize>| #[trigger]
            lists(order, seeds@) && text@ == json_array(order),
{
    let order = ascending(seeds);
    to_json(&order).unwrap()
}

} // verus!
