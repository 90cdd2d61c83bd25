//! Checks on the node data.

use vstd::prelude::*;

verus! {

/// A list of node data that has another length than the graph has nodes.
#[derive(Clone, Copy, Debug, PartialEq, Eq, Structural)]
pub enum InputError {
    Costs { found: usize, expected: usize },
    Benefits { found: usize, expected: usize },
}

/// Checks that each list that is given has one entry per node, the costs first.
pub fn check_lengths(
    n_costs: Option<usize>,
    n_benefits: Option<usize>,
    n_nodes: usize,
) -> (checked: Result<(), InputError>)
    ensures
        checked == (match (n_costs, n_benefits) {
            (Some(found), _) if found != n_nodes => Err(
                InputError::Costs { found, expected: n_nodes },
            ),
            (_, Some(found)) if found != n_nodes => Err(
                InputError::Benefits { found, expected: n_nodes },
            ),
            _ => Ok(()),
        }),
{
    if let Some(found) = n_costs {
        if found != n_nodes {
            return Err(InputError::Costs { found, expected: n_nodes });
        }
    }
    if let Some(found) = n_benefits {
        if found != n_nodes {
            return Err(InputError::Benefits { found, expected: n_nodes });
        }
    }
    Ok(())
}

} // verus!
