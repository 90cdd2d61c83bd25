//! How a reverse-reachable sample is drawn.

use vstd::prelude::*;

verus! {

/// How influence spreads: independent cascade or linear threshold.
#[derive(Clone, Copy, Debug, PartialEq, Eq, Structural)]
pub enum Model {
    IC,
    LT,
}

/// A request for one sample: under which model, and from which root. Without benefits the root is
/// chosen uniformly.
#[derive(Clone, Copy, Debug, PartialEq, Eq, Structural)]
pub enum SampleRequest {
    IcFrom { root: usize },
    LtFrom { root: usize },
    IcUniform,
    LtUniform,
}

impl SampleRequest {
    /// The model of the request.
    pub open spec fn model(self) -> Model {
        match self {
            SampleRequest::IcFrom { .. } | SampleRequest::IcUniform => Model::IC,
            SampleRequest::LtFrom { .. } | SampleRequest::LtUniform => Model::LT,
        }
    }

    /// The root of the request, or none where it is chosen uniformly.
    pub open spec fn root(self) -> Option<usize> {
        match self {
            SampleRequest::IcFrom { root } | SampleRequest::LtFrom { root } => Some(root),
            SampleRequest::IcUniform | SampleRequest::LtUniform => None,
        }
    }
}

/// The request for a sample under `model`, from the root that was drawn by benefit where benefits
/// are given.
pub fn rr_sample(model: Model, root: Option<usize>) -> (request: SampleRequest)
    ensures
        request.model() == model,
        request.root() == root,
{
    if let Some(root) = root {
        match model {
            Model::IC => SampleRequest::IcFrom { root },
            Model::LT => SampleRequest::LtFrom { root },
        }
    } else {
        match model {
            Model::IC => SampleRequest::IcUniform,
            Model::LT => SampleRequest::LtUniform,
        }
    }
}

} // verus!
