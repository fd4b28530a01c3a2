//! Samplers that follow the parent of a span.

use opentelemetry_sdk::trace::Sampler;
use vstd::prelude::*;

use crate::config::Sampling;

verus! {

/// A sampler of the OpenTelemetry SDK.
#[verifier::external_type_specification]
#[verifier::external_body]
pub struct ExSampler(opentelemetry_sdk::trace::Sampler);

/// The SDK's sampler that decides as the parent of a span did and, where there is no
/// parent, by the one given, or always to record where none is given.
pub uninterp spec fn following(root: Option<Sampler>) -> Sampler;

/// A sampler that decides as the parent of a span did, and by a sampling where there is
/// no parent. That keeps one trace whole: a service that decided to record a request is
/// not contradicted by the next one it calls.
#[derive(Debug)]
pub struct ParentBased {
    sampling: Sampling,
    ratio: Option<Sampler>,
    handle: Sampler,
}

impl ParentBased {
    /// What decides where there is no parent.
    pub closed spec fn sampling(self) -> Sampling {
        self.sampling
    }

    /// The SDK's sampler for the ratio, when a ratio decides.
    pub closed spec fn ratio(self) -> Option<Sampler> {
        self.ratio
    }

    /// The SDK's own sampler.
    pub closed spec fn handle(self) -> Sampler {
        self.handle
    }

    /// The SDK's own sampler.
    pub fn sdk(&self) -> (r: &Sampler)
        ensures
            *r == self.handle(),
    {
        &self.handle
    }
}

/// `Sampler::ParentBased` over `Sampler::AlwaysOn`.
///
/// Claimed of it: it is the sampler that follows the parent and otherwise records, and
/// comes with the sampling it was made for.
#[verifier::external_body]
pub(crate) fn parent_based_always_on() -> (r: ParentBased)
    ensures
        r.sampling() == Sampling::AlwaysOn,
        r.ratio() is None,
        r.handle() == following(None),
{
    ParentBased {
        sampling: Sampling::AlwaysOn,
        ratio: None,
        handle: Sampler::ParentBased(Box::new(Sampler::AlwaysOn)),
    }
}

/// `Sampler::ParentBased` over the SDK's sampler for a ratio.
///
/// Claimed of it: it is the sampler that follows the parent and otherwise asks the one
/// given, and comes with the ratio it was made for.
#[verifier::external_body]
pub(crate) fn parent_based_ratio(bits: u64, ratio: Sampler) -> (r: ParentBased)
    ensures
        r.sampling() == Sampling::Ratio(bits),
        r.ratio() == Some(ratio),
        r.handle() == following(Some(ratio)),
{
    let handle = Sampler::ParentBased(Box::new(ratio.clone()));
    ParentBased { sampling: Sampling::Ratio(bits), ratio: Some(ratio), handle }
}

} // verus!
