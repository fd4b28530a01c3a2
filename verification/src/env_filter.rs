//! Filters of `tracing-subscriber`, each with the directives it was made from.

use tracing_subscriber::EnvFilter;
use vstd::prelude::*;

use crate::directive::sliceable;

verus! {

/// A filter of `tracing-subscriber`.
#[verifier::external_type_specification]
#[verifier::external_body]
pub struct ExEnvFilter(tracing_subscriber::EnvFilter);

/// What is wrong with the directives, if they are no filter.
pub uninterp spec fn refusal(directives: Seq<char>) -> Option<Seq<char>>;

/// A filter, and the directives it was made from.
#[derive(Debug)]
pub struct Filter {
    directives: String,
    strict: bool,
    handle: EnvFilter,
}

impl Filter {
    /// The directives the filter was made from.
    pub closed spec fn made_from(self) -> Seq<char> {
        self.directives@
    }

    /// Whether each of the directives had to be one.
    pub closed spec fn is_strict(self) -> bool {
        self.strict
    }

    /// The filter itself.
    pub closed spec fn handle(self) -> EnvFilter {
        self.handle
    }

    /// The directives the filter was made from.
    pub fn directives(&self) -> (r: &str)
        ensures
            r@ == self.made_from(),
    {
        self.directives.as_str()
    }

    /// The filter itself.
    pub(crate) fn into_handle(self) -> (r: EnvFilter)
        ensures
            r == self.handle(),
    {
        self.handle
    }
}

/// `EnvFilter::try_new`, and `Display` of the error.
///
/// Claimed of it: whether the directives are a filter, and what is wrong with them
/// where they are none, depends on the directives alone. The filter comes with the
/// directives it was made from. It walks a trimmed directive and slices the untrimmed one
/// at the places it finds, which panics inside a character: directives on which that can
/// happen are not handed to it.
#[verifier::external_body]
pub(crate) fn try_filter(directives: &str) -> (r: Result<Filter, String>)
    requires
        sliceable(directives@),
    ensures
        match r {
            Ok(filter) => {
                &&& refusal(directives@) is None
                &&& filter.made_from() == directives@
                &&& filter.is_strict()
            },
            Err(reason) => refusal(directives@) == Some(reason@),
        },
{
    match EnvFilter::try_new(directives) {
        Ok(handle) => Ok(Filter { directives: directives.to_owned(), strict: true, handle }),
        Err(e) => Err(e.to_string()),
    }
}

/// `EnvFilter::new`, which leaves out what is no directive.
///
/// Claimed of it: nothing but that the filter comes with the directives it was made
/// from. It slices as `EnvFilter::try_new` does.
#[verifier::external_body]
pub(crate) fn lossy_filter(directives: &str) -> (r: Filter)
    requires
        sliceable(directives@),
    ensures
        r.made_from() == directives@,
        !r.is_strict(),
{
    let handle = EnvFilter::new(directives);
    Filter { directives: directives.to_owned(), strict: false, handle }
}

} // verus!
