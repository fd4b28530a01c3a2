//! What can go wrong, and what a caller can do about each one.

use vstd::prelude::*;

use crate::text::concat;

verus! {

/// A failure while installing or tearing down telemetry.
///
/// Every variant is recoverable by the caller: a service that cannot export
/// traces is still a service.
#[derive(Debug)]
#[non_exhaustive]
pub enum Error {
    /// The OTLP exporter could not be constructed: a malformed endpoint, a header
    /// value that is not valid ASCII, a TLS backend that failed to start.
    Exporter(String),
    /// A `tracing` subscriber was already installed globally.
    ///
    /// The telemetry that is already running keeps running; this call did nothing.
    SubscriberAlreadySet,
    /// A configured value could not be used as given.
    Config(String),
    /// The exporter did not stop cleanly. Spans still in the batch may not have
    /// arrived.
    Shutdown(String),
}

/// An [`Error`] as a mathematical value.
#[verifier::ext_equal]
pub enum Failure {
    /// See [`Error::Exporter`].
    Exporter(Seq<char>),
    /// See [`Error::SubscriberAlreadySet`].
    SubscriberAlreadySet,
    /// See [`Error::Config`].
    Config(Seq<char>),
    /// See [`Error::Shutdown`].
    Shutdown(Seq<char>),
}

impl View for Error {
    type V = Failure;

    open spec fn view(&self) -> Failure {
        match self {
            Error::Exporter(reason) => Failure::Exporter(reason@),
            Error::SubscriberAlreadySet => Failure::SubscriberAlreadySet,
            Error::Config(reason) => Failure::Config(reason@),
            Error::Shutdown(reason) => Failure::Shutdown(reason@),
        }
    }
}

impl Failure {
    /// The sentence a person reads.
    pub open spec fn message(self) -> Seq<char> {
        match self {
            Failure::Exporter(reason) => "building the OTLP exporter: "@ + reason,
            Failure::SubscriberAlreadySet => "a global tracing subscriber is already installed"@,
            Failure::Config(reason) => reason,
            Failure::Shutdown(reason) => "shutting telemetry down: "@ + reason,
        }
    }
}

impl Error {
    /// The sentence a person reads.
    pub fn to_string(&self) -> (r: String)
        ensures
            r@ == self@.message(),
    {
        match self {
            Error::Exporter(reason) => concat("building the OTLP exporter: ", reason.as_str()),
            Error::SubscriberAlreadySet => {
                "a global tracing subscriber is already installed".to_owned()
            },
            Error::Config(reason) => reason.as_str().to_owned(),
            Error::Shutdown(reason) => concat("shutting telemetry down: ", reason.as_str()),
        }
    }
}

/// Each failure is told in its own words, with the reason that came with it.
pub proof fn law_a_message_holds_the_reason(reason: Seq<char>)
    ensures
        Failure::Exporter(reason).message() == "building the OTLP exporter: "@ + reason,
        Failure::Shutdown(reason).message() == "shutting telemetry down: "@ + reason,
        Failure::Config(reason).message() == reason,
        Failure::SubscriberAlreadySet.message()
            == "a global tracing subscriber is already installed"@,
{
}

} // verus!
