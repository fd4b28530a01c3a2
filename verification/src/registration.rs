//! What was registered globally: a subscriber, a provider, a propagator.

use opentelemetry::global;
use opentelemetry::trace::TracerProvider;
use opentelemetry_sdk::propagation::TraceContextPropagator;
use opentelemetry_sdk::trace::SdkTracerProvider;
use tracing_subscriber::filter::filter_fn;
use tracing_subscriber::layer::SubscriberExt;
use tracing_subscriber::util::SubscriberInitExt;
use tracing_subscriber::{fmt, Layer};
use vstd::prelude::*;

use crate::env_filter::Filter;
use crate::subscriber::{reaches_exporter, Told};
use crate::tracer_provider::Provider;

verus! {

/// The SDK's own provider, where there is one.
pub open spec fn handle_of(provider: Option<&Provider>) -> Option<SdkTracerProvider> {
    match provider {
        Some(provider) => Some(provider.handle()),
        None => None,
    }
}

/// A subscriber that was registered globally, by what it was told and the provider that
/// it hands spans to.
#[derive(Debug)]
pub struct Subscription {
    told: Told,
    over: Option<SdkTracerProvider>,
}

impl Subscription {
    /// What the subscriber was told.
    pub closed spec fn told(self) -> Told {
        self.told
    }

    /// The provider that it hands spans to.
    pub closed spec fn over(self) -> Option<SdkTracerProvider> {
        self.over
    }
}

/// A subscriber whose registration failed, by what it was told and the provider that it
/// would hand spans to: the process has a global subscriber already, or a logger of the
/// `log` crate. In the second case the subscriber
/// is in place all the same.
#[derive(Debug)]
pub struct Refused {
    told: Told,
    over: Option<SdkTracerProvider>,
}

impl Refused {
    /// What the subscriber was told.
    pub closed spec fn told(self) -> Told {
        self.told
    }

    /// The provider that it hands spans to.
    pub closed spec fn over(self) -> Option<SdkTracerProvider> {
        self.over
    }
}

/// `tracing_subscriber::registry` with the filter, a `fmt` layer for each format asked
/// for and, over the provider, a layer of `tracing-opentelemetry` that takes the events
/// [`reaches_exporter`] lets through; and `try_init`.
///
/// Claimed of it: nothing but that a subscription, or its refusal, comes with what it was
/// told and with the provider it is over. It is refused when the process has a global subscriber already, or a logger of
/// the `log` crate.
#[verifier::external_body]
pub(crate) fn init_subscriber(filter: Filter, told: Told, provider: Option<&Provider>) -> (r: Result<
    Subscription,
    Refused,
>)
    requires
        told.directives@ == filter.made_from(),
        told.exports == (provider is Some),
    ensures
        match r {
            Ok(subscription) => {
                &&& subscription.told() == told
                &&& subscription.over() == handle_of(provider)
            },
            Err(refused) => refused.told() == told && refused.over() == handle_of(provider),
        },
{
    let over = provider.map(|provider| provider.sdk().clone());
    let targets = told.targets.clone();
    let exported = provider.map(|provider| {
        tracing_opentelemetry::layer()
            .with_tracer(provider.sdk().tracer(told.scope.clone()))
            .with_filter(filter_fn(move |meta| reaches_exporter(&targets, meta.target())))
    });
    let registry = tracing_subscriber::registry()
        .with(filter.into_handle())
        .with(told.text.map(|_| fmt::layer()))
        .with(told.json.map(|_| fmt::layer().json()));
    match registry.with(exported).try_init() {
        Ok(_) => Ok(Subscription { told, over }),
        Err(_) => Err(Refused { told, over }),
    }
}

/// A provider that was made the global one.
#[derive(Debug)]
pub struct Published {
    provider: SdkTracerProvider,
}

impl Published {
    /// The provider that was made the global one.
    pub closed spec fn provider(self) -> SdkTracerProvider {
        self.provider
    }
}

/// `global::set_tracer_provider`.
///
/// Claimed of it: nothing but that what comes back holds the provider it was given. It is
/// only for the provider that a registered subscriber hands spans to.
#[verifier::external_body]
pub(crate) fn publish(provider: &Provider, subscription: &Subscription) -> (r: Published)
    requires
        subscription.over() == Some(provider.handle()),
    ensures
        r.provider() == provider.handle(),
{
    global::set_tracer_provider(provider.sdk().clone());
    Published { provider: provider.sdk().clone() }
}

/// A propagator of W3C `traceparent` that was registered globally.
#[derive(Debug)]
pub struct Registered {
    propagator: TraceContextPropagator,
}

impl Registered {
    /// The propagator that was registered.
    pub closed spec fn propagator(self) -> TraceContextPropagator {
        self.propagator
    }
}

/// `global::set_text_map_propagator`.
///
/// Claimed of it: nothing but that what comes back holds the propagator it was given.
/// That later calls go through it is left unsaid: any part of the process may register
/// another. It is only for a process whose registered subscriber hands spans to a
/// provider.
#[verifier::external_body]
pub(crate) fn register_propagator(
    propagator: TraceContextPropagator,
    subscription: &Subscription,
) -> (r: Registered)
    requires
        subscription.over() is Some,
    ensures
        r.propagator() == propagator,
{
    global::set_text_map_propagator(propagator.clone());
    Registered { propagator }
}

} // verus!
