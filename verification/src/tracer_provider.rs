//! The SDK's exporter and tracer provider, each with what it was built from, and what a
//! provider answers.

use opentelemetry::KeyValue;
use opentelemetry_otlp::{Protocol, SpanExporter, WithExportConfig, WithHttpConfig};
use opentelemetry_sdk::trace::SdkTracerProvider;
use opentelemetry_sdk::Resource;
use vstd::prelude::*;

use crate::config::Settings;
use crate::export_plan::{ExportPlan, Transport};
use crate::exporter::{attribute_list, attribute_map, went_wrong};
use crate::parent_based::ParentBased;
use crate::string_map::pair_texts;

verus! {

/// A tracer provider of the OpenTelemetry SDK.
#[verifier::external_type_specification]
#[verifier::external_body]
pub struct ExSdkTracerProvider(opentelemetry_sdk::trace::SdkTracerProvider);

/// The attributes of the entity that spans come from.
#[verifier::external_type_specification]
#[verifier::external_body]
pub struct ExResource(opentelemetry_sdk::Resource);

/// What sends spans to a collector.
#[verifier::external_type_specification]
#[verifier::external_body]
pub struct ExSpanExporter(opentelemetry_otlp::SpanExporter);

/// The attributes that a resource holds, each value by its text.
pub uninterp spec fn resource_entries(resource: Resource) -> Map<Seq<char>, Seq<char>>;

/// The entity that spans come from: the SDK's resource, and what it was told.
#[derive(Debug)]
pub struct Entity {
    service_name: String,
    attributes: Vec<(String, String)>,
    handle: Resource,
}

impl Entity {
    /// The service name it was told.
    pub closed spec fn service_name(self) -> Seq<char> {
        self.service_name@
    }

    /// The attributes it was told, in the order they are applied.
    pub closed spec fn attributes(self) -> Seq<(Seq<char>, Seq<char>)> {
        pair_texts(self.attributes@)
    }

    /// The SDK's own resource.
    pub closed spec fn handle(self) -> Resource {
        self.handle
    }

    /// The SDK's own resource.
    pub fn sdk(&self) -> (r: &Resource)
        ensures
            *r == self.handle(),
    {
        &self.handle
    }

    /// Whether this is the entity that the settings describe.
    pub open spec fn is_for(self, settings: Settings) -> bool {
        &&& self.service_name() == settings.service_name
        &&& self.attributes() == attribute_list(settings)
        &&& attribute_map(settings.service_name, attribute_list(settings)).submap_of(
            resource_entries(self.handle()),
        )
    }
}

/// `Resource::builder`, its `with_service_name` and `with_attributes`, and `build`.
///
/// Claimed of them: the resource comes with the name and the pairs it was told, holds the
/// service name under `service.name` and then every pair, the later of two pairs with one key over the earlier. What
/// else it holds comes from the SDK's detectors, which read the process
/// environment, and is left unsaid.
#[verifier::external_body]
pub(crate) fn build_resource(service_name: String, attributes: Vec<(String, String)>) -> (r: Entity)
    ensures
        r.service_name() == service_name@,
        r.attributes() == pair_texts(attributes@),
        attribute_map(service_name@, pair_texts(attributes@)).submap_of(
            resource_entries(r.handle()),
        ),
{
    let pairs = attributes.iter().map(|(key, value)| KeyValue::new(key.clone(), value.clone()));
    let handle = Resource::builder()
        .with_service_name(service_name.clone())
        .with_attributes(pairs)
        .build();
    Entity { service_name, attributes, handle }
}

/// An exporter, and the plan it was built from.
#[derive(Debug)]
pub struct Exporter {
    plan: ExportPlan,
    handle: SpanExporter,
}

impl Exporter {
    /// The plan this exporter was built from.
    pub closed spec fn plan(self) -> ExportPlan {
        self.plan
    }
}

/// An exporter that was not built: the plan for it, and why.
#[derive(Debug)]
pub struct Unbuilt {
    plan: ExportPlan,
    reason: String,
}

impl Unbuilt {
    /// The plan that no exporter was built from.
    pub closed spec fn plan(self) -> ExportPlan {
        self.plan
    }

    /// Why.
    pub closed spec fn why(self) -> Seq<char> {
        self.reason@
    }

    /// Why.
    pub fn reason(&self) -> (r: &str)
        ensures
            r@ == self.why(),
    {
        self.reason.as_str()
    }
}

/// A provider that exports spans, the plan of its exporter, the sampler that decides
/// which are recorded and the resource they come from.
#[derive(Debug)]
pub struct Provider {
    plan: ExportPlan,
    sampler: ParentBased,
    resource: Entity,
    handle: SdkTracerProvider,
}

impl Provider {
    /// The plan of the exporter.
    pub closed spec fn plan(self) -> ExportPlan {
        self.plan
    }

    /// The sampler that decides which spans are recorded.
    pub closed spec fn sampler(self) -> ParentBased {
        self.sampler
    }

    /// The resource the spans come from.
    pub closed spec fn resource(self) -> Entity {
        self.resource
    }

    /// The SDK's own provider.
    pub closed spec fn handle(self) -> SdkTracerProvider {
        self.handle
    }

    /// The SDK's own provider.
    pub fn sdk(&self) -> (r: &SdkTracerProvider)
        ensures
            *r == self.handle(),
    {
        &self.handle
    }

    /// Whether this is the provider for a configuration that exports.
    pub open spec fn is_for(self, settings: Settings) -> bool {
        &&& self.plan().is_for(settings)
        &&& self.resource().is_for(settings)
    }
}

/// `SpanExporter::builder` with its `with_http`, told the plan, and `Display` of its
/// error.
///
/// Claimed of it: nothing but that the exporter, or the report that there is none, comes
/// with the plan it was told. Whether it can be built also rests on the process
/// environment and on the TLS backend. It is built and not connected. Left unsaid is what
/// it does with the plan: it leaves out a header that HTTP does not allow, and puts the
/// headers that `OTEL_EXPORTER_OTLP_TRACES_HEADERS`, else `OTEL_EXPORTER_OTLP_HEADERS`,
/// spells in the process environment, percent-decoded, over those of the plan.
#[verifier::external_body]
pub(crate) fn build_exporter(plan: ExportPlan) -> (r: Result<Exporter, Unbuilt>)
    ensures
        match r {
            Ok(exporter) => exporter.plan() == plan,
            Err(unbuilt) => unbuilt.plan() == plan,
        },
{
    let protocol = match plan.transport() {
        Transport::HttpProtobuf => Protocol::HttpBinary,
    };
    let built = SpanExporter::builder()
        .with_http()
        .with_protocol(protocol)
        .with_endpoint(plan.endpoint().to_owned())
        .with_timeout(std::time::Duration::new(plan.timeout_secs(), plan.timeout_nanos()))
        .with_headers(plan.headers().iter().cloned().collect())
        .build();
    match built {
        Ok(handle) => Ok(Exporter { plan, handle }),
        Err(e) => Err(Unbuilt { plan, reason: e.to_string() }),
    }
}

/// `SdkTracerProvider::builder` with a batch processor over the exporter.
///
/// Claimed of it: nothing but that the provider comes with the plan of the exporter
/// and with the sampler and the resource it was given. It starts the thread that sends
/// the batches.
#[verifier::external_body]
pub(crate) fn build_provider(exporter: Exporter, sampler: ParentBased, resource: Entity) -> (r: Provider)
    ensures
        r.plan() == exporter.plan(),
        r.sampler() == sampler,
        r.resource() == resource,
{
    let handle = SdkTracerProvider::builder()
        .with_batch_exporter(exporter.handle)
        .with_sampler(sampler.sdk().clone())
        .with_resource(resource.handle.clone())
        .build();
    Provider { plan: exporter.plan, sampler, resource, handle }
}

/// A provider that was flushed, and what it answered.
#[derive(Debug)]
pub struct Flushed {
    provider: SdkTracerProvider,
    outcome: Result<(), String>,
}

impl Flushed {
    /// The provider that was flushed.
    pub closed spec fn of(self) -> SdkTracerProvider {
        self.provider
    }

    /// What it answered: what went wrong, if anything did.
    pub closed spec fn answer(self) -> Option<Seq<char>> {
        went_wrong(self.outcome)
    }

    /// What it answered.
    pub fn outcome(&self) -> (r: &Result<(), String>)
        ensures
            went_wrong(*r) == self.answer(),
    {
        &self.outcome
    }
}

/// A provider that was stopped, and what it answered.
#[derive(Debug)]
pub struct Stopped {
    provider: SdkTracerProvider,
    outcome: Result<(), String>,
}

impl Stopped {
    /// The provider that was stopped.
    pub closed spec fn of(self) -> SdkTracerProvider {
        self.provider
    }

    /// What it answered: what went wrong, if anything did.
    pub closed spec fn answer(self) -> Option<Seq<char>> {
        went_wrong(self.outcome)
    }

    /// What it answered.
    pub fn outcome(&self) -> (r: &Result<(), String>)
        ensures
            went_wrong(*r) == self.answer(),
    {
        &self.outcome
    }
}

/// `SdkTracerProvider::force_flush`, and `Display` of its error.
///
/// Claimed of it: nothing but that the answer comes with the provider that was asked. It
/// waits for the collector.
#[verifier::external_body]
pub(crate) fn flush_provider(provider: &Provider) -> (r: Flushed)
    ensures
        r.of() == provider.handle(),
{
    let outcome = provider.handle.force_flush().map_err(|e| e.to_string());
    Flushed { provider: provider.handle.clone(), outcome }
}

/// `SdkTracerProvider::shutdown`, and `Display` of its error.
///
/// Claimed of it: nothing but that the answer comes with the provider that was asked. It
/// waits for the collector.
#[verifier::external_body]
pub(crate) fn stop_provider(provider: &Provider) -> (r: Stopped)
    ensures
        r.of() == provider.handle(),
{
    let outcome = provider.handle.shutdown().map_err(|e| e.to_string());
    Stopped { provider: provider.handle.clone(), outcome }
}

} // verus!
