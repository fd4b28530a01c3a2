use cartografo_telemetry::export_plan::{plan, Transport};
use cartografo_telemetry::exporter::{
    assemble, attributes, effective_sampling, provider, resource, sampler, shutdown_outcome,
    unsendable,
};
use cartografo_telemetry::{Config, Error, Sampling, MAX_TIMEOUT};
use opentelemetry::Key;
use opentelemetry_sdk::trace::Sampler;

fn make_ratio(bits: u64) -> Sampler {
    Sampler::TraceIdRatioBased(f64::from_bits(bits))
}

fn ratio(value: f64) -> Sampling {
    Sampling::Ratio(value.to_bits())
}

#[test]
fn no_endpoint_is_no_provider_and_no_error() {
    let provider =
        provider(&Config::new("svc"), make_ratio).expect("no endpoint is not a failure");
    assert!(provider.is_none());
}

#[test]
fn an_endpoint_builds_a_provider() {
    let mut config = Config::new("svc");
    config.endpoint = Some("https://otel.example/v1/traces".to_owned());
    let provider = provider(&config, make_ratio).expect("builds");
    assert!(provider.is_some());
    if let Some(provider) = provider {
        let _ = provider.sdk().shutdown();
    }
}

/// The exporter is built, not connected: a wrong host is discovered on the
/// first export and must not stop a service from starting.
#[test]
fn an_unreachable_endpoint_still_builds() {
    let mut config = Config::new("svc");
    config.endpoint = Some("https://127.0.0.1:1/v1/traces".to_owned());
    let provider = provider(&config, make_ratio).expect("builds");
    assert!(provider.is_some());
    if let Some(provider) = provider {
        let _ = provider.sdk().shutdown();
    }
}

#[test]
fn a_malformed_endpoint_is_an_exporter_error() {
    let mut config = Config::new("svc");
    config.endpoint = Some("not a url".to_owned());
    let failed = provider(&config, make_ratio).expect_err("is an error");
    let why = failed.unbuilt.expect("the exporter was not built");
    let err = failed.error;
    assert!(matches!(err, Error::Exporter(_)));
    assert!(err.to_string().ends_with(why.reason()));
    assert!(err.to_string().starts_with("building the OTLP exporter: "));
}

#[test]
fn a_header_value_that_is_not_ascii_is_an_exporter_error() {
    let mut config = Config::new("svc");
    config.headers.insert("x-ok".to_owned(), "~ \u{7f}".to_owned());
    config.headers.insert("x-bad".to_owned(), "caf\u{e9}".to_owned());
    assert!(provider(&config, make_ratio).expect("nothing to send").is_none());
    config.endpoint = Some("https://otel.example/v1/traces".to_owned());
    let failed = provider(&config, make_ratio).expect_err("is an error");
    assert!(failed.unbuilt.is_none());
    assert_eq!(
        failed.error.to_string(),
        "building the OTLP exporter: the value of header \"x-bad\" is not ASCII"
    );
    config.headers.insert("x-bad".to_owned(), "cafe".to_owned());
    let told = plan(&config).expect("a plan");
    assert_eq!(unsendable(&told), None);
}

#[test]
fn the_reason_an_exporter_was_not_built_is_handed_on() {
    let err = assemble(Err("why".to_owned()), &Config::new("svc"), make_ratio)
        .expect_err("is an error");
    assert_eq!(err.to_string(), "building the OTLP exporter: why");
}

#[test]
fn a_ratio_is_clamped() {
    assert_eq!(effective_sampling(Sampling::AlwaysOn), Sampling::AlwaysOn);
    assert_eq!(effective_sampling(ratio(0.25)), ratio(0.25));
    assert_eq!(effective_sampling(ratio(1.0)), ratio(1.0));
    assert_eq!(effective_sampling(ratio(0.0)), ratio(0.0));
    assert_eq!(effective_sampling(ratio(-0.5)), ratio(0.0));
    assert_eq!(effective_sampling(ratio(1.5)), ratio(1.0));
    assert_eq!(effective_sampling(ratio(f64::INFINITY)), ratio(1.0));
    assert_eq!(effective_sampling(ratio(f64::NEG_INFINITY)), ratio(0.0));
}

#[test]
fn clamping_is_what_floating_point_does() {
    let values = [
        -0.0,
        0.0,
        f64::MIN_POSITIVE,
        5e-324,
        -5e-324,
        0.999_999_999_999_999_9,
        1.000_000_000_000_000_2,
        f64::MAX,
        f64::MIN,
        f64::NAN,
        -f64::NAN,
    ];
    for value in values {
        let expected = value.clamp(0.0, 1.0).to_bits();
        let found = effective_sampling(ratio(value));
        assert!(matches!(found, Sampling::Ratio(bits) if bits == expected), "{value:?}");
    }
}

#[test]
fn ratios_are_compared_as_numbers() {
    assert_eq!(ratio(0.0), ratio(-0.0));
    assert_eq!(ratio(0.5), ratio(0.5));
    assert_ne!(ratio(f64::NAN), ratio(f64::NAN));
    assert_ne!(ratio(0.5), ratio(-0.5));
    assert_eq!(ratio(f64::INFINITY), ratio(f64::INFINITY));
    assert_ne!(ratio(1.0), Sampling::AlwaysOn);
}

#[test]
fn both_samplings_follow_the_parent() {
    let always = format!("{:?}", sampler(Sampling::AlwaysOn, make_ratio));
    assert!(always.contains("handle: ParentBased(AlwaysOn)"), "{always}");
    let half = format!("{:?}", sampler(ratio(0.5), make_ratio));
    assert!(half.contains("handle: ParentBased(TraceIdRatioBased(0.5))"), "{half}");
    let none = format!("{:?}", sampler(ratio(-3.0), make_ratio));
    assert!(none.contains("handle: ParentBased(TraceIdRatioBased(0.0))"), "{none}");
}

#[test]
fn a_resource_holds_the_name_and_every_attribute() {
    let mut config = Config::new("svc");
    config.service_version = Some("1.2.3".to_owned());
    config.environment = Some("test".to_owned());
    config.resource_attributes.push(("team".to_owned(), "first".to_owned()));
    config.resource_attributes.push(("team".to_owned(), "maps".to_owned()));
    assert_eq!(
        attributes(&config),
        vec![
            ("service.version".to_owned(), "1.2.3".to_owned()),
            ("deployment.environment.name".to_owned(), "test".to_owned()),
            ("team".to_owned(), "first".to_owned()),
            ("team".to_owned(), "maps".to_owned()),
        ]
    );
    let resource = resource(&config);
    let text = |key: &'static str| resource.sdk().get(&Key::new(key)).map(|value| value.to_string());
    assert_eq!(text("service.name").as_deref(), Some("svc"));
    assert_eq!(text("service.version").as_deref(), Some("1.2.3"));
    assert_eq!(text("deployment.environment.name").as_deref(), Some("test"));
    assert_eq!(text("team").as_deref(), Some("maps"));
}

#[test]
fn an_attribute_may_override_the_service_name() {
    let mut config = Config::new("svc");
    config.resource_attributes.push(("service.name".to_owned(), "other".to_owned()));
    let found = resource(&config).sdk().get(&Key::new("service.name")).map(|value| value.to_string());
    assert_eq!(found.as_deref(), Some("other"));
}

#[test]
fn a_plan_is_what_the_exporter_is_told() {
    assert!(plan(&Config::new("svc")).is_none());
    let mut config = Config::new("svc");
    config.endpoint = Some("https://otel.example/v1/traces".to_owned());
    config.timeout = 2_500_000_001;
    config.headers.insert("a".to_owned(), "1".to_owned());
    let told = plan(&config).expect("a plan");
    assert!(matches!(told.transport(), Transport::HttpProtobuf));
    assert_eq!(told.endpoint(), "https://otel.example/v1/traces");
    assert_eq!((told.timeout_secs(), told.timeout_nanos()), (2, 500_000_001));
    assert_eq!(*told.headers(), vec![("a".to_owned(), "1".to_owned())]);
    config.timeout = MAX_TIMEOUT;
    let told = plan(&config).expect("a plan");
    assert_eq!((told.timeout_secs(), told.timeout_nanos()), (u64::MAX, 999_999_999));
    assert_eq!(MAX_TIMEOUT, std::time::Duration::MAX.as_nanos());
}

#[test]
fn an_outcome_is_reported_as_it_was() {
    assert!(shutdown_outcome(&Ok(())).is_ok());
    let err = shutdown_outcome(&Err("why".to_owned())).expect_err("is an error");
    assert!(matches!(err, Error::Shutdown(_)));
    assert_eq!(err.to_string(), "shutting telemetry down: why");
}
