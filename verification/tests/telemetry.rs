//! Building, configuring and installing telemetry. A process has one global subscriber:
//! a test that installs one needs a process of its own.

use cartografo_telemetry::directive::can_be_sliced;
use cartografo_telemetry::environment::directives;
use cartografo_telemetry::exporter::resource;
use cartografo_telemetry::subscriber::{
    complain_of_filter, filter_for, log_layers, reaches_exporter, subscribe,
};
use cartografo_telemetry::telemetry::{finish, last_words, recover, NotInstalled};
use cartografo_telemetry::{
    Config, Environment, Error, LogFormat, Sampling, Telemetry, DEFAULT_TIMEOUT,
};
use opentelemetry::Key;
use opentelemetry_sdk::trace::Sampler;

fn make_ratio(bits: u64) -> Sampler {
    Sampler::TraceIdRatioBased(f64::from_bits(bits))
}

fn environment(vars: &[(&str, &str)]) -> Environment {
    let mut env = Environment::empty();
    for (name, value) in vars {
        env.vars.insert((*name).to_owned(), (*value).to_owned());
    }
    env
}

#[test]
fn a_builder_without_an_endpoint_exports_nothing() {
    let config = Telemetry::builder("svc")
        .without_env()
        .config(&Environment::empty())
        .expect("configures");
    assert!(!config.is_exporting());
}

#[test]
fn an_endpoint_gets_the_signal_path() {
    let config = Telemetry::builder("svc")
        .without_env()
        .endpoint("https://otel.example")
        .config(&Environment::empty())
        .expect("configures");
    assert_eq!(
        config.endpoint.as_deref(),
        Some("https://otel.example/v1/traces")
    );
}

#[test]
fn cloudflare_access_is_the_two_headers() {
    let config = Telemetry::builder("svc")
        .without_env()
        .cloudflare_access("id.access", "secret")
        .config(&Environment::empty())
        .expect("configures");
    assert_eq!(
        config
            .headers
            .get("CF-Access-Client-Id")
            .map(String::as_str),
        Some("id.access")
    );
    assert_eq!(
        config
            .headers
            .get("CF-Access-Client-Secret")
            .map(String::as_str),
        Some("secret")
    );
}

#[test]
fn a_disabled_installation_shuts_down_without_complaint() {
    let telemetry = Telemetry::disabled();
    assert!(!telemetry.is_exporting());
    assert!(telemetry.force_flush().0.is_ok());
    telemetry.try_shutdown().0.expect("nothing to stop");
}

#[test]
fn a_disabled_installation_holds_nothing() {
    let telemetry = Telemetry::disabled();
    assert_eq!(telemetry.service_name(), "");
    assert_eq!(telemetry.endpoint(), None);
    assert_eq!(telemetry.shutdown().0, None);
}

#[test]
fn a_builder_keeps_what_it_is_told() {
    let config = Telemetry::builder("svc")
        .without_env()
        .version("1.2.3")
        .environment("test")
        .header("x-a", "1")
        .sample_ratio(0.5f64.to_bits())
        .export_timeout(7)
        .resource_attribute("team", "maps")
        .default_filter("debug")
        .log_format(LogFormat::Json)
        .clone()
        .config(&Environment::empty())
        .expect("configures");
    assert_eq!(config.service_name, "svc");
    assert_eq!(config.service_version.as_deref(), Some("1.2.3"));
    assert_eq!(config.environment.as_deref(), Some("test"));
    assert_eq!(config.headers.get("x-a").map(String::as_str), Some("1"));
    assert_eq!(config.sampling, Sampling::Ratio(0.5f64.to_bits()));
    assert_eq!(config.timeout, 7);
    assert_eq!(
        config.resource_attributes,
        vec![("team".to_owned(), "maps".to_owned())]
    );
    assert_eq!(config.default_filter, "debug");
    assert_eq!(config.log_format, LogFormat::Json);
}

#[test]
fn the_environment_is_the_default() {
    let env = environment(&[
        ("OTEL_SERVICE_NAME", "renamed"),
        ("OTEL_EXPORTER_OTLP_ENDPOINT", "https://from-env"),
        ("OTEL_EXPORTER_OTLP_HEADERS", "a=env,b=env"),
        ("OTEL_EXPORTER_OTLP_TIMEOUT", "2000"),
        ("APP_ENV", "from-env"),
    ]);
    let config = Telemetry::builder("svc").config(&env).expect("configures");
    assert_eq!(config.service_name, "renamed");
    assert_eq!(config.endpoint.as_deref(), Some("https://from-env/v1/traces"));
    assert_eq!(config.timeout, 2_000_000_000);
    assert_eq!(config.environment.as_deref(), Some("from-env"));

    let config = Telemetry::builder("svc")
        .endpoint("https://explicit")
        .header("b", "mine")
        .environment("mine")
        .export_timeout(DEFAULT_TIMEOUT)
        .config(&env)
        .expect("configures");
    assert_eq!(config.endpoint.as_deref(), Some("https://explicit/v1/traces"));
    assert_eq!(config.headers.get("a").map(String::as_str), Some("env"));
    assert_eq!(config.headers.get("b").map(String::as_str), Some("mine"));
    assert_eq!(config.environment.as_deref(), Some("mine"));
    assert_eq!(
        config.timeout, DEFAULT_TIMEOUT,
        "a timeout that was set wins, also when it is the default one"
    );
}

#[test]
fn an_attribute_that_the_builder_states_wins() {
    let env = environment(&[("OTEL_RESOURCE_ATTRIBUTES", "team=env,zone=env")]);
    let config = Telemetry::builder("svc")
        .resource_attribute("team", "mine")
        .config(&env)
        .expect("configures");
    let found = resource(&config);
    let text = |key: &'static str| found.sdk().get(&Key::new(key)).map(|value| value.to_string());
    assert_eq!(text("team").as_deref(), Some("mine"));
    assert_eq!(text("zone").as_deref(), Some("env"));
}

#[test]
fn an_ignored_environment_decides_nothing() {
    let env = environment(&[
        ("OTEL_EXPORTER_OTLP_ENDPOINT", "https://from-env"),
        ("OTEL_EXPORTER_OTLP_TIMEOUT", "nonsense"),
    ]);
    let builder = Telemetry::builder("svc");
    assert!(builder.config(&env).is_err());
    let config = builder.without_env().config(&env).expect("configures");
    assert!(!config.is_exporting());
    assert_eq!(config.timeout, DEFAULT_TIMEOUT);
}

#[test]
fn without_an_endpoint_there_is_a_subscriber_and_no_exporter() {
    let mut complaints = Vec::new();
    let telemetry = Telemetry::builder("svc")
        .log_format(LogFormat::Off)
        .try_install(&Environment::empty(), make_ratio, &mut complaints)
        .expect("installs");
    assert!(!telemetry.is_exporting());
    assert_eq!(telemetry.service_name(), "svc");
    assert_eq!(telemetry.endpoint(), None);
    assert!(complaints.is_empty());

    let failed = Telemetry::builder("svc")
        .try_install(&Environment::empty(), make_ratio, &mut complaints)
        .expect_err("there is one already");
    assert!(matches!(failed.error, Error::SubscriberAlreadySet));
    assert!(failed.refused.is_some() && failed.stopped.is_none());

    let (second, failed) = Telemetry::builder("svc").install(
        &Environment::empty(),
        make_ratio,
        &mut complaints,
    );
    assert!(!second.is_exporting());
    assert!(failed.is_some());
    assert_eq!(
        complaints,
        vec![
            "telemetry: a global tracing subscriber is already installed; continuing without traces"
                .to_owned()
        ]
    );
    assert_eq!(telemetry.shutdown().0, None);
}

#[test]
fn a_configuration_that_cannot_be_used_is_complained_of() {
    let env = environment(&[("OTEL_EXPORTER_OTLP_TIMEOUT", "soon")]);
    let mut complaints = vec!["before".to_owned()];
    let (telemetry, failed) =
        Telemetry::builder("svc").install(&env, make_ratio, &mut complaints);
    assert!(matches!(failed.expect("a failure").error, Error::Config(_)));
    assert!(!telemetry.is_exporting());
    assert_eq!(telemetry.service_name(), "");
    assert_eq!(
        complaints,
        vec![
            "before".to_owned(),
            "telemetry: OTEL_EXPORTER_OTLP_TIMEOUT is milliseconds as an integer, got \"soon\"; \
             continuing without traces"
                .to_owned()
        ]
    );
}

#[test]
fn an_exporter_that_cannot_be_built_is_complained_of() {
    let mut complaints = Vec::new();
    let (telemetry, failed) = Telemetry::builder("svc")
        .without_env()
        .endpoint("not a url")
        .install(&Environment::empty(), make_ratio, &mut complaints);
    assert!(failed.expect("a failure").unbuilt.is_some());
    assert!(!telemetry.is_exporting());
    assert_eq!(complaints.len(), 1);
    assert!(complaints[0].starts_with("telemetry: building the OTLP exporter: "));
    assert!(complaints[0].ends_with("; continuing without traces"));
}

#[test]
fn a_malformed_rust_log_does_not_silence_a_service() {
    let env = environment(&[("RUST_LOG", "svc=nolevel")]);
    let mut complaints = Vec::new();
    let telemetry = Telemetry::builder("svc")
        .log_format(LogFormat::Off)
        .try_install(&env, make_ratio, &mut complaints)
        .expect("installs");
    assert!(!telemetry.is_exporting());
    assert_eq!(complaints.len(), 1);
    assert!(complaints[0].starts_with("telemetry: RUST_LOG \"svc=nolevel\" is not a filter ("));
    assert!(complaints[0].ends_with("); using info"));
}

#[test]
fn an_ignored_environment_does_not_set_the_filter() {
    let env = environment(&[("RUST_LOG", "svc=nolevel")]);
    let mut complaints = Vec::new();
    let _telemetry = Telemetry::builder("svc")
        .without_env()
        .log_format(LogFormat::Json)
        .try_install(&env, make_ratio, &mut complaints)
        .expect("installs");
    assert!(complaints.is_empty());
}

#[test]
fn a_filter_is_made_from_what_can_be_used() {
    let mut complaints = Vec::new();
    assert_eq!(filter_for("svc=debug", &mut complaints).directives(), "svc=debug");
    assert!(complaints.is_empty());
    assert_eq!(filter_for("svc=nolevel", &mut complaints).directives(), "info");
    assert_eq!(complaints.len(), 1);
    assert_eq!(
        complain_of_filter("a\"b", "why"),
        "telemetry: RUST_LOG \"a\\\"b\" is not a filter (why); using info"
    );
}

#[test]
fn directives_that_cannot_be_parsed_at_all_are_complained_of() {
    for directives in ["info,\u{a0}b=debug", "info, \u{e9}=debug"] {
        assert!(!can_be_sliced(directives));
        let mut complaints = Vec::new();
        assert_eq!(filter_for(directives, &mut complaints).directives(), "info");
        assert_eq!(complaints.len(), 1);
        assert!(complaints[0].ends_with(
            " is not a filter (white space before a directive that is not ASCII); using info"
        ));
    }
    for directives in ["", "info, b=debug", "\u{e9}=debug,info", "a\u{a0}=debug"] {
        assert!(can_be_sliced(directives));
    }
    let mut complaints = Vec::new();
    let kept = filter_for("debug, \u{e9}", &mut complaints);
    assert_eq!(kept.directives(), "debug, \u{e9}");
    assert!(complaints.is_empty());
    let kept = filter_for("\u{2003}[\u{e9}a=bc]=info", &mut complaints);
    assert_eq!(kept.directives(), "info");
    assert_eq!(complaints.len(), 1);
    assert!(can_be_sliced("info, @\u{e9}=debug"), "refused before it is sliced");
    let mut complaints = Vec::new();
    assert_eq!(filter_for("info, @\u{e9}=debug", &mut complaints).directives(), "info");
    assert_eq!(complaints.len(), 1);
    assert!(!complaints[0].contains("white space"));
}

/// Nothing that is handed to the parser makes it cut a character in two.
#[test]
fn directives_that_can_be_sliced_are_parsed() {
    let alphabet = [' ', '\u{a0}', '\u{e9}', '@', 'a', '=', '[', ']', '{', '}'];
    let mut texts = vec![String::new()];
    let mut refused = 0;
    for _ in 0..5 {
        let mut longer = Vec::new();
        for text in &texts {
            for c in alphabet {
                longer.push(format!("{text}{c}"));
            }
        }
        for text in &longer {
            if can_be_sliced(text) {
                let mut complaints = Vec::new();
                let _filter = filter_for(text, &mut complaints);
            } else {
                refused += 1;
            }
        }
        texts = longer;
    }
    assert!(refused > 0);
}

#[test]
fn white_space_is_what_unicode_says() {
    for c in '\u{0}'..=char::MAX {
        let blank = directives(Some(c.to_string()), "?") == "?";
        assert_eq!(blank, c.is_whitespace() || c == '?', "{c:?}");
    }
}

#[test]
fn the_exporter_does_not_export_itself() {
    let targets = Config::new("svc").export_filtered_targets;
    for target in [
        "hyper",
        "hyper::client::conn",
        "h2::codec",
        "opentelemetry-otlp",
        "opentelemetry_sdk::trace::provider",
        "reqwest::connect",
    ] {
        assert!(!reaches_exporter(&targets, target), "{target}");
    }
    for target in ["svc", "svc::hyper", "hyperion", "hyper:client", "", "::hyper"] {
        assert!(reaches_exporter(&targets, target), "{target}");
    }
    assert!(!reaches_exporter(&vec![String::new()], "::hyper"));
}

#[test]
fn each_log_format_has_its_layer() {
    assert_eq!(log_layers(LogFormat::Text), (Some(()), None));
    assert_eq!(log_layers(LogFormat::Json), (None, Some(())));
    assert_eq!(log_layers(LogFormat::Off), (None, None));
}

#[test]
fn an_installation_needs_a_registered_subscriber() {
    let mut config = Config::new("svc");
    config.endpoint = Some("https://otel.example/v1/traces".to_owned());
    let mut complaints = Vec::new();
    let subscription = subscribe(&config, filter_for("info", &mut complaints), None);
    assert!(subscription.is_ok());
    let telemetry = finish(config.clone(), None, subscription).expect("registered");
    assert_eq!(telemetry.service_name(), "svc");
    assert_eq!(telemetry.endpoint(), Some("https://otel.example/v1/traces"));
    assert!(!telemetry.is_exporting());
    let second = subscribe(&config, filter_for("info", &mut complaints), None);
    assert!(second.is_err());
    let failed = finish(config, None, second).expect_err("not registered");
    assert!(matches!(failed.error, Error::SubscriberAlreadySet));
    assert!(failed.stopped.is_none());
}

#[test]
fn a_failure_to_install_is_survived() {
    let mut complaints = Vec::new();
    let failed = NotInstalled {
        error: Error::Config("why".to_owned()),
        unbuilt: None,
        refused: None,
        stopped: None,
    };
    let (telemetry, failed) = recover(Err(failed), &mut complaints);
    assert!(failed.is_some());
    assert!(!telemetry.is_exporting());
    assert_eq!(
        complaints,
        vec!["telemetry: why; continuing without traces".to_owned()]
    );
    assert_eq!(last_words(&Ok(())), None);
    assert_eq!(
        last_words(&Err(Error::Shutdown("why".to_owned()))).as_deref(),
        Some("telemetry: shutting telemetry down: why")
    );
}
