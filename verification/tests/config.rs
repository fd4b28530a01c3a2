use cartografo_telemetry::config::{join_signal_path, pick};
use cartografo_telemetry::environment::{directives, rust_log, var};
use cartografo_telemetry::pairs::parse_pairs;
use cartografo_telemetry::{
    Config, Environment, Error, LogFormat, Sampling, StringMap, DEFAULT_FILTERED_TARGETS,
    DEFAULT_TIMEOUT,
};

fn environment(vars: &[(&str, &str)]) -> Environment {
    let mut env = Environment::empty();
    for (name, value) in vars {
        env.vars.insert((*name).to_owned(), (*value).to_owned());
    }
    env.sampler_ratio = var(&env.vars, "OTEL_TRACES_SAMPLER_ARG")
        .and_then(|raw| raw.parse::<f64>().ok())
        .map(f64::to_bits);
    env
}

fn text(value: &Option<String>) -> Option<&str> {
    value.as_deref()
}

fn header<'a>(config: &'a Config, name: &str) -> Option<&'a str> {
    config.headers.get(name).map(String::as_str)
}

#[test]
fn the_signal_path_is_appended_once() {
    assert_eq!(
        join_signal_path("https://otel.example"),
        "https://otel.example/v1/traces"
    );
    assert_eq!(
        join_signal_path("https://otel.example/"),
        "https://otel.example/v1/traces",
        "a trailing slash must not double up: //v1/traces is a 404"
    );
    assert_eq!(
        join_signal_path("https://otel.example/v1/traces"),
        "https://otel.example/v1/traces",
        "a base that already names the signal is left alone"
    );
}

#[test]
fn joining_the_signal_path_twice_is_joining_it_once() {
    for base in ["https://otel.example//", "", "/", "x/v1/traces///"] {
        let once = join_signal_path(base);
        assert_eq!(join_signal_path(&once), once);
    }
    assert_eq!(join_signal_path(""), "/v1/traces");
    assert_eq!(join_signal_path("x/v1/traces///"), "x/v1/traces");
}

#[test]
fn a_value_may_contain_the_separator() {
    let pairs = parse_pairs("authorization=Basic dXNlcjpwYXNz==", "T").expect("parses");
    assert_eq!(
        pairs,
        vec![(
            "authorization".to_owned(),
            "Basic dXNlcjpwYXNz==".to_owned()
        )],
        "only the first '=' separates, or every base64 secret loses its padding"
    );
}

#[test]
fn several_pairs_and_stray_whitespace() {
    let pairs = parse_pairs(" a=1 , b=2 ,", "T").expect("parses");
    assert_eq!(
        pairs,
        vec![
            ("a".to_owned(), "1".to_owned()),
            ("b".to_owned(), "2".to_owned())
        ]
    );
}

#[test]
fn a_pair_without_a_separator_is_refused() {
    let err = parse_pairs("just-a-word", "T").expect_err("is an error");
    assert!(
        err.to_string().contains("just-a-word"),
        "the error has to name the entry, or it cannot be found: {err:?}"
    );
    assert_eq!(
        err.to_string(),
        "T is key=value,key=value; \"just-a-word\" has no '='"
    );
}

#[test]
fn a_refused_entry_is_shown_escaped() {
    let err = parse_pairs("a=1,b\t\"c", "T").expect_err("is an error");
    assert_eq!(
        err.to_string(),
        "T is key=value,key=value; \"b\\t\\\"c\" has no '='"
    );
}

#[test]
fn an_entry_without_a_key_is_refused_before_what_follows_it() {
    let err = parse_pairs("a=1, =2,word", "T").expect_err("is an error");
    assert!(matches!(err, Error::Config(_)));
    assert_eq!(err.to_string(), "T has an entry with no key");
}

#[test]
fn a_value_may_be_empty_and_blank_entries_are_skipped() {
    let pairs = parse_pairs(",\u{a0},a=,\u{2003}b = 2 \u{3000}", "T").expect("parses");
    assert_eq!(
        pairs,
        vec![
            ("a".to_owned(), String::new()),
            ("b".to_owned(), "2".to_owned())
        ]
    );
    assert!(parse_pairs("", "T").expect("parses").is_empty());
}

/// The bug this exists to prevent: a container started with
/// `RUST_LOG: ${RUST_LOG:-}` logging nothing at all.
#[test]
fn an_empty_rust_log_falls_back_to_the_default_filter() {
    assert_eq!(directives(Some(String::new()), "info"), "info");
    assert_eq!(directives(Some("   ".to_owned()), "info"), "info");
    assert_eq!(directives(None, "info"), "info");
}

#[test]
fn a_real_rust_log_wins() {
    assert_eq!(
        directives(Some(" gateway=debug ".to_owned()), "info"),
        "gateway=debug"
    );
}

#[test]
fn rust_log_is_handed_on_as_it_stands() {
    let env = environment(&[("RUST_LOG", " debug ")]);
    assert_eq!(rust_log(&env.vars), Some(" debug ".to_owned()));
    assert_eq!(rust_log(&Environment::empty().vars), None);
}

#[test]
fn a_new_config_exports_nothing() {
    let config = Config::new("svc");
    assert!(!config.is_exporting());
    assert_eq!(config.timeout, DEFAULT_TIMEOUT);
    assert_eq!(config.sampling, Sampling::AlwaysOn);
}

#[test]
fn a_new_config_is_the_defaults() {
    let config = Config::new("svc");
    assert_eq!(config.service_name, "svc");
    assert_eq!(config.default_filter, "info");
    assert_eq!(config.log_format, LogFormat::Text);
    assert_eq!(config.export_filtered_targets, DEFAULT_FILTERED_TARGETS);
    assert_eq!(config.export_filtered_targets.len(), 11);
    assert_eq!(DEFAULT_TIMEOUT, 10_000_000_000);
    assert_eq!(LogFormat::default(), LogFormat::Text);
    assert_eq!(Sampling::default(), Sampling::AlwaysOn);
}

#[test]
fn every_variable_has_its_effect() {
    let env = environment(&[
        ("OTEL_SERVICE_NAME", " renamed "),
        ("OTEL_EXPORTER_OTLP_ENDPOINT", "https://otel.example/"),
        ("OTEL_EXPORTER_OTLP_HEADERS", "x-a=1,x-b=2"),
        ("CF_ACCESS_CLIENT_ID", "id"),
        ("CF_ACCESS_CLIENT_SECRET", "s"),
        ("OTEL_EXPORTER_OTLP_TIMEOUT", "+2500"),
        ("OTEL_TRACES_SAMPLER_ARG", "0.25"),
        ("OTEL_RESOURCE_ATTRIBUTES", "team=maps"),
        ("APP_ENV", "staging"),
    ]);
    let config = Config::new("svc").with_env(&env).expect("configures");
    assert_eq!(config.service_name, "renamed");
    assert_eq!(text(&config.endpoint), Some("https://otel.example/v1/traces"));
    assert_eq!(header(&config, "x-a"), Some("1"));
    assert_eq!(header(&config, "x-b"), Some("2"));
    assert_eq!(header(&config, "CF-Access-Client-Id"), Some("id"));
    assert_eq!(header(&config, "CF-Access-Client-Secret"), Some("s"));
    assert_eq!(config.timeout, 2_500_000_000);
    assert_eq!(config.sampling, Sampling::Ratio(0.25f64.to_bits()));
    assert_eq!(
        config.resource_attributes,
        vec![("team".to_owned(), "maps".to_owned())]
    );
    assert_eq!(text(&config.environment), Some("staging"));
    assert_eq!(text(&config.service_version), None);
}

#[test]
fn the_traces_endpoint_is_taken_verbatim() {
    let env = environment(&[
        ("OTEL_EXPORTER_OTLP_ENDPOINT", "https://base"),
        ("OTEL_EXPORTER_OTLP_TRACES_ENDPOINT", "https://exact/"),
    ]);
    let config = Config::new("svc").with_env(&env).expect("configures");
    assert_eq!(text(&config.endpoint), Some("https://exact/"));
}

#[test]
fn the_deployment_environment_goes_before_the_app_environment() {
    let env = environment(&[("APP_ENV", "a"), ("DEPLOYMENT_ENVIRONMENT", "b")]);
    let config = Config::new("svc").with_env(&env).expect("configures");
    assert_eq!(text(&config.environment), Some("b"));
}

#[test]
fn half_an_access_token_is_none() {
    for name in ["CF_ACCESS_CLIENT_ID", "CF_ACCESS_CLIENT_SECRET"] {
        let env = environment(&[(name, "half")]);
        let config = Config::new("svc").with_env(&env).expect("configures");
        assert!(config.headers.pairs().is_empty());
    }
}

#[test]
fn a_blank_variable_is_an_absent_one() {
    let env = environment(&[
        ("OTEL_SERVICE_NAME", ""),
        ("OTEL_EXPORTER_OTLP_ENDPOINT", "  "),
        ("OTEL_EXPORTER_OTLP_HEADERS", " "),
        ("OTEL_EXPORTER_OTLP_TIMEOUT", "\t"),
        ("OTEL_TRACES_SAMPLER_ARG", ""),
        ("OTEL_RESOURCE_ATTRIBUTES", ""),
        ("DEPLOYMENT_ENVIRONMENT", " "),
        ("APP_ENV", ""),
    ]);
    let config = Config::new("svc").with_env(&env).expect("configures");
    assert_eq!(config.service_name, "svc");
    assert!(!config.is_exporting());
    assert!(config.headers.pairs().is_empty());
    assert_eq!(config.timeout, DEFAULT_TIMEOUT);
    assert_eq!(config.sampling, Sampling::AlwaysOn);
    assert!(config.resource_attributes.is_empty());
    assert_eq!(text(&config.environment), None);
}

#[test]
fn a_timeout_is_a_whole_number_of_milliseconds() {
    for raw in ["1.5", "-1", "+", "ten", "18446744073709551616", "1 000"] {
        let env = environment(&[("OTEL_EXPORTER_OTLP_TIMEOUT", raw)]);
        let err = Config::new("svc").with_env(&env).expect_err("is an error");
        assert_eq!(
            err.to_string(),
            format!("OTEL_EXPORTER_OTLP_TIMEOUT is milliseconds as an integer, got {raw:?}")
        );
    }
    let env = environment(&[("OTEL_EXPORTER_OTLP_TIMEOUT", "18446744073709551615")]);
    let config = Config::new("svc").with_env(&env).expect("configures");
    assert_eq!(config.timeout, 18_446_744_073_709_551_615_000_000);
}

#[test]
fn a_sampling_ratio_is_a_number() {
    let env = environment(&[("OTEL_TRACES_SAMPLER_ARG", " most ")]);
    let err = Config::new("svc").with_env(&env).expect_err("is an error");
    assert_eq!(
        err.to_string(),
        "OTEL_TRACES_SAMPLER_ARG is a number between 0 and 1, got \"most\""
    );
}

#[test]
fn the_first_variable_that_cannot_be_used_is_named() {
    let env = environment(&[
        ("OTEL_EXPORTER_OTLP_HEADERS", "a"),
        ("OTEL_EXPORTER_OTLP_TIMEOUT", "b"),
        ("OTEL_RESOURCE_ATTRIBUTES", "c"),
    ]);
    let err = Config::new("svc").with_env(&env).expect_err("is an error");
    assert!(err.to_string().starts_with("OTEL_EXPORTER_OTLP_HEADERS is"));
    let env = environment(&[("OTEL_RESOURCE_ATTRIBUTES", "c")]);
    let err = Config::new("svc").with_env(&env).expect_err("is an error");
    assert!(err.to_string().starts_with("OTEL_RESOURCE_ATTRIBUTES is"));
}

/// What the builder states must survive the environment being laid under it.
#[test]
fn explicit_values_win_over_the_environment() {
    let base = Config {
        endpoint: Some("https://from-env/v1/traces".to_owned()),
        environment: Some("from-env".to_owned()),
        ..Config::new("svc")
    };
    let explicit = Config {
        endpoint: Some("https://explicit/v1/traces".to_owned()),
        ..Config::new("svc")
    };
    let merged = explicit.over(base);
    assert_eq!(
        merged.endpoint.as_deref(),
        Some("https://explicit/v1/traces")
    );
    assert_eq!(
        merged.environment.as_deref(),
        Some("from-env"),
        "what the builder did not state still comes from the environment"
    );
}

#[test]
fn headers_and_attributes_are_laid_over_one_by_one() {
    let mut base = Config::new("base");
    base.headers.insert("a".to_owned(), "base".to_owned());
    base.headers.insert("b".to_owned(), "base".to_owned());
    base.resource_attributes.push(("k".to_owned(), "base".to_owned()));
    base.timeout = 5;
    base.sampling = Sampling::Ratio(7);
    base.default_filter = "warn".to_owned();
    base.log_format = LogFormat::Json;
    let mut mine = Config::new("mine");
    mine.headers.insert("b".to_owned(), "mine".to_owned());
    mine.resource_attributes.push(("k".to_owned(), "mine".to_owned()));
    mine.log_format = LogFormat::Off;
    let merged = mine.over(base);
    assert_eq!(merged.service_name, "base");
    assert_eq!(header(&merged, "a"), Some("base"));
    assert_eq!(header(&merged, "b"), Some("mine"));
    assert_eq!(
        merged.resource_attributes,
        vec![
            ("k".to_owned(), "base".to_owned()),
            ("k".to_owned(), "mine".to_owned())
        ]
    );
    assert_eq!(merged.timeout, 5);
    assert_eq!(merged.sampling, Sampling::Ratio(7));
    assert_eq!(merged.default_filter, "warn");
    assert_eq!(merged.log_format, LogFormat::Off);
}

#[test]
fn an_untouched_default_gives_way() {
    assert_eq!(pick(1, 2, 1), 2);
    assert_eq!(pick(3, 2, 1), 3);
}

#[test]
fn a_string_map_keeps_each_key_once() {
    let mut map = StringMap::new();
    map.insert("a".to_owned(), "1".to_owned());
    map.insert("b".to_owned(), "2".to_owned());
    map.insert("a".to_owned(), "3".to_owned());
    assert_eq!(map.get("a").map(String::as_str), Some("3"));
    assert_eq!(map.get("c"), None);
    assert_eq!(
        map.pairs(),
        vec![
            ("a".to_owned(), "3".to_owned()),
            ("b".to_owned(), "2".to_owned())
        ]
    );
    let mut copy = map.clone();
    copy.extend(vec![("b".to_owned(), "4".to_owned()), ("b".to_owned(), "5".to_owned())]);
    assert_eq!(copy.get("b").map(String::as_str), Some("5"));
    assert_eq!(map.get("b").map(String::as_str), Some("2"));
}

#[test]
fn each_error_has_its_sentence() {
    assert_eq!(
        Error::Exporter("why".to_owned()).to_string(),
        "building the OTLP exporter: why"
    );
    assert_eq!(
        Error::SubscriberAlreadySet.to_string(),
        "a global tracing subscriber is already installed"
    );
    assert_eq!(Error::Config("why".to_owned()).to_string(), "why");
    assert_eq!(
        Error::Shutdown("why".to_owned()).to_string(),
        "shutting telemetry down: why"
    );
}

#[test]
fn written_pairs_are_read_back() {
    let pairs = vec![
        ("authorization".to_owned(), "Basic dXNlcg==".to_owned()),
        ("x empty".to_owned(), String::new()),
        ("k".to_owned(), "a b;c".to_owned()),
    ];
    let list: Vec<String> = pairs.iter().map(|(key, value)| format!("{key}={value}")).collect();
    assert_eq!(parse_pairs(&list.join(","), "T").expect("parses"), pairs);
}

#[test]
fn what_the_environment_does_not_mention_is_untouched() {
    let mut before = Config::new("svc");
    before.service_version = Some("1".to_owned());
    before.environment = Some("test".to_owned());
    before.endpoint = Some("https://otel.example/v1/traces".to_owned());
    before.headers.insert("a".to_owned(), "1".to_owned());
    before.timeout = 7;
    before.sampling = Sampling::Ratio(1);
    before.resource_attributes.push(("k".to_owned(), "v".to_owned()));
    before.default_filter = "debug".to_owned();
    before.log_format = LogFormat::Json;
    before.export_filtered_targets = vec!["h2".to_owned()];
    let after = before
        .clone()
        .with_env(&environment(&[("HOME", "/root"), ("APP_ENVIRONMENT", "x")]))
        .expect("configures");
    assert_eq!(format!("{after:?}"), format!("{before:?}"));
}
