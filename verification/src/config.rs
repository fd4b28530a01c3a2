//! What to export, where, and how the same process logs to its terminal.
//!
//! Everything here has an environment variable behind it, spelled as the OTLP
//! specification spells it. What a caller states in code wins over the
//! environment: a value in code is a decision, a value in the environment is a
//! default.

use vstd::prelude::*;
use vstd::std_specs::cmp::{PartialEqSpec, PartialEqSpecImpl};

use crate::environment::{copy_text, opt_text, setting, var, Environment};
use crate::error::{Error, Failure};
use crate::number::{
    decimal, digits_of, equal_numbers, law_a_number_is_read_from_its_decimal_text, parse_u64,
    same_number,
};
use crate::pairs::{parse_pairs, parsed, quote, quoted};
use crate::string_map::{copy_pairs, insert_all, lemma_insert_all, pair_texts, StringMap};
use crate::text::{
    concat, ends_with, has_suffix, law_a_run_at_the_end_goes, repeated, same, strip_end,
    trim_end_matches, trimmed,
};

verus! {

/// How the process writes to its own stdout, independently of what it exports.
#[derive(Clone, Copy, Debug, Eq)]
pub enum LogFormat {
    /// One line per event, for a person reading the log.
    Text,
    /// One JSON object per event, for a log aggregator.
    Json,
    /// Nothing on stdout.
    Off,
}

impl PartialEq for LogFormat {
    fn eq(&self, other: &Self) -> (r: bool) {
        match (*self, *other) {
            (LogFormat::Text, LogFormat::Text) => true,
            (LogFormat::Json, LogFormat::Json) => true,
            (LogFormat::Off, LogFormat::Off) => true,
            _ => false,
        }
    }
}

impl PartialEqSpecImpl for LogFormat {
    open spec fn obeys_eq_spec() -> bool {
        true
    }

    open spec fn eq_spec(&self, other: &Self) -> bool {
        *self == *other
    }
}

impl Default for LogFormat {
    fn default() -> (r: Self)
        ensures
            r == LogFormat::Text,
    {
        LogFormat::Text
    }
}

/// Which spans are recorded. Two ratios are equal when they are equal as numbers.
#[derive(Clone, Copy, Debug)]
pub enum Sampling {
    /// Every span.
    AlwaysOn,
    /// A share of the traces, decided once per trace by its id. The share is
    /// given by the bits of an IEEE 754 binary64 number.
    Ratio(u64),
}

impl PartialEq for Sampling {
    fn eq(&self, other: &Self) -> (r: bool) {
        match (*self, *other) {
            (Sampling::AlwaysOn, Sampling::AlwaysOn) => true,
            (Sampling::Ratio(a), Sampling::Ratio(b)) => same_number(a, b),
            _ => false,
        }
    }
}

impl PartialEqSpecImpl for Sampling {
    open spec fn obeys_eq_spec() -> bool {
        true
    }

    open spec fn eq_spec(&self, other: &Self) -> bool {
        match (*self, *other) {
            (Sampling::AlwaysOn, Sampling::AlwaysOn) => true,
            (Sampling::Ratio(a), Sampling::Ratio(b)) => equal_numbers(a, b),
            _ => false,
        }
    }
}

impl Default for Sampling {
    fn default() -> (r: Self)
        ensures
            r == Sampling::AlwaysOn,
    {
        Sampling::AlwaysOn
    }
}

/// The default export timeout in nanoseconds: the ten seconds that the OTLP
/// specification defines.
pub const DEFAULT_TIMEOUT: u128 = 10_000_000_000;

/// The longest timeout that can be told to an exporter, in nanoseconds.
pub const MAX_TIMEOUT: u128 = 0xffff_ffff_ffff_ffff * 1_000_000_000 + 999_999_999;

/// `mine` unless it is still the untouched default, in which case `theirs`.
pub fn pick<T: PartialEq>(mine: T, theirs: T, default: T) -> (r: T)
    ensures
        r == mine || r == theirs,
        T::obeys_eq_spec() ==> r == (if mine.eq_spec(&default) {
            theirs
        } else {
            mine
        }),
{
    if mine == default {
        theirs
    } else {
        mine
    }
}

/// The path of the traces signal.
pub open spec fn signal_path() -> Seq<char> {
    "/v1/traces"@
}

/// The address spans are sent to, given the collector's base URL.
pub open spec fn signal_address(base: Seq<char>) -> Seq<char> {
    let bare = strip_end(base, '/');
    if has_suffix(bare, signal_path()) {
        bare
    } else {
        bare + signal_path()
    }
}

/// Appends `/v1/traces` unless the URL already ends in it.
pub fn join_signal_path(base: &str) -> (r: String)
    ensures
        r@ == signal_address(base@),
{
    let bare = trim_end_matches(base, '/');
    if ends_with(bare, "/v1/traces") {
        return bare.to_owned();
    }
    concat(bare, "/v1/traces")
}

/// The characters of each text.
pub open spec fn string_texts(v: Seq<String>) -> Seq<Seq<char>> {
    Seq::new(v.len(), |i: int| v[i]@)
}

/// A copy of the texts.
pub(crate) fn copy_strings(v: &Vec<String>) -> (out: Vec<String>)
    ensures
        string_texts(out@) == string_texts(v@),
{
    let mut out: Vec<String> = Vec::new();
    let mut i: usize = 0;
    while i < v.len()
        invariant
            i <= v.len(),
            string_texts(out@) == string_texts(v@).take(i as int),
        decreases v.len() - i,
    {
        let ghost before = string_texts(out@);
        out.push(v[i].clone());
        assert(string_texts(out@) =~= before.push(v[i as int]@));
        i += 1;
        assert(string_texts(out@) =~= string_texts(v@).take(i as int));
    }
    assert(string_texts(v@).take(i as int) =~= string_texts(v@));
    out
}

/// The crates whose own logs must not be exported. See
/// [`Config::export_filtered_targets`].
///
/// Two of them in both spellings: a target is usually a module path and therefore
/// has underscores, but the OpenTelemetry crates set some of theirs by hand to the
/// package name.
pub const DEFAULT_FILTERED_TARGETS: [&'static str; 11] = [
    "opentelemetry",
    "opentelemetry_sdk",
    "opentelemetry_otlp",
    "opentelemetry-sdk",
    "opentelemetry-otlp",
    "reqwest",
    "rustls",
    "hyper",
    "hyper_util",
    "h2",
    "tokio_util",
];

/// The names in [`DEFAULT_FILTERED_TARGETS`].
pub open spec fn default_targets() -> Seq<Seq<char>> {
    Seq::new(11, |i: int| DEFAULT_FILTERED_TARGETS@[i]@)
}

/// A copy of [`DEFAULT_FILTERED_TARGETS`].
fn default_filtered_targets() -> (r: Vec<String>)
    ensures
        string_texts(r@) == default_targets(),
{
    let targets = DEFAULT_FILTERED_TARGETS;
    let mut out: Vec<String> = Vec::new();
    let mut i: usize = 0;
    while i < 11
        invariant
            i <= 11,
            targets == DEFAULT_FILTERED_TARGETS,
            string_texts(out@) == default_targets().take(i as int),
        decreases 11 - i,
    {
        let ghost before = string_texts(out@);
        out.push(targets[i].to_owned());
        assert(string_texts(out@) =~= before.push(targets@[i as int]@));
        i += 1;
        assert(string_texts(out@) =~= default_targets().take(i as int));
    }
    assert(default_targets().take(11) =~= default_targets());
    out
}

/// The configuration an installation is built from.
#[derive(Debug)]
pub struct Config {
    /// `service.name` on every span. The one attribute every backend groups by.
    pub service_name: String,
    /// `service.version`, when the service knows its own.
    pub service_version: Option<String>,
    /// `deployment.environment.name`: production, staging, development.
    pub environment: Option<String>,
    /// Where spans are sent. `None` disables export entirely.
    pub endpoint: Option<String>,
    /// Sent with every export request.
    pub headers: StringMap,
    /// How long one export attempt may take, in nanoseconds.
    pub timeout: u128,
    /// Which spans are recorded.
    pub sampling: Sampling,
    /// Extra resource attributes, applied after the ones above.
    pub resource_attributes: Vec<(String, String)>,
    /// The `EnvFilter` directives used when `RUST_LOG` is unset.
    pub default_filter: String,
    /// How the process writes to stdout.
    pub log_format: LogFormat,
    /// Targets whose events never reach the exporter.
    ///
    /// The exporter speaks HTTP, and the crates it does so with emit events of
    /// their own. Feeding those back into the layer that produced them is a loop
    /// that exports the act of exporting. They still reach stdout.
    pub export_filtered_targets: Vec<String>,
}

/// A [`Config`] as a mathematical value.
#[verifier::ext_equal]
pub struct Settings {
    /// See [`Config::service_name`].
    pub service_name: Seq<char>,
    /// See [`Config::service_version`].
    pub service_version: Option<Seq<char>>,
    /// See [`Config::environment`].
    pub environment: Option<Seq<char>>,
    /// See [`Config::endpoint`].
    pub endpoint: Option<Seq<char>>,
    /// See [`Config::headers`].
    pub headers: Map<Seq<char>, Seq<char>>,
    /// See [`Config::timeout`].
    pub timeout: u128,
    /// See [`Config::sampling`].
    pub sampling: Sampling,
    /// See [`Config::resource_attributes`].
    pub resource_attributes: Seq<(Seq<char>, Seq<char>)>,
    /// See [`Config::default_filter`].
    pub default_filter: Seq<char>,
    /// See [`Config::log_format`].
    pub log_format: LogFormat,
    /// See [`Config::export_filtered_targets`].
    pub export_filtered_targets: Seq<Seq<char>>,
}

impl View for Config {
    type V = Settings;

    open spec fn view(&self) -> Settings {
        Settings {
            service_name: self.service_name@,
            service_version: opt_text(self.service_version),
            environment: opt_text(self.environment),
            endpoint: opt_text(self.endpoint),
            headers: self.headers@,
            timeout: self.timeout,
            sampling: self.sampling,
            resource_attributes: pair_texts(self.resource_attributes@),
            default_filter: self.default_filter@,
            log_format: self.log_format,
            export_filtered_targets: string_texts(self.export_filtered_targets@),
        }
    }
}

impl Clone for Config {
    fn clone(&self) -> (r: Self)
        ensures
            r@ == self@,
    {
        Config {
            service_name: self.service_name.clone(),
            service_version: copy_text(&self.service_version),
            environment: copy_text(&self.environment),
            endpoint: copy_text(&self.endpoint),
            headers: self.headers.clone(),
            timeout: self.timeout,
            sampling: self.sampling,
            resource_attributes: copy_pairs(&self.resource_attributes),
            default_filter: self.default_filter.clone(),
            log_format: self.log_format,
            export_filtered_targets: copy_strings(&self.export_filtered_targets),
        }
    }
}

/// The settings of a service that states nothing but its name.
pub open spec fn defaults(service_name: Seq<char>) -> Settings {
    Settings {
        service_name,
        service_version: None,
        environment: None,
        endpoint: None,
        headers: Map::empty(),
        timeout: DEFAULT_TIMEOUT,
        sampling: Sampling::AlwaysOn,
        resource_attributes: Seq::empty(),
        default_filter: "info"@,
        log_format: LogFormat::Text,
        export_filtered_targets: default_targets(),
    }
}

/// Where the environment says spans are sent: the traces endpoint verbatim, else
/// the base endpoint with the signal path.
pub open spec fn endpoint_setting(vars: Map<Seq<char>, Seq<char>>) -> Option<Seq<char>> {
    match setting(vars, "OTEL_EXPORTER_OTLP_TRACES_ENDPOINT"@) {
        Some(exact) => Some(exact),
        None => match setting(vars, "OTEL_EXPORTER_OTLP_ENDPOINT"@) {
            Some(base) => Some(signal_address(base)),
            None => None,
        },
    }
}

/// The pairs that the variable `key` states.
pub open spec fn pairs_setting(vars: Map<Seq<char>, Seq<char>>, key: Seq<char>) -> Result<
    Seq<(Seq<char>, Seq<char>)>,
    Failure,
> {
    match setting(vars, key) {
        Some(raw) => parsed(raw, key),
        None => Ok(Seq::empty()),
    }
}

/// The timeout that the environment states, in nanoseconds.
pub open spec fn timeout_setting(vars: Map<Seq<char>, Seq<char>>) -> Result<Option<nat>, Failure> {
    match setting(vars, "OTEL_EXPORTER_OTLP_TIMEOUT"@) {
        Some(raw) => match decimal(raw) {
            Some(millis) => Ok(Some(millis * 1_000_000)),
            None => Err(
                Failure::Config(
                    "OTEL_EXPORTER_OTLP_TIMEOUT is milliseconds as an integer, got "@ + quoted(raw),
                ),
            ),
        },
        None => Ok(None),
    }
}

/// The sampling ratio that the environment states; `ratio` is the number that the
/// variable spells.
pub open spec fn ratio_setting(vars: Map<Seq<char>, Seq<char>>, ratio: Option<u64>) -> Result<
    Option<u64>,
    Failure,
> {
    match setting(vars, "OTEL_TRACES_SAMPLER_ARG"@) {
        Some(raw) => match ratio {
            Some(bits) => Ok(Some(bits)),
            None => Err(
                Failure::Config(
                    "OTEL_TRACES_SAMPLER_ARG is a number between 0 and 1, got "@ + quoted(raw),
                ),
            ),
        },
        None => Ok(None),
    }
}

/// `headers` with the two Cloudflare Access headers, when the environment has both
/// halves of the token: one alone is refused exactly like none.
pub open spec fn with_access(
    headers: Map<Seq<char>, Seq<char>>,
    vars: Map<Seq<char>, Seq<char>>,
) -> Map<Seq<char>, Seq<char>> {
    match (setting(vars, "CF_ACCESS_CLIENT_ID"@), setting(vars, "CF_ACCESS_CLIENT_SECRET"@)) {
        (Some(id), Some(secret)) => headers.insert("CF-Access-Client-Id"@, id).insert(
            "CF-Access-Client-Secret"@,
            secret,
        ),
        _ => headers,
    }
}

/// `first` when it is there, `second` otherwise.
pub open spec fn or_else(first: Option<Seq<char>>, second: Option<Seq<char>>) -> Option<Seq<char>> {
    match first {
        Some(text) => Some(text),
        None => second,
    }
}

/// `settings` with the environment on top, or what is wrong with the first
/// variable that cannot be used.
pub open spec fn with_environment(
    settings: Settings,
    vars: Map<Seq<char>, Seq<char>>,
    ratio: Option<u64>,
) -> Result<Settings, Failure> {
    match (
        pairs_setting(vars, "OTEL_EXPORTER_OTLP_HEADERS"@),
        timeout_setting(vars),
        ratio_setting(vars, ratio),
        pairs_setting(vars, "OTEL_RESOURCE_ATTRIBUTES"@),
    ) {
        (Err(e), _, _, _) => Err(e),
        (_, Err(e), _, _) => Err(e),
        (_, _, Err(e), _) => Err(e),
        (_, _, _, Err(e)) => Err(e),
        (Ok(headers), Ok(timeout), Ok(ratio), Ok(attributes)) => Ok(
            Settings {
                service_name: match setting(vars, "OTEL_SERVICE_NAME"@) {
                    Some(name) => name,
                    None => settings.service_name,
                },
                environment: or_else(
                    setting(vars, "DEPLOYMENT_ENVIRONMENT"@),
                    or_else(setting(vars, "APP_ENV"@), settings.environment),
                ),
                endpoint: or_else(endpoint_setting(vars), settings.endpoint),
                headers: with_access(insert_all(settings.headers, headers), vars),
                timeout: match timeout {
                    Some(nanos) => nanos as u128,
                    None => settings.timeout,
                },
                sampling: match ratio {
                    Some(bits) => Sampling::Ratio(bits),
                    None => settings.sampling,
                },
                resource_attributes: settings.resource_attributes + attributes,
                ..settings
            },
        ),
    }
}

/// `mine` laid over `base`: what `mine` states wins, and the rest is `base`'s. A
/// timeout, a sampling, a filter or a log format that equals the default counts as
/// not stated; the service name is `base`'s.
pub open spec fn laid_over(mine: Settings, base: Settings) -> Settings {
    let untouched = defaults(Seq::empty());
    Settings {
        service_name: base.service_name,
        service_version: or_else(mine.service_version, base.service_version),
        environment: or_else(mine.environment, base.environment),
        endpoint: or_else(mine.endpoint, base.endpoint),
        headers: base.headers.union_prefer_right(mine.headers),
        timeout: if mine.timeout == untouched.timeout {
            base.timeout
        } else {
            mine.timeout
        },
        sampling: if mine.sampling == untouched.sampling {
            base.sampling
        } else {
            mine.sampling
        },
        resource_attributes: base.resource_attributes + mine.resource_attributes,
        default_filter: if mine.default_filter == untouched.default_filter {
            base.default_filter
        } else {
            mine.default_filter
        },
        log_format: if mine.log_format == untouched.log_format {
            base.log_format
        } else {
            mine.log_format
        },
        export_filtered_targets: mine.export_filtered_targets,
    }
}

/// Where the environment says spans are sent: `OTEL_EXPORTER_OTLP_TRACES_ENDPOINT`
/// verbatim, else `OTEL_EXPORTER_OTLP_ENDPOINT` with the signal path appended.
pub fn traces_endpoint(vars: &StringMap) -> (r: Option<String>)
    ensures
        opt_text(r) == endpoint_setting(vars@),
{
    if let Some(exact) = var(vars, "OTEL_EXPORTER_OTLP_TRACES_ENDPOINT") {
        return Some(exact);
    }
    match var(vars, "OTEL_EXPORTER_OTLP_ENDPOINT") {
        Some(base) => Some(join_signal_path(base.as_str())),
        None => None,
    }
}

/// Puts `more` behind `pairs`.
fn append_pairs(pairs: &mut Vec<(String, String)>, more: Vec<(String, String)>)
    ensures
        pair_texts(final(pairs)@) == pair_texts(old(pairs)@) + pair_texts(more@),
{
    let mut more = more;
    let ghost front = pairs@;
    let ghost back = more@;
    pairs.append(&mut more);
    assert(pair_texts(pairs@) =~= pair_texts(front) + pair_texts(back));
}

/// The pairs that the variable `key` states.
fn pairs_var(vars: &StringMap, key: &str) -> (r: Result<Vec<(String, String)>, Error>)
    ensures
        match r {
            Ok(pairs) => pairs_setting(vars@, key@) == Ok::<_, Failure>(pair_texts(pairs@)),
            Err(e) => pairs_setting(vars@, key@) == Err::<Seq<(Seq<char>, Seq<char>)>, _>(e@),
        },
{
    match var(vars, key) {
        Some(raw) => parse_pairs(raw.as_str(), key),
        None => {
            let none: Vec<(String, String)> = Vec::new();
            assert(pair_texts(none@) =~= Seq::empty());
            Ok(none)
        },
    }
}

impl Config {
    /// A configuration for `service_name` with nothing read from the environment.
    ///
    /// Export is off: [`Config::endpoint`] is `None` until something sets it.
    pub fn new(service_name: &str) -> (r: Self)
        ensures
            r@ == defaults(service_name@),
    {
        let r = Config {
            service_name: service_name.to_owned(),
            service_version: None,
            environment: None,
            endpoint: None,
            headers: StringMap::new(),
            timeout: DEFAULT_TIMEOUT,
            sampling: Sampling::AlwaysOn,
            resource_attributes: Vec::new(),
            default_filter: "info".to_owned(),
            log_format: LogFormat::Text,
            export_filtered_targets: default_filtered_targets(),
        };
        assert(r@.resource_attributes =~= Seq::empty());
        r
    }

    /// Whether this configuration exports anything at all.
    pub fn is_exporting(&self) -> (r: bool)
        ensures
            r == (self@.endpoint is Some),
    {
        self.endpoint.is_some()
    }

    /// Applies the environment on top of `self`, leaving anything the environment
    /// does not mention untouched.
    ///
    /// | Variable | Effect |
    /// |---|---|
    /// | `OTEL_SERVICE_NAME` | overrides the service name |
    /// | `OTEL_EXPORTER_OTLP_TRACES_ENDPOINT` | the full URL, taken verbatim |
    /// | `OTEL_EXPORTER_OTLP_ENDPOINT` | the base URL; `/v1/traces` is appended |
    /// | `OTEL_EXPORTER_OTLP_HEADERS` | `key=value,key=value` |
    /// | `CF_ACCESS_CLIENT_ID` + `CF_ACCESS_CLIENT_SECRET` | the two Cloudflare Access headers |
    /// | `OTEL_EXPORTER_OTLP_TIMEOUT` | milliseconds |
    /// | `OTEL_TRACES_SAMPLER_ARG` | the sampling ratio |
    /// | `OTEL_RESOURCE_ATTRIBUTES` | `key=value,key=value` |
    /// | `DEPLOYMENT_ENVIRONMENT`, else `APP_ENV` | the environment name |
    ///
    /// An empty value counts as absent: `FOO: ${FOO:-}` in a compose file reaches
    /// the container as an empty string rather than as an unset name.
    pub fn with_env(self, env: &Environment) -> (r: Result<Config, Error>)
        ensures
            match r {
                Ok(config) => with_environment(self@, env.vars@, env.sampler_ratio) == Ok::<
                    _,
                    Failure,
                >(config@),
                Err(e) => with_environment(self@, env.vars@, env.sampler_ratio) == Err::<
                    Settings,
                    _,
                >(e@),
            },
            forall|millis: nat|
                millis <= u64::MAX && env.vars@.contains_key("OTEL_EXPORTER_OTLP_TIMEOUT"@)
                    && trimmed(env.vars@["OTEL_EXPORTER_OTLP_TIMEOUT"@]) == #[trigger] digits_of(
                    millis,
                ) ==> (r matches Ok(config) ==> config.timeout == millis * 1_000_000),
    {
        let mut config = self;
        let vars = &env.vars;
        if let Some(name) = var(vars, "OTEL_SERVICE_NAME") {
            config.service_name = name;
        }
        if let Some(endpoint) = traces_endpoint(vars) {
            config.endpoint = Some(endpoint);
        }
        match pairs_var(vars, "OTEL_EXPORTER_OTLP_HEADERS") {
            Ok(pairs) => config.headers.extend(pairs),
            Err(e) => {
                return Err(e);
            },
        }
        // Both or neither: sending half a pair only makes the refusal harder to
        // read.
        if let Some(id) = var(vars, "CF_ACCESS_CLIENT_ID") {
            if let Some(secret) = var(vars, "CF_ACCESS_CLIENT_SECRET") {
                config.headers.insert("CF-Access-Client-Id".to_owned(), id);
                config.headers.insert("CF-Access-Client-Secret".to_owned(), secret);
            }
        }
        if let Some(raw) = var(vars, "OTEL_EXPORTER_OTLP_TIMEOUT") {
            match parse_u64(raw.as_str()) {
                Some(millis) => {
                    config.timeout = millis as u128 * 1_000_000;
                },
                None => {
                    return Err(
                        Error::Config(
                            concat(
                                "OTEL_EXPORTER_OTLP_TIMEOUT is milliseconds as an integer, got ",
                                quote(raw.as_str()).as_str(),
                            ),
                        ),
                    );
                },
            }
        }
        if let Some(raw) = var(vars, "OTEL_TRACES_SAMPLER_ARG") {
            match env.sampler_ratio {
                Some(bits) => {
                    config.sampling = Sampling::Ratio(bits);
                },
                None => {
                    return Err(
                        Error::Config(
                            concat(
                                "OTEL_TRACES_SAMPLER_ARG is a number between 0 and 1, got ",
                                quote(raw.as_str()).as_str(),
                            ),
                        ),
                    );
                },
            }
        }
        match pairs_var(vars, "OTEL_RESOURCE_ATTRIBUTES") {
            Ok(pairs) => append_pairs(&mut config.resource_attributes, pairs),
            Err(e) => {
                return Err(e);
            },
        }
        if let Some(environment) = var(vars, "DEPLOYMENT_ENVIRONMENT") {
            config.environment = Some(environment);
        } else if let Some(environment) = var(vars, "APP_ENV") {
            config.environment = Some(environment);
        }
        proof {
            assert forall|millis: nat|
                millis <= u64::MAX && env.vars@.contains_key("OTEL_EXPORTER_OTLP_TIMEOUT"@)
                    && trimmed(env.vars@["OTEL_EXPORTER_OTLP_TIMEOUT"@]) == #[trigger] digits_of(
                    millis,
                ) implies config.timeout == millis * 1_000_000 by {
                law_a_number_is_read_from_its_decimal_text(millis, 0);
                assert(repeated('0', 0) + digits_of(millis) =~= digits_of(millis));
            }
        }
        Ok(config)
    }

    /// `self` laid over `base`: every field this config states explicitly wins,
    /// and the rest is taken from `base`.
    pub fn over(self, base: Self) -> (r: Self)
        ensures
            r@ == laid_over(self@, base@),
    {
        let mine = self;
        let mut headers = base.headers;
        let stated = mine.headers.pairs();
        proof {
            lemma_insert_all(headers@, pair_texts(stated@));
        }
        headers.extend(stated);
        let mut resource_attributes = base.resource_attributes;
        append_pairs(&mut resource_attributes, mine.resource_attributes);
        let untouched = Config::new("");
        proof {
            reveal_strlit("");
            assert(""@ =~= Seq::empty());
        }
        Config {
            service_name: base.service_name,
            service_version: if mine.service_version.is_some() {
                mine.service_version
            } else {
                base.service_version
            },
            environment: if mine.environment.is_some() {
                mine.environment
            } else {
                base.environment
            },
            endpoint: if mine.endpoint.is_some() {
                mine.endpoint
            } else {
                base.endpoint
            },
            headers,
            timeout: pick(mine.timeout, base.timeout, untouched.timeout),
            sampling: pick(mine.sampling, base.sampling, untouched.sampling),
            resource_attributes,
            default_filter: if same(
                mine.default_filter.as_str(),
                untouched.default_filter.as_str(),
            ) {
                base.default_filter
            } else {
                mine.default_filter
            },
            log_format: pick(mine.log_format, base.log_format, untouched.log_format),
            export_filtered_targets: mine.export_filtered_targets,
        }
    }
}

/// The signal path is appended once: every address ends in it, and joining it to an
/// address, or to a base with a slash more, gives the address again.
pub proof fn law_the_signal_path_is_appended_once(base: Seq<char>)
    ensures
        has_suffix(signal_address(base), signal_path()),
        signal_address(signal_address(base)) == signal_address(base),
        signal_address(base + seq!['/']) == signal_address(base),
{
    reveal_strlit("/v1/traces");
    let path = signal_path();
    let bare = strip_end(base, '/');
    let address = signal_address(base);
    assert((bare + path).skip(bare.len() as int) =~= path);
    assert(address.last() == address.skip(address.len() - path.len()).last());
    assert(strip_end(address, '/') == address);
    assert((base + seq!['/']).drop_last() =~= base);
}

/// A blank variable counts as an absent one.
pub proof fn law_a_blank_variable_is_an_absent_one(
    settings: Settings,
    vars: Map<Seq<char>, Seq<char>>,
    ratio: Option<u64>,
    key: Seq<char>,
    blank: Seq<char>,
)
    requires
        trimmed(blank).len() == 0,
    ensures
        with_environment(settings, vars.insert(key, blank), ratio) == with_environment(
            settings,
            vars.remove(key),
            ratio,
        ),
{
    lemma_same_settings(settings, vars.insert(key, blank), vars.remove(key), ratio);
}

/// Environments that state the same come to the same.
proof fn lemma_same_settings(
    settings: Settings,
    a: Map<Seq<char>, Seq<char>>,
    b: Map<Seq<char>, Seq<char>>,
    ratio: Option<u64>,
)
    requires
        forall|key: Seq<char>| #[trigger] setting(a, key) == setting(b, key),
    ensures
        with_environment(settings, a, ratio) == with_environment(settings, b, ratio),
{
}

/// What the environment does not mention stays as it was.
pub proof fn law_what_is_not_mentioned_is_untouched(
    settings: Settings,
    vars: Map<Seq<char>, Seq<char>>,
    ratio: Option<u64>,
)
    ensures
        with_environment(settings, Map::empty(), ratio) == Ok::<_, Failure>(settings),
        with_environment(settings, vars, ratio) matches Ok(after) ==> {
            &&& setting(vars, "OTEL_SERVICE_NAME"@) is None ==> after.service_name
                == settings.service_name
            &&& endpoint_setting(vars) is None ==> after.endpoint == settings.endpoint
            &&& setting(vars, "OTEL_EXPORTER_OTLP_HEADERS"@) is None && setting(
                vars,
                "CF_ACCESS_CLIENT_ID"@,
            ) is None ==> after.headers == settings.headers
            &&& setting(vars, "OTEL_EXPORTER_OTLP_TIMEOUT"@) is None ==> after.timeout
                == settings.timeout
            &&& setting(vars, "OTEL_TRACES_SAMPLER_ARG"@) is None ==> after.sampling
                == settings.sampling
            &&& setting(vars, "OTEL_RESOURCE_ATTRIBUTES"@) is None ==> after.resource_attributes
                == settings.resource_attributes
            &&& setting(vars, "DEPLOYMENT_ENVIRONMENT"@) is None && setting(vars, "APP_ENV"@) is None
                ==> after.environment == settings.environment
            &&& after.service_version == settings.service_version
            &&& after.default_filter == settings.default_filter
            &&& after.log_format == settings.log_format
            &&& after.export_filtered_targets == settings.export_filtered_targets
        },
{
    let none = Seq::<(Seq<char>, Seq<char>)>::empty();
    assert(settings.resource_attributes + none =~= settings.resource_attributes);
    assert(insert_all(settings.headers, none) == settings.headers);
}

/// Both halves of the Cloudflare Access token, or neither: an environment that states
/// only one of them comes to what one without it comes to.
pub proof fn law_half_a_token_is_none(
    settings: Settings,
    vars: Map<Seq<char>, Seq<char>>,
    ratio: Option<u64>,
)
    ensures
        setting(vars, "CF_ACCESS_CLIENT_SECRET"@) is None ==> with_environment(
            settings,
            vars,
            ratio,
        ) == with_environment(settings, vars.remove("CF_ACCESS_CLIENT_ID"@), ratio),
        setting(vars, "CF_ACCESS_CLIENT_ID"@) is None ==> with_environment(settings, vars, ratio)
            == with_environment(settings, vars.remove("CF_ACCESS_CLIENT_SECRET"@), ratio),
{
    let id = "CF_ACCESS_CLIENT_ID"@;
    let secret = "CF_ACCESS_CLIENT_SECRET"@;
    reveal_strlit("CF_ACCESS_CLIENT_ID");
    reveal_strlit("CF_ACCESS_CLIENT_SECRET");
    reveal_strlit("OTEL_SERVICE_NAME");
    reveal_strlit("OTEL_EXPORTER_OTLP_TRACES_ENDPOINT");
    reveal_strlit("OTEL_EXPORTER_OTLP_ENDPOINT");
    reveal_strlit("OTEL_EXPORTER_OTLP_HEADERS");
    reveal_strlit("OTEL_EXPORTER_OTLP_TIMEOUT");
    reveal_strlit("OTEL_TRACES_SAMPLER_ARG");
    reveal_strlit("OTEL_RESOURCE_ATTRIBUTES");
    reveal_strlit("DEPLOYMENT_ENVIRONMENT");
    reveal_strlit("APP_ENV");
    assert(id.len() != secret.len());
    assert forall|key: Seq<char>| key.len() == 0 || key[0] != 'C' implies #[trigger] setting(
        vars,
        key,
    ) == setting(vars.remove(id), key) && setting(vars, key) == setting(
        vars.remove(secret),
        key,
    ) by {}
    assert(setting(vars, secret) == setting(vars.remove(id), secret));
    assert(setting(vars, id) == setting(vars.remove(secret), id));
}

/// The address is the base with `/v1/traces` behind it, or the base alone where it ends in
/// that; the slashes at the end of the base do not count, however many they are.
pub proof fn law_the_base_address_gets_the_signal_path(host: Seq<char>, slashes: nat)
    requires
        host.len() > 0 ==> host.last() != '/',
    ensures
        signal_address(host + repeated('/', slashes)) == (if host.len() >= 10 && host.skip(
            host.len() - 10,
        ) == "/v1/traces"@ {
            host
        } else {
            host + "/v1/traces"@
        }),
{
    reveal_strlit("/v1/traces");
    law_a_run_at_the_end_goes(host, '/', slashes);
}

/// A fresh configuration states a name and nothing else: no endpoint, so nothing is
/// exported, ten seconds for an export, every span, lines of `info` on stdout, and the
/// crates that the exporter speaks through kept from it.
pub proof fn law_a_fresh_configuration_exports_nothing(service_name: Seq<char>, key: Seq<char>)
    ensures
        ({
            let fresh = defaults(service_name);
            let kept = fresh.export_filtered_targets;
            &&& fresh.service_name == service_name
            &&& fresh.service_version is None && fresh.environment is None
            &&& fresh.endpoint is None
            &&& !fresh.headers.contains_key(key)
            &&& fresh.timeout == 10 * 1_000_000_000
            &&& fresh.sampling is AlwaysOn
            &&& fresh.resource_attributes.len() == 0
            &&& fresh.default_filter == "info"@
            &&& fresh.log_format is Text
            &&& kept == seq![
                "opentelemetry"@,
                "opentelemetry_sdk"@,
                "opentelemetry_otlp"@,
                "opentelemetry-sdk"@,
                "opentelemetry-otlp"@,
                "reqwest"@,
                "rustls"@,
                "hyper"@,
                "hyper_util"@,
                "h2"@,
                "tokio_util"@,
            ]
        }),
{
    assert(default_targets() =~= seq![
        "opentelemetry"@,
        "opentelemetry_sdk"@,
        "opentelemetry_otlp"@,
        "opentelemetry-sdk"@,
        "opentelemetry-otlp"@,
        "reqwest"@,
        "rustls"@,
        "hyper"@,
        "hyper_util"@,
        "h2"@,
        "tokio_util"@,
    ]);
}

/// Of two configurations laid one over the other, the upper one decides of what it states
/// and the lower one of everything else. The name is the lower one's, the attributes are
/// those of both, the upper one's last, and the targets are the upper one's.
pub proof fn law_what_is_stated_lies_over_what_is_not(
    mine: Settings,
    base: Settings,
    key: Seq<char>,
)
    ensures
        ({
            let both = laid_over(mine, base);
            &&& both.service_name == base.service_name
            &&& mine.service_version is Some ==> both.service_version == mine.service_version
            &&& mine.service_version is None ==> both.service_version == base.service_version
            &&& mine.environment is Some ==> both.environment == mine.environment
            &&& mine.environment is None ==> both.environment == base.environment
            &&& mine.endpoint is Some ==> both.endpoint == mine.endpoint
            &&& mine.endpoint is None ==> both.endpoint == base.endpoint
            &&& both.headers.contains_key(key) <==> mine.headers.contains_key(key)
                || base.headers.contains_key(key)
            &&& mine.headers.contains_key(key) ==> both.headers[key] == mine.headers[key]
            &&& base.headers.contains_key(key) && !mine.headers.contains_key(key)
                ==> both.headers[key] == base.headers[key]
            &&& mine.timeout != 10_000_000_000 ==> both.timeout == mine.timeout
            &&& mine.timeout == 10_000_000_000 ==> both.timeout == base.timeout
            &&& mine.sampling is Ratio ==> both.sampling == mine.sampling
            &&& mine.sampling is AlwaysOn ==> both.sampling == base.sampling
            &&& both.resource_attributes == base.resource_attributes + mine.resource_attributes
            &&& mine.default_filter != "info"@ ==> both.default_filter == mine.default_filter
            &&& mine.default_filter == "info"@ ==> both.default_filter == base.default_filter
            &&& mine.log_format != LogFormat::Text ==> both.log_format == mine.log_format
            &&& mine.log_format == LogFormat::Text ==> both.log_format == base.log_format
            &&& both.export_filtered_targets == mine.export_filtered_targets
        }),
{
}

} // verus!
