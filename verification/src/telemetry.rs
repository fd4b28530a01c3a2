//! Configuring, installing and tearing down telemetry.

use opentelemetry_sdk::propagation::TraceContextPropagator;
use opentelemetry_sdk::trace::{Sampler, SdkTracerProvider};
use vstd::prelude::*;

use crate::config::{
    defaults, endpoint_setting, join_signal_path, laid_over,
    law_a_blank_variable_is_an_absent_one, signal_address, string_texts, with_environment, Config,
    LogFormat, Sampling, Settings, MAX_TIMEOUT,
};
use crate::environment::{
    directives, law_a_variable_states_its_value, opt_text, raw_value, rust_log, stated, Environment,
};
use crate::error::{Error, Failure};
use crate::exporter::{ascii_values, flush, is_why, provider, reported, samples, stop};
use crate::propagate::W3cPropagator;
use crate::registration::{publish, Published, Refused, Registered, Subscription};
use crate::string_map::{insert_all, lemma_insert_all_in_two, pair_texts};
use crate::subscriber::{complaints_on, filter_for, subscribe, usable};
use crate::text::{concat, is_blank, is_tight, trimmed};
use crate::tracer_provider::{Flushed, Provider, Stopped, Unbuilt};

verus! {

/// A live telemetry installation. Hold it for the life of the process and
/// [`shutdown`](Telemetry::shutdown) it on the way out.
///
/// Dropping it without shutting down loses whatever the batch processor still
/// holds.
#[must_use]
#[derive(Debug)]
pub struct Telemetry {
    export: Option<Export>,
    subscription: Option<Subscription>,
    service_name: String,
    endpoint: Option<String>,
}

/// A provider that is fed: it is the global one, and the propagator of `traceparent` is
/// registered, which is what joins one service's span to the next one's.
#[derive(Debug)]
struct Export {
    provider: Provider,
    propagator: Registered,
    global: Published,
}

/// A [`Telemetry`] as a mathematical value.
#[verifier::ext_equal]
pub struct Installation {
    /// Whether spans leave the process.
    pub exporting: bool,
    /// The name the service reports itself under.
    pub service_name: Seq<char>,
    /// Where spans are sent.
    pub endpoint: Option<Seq<char>>,
}

impl View for Telemetry {
    type V = Installation;

    closed spec fn view(&self) -> Installation {
        Installation {
            exporting: self.export is Some,
            service_name: self.service_name@,
            endpoint: opt_text(self.endpoint),
        }
    }
}

/// An installation that exports nothing and holds nothing.
pub open spec fn inert() -> Installation {
    Installation { exporting: false, service_name: Seq::empty(), endpoint: None }
}

/// The installation that the settings describe.
pub open spec fn installed(settings: Settings) -> Installation {
    Installation {
        exporting: settings.endpoint is Some,
        service_name: settings.service_name,
        endpoint: settings.endpoint,
    }
}

/// What is printed of a failure on the way out.
pub open spec fn complaint(failure: Failure) -> Seq<char> {
    "telemetry: "@ + failure.message()
}

/// What is printed of a failure to install.
pub open spec fn install_complaint(failure: Failure) -> Seq<char> {
    complaint(failure) + "; continuing without traces"@
}

/// What is printed of a failure on the way out.
pub fn complain(e: &Error) -> (r: String)
    ensures
        r@ == complaint(e@),
{
    concat("telemetry: ", e.to_string().as_str())
}

/// The line to print of how tearing down went: none when it went well.
pub fn last_words(outcome: &Result<(), Error>) -> (r: Option<String>)
    ensures
        match outcome {
            Ok(_) => r is None,
            Err(e) => r matches Some(line) && line@ == complaint(e@),
        },
{
    match outcome {
        Ok(_) => None,
        Err(e) => Some(complain(e)),
    }
}

impl Telemetry {
    /// The provider, when spans leave the process.
    pub closed spec fn running(self) -> Option<Provider> {
        match self.export {
            Some(export) => Some(export.provider),
            None => None,
        }
    }

    /// The subscriber that was registered.
    pub closed spec fn subscribed(self) -> Option<Subscription> {
        self.subscription
    }

    /// The propagator of `traceparent` that was registered.
    pub closed spec fn registered(self) -> Option<TraceContextPropagator> {
        match self.export {
            Some(export) => Some(export.propagator.propagator()),
            None => None,
        }
    }

    /// The provider that was made the global one.
    pub closed spec fn published(self) -> Option<SdkTracerProvider> {
        match self.export {
            Some(export) => Some(export.global.provider()),
            None => None,
        }
    }

    /// Whether nothing runs, and nothing was registered.
    pub open spec fn holds_nothing(self) -> bool {
        &&& self.running() is None
        &&& self.subscribed() is None
        &&& self.registered() is None
        &&& self.published() is None
    }

    /// Starts configuring telemetry for a service.
    ///
    /// `OTEL_SERVICE_NAME` overrides `service_name`; what is passed here is the name
    /// the binary knows itself by.
    pub fn builder(service_name: &str) -> (r: Builder)
        ensures
            r@ == (Choices {
                settings: defaults(service_name@),
                timeout_stated: false,
                read_env: true,
            }),
    {
        Builder { config: Config::new(service_name), timeout_stated: false, read_env: true }
    }

    /// An installation that exports nothing and holds nothing: for a test, or for a
    /// caller that decided against telemetry after building one.
    pub fn disabled() -> (r: Self)
        ensures
            r@ == inert(),
            r.holds_nothing(),
    {
        Telemetry {
            export: None,
            subscription: None,
            service_name: String::new(),
            endpoint: None,
        }
    }

    /// Whether spans are actually leaving this process.
    pub fn is_exporting(&self) -> (r: bool)
        ensures
            r == self@.exporting,
    {
        self.export.is_some()
    }

    /// The name this service reports itself under.
    pub fn service_name(&self) -> (r: &str)
        ensures
            r@ == self@.service_name,
    {
        self.service_name.as_str()
    }

    /// Where spans are being sent, if anywhere.
    pub fn endpoint(&self) -> (r: Option<&str>)
        ensures
            match r {
                Some(endpoint) => self@.endpoint == Some(endpoint@),
                None => self@.endpoint is None,
            },
    {
        match &self.endpoint {
            Some(endpoint) => Some(endpoint.as_str()),
            None => None,
        }
    }

    /// Exports whatever is batched right now, without stopping. What comes with the
    /// report is the provider that was asked, if any is running.
    pub fn force_flush(&self) -> (r: (Result<(), Error>, Option<Flushed>))
        ensures
            match (self.running(), r.1) {
                (Some(provider), Some(flushed)) => {
                    &&& flushed.of() == provider.handle()
                    &&& reported(flushed.answer(), r.0)
                },
                (None, None) => r.0 is Ok,
                _ => false,
            },
            self@.exporting == (self.running() is Some),
    {
        match &self.export {
            Some(export) => {
                let (report, flushed) = flush(&export.provider);
                (report, Some(flushed))
            },
            None => (Ok(()), None),
        }
    }

    /// Flushes and stops the exporter, reporting what went wrong. What comes with the
    /// report is the provider that was stopped, if any was running.
    pub fn try_shutdown(self) -> (r: (Result<(), Error>, Option<Stopped>))
        ensures
            match (self.running(), r.1) {
                (Some(provider), Some(stopped)) => {
                    &&& stopped.of() == provider.handle()
                    &&& reported(stopped.answer(), r.0)
                },
                (None, None) => r.0 is Ok,
                _ => false,
            },
            self@.exporting == (self.running() is Some),
    {
        match &self.export {
            Some(export) => {
                let (report, stopped) = stop(&export.provider);
                (report, Some(stopped))
            },
            None => (Ok(()), None),
        }
    }

    /// [`try_shutdown`](Telemetry::try_shutdown), with the failure as the line to
    /// print on stderr.
    pub fn shutdown(self) -> (r: (Option<String>, Option<Stopped>))
        ensures
            match (self.running(), r.1) {
                (Some(provider), Some(stopped)) => {
                    &&& stopped.of() == provider.handle()
                    &&& match stopped.answer() {
                        None => r.0 is None,
                        Some(reason) => r.0 matches Some(line) && line@ == complaint(
                            Failure::Shutdown(reason),
                        ),
                    }
                },
                (None, None) => r.0 is None,
                _ => false,
            },
            self@.exporting == (self.running() is Some),
    {
        let (outcome, stopped) = self.try_shutdown();
        (last_words(&outcome), stopped)
    }
}

/// Configures and installs telemetry. Built by [`Telemetry::builder`].
///
/// Anything set here wins over the environment: a value in code is a decision, a
/// value in the environment is a default.
#[derive(Debug)]
pub struct Builder {
    config: Config,
    timeout_stated: bool,
    read_env: bool,
}

/// A [`Builder`] as a mathematical value.
#[verifier::ext_equal]
pub struct Choices {
    /// What the builder was told, over the defaults.
    pub settings: Settings,
    /// Whether it was told a timeout.
    pub timeout_stated: bool,
    /// Whether the environment is read.
    pub read_env: bool,
}

impl View for Builder {
    type V = Choices;

    closed spec fn view(&self) -> Choices {
        Choices {
            settings: self.config@,
            timeout_stated: self.timeout_stated,
            read_env: self.read_env,
        }
    }
}

impl Clone for Builder {
    fn clone(&self) -> (r: Self)
        ensures
            r@ == self@,
    {
        proof {
            use_type_invariant(self);
        }
        Builder {
            config: self.config.clone(),
            timeout_stated: self.timeout_stated,
            read_env: self.read_env,
        }
    }
}

/// The settings that the choices come to in an environment: the environment is the
/// default, so it is applied first, and what was chosen is laid over it.
pub open spec fn resolved(
    choices: Choices,
    vars: Map<Seq<char>, Seq<char>>,
    ratio: Option<u64>,
) -> Result<Settings, Failure> {
    if choices.read_env {
        match with_environment(defaults(choices.settings.service_name), vars, ratio) {
            Err(e) => Err(e),
            Ok(base) => {
                let merged = laid_over(choices.settings, base);
                Ok(
                    Settings {
                        timeout: if choices.timeout_stated {
                            choices.settings.timeout
                        } else {
                            merged.timeout
                        },
                        ..merged
                    },
                )
            },
        }
    } else {
        Ok(choices.settings)
    }
}

/// The filter directives that the choices come to in an environment.
pub open spec fn chosen_directives(
    choices: Choices,
    settings: Settings,
    vars: Map<Seq<char>, Seq<char>>,
) -> Seq<char> {
    match stated(raw_value(vars, "RUST_LOG"@)) {
        Some(text) if choices.read_env => text,
        _ => settings.default_filter,
    }
}

impl Builder {
    #[verifier::type_invariant]
    spec fn well_formed(self) -> bool {
        self.config.timeout <= MAX_TIMEOUT
    }

    /// Sets `service.version`.
    pub fn version(self, version: &str) -> (r: Self)
        ensures
            r@ == (Choices {
                settings: Settings { service_version: Some(version@), ..self@.settings },
                ..self@
            }),
    {
        proof {
            use_type_invariant(&self);
        }
        let mut config = self.config;
        config.service_version = Some(version.to_owned());
        Builder { config, ..self }
    }

    /// Sets `deployment.environment.name`: production, staging, development.
    pub fn environment(self, environment: &str) -> (r: Self)
        ensures
            r@ == (Choices {
                settings: Settings { environment: Some(environment@), ..self@.settings },
                ..self@
            }),
    {
        proof {
            use_type_invariant(&self);
        }
        let mut config = self.config;
        config.environment = Some(environment.to_owned());
        Builder { config, ..self }
    }

    /// Sets the collector's base URL; `/v1/traces` is appended if it is not already
    /// there. Setting it is what turns export on.
    pub fn endpoint(self, endpoint: &str) -> (r: Self)
        ensures
            r@ == (Choices {
                settings: Settings {
                    endpoint: Some(signal_address(endpoint@)),
                    ..self@.settings
                },
                ..self@
            }),
    {
        proof {
            use_type_invariant(&self);
        }
        let mut config = self.config;
        config.endpoint = Some(join_signal_path(endpoint));
        Builder { config, ..self }
    }

    /// Adds one header to every export request.
    pub fn header(self, name: &str, value: &str) -> (r: Self)
        ensures
            r@ == (Choices {
                settings: Settings {
                    headers: self@.settings.headers.insert(name@, value@),
                    ..self@.settings
                },
                ..self@
            }),
    {
        proof {
            use_type_invariant(&self);
        }
        let mut config = self.config;
        config.headers.insert(name.to_owned(), value.to_owned());
        Builder { config, ..self }
    }

    /// The Cloudflare Access service token, as the two headers its policies check.
    pub fn cloudflare_access(self, client_id: &str, secret: &str) -> (r: Self)
        ensures
            r@ == (Choices {
                settings: Settings {
                    headers: self@.settings.headers.insert(
                        "CF-Access-Client-Id"@,
                        client_id@,
                    ).insert("CF-Access-Client-Secret"@, secret@),
                    ..self@.settings
                },
                ..self@
            }),
    {
        self.header("CF-Access-Client-Id", client_id).header("CF-Access-Client-Secret", secret)
    }

    /// Records this share of traces; `ratio` holds the bits of an IEEE 754 binary64
    /// number between 0.0 and 1.0. Out-of-range values are clamped.
    pub fn sample_ratio(self, ratio: u64) -> (r: Self)
        ensures
            r@ == (Choices {
                settings: Settings { sampling: Sampling::Ratio(ratio), ..self@.settings },
                ..self@
            }),
    {
        proof {
            use_type_invariant(&self);
        }
        let mut config = self.config;
        config.sampling = Sampling::Ratio(ratio);
        Builder { config, ..self }
    }

    /// How long one export attempt may take, in nanoseconds.
    pub fn export_timeout(self, timeout: u128) -> (r: Self)
        requires
            timeout <= MAX_TIMEOUT,
        ensures
            r@ == (Choices {
                settings: Settings { timeout, ..self@.settings },
                timeout_stated: true,
                ..self@
            }),
    {
        let mut config = self.config;
        config.timeout = timeout;
        Builder { config, timeout_stated: true, ..self }
    }

    /// Adds a resource attribute to every span.
    pub fn resource_attribute(self, key: &str, value: &str) -> (r: Self)
        ensures
            r@ == (Choices {
                settings: Settings {
                    resource_attributes: self@.settings.resource_attributes.push((key@, value@)),
                    ..self@.settings
                },
                ..self@
            }),
    {
        proof {
            use_type_invariant(&self);
        }
        let mut config = self.config;
        let ghost before = pair_texts(config.resource_attributes@);
        config.resource_attributes.push((key.to_owned(), value.to_owned()));
        assert(pair_texts(config.resource_attributes@) =~= before.push((key@, value@)));
        Builder { config, ..self }
    }

    /// The `EnvFilter` directives to use when `RUST_LOG` is unset.
    pub fn default_filter(self, filter: &str) -> (r: Self)
        ensures
            r@ == (Choices {
                settings: Settings { default_filter: filter@, ..self@.settings },
                ..self@
            }),
    {
        proof {
            use_type_invariant(&self);
        }
        let mut config = self.config;
        config.default_filter = filter.to_owned();
        Builder { config, ..self }
    }

    /// How the process writes to stdout.
    pub fn log_format(self, format: LogFormat) -> (r: Self)
        ensures
            r@ == (Choices {
                settings: Settings { log_format: format, ..self@.settings },
                ..self@
            }),
    {
        proof {
            use_type_invariant(&self);
        }
        let mut config = self.config;
        config.log_format = format;
        Builder { config, ..self }
    }

    /// Ignores the environment entirely: only what this builder sets applies.
    pub fn without_env(self) -> (r: Self)
        ensures
            r@ == (Choices { read_env: false, ..self@ }),
    {
        proof {
            use_type_invariant(&self);
        }
        Builder { read_env: false, ..self }
    }

    /// The configuration as it stands, environment included. Useful to log, or to
    /// assert on in a test.
    pub fn config(&self, env: &Environment) -> (r: Result<Config, Error>)
        ensures
            match r {
                Ok(config) => {
                    &&& resolved(self@, env.vars@, env.sampler_ratio) == Ok::<_, Failure>(config@)
                    &&& config.timeout <= MAX_TIMEOUT
                },
                Err(e) => resolved(self@, env.vars@, env.sampler_ratio) == Err::<Settings, _>(e@),
            },
    {
        proof {
            use_type_invariant(self);
        }
        if self.read_env {
            // The environment is the default, so it is applied to a fresh config and
            // then overwritten by whatever this builder was told explicitly.
            match Config::new(self.config.service_name.as_str()).with_env(env) {
                Ok(from_env) => {
                    let mut merged = self.config.clone().over(from_env);
                    if self.timeout_stated {
                        merged.timeout = self.config.timeout;
                    }
                    Ok(merged)
                },
                Err(e) => Err(e),
            }
        } else {
            Ok(self.config.clone())
        }
    }

    /// Installs telemetry, reporting what went wrong. What is to be printed on stderr
    /// is put behind `complaints`; `make_ratio` makes the SDK's sampler for a ratio, given
    /// by the bits of a binary64 number.
    ///
    /// Fails when the configuration is unusable, when the exporter cannot be built, or
    /// when a global `tracing` subscriber is already installed.
    pub fn try_install<F: FnOnce(u64) -> Sampler>(
        self,
        env: &Environment,
        make_ratio: F,
        complaints: &mut Vec<String>,
    ) -> (r: Result<Telemetry, NotInstalled>)
        requires
            forall|bits: u64| call_requires(make_ratio, (bits,)),
        ensures
            match resolved(self@, env.vars@, env.sampler_ratio) {
                Err(failure) => {
                    &&& r matches Err(failed)
                    &&& failed.error@ == failure
                    &&& failed.nothing_was_tried()
                    &&& string_texts(final(complaints)@) == string_texts(old(complaints)@)
                },
                Ok(settings) => {
                    let directives = chosen_directives(self@, settings, env.vars@);
                    match r {
                        Ok(telemetry) => {
                            &&& installs(telemetry, settings, directives, make_ratio)
                            &&& string_texts(final(complaints)@) == string_texts(old(complaints)@)
                                + complaints_on(directives)
                        },
                        Err(failed) => {
                            &&& fails(failed, settings, directives, make_ratio)
                            &&& string_texts(final(complaints)@) == string_texts(old(complaints)@)
                                + failed.said_before(directives)
                        },
                    }
                },
            },
    {
        let config = match self.config(env) {
            Ok(config) => config,
            Err(error) => {
                return Err(
                    NotInstalled { error, unbuilt: None, refused: None, stopped: None },
                );
            },
        };
        let ghost before = string_texts(complaints@);
        assert(before + Seq::empty() =~= before);
        let provider = match provider(&config, make_ratio) {
            Ok(provider) => provider,
            Err(failed) => {
                return Err(
                    NotInstalled {
                        error: failed.error,
                        unbuilt: failed.unbuilt,
                        refused: None,
                        stopped: None,
                    },
                );
            },
        };
        let from_env = if self.read_env {
            rust_log(&env.vars)
        } else {
            None
        };
        let wanted = directives(from_env, config.default_filter.as_str());
        let filter = filter_for(wanted.as_str(), complaints);
        let subscription = subscribe(&config, filter, provider.as_ref());
        finish(config, provider, subscription)
    }

    /// Installs telemetry, and carries on without it if it cannot.
    ///
    /// A service that cannot reach its collector is still a service. The reason is put
    /// behind `complaints`, to be printed on stderr, and the returned [`Telemetry`] is
    /// inert; what failed comes with it.
    pub fn install<F: FnOnce(u64) -> Sampler>(
        self,
        env: &Environment,
        make_ratio: F,
        complaints: &mut Vec<String>,
    ) -> (r: (Telemetry, Option<NotInstalled>))
        requires
            forall|bits: u64| call_requires(make_ratio, (bits,)),
        ensures
            r.1 is Some ==> r.0@ == inert() && r.0.holds_nothing(),
            match resolved(self@, env.vars@, env.sampler_ratio) {
                Err(failure) => {
                    &&& r.1 matches Some(failed)
                    &&& failed.error@ == failure
                    &&& failed.nothing_was_tried()
                    &&& string_texts(final(complaints)@) == string_texts(old(complaints)@).push(
                        install_complaint(failure),
                    )
                },
                Ok(settings) => {
                    let before = string_texts(old(complaints)@);
                    let after = string_texts(final(complaints)@);
                    let directives = chosen_directives(self@, settings, env.vars@);
                    match r.1 {
                        None => {
                            &&& installs(r.0, settings, directives, make_ratio)
                            &&& after == before + complaints_on(directives)
                        },
                        Some(failed) => {
                            &&& fails(failed, settings, directives, make_ratio)
                            &&& after == (before + failed.said_before(directives)).push(
                                install_complaint(failed.error@),
                            )
                        },
                    }
                },
            },
    {
        let outcome = self.try_install(env, make_ratio, complaints);
        recover(outcome, complaints)
    }
}

/// A failure to install: what is reported, and what had been done by then.
#[derive(Debug)]
pub struct NotInstalled {
    /// What is reported.
    pub error: Error,
    /// The exporter that was not built.
    pub unbuilt: Option<Unbuilt>,
    /// The subscriber whose registration failed.
    pub refused: Option<Refused>,
    /// The provider that was stopped again.
    pub stopped: Option<Stopped>,
}

impl NotInstalled {
    /// Whether nothing had been done by then.
    pub open spec fn nothing_was_tried(self) -> bool {
        self.unbuilt is None && self.refused is None && self.stopped is None
    }

    /// What had been said of the filter directives by then.
    pub open spec fn said_before(self, directives: Seq<char>) -> Seq<Seq<char>> {
        if self.refused is Some {
            complaints_on(directives)
        } else {
            Seq::empty()
        }
    }
}

/// Whether this is the installation for the settings: a subscriber with the directives
/// and, if and only if they name an endpoint, a provider that the subscriber hands spans
/// to and that is the global one, and a registered propagator of `traceparent`.
pub open spec fn installs<F: FnOnce(u64) -> Sampler>(
    telemetry: Telemetry,
    settings: Settings,
    directives: Seq<char>,
    make_ratio: F,
) -> bool {
    &&& telemetry@ == installed(settings)
    &&& telemetry.running() is Some <==> settings.endpoint is Some
    &&& telemetry.registered() is Some <==> settings.endpoint is Some
    &&& telemetry.published() is Some <==> settings.endpoint is Some
    &&& telemetry.running() matches Some(provider) ==> {
        &&& ascii_values(settings.headers)
        &&& provider.is_for(settings)
        &&& samples(provider.sampler(), settings.sampling, make_ratio)
        &&& telemetry.published() == Some(provider.handle())
    }
    &&& telemetry.subscribed() matches Some(subscription) && {
        &&& subscription.told().is_for(settings, usable(directives), settings.endpoint is Some)
        &&& subscription.over() == telemetry.published()
    }
}

/// Whether this is a failure to install what the settings describe: there is no provider
/// for them, or a subscriber was refused and the provider built for them was stopped.
pub open spec fn fails<F: FnOnce(u64) -> Sampler>(
    failed: NotInstalled,
    settings: Settings,
    directives: Seq<char>,
    make_ratio: F,
) -> bool {
    match failed.refused {
        None => {
            &&& settings.endpoint is Some
            &&& is_why(failed.error@, failed.unbuilt, settings)
            &&& failed.stopped is None
        },
        Some(refused) => {
            &&& failed.error@ is SubscriberAlreadySet
            &&& failed.unbuilt is None
            &&& refused.told().is_for(settings, usable(directives), settings.endpoint is Some)
            &&& match failed.stopped {
                None => settings.endpoint is None && refused.over() is None,
                Some(stopped) => {
                    &&& settings.endpoint is Some
                    &&& ascii_values(settings.headers)
                    &&& exists|provider: Provider|
                        {
                            &&& #[trigger] provider.is_for(settings)
                            &&& samples(provider.sampler(), settings.sampling, make_ratio)
                            &&& stopped.of() == provider.handle()
                            &&& refused.over() == Some(provider.handle())
                        }
                },
            }
        },
    }
}

/// What an installation comes to once the subscriber was registered, or was not.
///
/// A provider that nothing feeds is stopped: it owns a thread that would export
/// nothing forever. One that is fed becomes the global one, and the propagator of
/// `traceparent` is registered.
pub fn finish(
    config: Config,
    provider: Option<Provider>,
    subscription: Result<Subscription, Refused>,
) -> (r: Result<Telemetry, NotInstalled>)
    requires
        subscription matches Ok(subscription) ==> subscription.over() == (match provider {
            Some(provider) => Some(provider.handle()),
            None => None,
        }),
    ensures
        match subscription {
            Ok(subscription) => {
                &&& r matches Ok(telemetry)
                &&& telemetry.running() == provider
                &&& telemetry.subscribed() == Some(subscription)
                &&& telemetry.registered() is Some <==> provider is Some
                &&& telemetry.published() == (match provider {
                    Some(provider) => Some(provider.handle()),
                    None => None,
                })
                &&& telemetry@.exporting == (provider is Some)
                &&& telemetry@.service_name == config@.service_name
                &&& telemetry@.endpoint == config@.endpoint
            },
            Err(refused) => {
                &&& r matches Err(failed)
                &&& failed.error@ is SubscriberAlreadySet
                &&& failed.unbuilt is None
                &&& failed.refused == Some(refused)
                &&& match (provider, failed.stopped) {
                    (Some(provider), Some(stopped)) => stopped.of() == provider.handle(),
                    (None, None) => true,
                    _ => false,
                }
            },
        },
{
    let subscription = match subscription {
        Ok(subscription) => subscription,
        Err(refused) => {
            let stopped = match &provider {
                Some(provider) => Some(stop(provider).1),
                None => None,
            };
            return Err(
                NotInstalled {
                    error: Error::SubscriberAlreadySet,
                    unbuilt: None,
                    refused: Some(refused),
                    stopped,
                },
            );
        },
    };
    let export = match provider {
        Some(provider) => {
            let propagator = W3cPropagator::new().register(&subscription);
            let global = publish(&provider, &subscription);
            Some(Export { provider, propagator, global })
        },
        None => None,
    };
    Ok(
        Telemetry {
            export,
            subscription: Some(subscription),
            service_name: config.service_name,
            endpoint: config.endpoint,
        },
    )
}

/// What a service carries on with: the installation, or an inert one and a complaint.
pub fn recover(outcome: Result<Telemetry, NotInstalled>, complaints: &mut Vec<String>) -> (r: (
    Telemetry,
    Option<NotInstalled>,
))
    ensures
        match outcome {
            Ok(telemetry) => {
                &&& r.0 == telemetry
                &&& r.1 is None
                &&& *final(complaints) == *old(complaints)
            },
            Err(failed) => {
                &&& r.0@ == inert()
                &&& r.0.holds_nothing()
                &&& r.1 == Some(failed)
                &&& string_texts(final(complaints)@) == string_texts(old(complaints)@).push(
                    install_complaint(failed.error@),
                )
            },
        },
{
    match outcome {
        Ok(telemetry) => (telemetry, None),
        Err(failed) => {
            let ghost before = string_texts(complaints@);
            complaints.push(concat(complain(&failed.error).as_str(), "; continuing without traces"));
            assert(string_texts(complaints@) =~= before.push(install_complaint(failed.error@)));
            (Telemetry::disabled(), Some(failed))
        },
    }
}

/// Nothing leaves the process until an endpoint is stated, by the builder or by the
/// environment; stating one is what turns export on.
pub proof fn law_nothing_is_exported_without_an_endpoint(
    choices: Choices,
    vars: Map<Seq<char>, Seq<char>>,
    ratio: Option<u64>,
)
    ensures
        resolved(choices, vars, ratio) matches Ok(settings) ==> {
            installed(settings).exporting <==> {
                ||| choices.settings.endpoint is Some
                ||| choices.read_env && endpoint_setting(vars) is Some
            }
        },
{
}

/// What the builder was told wins over the environment.
pub proof fn law_what_the_builder_states_wins(
    choices: Choices,
    vars: Map<Seq<char>, Seq<char>>,
    ratio: Option<u64>,
    settings: Settings,
    earlier: Map<Seq<char>, Seq<char>>,
    key: Seq<char>,
)
    requires
        resolved(choices, vars, ratio) == Ok::<_, Failure>(settings),
    ensures
        choices.settings.service_version is Some ==> settings.service_version
            == choices.settings.service_version,
        choices.settings.environment is Some ==> settings.environment
            == choices.settings.environment,
        choices.settings.endpoint is Some ==> settings.endpoint == choices.settings.endpoint,
        choices.settings.headers.contains_key(key) ==> settings.headers.contains_key(key)
            && settings.headers[key] == choices.settings.headers[key],
        choices.timeout_stated ==> settings.timeout == choices.settings.timeout,
        choices.settings.sampling is Ratio ==> settings.sampling == choices.settings.sampling,
        ({
            let told = insert_all(Map::empty(), choices.settings.resource_attributes);
            let found = insert_all(earlier, settings.resource_attributes);
            told.contains_key(key) ==> found.contains_key(key) && found[key] == told[key]
        }),
        settings.default_filter == choices.settings.default_filter,
        settings.log_format == choices.settings.log_format,
        settings.export_filtered_targets == choices.settings.export_filtered_targets,
{
    let mine = choices.settings.resource_attributes;
    if choices.read_env {
        let base = with_environment(
            defaults(choices.settings.service_name),
            vars,
            ratio,
        )->Ok_0.resource_attributes;
        lemma_insert_all_in_two(earlier, base, mine, key);
    } else {
        assert(Seq::empty() + mine =~= mine);
        lemma_insert_all_in_two(earlier, Seq::empty(), mine, key);
    }
}

/// What the builder was not told comes from the environment, when it is read.
pub proof fn law_the_environment_is_the_default(
    choices: Choices,
    vars: Map<Seq<char>, Seq<char>>,
    ratio: Option<u64>,
    base: Settings,
    key: Seq<char>,
)
    requires
        choices.read_env,
        with_environment(defaults(choices.settings.service_name), vars, ratio) == Ok::<_, Failure>(
            base,
        ),
    ensures
        resolved(choices, vars, ratio) matches Ok(settings) && {
            &&& settings.service_name == base.service_name
            &&& choices.settings.environment is None ==> settings.environment == base.environment
            &&& choices.settings.endpoint is None ==> settings.endpoint == base.endpoint
            &&& !choices.settings.headers.contains_key(key) ==> settings.headers.contains_key(key)
                == base.headers.contains_key(key)
            &&& !choices.settings.headers.contains_key(key) && base.headers.contains_key(key)
                ==> settings.headers[key] == base.headers[key]
            &&& !choices.timeout_stated && choices.settings.timeout == defaults(
                Seq::empty(),
            ).timeout ==> settings.timeout == base.timeout
            &&& choices.settings.sampling is AlwaysOn ==> settings.sampling == base.sampling
            &&& choices.settings.resource_attributes.len() == 0 ==> settings.resource_attributes
                == base.resource_attributes
        },
{
    let merged = laid_over(choices.settings, base);
    if choices.settings.resource_attributes.len() == 0 {
        assert(merged.resource_attributes =~= base.resource_attributes);
    }
}

/// A builder that ignores the environment comes to the same in every environment.
pub proof fn law_an_ignored_environment_decides_nothing(
    choices: Choices,
    a: Map<Seq<char>, Seq<char>>,
    b: Map<Seq<char>, Seq<char>>,
    ratio_a: Option<u64>,
    ratio_b: Option<u64>,
    settings: Settings,
)
    requires
        !choices.read_env,
    ensures
        resolved(choices, a, ratio_a) == Ok::<_, Failure>(choices.settings),
        resolved(choices, a, ratio_a) == resolved(choices, b, ratio_b),
        chosen_directives(choices, settings, a) == chosen_directives(choices, settings, b),
{
}

/// A blank variable counts as an absent one, `RUST_LOG` among them: an empty filter
/// would silence a service.
pub proof fn law_blank_is_absent(
    choices: Choices,
    vars: Map<Seq<char>, Seq<char>>,
    ratio: Option<u64>,
    settings: Settings,
    key: Seq<char>,
    blank: Seq<char>,
)
    requires
        trimmed(blank).len() == 0,
    ensures
        resolved(choices, vars.insert(key, blank), ratio) == resolved(
            choices,
            vars.remove(key),
            ratio,
        ),
        chosen_directives(choices, settings, vars.insert(key, blank)) == chosen_directives(
            choices,
            settings,
            vars.remove(key),
        ),
        chosen_directives(choices, settings, vars.remove("RUST_LOG"@)) == settings.default_filter,
{
    law_a_blank_variable_is_an_absent_one(
        defaults(choices.settings.service_name),
        vars,
        ratio,
        key,
        blank,
    );
}

/// The filter is what `RUST_LOG` says whenever it says something, whatever the default is
/// and wherever that comes from. Only where it is absent or blank, or the environment is
/// not read, is the filter the default.
pub proof fn law_rust_log_decides_the_filter(
    choices: Choices,
    settings: Settings,
    vars: Map<Seq<char>, Seq<char>>,
    before: Seq<char>,
    text: Seq<char>,
    after: Seq<char>,
)
    requires
        is_blank(before),
        is_blank(after),
        is_tight(text),
    ensures
        choices.read_env ==> chosen_directives(
            choices,
            settings,
            vars.insert("RUST_LOG"@, before + text + after),
        ) == text,
        choices.read_env && vars.contains_key("RUST_LOG"@) && trimmed(vars["RUST_LOG"@]).len() > 0
            ==> chosen_directives(choices, settings, vars) == trimmed(vars["RUST_LOG"@]),
        chosen_directives(choices, settings, vars.insert("RUST_LOG"@, before))
            == settings.default_filter,
        chosen_directives(choices, settings, vars.remove("RUST_LOG"@)) == settings.default_filter,
        !choices.read_env ==> chosen_directives(choices, settings, vars)
            == settings.default_filter,
{
    let full = vars.insert("RUST_LOG"@, before + text + after);
    law_a_variable_states_its_value(full, "RUST_LOG"@, before, text, after);
    let blank = vars.insert("RUST_LOG"@, before);
    law_a_variable_states_its_value(blank, "RUST_LOG"@, before, text, after);
}

/// What the environment fails with, the whole fails with, if and only if the environment
/// is read; otherwise there are settings, with the attributes of the environment before
/// those of the builder.
pub proof fn law_an_unusable_environment_is_reported(
    choices: Choices,
    vars: Map<Seq<char>, Seq<char>>,
    ratio: Option<u64>,
)
    ensures
        ({
            let found = with_environment(defaults(choices.settings.service_name), vars, ratio);
            let both = resolved(choices, vars, ratio);
            &&& both is Err <==> choices.read_env && found is Err
            &&& both is Err ==> both->Err_0 == found->Err_0
            &&& choices.read_env && found is Ok ==> both->Ok_0.resource_attributes
                == found->Ok_0.resource_attributes + choices.settings.resource_attributes
            &&& choices.read_env && found is Ok ==> both->Ok_0.service_version
                == choices.settings.service_version
            &&& choices.read_env && found is Ok ==> both->Ok_0.service_name
                == found->Ok_0.service_name
            &&& choices.read_env && found is Ok && !choices.timeout_stated
                && choices.settings.timeout != 10_000_000_000 ==> both->Ok_0.timeout
                == choices.settings.timeout
        }),
{
}

/// An installation holds what its settings name: the name and the address they state, and
/// spans leave the process if and only if there is an address.
pub proof fn law_an_installation_is_what_was_asked_for<F: FnOnce(u64) -> Sampler>(
    telemetry: Telemetry,
    settings: Settings,
    directives: Seq<char>,
    make_ratio: F,
)
    requires
        installs(telemetry, settings, directives, make_ratio),
    ensures
        telemetry@.service_name == settings.service_name,
        telemetry@.endpoint == settings.endpoint,
        telemetry@.exporting <==> settings.endpoint is Some,
        telemetry.running() is Some <==> settings.endpoint is Some,
        telemetry.registered() is Some <==> settings.endpoint is Some,
        telemetry.published() is Some <==> settings.endpoint is Some,
        telemetry.running() is Some ==> telemetry.published() == Some(
            telemetry.running()->Some_0.handle(),
        ),
        telemetry.running() is Some ==> telemetry.running()->Some_0.is_for(settings),
        telemetry.subscribed() is Some,
        telemetry.subscribed()->Some_0.over() == telemetry.published(),
        telemetry.subscribed()->Some_0.told().exports == (settings.endpoint is Some),
        string_texts(telemetry.subscribed()->Some_0.told().targets@)
            == settings.export_filtered_targets,
        telemetry.subscribed()->Some_0.told().text is Some <==> settings.log_format
            == LogFormat::Text,
        telemetry.subscribed()->Some_0.told().json is Some <==> settings.log_format
            == LogFormat::Json,
        telemetry.subscribed()->Some_0.told().directives@ == directives || {
            &&& telemetry.subscribed()->Some_0.told().directives@ == "info"@
            &&& complaints_on(directives).len() == 1
        },
        inert().exporting == false && inert().endpoint is None && inert().service_name.len() == 0,
{
}

/// A failure to install leaves nothing behind that exports: either there was no provider to
/// begin with, or the subscriber was refused and the provider built for it was stopped.
pub proof fn law_a_failure_leaves_nothing_running<F: FnOnce(u64) -> Sampler>(
    failed: NotInstalled,
    settings: Settings,
    directives: Seq<char>,
    make_ratio: F,
)
    requires
        fails(failed, settings, directives, make_ratio),
    ensures
        failed.refused is Some <==> failed.error@ is SubscriberAlreadySet,
        failed.refused is None ==> {
            &&& settings.endpoint is Some
            &&& failed.error@ is Exporter
            &&& failed.stopped is None
            &&& is_why(failed.error@, failed.unbuilt, settings)
            &&& failed.said_before(directives).len() == 0
        },
        failed.refused is Some ==> {
            &&& failed.unbuilt is None
            &&& failed.stopped is Some <==> settings.endpoint is Some
            &&& failed.stopped is Some ==> failed.refused->Some_0.over() == Some(
                failed.stopped->Some_0.of(),
            )
            &&& failed.stopped is None ==> failed.refused->Some_0.over() is None
            &&& failed.refused->Some_0.told().exports == (settings.endpoint is Some)
            &&& failed.said_before(directives) == complaints_on(directives)
        },
{
}

/// What is printed of a failure says what it is about and why, and what follows from it.
pub proof fn law_a_complaint_says_what_and_why(reason: Seq<char>)
    ensures
        complaint(Failure::Config(reason)) == "telemetry: "@ + reason,
        complaint(Failure::Exporter(reason)) == "telemetry: building the OTLP exporter: "@ + reason,
        complaint(Failure::Shutdown(reason)) == "telemetry: shutting telemetry down: "@ + reason,
        install_complaint(Failure::Config(reason)) == "telemetry: "@ + reason
            + "; continuing without traces"@,
        install_complaint(Failure::Exporter(reason))
            == "telemetry: building the OTLP exporter: "@ + reason
            + "; continuing without traces"@,
        install_complaint(Failure::SubscriberAlreadySet)
            == "telemetry: a global tracing subscriber is already installed; continuing without traces"@,
{
    reveal_strlit("telemetry: ");
    reveal_strlit("building the OTLP exporter: ");
    reveal_strlit("telemetry: building the OTLP exporter: ");
    reveal_strlit("shutting telemetry down: ");
    reveal_strlit("telemetry: shutting telemetry down: ");
    assert(complaint(Failure::Exporter(reason))
        =~= "telemetry: building the OTLP exporter: "@ + reason);
    assert(complaint(Failure::Shutdown(reason))
        =~= "telemetry: shutting telemetry down: "@ + reason);
    reveal_strlit("a global tracing subscriber is already installed");
    reveal_strlit("; continuing without traces");
    reveal_strlit(
        "telemetry: a global tracing subscriber is already installed; continuing without traces",
    );
    assert(install_complaint(Failure::SubscriberAlreadySet)
        =~= "telemetry: a global tracing subscriber is already installed; continuing without traces"@);
}

} // verus!
