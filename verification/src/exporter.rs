//! Turning a [`Config`] into a tracer provider.

use opentelemetry_sdk::trace::Sampler;
use vstd::prelude::*;

use crate::config::{Config, Sampling, Settings, MAX_TIMEOUT};
use crate::error::{Error, Failure};
use crate::export_plan::{plan, ExportPlan};
use crate::number::{is_nan, rank, INFINITY, ONE, SIGN};
use crate::pairs::{quote, quoted};
use crate::parent_based::{following, parent_based_always_on, parent_based_ratio, ParentBased};
use crate::string_map::{
    copy_pairs, insert_all, keys_differ, law_the_last_pair_of_a_key_decides, lemma_map_of, map_of,
    pair_texts,
};
use crate::text::{is_ascii, only_ascii};
use crate::tracer_provider::{
    build_exporter, build_provider, build_resource, flush_provider, resource_entries,
    stop_provider, Entity, Exporter, Flushed, Provider, Stopped, Unbuilt,
};

verus! {

/// The ratio as it is used: no less than zero and no more than one. What is no
/// number stays what it is.
pub open spec fn clamped(bits: u64) -> u64 {
    if is_nan(bits) {
        bits
    } else if rank(bits) < 0 {
        0
    } else if rank(bits) > rank(ONE) {
        ONE
    } else {
        bits
    }
}

/// The sampling as it is used.
pub open spec fn effective(sampling: Sampling) -> Sampling {
    match sampling {
        Sampling::AlwaysOn => Sampling::AlwaysOn,
        Sampling::Ratio(bits) => Sampling::Ratio(clamped(bits)),
    }
}

/// The sampling as it is used.
///
/// A ratio is clamped rather than refused: one outside [0, 1] is a typo, and the
/// useful reading of it is "all of it" or "none of it", not a service that will
/// not start.
pub fn effective_sampling(sampling: Sampling) -> (r: Sampling)
    ensures
        r == effective(sampling),
{
    match sampling {
        Sampling::AlwaysOn => Sampling::AlwaysOn,
        Sampling::Ratio(bits) => {
            let negative = bits >= SIGN;
            let magnitude: u64 = if negative {
                bits - SIGN
            } else {
                bits
            };
            if magnitude > INFINITY || magnitude == 0 {
                Sampling::Ratio(bits)
            } else if negative {
                Sampling::Ratio(0)
            } else if magnitude > ONE {
                Sampling::Ratio(ONE)
            } else {
                Sampling::Ratio(bits)
            }
        },
    }
}

/// Whether `sampler` is the one for a sampling, made with `make_ratio`.
pub open spec fn samples<F: FnOnce(u64) -> Sampler>(
    sampler: ParentBased,
    sampling: Sampling,
    make_ratio: F,
) -> bool {
    &&& sampler.sampling() == effective(sampling)
    &&& sampler.handle() == following(sampler.ratio())
    &&& match effective(sampling) {
        Sampling::AlwaysOn => sampler.ratio() is None,
        Sampling::Ratio(bits) => {
            &&& sampler.ratio() matches Some(made)
            &&& call_ensures(make_ratio, (bits,), made)
        },
    }
}

/// The sampler for a sampling, parent-based in both cases; `make_ratio` makes the SDK's
/// sampler for a ratio, given by the bits of a binary64 number.
pub fn sampler<F: FnOnce(u64) -> Sampler>(sampling: Sampling, make_ratio: F) -> (r: ParentBased)
    requires
        forall|bits: u64| call_requires(make_ratio, (bits,)),
    ensures
        samples(r, sampling, make_ratio),
{
    match effective_sampling(sampling) {
        Sampling::AlwaysOn => parent_based_always_on(),
        Sampling::Ratio(bits) => parent_based_ratio(bits, make_ratio(bits)),
    }
}

/// A list of the pair, or of nothing.
pub open spec fn attribute(key: Seq<char>, value: Option<Seq<char>>) -> Seq<
    (Seq<char>, Seq<char>),
> {
    match value {
        Some(text) => seq![(key, text)],
        None => Seq::empty(),
    }
}

/// The attributes of every span, in the order they are applied.
pub open spec fn attribute_list(settings: Settings) -> Seq<(Seq<char>, Seq<char>)> {
    attribute("service.version"@, settings.service_version) + attribute(
        "deployment.environment.name"@,
        settings.environment,
    ) + settings.resource_attributes
}

/// The attributes of every span: the service name, then the others, a later one
/// over an earlier one of the same key.
pub open spec fn attribute_map(
    service_name: Seq<char>,
    attributes: Seq<(Seq<char>, Seq<char>)>,
) -> Map<Seq<char>, Seq<char>> {
    insert_all(Map::empty().insert("service.name"@, service_name), attributes)
}

/// The attributes of every span, in the order they are applied.
pub fn attributes(config: &Config) -> (r: Vec<(String, String)>)
    ensures
        pair_texts(r@) == attribute_list(config@),
{
    let mut out: Vec<(String, String)> = Vec::new();
    if let Some(version) = &config.service_version {
        out.push(("service.version".to_owned(), version.clone()));
    }
    assert(pair_texts(out@) =~= attribute("service.version"@, config@.service_version));
    let ghost first = pair_texts(out@);
    if let Some(environment) = &config.environment {
        out.push(("deployment.environment.name".to_owned(), environment.clone()));
    }
    assert(pair_texts(out@) =~= first + attribute(
        "deployment.environment.name"@,
        config@.environment,
    ));
    let ghost front = out@;
    let mut rest = copy_pairs(&config.resource_attributes);
    let ghost back = rest@;
    out.append(&mut rest);
    assert(pair_texts(out@) =~= pair_texts(front) + pair_texts(back));
    out
}

/// The resource that the configuration describes.
pub fn resource(config: &Config) -> (r: Entity)
    ensures
        r.is_for(config@),
{
    build_resource(config.service_name.clone(), attributes(config))
}

/// Whether the value of every header is ASCII.
pub open spec fn ascii_values(headers: Map<Seq<char>, Seq<char>>) -> bool {
    forall|name: Seq<char>| #[trigger] headers.contains_key(name) ==> is_ascii(headers[name])
}

/// What is wrong with a header whose value is not ASCII.
pub open spec fn not_ascii(name: Seq<char>) -> Seq<char> {
    "the value of header "@ + quoted(name) + " is not ASCII"@
}

/// What is wrong with the headers of a plan: a value that is not ASCII means something
/// else to each that reads it, and is refused rather than sent.
pub fn unsendable(plan: &ExportPlan) -> (r: Option<String>)
    ensures
        match r {
            None => ascii_values(plan.header_map()),
            Some(reason) => exists|name: Seq<char>|
                {
                    &&& #[trigger] plan.header_map().contains_key(name)
                    &&& !is_ascii(plan.header_map()[name])
                    &&& reason@ == not_ascii(name)
                },
        },
{
    let headers = plan.headers();
    let ghost pairs = pair_texts(headers@);
    let mut i: usize = 0;
    while i < headers.len()
        invariant
            pairs == pair_texts(headers@),
            plan.header_map() == map_of(pairs),
            keys_differ(pairs),
            i <= headers.len(),
            forall|j: int| 0 <= j < i ==> is_ascii((#[trigger] pairs[j]).1),
        decreases headers.len() - i,
    {
        assert(pairs[i as int] == (headers[i as int].0@, headers[i as int].1@));
        if !only_ascii(headers[i].1.as_str()) {
            let mut reason = "the value of header ".to_owned();
            reason.append(quote(headers[i].0.as_str()).as_str());
            reason.append(" is not ASCII");
            proof {
                lemma_map_of(pairs, i as int);
            }
            return Some(reason);
        }
        i += 1;
    }
    proof {
        let map = map_of(pairs);
        assert forall|name: Seq<char>| #[trigger] map.contains_key(name) implies is_ascii(
            map[name],
        ) by {
            let j = choose|j: int| 0 <= j < pairs.len() && #[trigger] pairs[j].0 == name;
            lemma_map_of(pairs, j);
        }
    }
    None
}

/// The provider over an exporter that was built, or the report of why it was not.
pub fn assemble<F: FnOnce(u64) -> Sampler>(
    built: Result<Exporter, String>,
    config: &Config,
    make_ratio: F,
) -> (r: Result<Provider, Error>)
    requires
        forall|bits: u64| call_requires(make_ratio, (bits,)),
    ensures
        match built {
            Ok(exporter) => {
                &&& r matches Ok(provider)
                &&& provider.plan() == exporter.plan()
                &&& samples(provider.sampler(), config.sampling, make_ratio)
                &&& provider.resource().is_for(config@)
            },
            Err(reason) => r matches Err(e) && e@ == Failure::Exporter(reason@),
        },
{
    match built {
        Ok(exporter) => Ok(
            build_provider(exporter, sampler(config.sampling, make_ratio), resource(config)),
        ),
        Err(reason) => Err(Error::Exporter(reason)),
    }
}

/// What went wrong, if anything did.
pub open spec fn went_wrong(outcome: Result<(), String>) -> Option<Seq<char>> {
    match outcome {
        Ok(_) => None,
        Err(reason) => Some(reason@),
    }
}

/// Whether an answer is reported as it was: what went wrong as a failure to shut down.
pub open spec fn reported(answer: Option<Seq<char>>, report: Result<(), Error>) -> bool {
    match answer {
        None => report is Ok,
        Some(reason) => report matches Err(e) && e@ == Failure::Shutdown(reason),
    }
}

/// What the outcome of flushing or stopping a provider is reported as.
pub fn shutdown_outcome(outcome: &Result<(), String>) -> (r: Result<(), Error>)
    ensures
        reported(went_wrong(*outcome), r),
{
    match outcome {
        Ok(_) => Ok(()),
        Err(reason) => Err(Error::Shutdown(reason.clone())),
    }
}

/// Exports what the provider has batched.
pub(crate) fn flush(provider: &Provider) -> (r: (Result<(), Error>, Flushed))
    ensures
        r.1.of() == provider.handle(),
        reported(r.1.answer(), r.0),
{
    let flushed = flush_provider(provider);
    (shutdown_outcome(flushed.outcome()), flushed)
}

/// Exports what the provider has batched, and stops it.
pub(crate) fn stop(provider: &Provider) -> (r: (Result<(), Error>, Stopped))
    ensures
        r.1.of() == provider.handle(),
        reported(r.1.answer(), r.0),
{
    let stopped = stop_provider(provider);
    (shutdown_outcome(stopped.outcome()), stopped)
}

/// A failure to build a provider: what is reported, and the exporter that was not built,
/// where that is the reason.
#[derive(Debug)]
pub struct NotBuilt {
    /// What is reported.
    pub error: Error,
    /// The exporter that was not built.
    pub unbuilt: Option<Unbuilt>,
}

/// Whether this is why there is no provider for settings that export: the exporter was
/// not built, or a header of theirs is refused.
pub open spec fn is_why(failure: Failure, unbuilt: Option<Unbuilt>, settings: Settings) -> bool {
    match unbuilt {
        Some(unbuilt) => {
            &&& ascii_values(settings.headers)
            &&& unbuilt.plan().is_for(settings)
            &&& failure == Failure::Exporter(unbuilt.why())
        },
        None => exists|name: Seq<char>|
            {
                &&& #[trigger] settings.headers.contains_key(name)
                &&& !is_ascii(settings.headers[name])
                &&& failure == Failure::Exporter(not_ascii(name))
            },
    }
}

/// Builds the provider described by `config`; `make_ratio` makes the SDK's sampler for a
/// ratio, given by the bits of a binary64 number.
///
/// Returns `Ok(None)` when the configuration has no endpoint: that is not a
/// failure, it is a service nobody asked to export. A header whose value is not ASCII
/// is refused.
pub fn provider<F: FnOnce(u64) -> Sampler>(config: &Config, make_ratio: F) -> (r: Result<
    Option<Provider>,
    NotBuilt,
>)
    requires
        config.timeout <= MAX_TIMEOUT,
        forall|bits: u64| call_requires(make_ratio, (bits,)),
    ensures
        config@.endpoint is None ==> r matches Ok(None),
        config@.endpoint is Some ==> match r {
            Ok(built) => {
                &&& built matches Some(provider)
                &&& provider.is_for(config@)
                &&& ascii_values(config@.headers)
                &&& samples(provider.sampler(), config.sampling, make_ratio)
            },
            Err(failed) => is_why(failed.error@, failed.unbuilt, config@),
        },
{
    let plan = match plan(config) {
        Some(plan) => plan,
        None => {
            return Ok(None);
        },
    };
    if let Some(reason) = unsendable(&plan) {
        return Err(NotBuilt { error: Error::Exporter(reason), unbuilt: None });
    }
    let (built, unbuilt) = match build_exporter(plan) {
        Ok(exporter) => (Ok(exporter), None),
        Err(unbuilt) => (Err(unbuilt.reason().to_owned()), Some(unbuilt)),
    };
    match assemble(built, config, make_ratio) {
        Ok(provider) => Ok(Some(provider)),
        Err(error) => Err(NotBuilt { error, unbuilt }),
    }
}

/// A ratio that is a number is used as one between zero and one, and one that
/// already is stays what it is.
pub proof fn law_a_ratio_is_a_share(bits: u64)
    requires
        !is_nan(bits),
    ensures
        0 <= rank(clamped(bits)) <= rank(ONE),
        0 <= rank(bits) <= rank(ONE) ==> clamped(bits) == bits,
        clamped(clamped(bits)) == clamped(bits),
{
}

/// What becomes of a ratio, by its bits: one from zero to one, and a zero of either sign,
/// stays; anything above is one; anything below is zero; what is no number stays.
pub proof fn law_a_ratio_outside_its_range_is_all_or_nothing(bits: u64)
    ensures
        bits <= 0x3ff0_0000_0000_0000 ==> clamped(bits) == bits,
        0x3ff0_0000_0000_0000 < bits <= 0x7ff0_0000_0000_0000 ==> clamped(bits)
            == 0x3ff0_0000_0000_0000,
        0x7ff0_0000_0000_0000 < bits <= 0x8000_0000_0000_0000 ==> clamped(bits) == bits,
        0x8000_0000_0000_0000 < bits <= 0xfff0_0000_0000_0000 ==> clamped(bits) == 0,
        0xfff0_0000_0000_0000 < bits ==> clamped(bits) == bits,
        effective(Sampling::Ratio(bits)) == Sampling::Ratio(clamped(bits)),
        effective(Sampling::AlwaysOn) == Sampling::AlwaysOn,
{
}

/// Whether a list has a pair with this key.
pub open spec fn has_key(pairs: Seq<(Seq<char>, Seq<char>)>, key: Seq<char>) -> bool {
    exists|i: int| 0 <= i < pairs.len() && (#[trigger] pairs[i]).0 == key
}

/// Every attribute that the settings state is applied, each whatever the others are: the
/// name, the version and the environment unless an extra attribute has their key, and of
/// the extra ones with one key the last. Nothing else is applied.
pub proof fn law_every_attribute_is_applied(
    settings: Settings,
    front: Seq<(Seq<char>, Seq<char>)>,
    key: Seq<char>,
    value: Seq<char>,
    back: Seq<(Seq<char>, Seq<char>)>,
)
    ensures
        ({
            let applied = attribute_map(settings.service_name, attribute_list(settings));
            let extra = settings.resource_attributes;
            &&& settings.service_version is Some && !has_key(extra, "service.version"@) ==> {
                &&& applied.contains_key("service.version"@)
                &&& applied["service.version"@] == settings.service_version->Some_0
            }
            &&& settings.environment is Some && !has_key(extra, "deployment.environment.name"@)
                ==> {
                &&& applied.contains_key("deployment.environment.name"@)
                &&& applied["deployment.environment.name"@] == settings.environment->Some_0
            }
            &&& !has_key(extra, "service.name"@) ==> {
                &&& applied.contains_key("service.name"@)
                &&& applied["service.name"@] == settings.service_name
            }
            &&& extra == front + seq![(key, value)] + back && !has_key(back, key) ==> {
                &&& applied.contains_key(key)
                &&& applied[key] == value
            }
            &&& applied.contains_key(key) && !has_key(extra, key) ==> {
                ||| key == "service.name"@
                ||| key == "service.version"@ && settings.service_version is Some
                ||| key == "deployment.environment.name"@ && settings.environment is Some
            }
        }),
{
    reveal_strlit("service.name");
    reveal_strlit("service.version");
    reveal_strlit("deployment.environment.name");
    let none = Seq::<(Seq<char>, Seq<char>)>::empty();
    let extra = settings.resource_attributes;
    let version = attribute("service.version"@, settings.service_version);
    let environment = attribute("deployment.environment.name"@, settings.environment);
    let named = Map::empty().insert("service.name"@, settings.service_name);
    assert("service.name"@.len() < "service.version"@.len() < "deployment.environment.name"@.len());
    let all = attribute_list(settings);
    assert(all == version + environment + extra);
    if settings.service_version is Some && !has_key(extra, "service.version"@) {
        let v = settings.service_version->Some_0;
        let rest = environment + extra;
        lemma_no_key_in_either(environment, extra, "service.version"@);
        assert(none + seq![("service.version"@, v)] + rest =~= all);
        law_the_last_pair_of_a_key_decides(named, none, "service.version"@, v, rest);
    }
    if settings.environment is Some && !has_key(extra, "deployment.environment.name"@) {
        let e = settings.environment->Some_0;
        assert(version + seq![("deployment.environment.name"@, e)] + extra =~= all);
        law_the_last_pair_of_a_key_decides(
            named,
            version,
            "deployment.environment.name"@,
            e,
            extra,
        );
    }
    if !has_key(extra, "service.name"@) {
        lemma_no_key_in_either(version, environment, "service.name"@);
        lemma_no_key_in_either(version + environment, extra, "service.name"@);
        law_the_last_pair_of_a_key_decides(named, none, "service.name"@, value, all);
    }
    if extra == front + seq![(key, value)] + back && !has_key(back, key) {
        let before = version + environment + front;
        assert(before + seq![(key, value)] + back =~= all);
        law_the_last_pair_of_a_key_decides(named, before, key, value, back);
    }
    if !has_key(extra, key) && key != "service.name"@ && !(key == "service.version"@
        && settings.service_version is Some) && !(key == "deployment.environment.name"@
        && settings.environment is Some) {
        lemma_no_key_in_either(version, environment, key);
        lemma_no_key_in_either(version + environment, extra, key);
        law_the_last_pair_of_a_key_decides(named, none, key, value, all);
    }
}

proof fn lemma_no_key_in_either(
    a: Seq<(Seq<char>, Seq<char>)>,
    b: Seq<(Seq<char>, Seq<char>)>,
    key: Seq<char>,
)
    requires
        !has_key(a, key),
        !has_key(b, key),
    ensures
        forall|i: int| 0 <= i < (a + b).len() ==> (#[trigger] (a + b)[i]).0 != key,
        !has_key(a + b, key),
{
    assert forall|i: int| 0 <= i < (a + b).len() implies (#[trigger] (a + b)[i]).0 != key by {
        if i < a.len() {
            assert((a + b)[i] == a[i]);
        } else {
            assert((a + b)[i] == b[i - a.len()]);
        }
    }
}

/// The attributes are listed in the order they are applied in: the version, then the
/// environment, then the extra ones as they were given. None is listed that is not stated.
pub proof fn law_attributes_are_listed_in_order(
    settings: Settings,
    version: Seq<char>,
    environment: Seq<char>,
    extra: Seq<(Seq<char>, Seq<char>)>,
)
    requires
        settings.resource_attributes == extra,
    ensures
        settings.service_version is None && settings.environment is None ==> attribute_list(
            settings,
        ) == extra,
        settings.service_version == Some(version) && settings.environment is None
            ==> attribute_list(settings) == seq![("service.version"@, version)] + extra,
        settings.service_version is None && settings.environment == Some(environment)
            ==> attribute_list(settings) == seq![("deployment.environment.name"@, environment)]
            + extra,
        settings.service_version == Some(version) && settings.environment == Some(environment)
            ==> attribute_list(settings) == seq![
            ("service.version"@, version),
            ("deployment.environment.name"@, environment),
        ] + extra,
{
}

/// The answer of a provider that was flushed or stopped is the report: nothing when it
/// went well, and otherwise the reason it gave, as a failure to shut down.
pub proof fn law_a_report_says_what_the_provider_said(
    outcome: Result<(), String>,
    report: Result<(), Error>,
)
    requires
        reported(went_wrong(outcome), report),
    ensures
        outcome is Ok <==> report is Ok,
        outcome is Err ==> report->Err_0@ == Failure::Shutdown(outcome->Err_0@),
{
}

/// Headers can be sent if and only if no value holds a character beyond ASCII, and the
/// refusal of one that does names it.
pub proof fn law_a_header_is_sent_only_in_ascii(
    headers: Map<Seq<char>, Seq<char>>,
    name: Seq<char>,
    value: Seq<char>,
    i: int,
)
    requires
        forall|j: int| 0 <= j < value.len() ==> #[trigger] value[j] as int <= 127,
    ensures
        ascii_values(headers) && headers.contains_key(name) && 0 <= i < headers[name].len()
            ==> headers[name][i] as int <= 127,
        ascii_values(Map::empty()),
        headers.contains_key(name) && 0 <= i < headers[name].len() && headers[name][i] as int
            > 127 ==> !ascii_values(headers),
        ascii_values(headers) ==> ascii_values(headers.insert(name, value)),
        not_ascii(name) == "the value of header "@ + quoted(name) + " is not ASCII"@,
{
    if headers.contains_key(name) && 0 <= i < headers[name].len() {
        let c = headers[name][i];
        assert(is_ascii(headers[name]) ==> c <= '\u{7f}');
    }
    assert(is_ascii(value)) by {
        assert forall|j: int| 0 <= j < value.len() implies #[trigger] value[j] <= '\u{7f}' by {
            assert(value[j] as int <= 127);
        }
    }
}

/// Every span says where it comes from: the resource of a provider holds the name, the
/// version and the environment that the settings state, each whatever the others are, and
/// the extra attributes, the last one of a key.
pub proof fn law_every_span_says_where_it_comes_from(
    provider: Provider,
    settings: Settings,
    front: Seq<(Seq<char>, Seq<char>)>,
    key: Seq<char>,
    value: Seq<char>,
    back: Seq<(Seq<char>, Seq<char>)>,
)
    requires
        provider.is_for(settings),
    ensures
        ({
            let held = resource_entries(provider.resource().handle());
            let extra = settings.resource_attributes;
            &&& !has_key(extra, "service.name"@) ==> held.contains_key("service.name"@)
                && held["service.name"@] == settings.service_name
            &&& settings.service_version is Some && !has_key(extra, "service.version"@)
                ==> held.contains_key("service.version"@) && held["service.version"@]
                == settings.service_version->Some_0
            &&& settings.environment is Some && !has_key(extra, "deployment.environment.name"@)
                ==> held.contains_key("deployment.environment.name"@)
                && held["deployment.environment.name"@] == settings.environment->Some_0
            &&& extra == front + seq![(key, value)] + back && !has_key(back, key)
                ==> held.contains_key(key) && held[key] == value
        }),
{
    law_every_attribute_is_applied(settings, front, key, value, back);
    let applied = attribute_map(settings.service_name, attribute_list(settings));
    let held = resource_entries(provider.resource().handle());
    assert(applied.submap_of(held));
    assert forall|name: Seq<char>| #[trigger]
        applied.dom().contains(name) implies held.contains_key(name) && held[name]
        == applied[name] by {
        assert(held.dom().contains(name));
    }
}

/// Spans are sent where the settings say, with the headers they state and within the time
/// they give, to the nanosecond.
pub proof fn law_spans_are_sent_where_the_settings_say(
    provider: Provider,
    settings: Settings,
    name: Seq<char>,
)
    requires
        provider.is_for(settings),
    ensures
        settings.endpoint is Some,
        provider.plan().address() == settings.endpoint->Some_0,
        provider.plan().timeout() == settings.timeout,
        provider.plan().header_map().contains_key(name) == settings.headers.contains_key(name),
        settings.headers.contains_key(name) ==> provider.plan().header_map()[name]
            == settings.headers[name],
{
}

/// A sampler follows the parent of a span. Where there is none, it records every span, or
/// asks the sampler that was made for the ratio: the one stated where that is from zero to
/// one, and otherwise the nearer end of that range.
pub proof fn law_a_sampler_is_for_its_sampling<F: FnOnce(u64) -> Sampler>(
    sampler: ParentBased,
    sampling: Sampling,
    make_ratio: F,
)
    requires
        samples(sampler, sampling, make_ratio),
    ensures
        sampling is AlwaysOn ==> sampler.handle() == following(None),
        sampling is Ratio ==> {
            let bits = sampling->Ratio_0;
            &&& sampler.ratio() is Some
            &&& sampler.handle() == following(sampler.ratio())
            &&& bits <= 0x3ff0_0000_0000_0000 ==> call_ensures(
                make_ratio,
                (bits,),
                sampler.ratio()->Some_0,
            )
            &&& 0x3ff0_0000_0000_0000 < bits <= 0x7ff0_0000_0000_0000 ==> call_ensures(
                make_ratio,
                (0x3ff0_0000_0000_0000u64,),
                sampler.ratio()->Some_0,
            )
            &&& 0x8000_0000_0000_0000 < bits <= 0xfff0_0000_0000_0000 ==> call_ensures(
                make_ratio,
                (0u64,),
                sampler.ratio()->Some_0,
            )
        },
{
}

/// There is no provider for settings that export only where a header of theirs is not
/// ASCII, and then that is the reason, or where the exporter for them was not built, and
/// then the reason is the one that came with it.
pub proof fn law_a_provider_is_missing_for_a_reason(
    failure: Failure,
    unbuilt: Option<Unbuilt>,
    settings: Settings,
    name: Seq<char>,
    i: int,
)
    requires
        is_why(failure, unbuilt, settings),
    ensures
        failure is Exporter,
        unbuilt is Some ==> failure == Failure::Exporter(unbuilt->Some_0.why()),
        unbuilt is Some ==> unbuilt->Some_0.plan().is_for(settings),
        unbuilt is Some && settings.headers.contains_key(name) && 0 <= i
            < settings.headers[name].len() ==> settings.headers[name][i] as int <= 127,
        unbuilt is None ==> exists|culprit: Seq<char>|
            {
                &&& #[trigger] settings.headers.contains_key(culprit)
                &&& exists|j: int|
                    0 <= j < settings.headers[culprit].len()
                        && #[trigger] settings.headers[culprit][j] as int > 127
                &&& failure == Failure::Exporter(
                    "the value of header "@ + quoted(culprit) + " is not ASCII"@,
                )
            },
{
    if unbuilt is None {
        let culprit = choose|culprit: Seq<char>|
            {
                &&& #[trigger] settings.headers.contains_key(culprit)
                &&& !is_ascii(settings.headers[culprit])
                &&& failure == Failure::Exporter(not_ascii(culprit))
            };
        let value = settings.headers[culprit];
        let j = choose|j: int| 0 <= j < value.len() && !(#[trigger] value[j] <= '\u{7f}');
        assert(value[j] as int > 127);
        assert(settings.headers[culprit][j] as int > 127);
    } else if settings.headers.contains_key(name) && 0 <= i < settings.headers[name].len() {
        assert(settings.headers[name][i] <= '\u{7f}');
    }
}

} // verus!
