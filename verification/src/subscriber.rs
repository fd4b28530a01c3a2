//! What the process logs and what it exports: the filter, and the events that must
//! not reach the exporter.

use vstd::prelude::*;

use crate::config::{copy_strings, default_targets, string_texts, Config, LogFormat, Settings};
use crate::directive::{can_be_sliced, lemma_info_is_sliceable, sliceable};
use crate::env_filter::{lossy_filter, refusal, try_filter, Filter};
use crate::pairs::{is_plain, quote, quoted};
use crate::registration::{handle_of, init_subscriber, Refused, Subscription};
use crate::text::{characters, same};
use crate::tracer_provider::Provider;

verus! {

/// What is said of directives that are no filter.
pub open spec fn filter_complaint(directives: Seq<char>, reason: Seq<char>) -> Seq<char> {
    "telemetry: RUST_LOG "@ + quoted(directives) + " is not a filter ("@ + reason
        + "); using info"@
}

/// What is wrong with the directives, if they cannot be used.
pub open spec fn fault(directives: Seq<char>) -> Option<Seq<char>> {
    if sliceable(directives) {
        refusal(directives)
    } else {
        Some("white space before a directive that is not ASCII"@)
    }
}

/// What is said of the directives: nothing when they are a filter.
pub open spec fn complaints_on(directives: Seq<char>) -> Seq<Seq<char>> {
    match fault(directives) {
        None => Seq::empty(),
        Some(reason) => seq![filter_complaint(directives, reason)],
    }
}

/// The directives that apply: `info` in place of what is no filter.
pub open spec fn usable(directives: Seq<char>) -> Seq<char> {
    match fault(directives) {
        None => directives,
        Some(_) => "info"@,
    }
}

/// What is said of directives that are no filter.
pub fn complain_of_filter(directives: &str, reason: &str) -> (r: String)
    ensures
        r@ == filter_complaint(directives@, reason@),
{
    let mut out = "telemetry: RUST_LOG ".to_owned();
    out.append(quote(directives).as_str());
    out.append(" is not a filter (");
    out.append(reason);
    out.append("); using info");
    out
}

/// The filter to install. Malformed directives must not silence a service: they are
/// complained of, and `info` is used.
pub fn filter_for(directives: &str, complaints: &mut Vec<String>) -> (r: Filter)
    ensures
        r.made_from() == usable(directives@),
        r.is_strict() == (fault(directives@) is None),
        string_texts(final(complaints)@) == string_texts(old(complaints)@) + complaints_on(
            directives@,
        ),
{
    let ghost before = string_texts(complaints@);
    let outcome = if can_be_sliced(directives) {
        try_filter(directives)
    } else {
        Err("white space before a directive that is not ASCII".to_owned())
    };
    match outcome {
        Ok(filter) => {
            assert(string_texts(complaints@) =~= before + complaints_on(directives@));
            filter
        },
        Err(reason) => {
            complaints.push(complain_of_filter(directives, reason.as_str()));
            assert(string_texts(complaints@) =~= before + complaints_on(directives@));
            proof {
                lemma_info_is_sliceable();
            }
            lossy_filter("info")
        },
    }
}

/// The position of the first `::` in `s`, and the length of `s` when it has none.
pub open spec fn first_path_separator(s: Seq<char>) -> int
    decreases s.len(),
{
    if s.len() < 2 {
        s.len() as int
    } else if s[0] == ':' && s[1] == ':' {
        0
    } else {
        1 + first_path_separator(s.drop_first())
    }
}

/// The crate that an event's target names: what stands before the first `::`.
pub open spec fn crate_of(target: Seq<char>) -> Seq<char> {
    target.take(first_path_separator(target))
}

proof fn lemma_first_path_separator(s: Seq<char>, k: int)
    requires
        0 <= k <= s.len(),
        forall|j: int| 0 <= j < k && j + 1 < s.len() ==> !(#[trigger] s[j] == ':' && s[j + 1] == ':'),
        k < s.len() ==> k + 1 < s.len() && s[k] == ':' && s[k + 1] == ':',
    ensures
        first_path_separator(s) == k,
    decreases s.len(),
{
    if s.len() >= 2 && k > 0 {
        let rest = s.drop_first();
        assert(!(s[0] == ':' && s[1] == ':'));
        assert forall|j: int| 0 <= j < k - 1 && j + 1 < rest.len() implies !(#[trigger] rest[j]
            == ':' && rest[j + 1] == ':') by {
            assert(rest[j] == s[j + 1]);
            assert(rest[j + 1] == s[j + 2]);
        }
        lemma_first_path_separator(rest, k - 1);
    }
}

/// Whether an event under `target` may reach the exporter: not when it comes from one
/// of the crates named. Those are what the exporter itself speaks through, and
/// exporting their events would export the act of exporting.
pub fn reaches_exporter(targets: &Vec<String>, target: &str) -> (r: bool)
    ensures
        r == !string_texts(targets@).contains(crate_of(target@)),
{
    let cs = characters(target);
    let n = cs.len();
    let mut end: usize = 0;
    while end < n && !(end + 1 < n && cs[end] == ':' && cs[end + 1] == ':')
        invariant
            cs@ == target@,
            n == cs.len(),
            end <= n,
            forall|j: int|
                0 <= j < end && j + 1 < n ==> !(#[trigger] target@[j] == ':' && target@[j + 1]
                    == ':'),
        decreases n - end,
    {
        end += 1;
    }
    proof {
        lemma_first_path_separator(target@, end as int);
        assert(target@.take(end as int) =~= target@.subrange(0, end as int));
    }
    let root = target.substring_char(0, end);
    let ghost names = string_texts(targets@);
    let mut i: usize = 0;
    while i < targets.len()
        invariant
            i <= targets.len(),
            names == string_texts(targets@),
            root@ == crate_of(target@),
            forall|j: int| 0 <= j < i ==> names[j] != root@,
        decreases targets.len() - i,
    {
        if same(targets[i].as_str(), root) {
            assert(names[i as int] == root@);
            return false;
        }
        i += 1;
    }
    true
}

/// Which layers write to stdout: the one of lines, the one of JSON objects.
pub fn log_layers(format: LogFormat) -> (r: (Option<()>, Option<()>))
    ensures
        r.0 is Some <==> format == LogFormat::Text,
        r.1 is Some <==> format == LogFormat::Json,
{
    match format {
        LogFormat::Text => (Some(()), None),
        LogFormat::Json => (None, Some(())),
        LogFormat::Off => (None, None),
    }
}

/// What a subscriber is told.
#[derive(Debug)]
pub struct Told {
    /// The directives of its filter.
    pub directives: String,
    /// Whether it writes lines to stdout.
    pub text: Option<()>,
    /// Whether it writes JSON objects to stdout.
    pub json: Option<()>,
    /// Whether it hands spans to an exporter.
    pub exports: bool,
    /// The name that exported spans are recorded under.
    pub scope: String,
    /// The crates whose events are not exported.
    pub targets: Vec<String>,
}

impl Told {
    /// Whether this is what the subscriber for these settings is told, its filter made
    /// from `directives`.
    pub open spec fn is_for(self, settings: Settings, directives: Seq<char>, exports: bool) -> bool {
        &&& self.directives@ == directives
        &&& self.text is Some <==> settings.log_format == LogFormat::Text
        &&& self.json is Some <==> settings.log_format == LogFormat::Json
        &&& self.exports == exports
        &&& self.scope@ == "cartografo-telemetry"@
        &&& string_texts(self.targets@) == settings.export_filtered_targets
    }
}

/// Registers the subscriber that the configuration describes, over the provider when
/// there is one. That fails where the process has a global subscriber, or a logger of the
/// `log` crate, already.
pub fn subscribe(config: &Config, filter: Filter, provider: Option<&Provider>) -> (r: Result<
    Subscription,
    Refused,
>)
    ensures
        ({
            let (told, over) = match r {
                Ok(subscription) => (subscription.told(), subscription.over()),
                Err(refused) => (refused.told(), refused.over()),
            };
            &&& told.is_for(config@, filter.made_from(), provider is Some)
            &&& over == handle_of(provider)
        }),
{
    let (text, json) = log_layers(config.log_format);
    let told = Told {
        directives: filter.directives().to_owned(),
        text,
        json,
        exports: provider.is_some(),
        scope: "cartografo-telemetry".to_owned(),
        targets: copy_strings(&config.export_filtered_targets),
    };
    init_subscriber(filter, told, provider)
}

/// An event of a crate that is filtered never reaches the exporter, whatever its
/// module.
pub proof fn law_no_feedback(targets: Seq<Seq<char>>, name: Seq<char>, module: Seq<char>)
    requires
        targets.contains(name),
        first_path_separator(name) == name.len(),
        name.len() > 0 ==> name.last() != ':',
    ensures
        targets.contains(crate_of(name)),
        targets.contains(crate_of(name + seq![':', ':'] + module)),
{
    let target = name + seq![':', ':'] + module;
    assert(name.take(name.len() as int) =~= name);
    lemma_no_separator_before(name);
    assert forall|j: int| 0 <= j < name.len() && j + 1 < target.len() implies !(#[trigger] target[j]
        == ':' && target[j + 1] == ':') by {
        if j + 1 < name.len() {
            assert(!(name[j] == ':' && name[j + 1] == ':'));
        } else {
            assert(target[j] == name.last());
        }
    }
    lemma_first_path_separator(target, name.len() as int);
    assert(target.take(name.len() as int) =~= name);
}

/// With the targets that a configuration starts out with, an event of the crates that
/// the exporter speaks through never reaches it.
pub proof fn law_the_exporter_does_not_export_itself(i: int, module: Seq<char>)
    requires
        0 <= i < default_targets().len(),
    ensures
        default_targets().contains(crate_of(default_targets()[i])),
        default_targets().contains(crate_of(default_targets()[i] + seq![':', ':'] + module)),
{
    reveal_strlit("opentelemetry");
    reveal_strlit("opentelemetry_sdk");
    reveal_strlit("opentelemetry_otlp");
    reveal_strlit("opentelemetry-sdk");
    reveal_strlit("opentelemetry-otlp");
    reveal_strlit("reqwest");
    reveal_strlit("rustls");
    reveal_strlit("hyper");
    reveal_strlit("hyper_util");
    reveal_strlit("h2");
    reveal_strlit("tokio_util");
    let name = default_targets()[i];
    assert(forall|j: int| 0 <= j < name.len() ==> name[j] != ':');
    lemma_first_path_separator(name, name.len() as int);
    law_no_feedback(default_targets(), name, module);
}

proof fn lemma_no_separator_before(s: Seq<char>)
    ensures
        0 <= first_path_separator(s) <= s.len(),
        forall|j: int|
            0 <= j < first_path_separator(s) && j + 1 < s.len() ==> !(#[trigger] s[j] == ':' && s[j
                + 1] == ':'),
    decreases s.len(),
{
    if s.len() >= 2 && !(s[0] == ':' && s[1] == ':') {
        let rest = s.drop_first();
        lemma_no_separator_before(rest);
        assert forall|j: int| 0 <= j < first_path_separator(s) && j + 1 < s.len() implies !(
        #[trigger] s[j] == ':' && s[j + 1] == ':') by {
            if j > 0 {
                assert(s[j] == rest[j - 1]);
                assert(s[j + 1] == rest[j]);
            }
        }
    }
}

/// What an event's target names is what stands before its first `::`, all of it and no
/// more: a crate by its name alone, and a module of it by the crate's name.
pub proof fn law_a_target_names_its_crate(name: Seq<char>, module: Seq<char>)
    requires
        forall|i: int|
            0 <= i && i + 1 < name.len() ==> !(#[trigger] name[i] == ':' && name[i + 1] == ':'),
    ensures
        crate_of(name) == name,
        name.len() == 0 || name.last() != ':' ==> crate_of(name + seq![':', ':'] + module) == name,
{
    lemma_first_path_separator(name, name.len() as int);
    assert(name.take(name.len() as int) =~= name);
    if name.len() == 0 || name.last() != ':' {
        let target = name + seq![':', ':'] + module;
        assert forall|j: int| 0 <= j < name.len() && j + 1 < target.len() implies !(
        #[trigger] target[j] == ':' && target[j + 1] == ':') by {
            assert(target[j] == name[j]);
            if j + 1 < name.len() {
                assert(target[j + 1] == name[j + 1]);
            }
        }
        lemma_first_path_separator(target, name.len() as int);
        assert(target.take(name.len() as int) =~= name);
    }
}

/// Directives that are a filter are used as they are and nothing is said; in place of any
/// others `info` is used, so that the service is not silenced, and that is said once, with
/// the directives and what is wrong with them.
pub proof fn law_a_malformed_filter_does_not_silence(directives: Seq<char>, reason: Seq<char>)
    ensures
        sliceable(directives) && refusal(directives) is None ==> usable(directives) == directives
            && complaints_on(directives).len() == 0,
        sliceable(directives) && refusal(directives) == Some(reason) ==> {
            &&& usable(directives) == "info"@
            &&& complaints_on(directives) == seq![filter_complaint(directives, reason)]
        },
        !sliceable(directives) ==> {
            &&& usable(directives) == "info"@
            &&& complaints_on(directives) == seq![
                filter_complaint(
                    directives,
                    "white space before a directive that is not ASCII"@,
                ),
            ]
        },
        is_plain(directives) ==> filter_complaint(directives, reason)
            == "telemetry: RUST_LOG \""@ + directives + "\" is not a filter ("@ + reason
            + "); using info"@,
{
    reveal_strlit("telemetry: RUST_LOG ");
    reveal_strlit("telemetry: RUST_LOG \"");
    reveal_strlit(" is not a filter (");
    reveal_strlit("\" is not a filter (");
    if is_plain(directives) {
        assert(filter_complaint(directives, reason) =~= "telemetry: RUST_LOG \""@ + directives
            + "\" is not a filter ("@ + reason + "); using info"@);
    }
}

/// What a subscriber is told follows from the settings: the directives, the one format
/// that writes to stdout, the exporter and what is kept from it.
pub proof fn law_a_subscriber_is_told_the_settings(
    told: Told,
    settings: Settings,
    directives: Seq<char>,
    exports: bool,
)
    requires
        told.is_for(settings, directives, exports),
    ensures
        told.directives@ == directives,
        told.exports == exports,
        told.scope@ == "cartografo-telemetry"@,
        string_texts(told.targets@) == settings.export_filtered_targets,
        settings.log_format == LogFormat::Text ==> told.text is Some && told.json is None,
        settings.log_format == LogFormat::Json ==> told.text is None && told.json is Some,
        settings.log_format == LogFormat::Off ==> told.text is None && told.json is None,
{
}

} // verus!
