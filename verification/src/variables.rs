//! What each environment variable comes to, whatever the others state.

use vstd::prelude::*;

use crate::config::{
    endpoint_setting, law_the_base_address_gets_the_signal_path, pairs_setting, ratio_setting,
    timeout_setting, with_access, with_environment, Sampling, Settings,
};
use crate::environment::{law_a_variable_states_its_value, setting};
use crate::error::Failure;
use crate::number::{
    digits_of, law_a_number_is_read_from_its_decimal_text, law_only_digits_are_a_number,
};
use crate::pairs::{is_plain, parsed, quoted};
use crate::string_map::insert_all;
use crate::text::{is_blank, is_tight, is_white_space, repeated};

verus! {

/// No two of the variables have one name.
proof fn lemma_names()
    ensures
        "OTEL_SERVICE_NAME"@.len() == 17,
        "OTEL_EXPORTER_OTLP_TRACES_ENDPOINT"@.len() == 34,
        "OTEL_EXPORTER_OTLP_ENDPOINT"@.len() == 27,
        "OTEL_EXPORTER_OTLP_HEADERS"@.len() == 26,
        "CF_ACCESS_CLIENT_ID"@.len() == 19,
        "CF_ACCESS_CLIENT_SECRET"@.len() == 23,
        "OTEL_EXPORTER_OTLP_TIMEOUT"@.len() == 26,
        "OTEL_TRACES_SAMPLER_ARG"@.len() == 23,
        "OTEL_RESOURCE_ATTRIBUTES"@.len() == 24,
        "DEPLOYMENT_ENVIRONMENT"@.len() == 22,
        "APP_ENV"@.len() == 7,
        "OTEL_EXPORTER_OTLP_HEADERS"@ != "OTEL_EXPORTER_OTLP_TIMEOUT"@,
        "CF_ACCESS_CLIENT_SECRET"@ != "OTEL_TRACES_SAMPLER_ARG"@,
{
    reveal_strlit("OTEL_SERVICE_NAME");
    reveal_strlit("OTEL_EXPORTER_OTLP_TRACES_ENDPOINT");
    reveal_strlit("OTEL_EXPORTER_OTLP_ENDPOINT");
    reveal_strlit("OTEL_EXPORTER_OTLP_HEADERS");
    reveal_strlit("CF_ACCESS_CLIENT_ID");
    reveal_strlit("CF_ACCESS_CLIENT_SECRET");
    reveal_strlit("OTEL_EXPORTER_OTLP_TIMEOUT");
    reveal_strlit("OTEL_TRACES_SAMPLER_ARG");
    reveal_strlit("OTEL_RESOURCE_ATTRIBUTES");
    reveal_strlit("DEPLOYMENT_ENVIRONMENT");
    reveal_strlit("APP_ENV");
    assert("OTEL_EXPORTER_OTLP_HEADERS"@[19] != "OTEL_EXPORTER_OTLP_TIMEOUT"@[19]);
    assert("CF_ACCESS_CLIENT_SECRET"@[0] != "OTEL_TRACES_SAMPLER_ARG"@[0]);
}

/// One variable says nothing of another.
proof fn lemma_stated(
    vars: Map<Seq<char>, Seq<char>>,
    key: Seq<char>,
    before: Seq<char>,
    text: Seq<char>,
    after: Seq<char>,
)
    requires
        is_blank(before),
        is_blank(after),
        is_tight(text),
    ensures
        setting(vars.insert(key, before + text + after), key) == Some(text),
        setting(vars.remove(key), key) is None,
        forall|other: Seq<char>|
            other != key ==> #[trigger] setting(vars.insert(key, before + text + after), other)
                == setting(vars.remove(key), other),
{
    law_a_variable_states_its_value(
        vars.insert(key, before + text + after),
        key,
        before,
        text,
        after,
    );
    law_a_variable_states_its_value(vars.remove(key), key, before, text, after);
}

/// The service name is the one that `OTEL_SERVICE_NAME` states, and nothing else changes.
pub proof fn law_the_service_name_is_overridden(
    settings: Settings,
    vars: Map<Seq<char>, Seq<char>>,
    ratio: Option<u64>,
    before: Seq<char>,
    name: Seq<char>,
    after: Seq<char>,
    base: Settings,
)
    requires
        is_blank(before),
        is_blank(after),
        is_tight(name),
        with_environment(settings, vars.remove("OTEL_SERVICE_NAME"@), ratio) == Ok::<_, Failure>(
            base,
        ),
    ensures
        with_environment(
            settings,
            vars.insert("OTEL_SERVICE_NAME"@, before + name + after),
            ratio,
        ) == Ok::<_, Failure>(Settings { service_name: name, ..base }),
{
    lemma_names();
    lemma_stated(vars, "OTEL_SERVICE_NAME"@, before, name, after);
}

/// The export timeout is what `OTEL_EXPORTER_OTLP_TIMEOUT` spells, in milliseconds, for
/// every number of them that fits sixty-four bits; any other text is refused. Nothing else
/// changes.
pub proof fn law_the_timeout_is_milliseconds(
    settings: Settings,
    vars: Map<Seq<char>, Seq<char>>,
    ratio: Option<u64>,
    before: Seq<char>,
    zeros: nat,
    n: nat,
    after: Seq<char>,
    base: Settings,
)
    requires
        is_blank(before),
        is_blank(after),
        with_environment(settings, vars.remove("OTEL_EXPORTER_OTLP_TIMEOUT"@), ratio) == Ok::<
            _,
            Failure,
        >(base),
    ensures
        n <= u64::MAX ==> with_environment(
            settings,
            vars.insert(
                "OTEL_EXPORTER_OTLP_TIMEOUT"@,
                before + (repeated('0', zeros) + digits_of(n)) + after,
            ),
            ratio,
        ) == Ok::<_, Failure>(Settings { timeout: (n * 1_000_000) as u128, ..base }),
        n <= u64::MAX ==> with_environment(
            settings,
            vars.insert(
                "OTEL_EXPORTER_OTLP_TIMEOUT"@,
                before + (seq!['+'] + repeated('0', zeros) + digits_of(n)) + after,
            ),
            ratio,
        ) == Ok::<_, Failure>(Settings { timeout: (n * 1_000_000) as u128, ..base }),
        n > u64::MAX ==> with_environment(
            settings,
            vars.insert(
                "OTEL_EXPORTER_OTLP_TIMEOUT"@,
                before + (repeated('0', zeros) + digits_of(n)) + after,
            ),
            ratio,
        ) is Err,
{
    lemma_names();
    law_a_number_is_read_from_its_decimal_text(n, zeros);
    let text = repeated('0', zeros) + digits_of(n);
    let signed = seq!['+'] + repeated('0', zeros) + digits_of(n);
    lemma_digits_are_tight(zeros, n);
    lemma_stated(vars, "OTEL_EXPORTER_OTLP_TIMEOUT"@, before, text, after);
    lemma_stated(vars, "OTEL_EXPORTER_OTLP_TIMEOUT"@, before, signed, after);
}

proof fn lemma_digits_are_tight(zeros: nat, n: nat)
    ensures
        is_tight(repeated('0', zeros) + digits_of(n)),
        is_tight(seq!['+'] + repeated('0', zeros) + digits_of(n)),
    decreases n,
{
    reveal_strlit("0123456789");
    let digits = digits_of(n);
    let text = repeated('0', zeros) + digits;
    if n >= 10 {
        lemma_digits_are_tight(zeros, n / 10);
        let less = repeated('0', zeros) + digits_of(n / 10);
        assert(text =~= less.push(digits.last()));
        assert(text[0] == less[0]);
    }
    assert(!is_white_space(digits.last()));
    assert(text.last() == digits.last());
    let signed = seq!['+'] + repeated('0', zeros) + digits;
    assert(signed.last() == digits.last());
}

/// What is no number is no timeout: the refusal says what was expected and what was found.
pub proof fn law_a_timeout_that_is_no_number_is_refused(
    settings: Settings,
    vars: Map<Seq<char>, Seq<char>>,
    ratio: Option<u64>,
    before: Seq<char>,
    text: Seq<char>,
    i: int,
    after: Seq<char>,
)
    requires
        is_blank(before),
        is_blank(after),
        is_tight(text),
        0 <= i < text.len() && !('0' <= text[i] <= '9') && (i > 0 || text[i] != '+'),
        with_environment(settings, vars.remove("OTEL_EXPORTER_OTLP_TIMEOUT"@), ratio) is Ok,
    ensures
        with_environment(
            settings,
            vars.insert("OTEL_EXPORTER_OTLP_TIMEOUT"@, before + text + after),
            ratio,
        ) == Err::<Settings, _>(
            Failure::Config(
                "OTEL_EXPORTER_OTLP_TIMEOUT is milliseconds as an integer, got "@ + quoted(text),
            ),
        ),
        is_plain(text) ==> quoted(text) == seq!['"'] + text + seq!['"'],
{
    lemma_names();
    lemma_stated(vars, "OTEL_EXPORTER_OTLP_TIMEOUT"@, before, text, after);
    law_only_digits_are_a_number(text, i);
}

/// The share of traces is the number that `OTEL_TRACES_SAMPLER_ARG` spells, and where it
/// spells none it is refused. Where it states nothing, no number matters.
pub proof fn law_the_sampler_argument_is_the_ratio(
    settings: Settings,
    vars: Map<Seq<char>, Seq<char>>,
    ratio: Option<u64>,
    before: Seq<char>,
    text: Seq<char>,
    after: Seq<char>,
    base: Settings,
)
    requires
        is_blank(before),
        is_blank(after),
        is_tight(text),
        with_environment(settings, vars.remove("OTEL_TRACES_SAMPLER_ARG"@), ratio) == Ok::<
            _,
            Failure,
        >(base),
    ensures
        with_environment(
            settings,
            vars.insert("OTEL_TRACES_SAMPLER_ARG"@, before + text + after),
            ratio,
        ) == (match ratio {
            Some(bits) => Ok::<_, Failure>(Settings { sampling: Sampling::Ratio(bits), ..base }),
            None => Err(
                Failure::Config(
                    "OTEL_TRACES_SAMPLER_ARG is a number between 0 and 1, got "@ + quoted(text),
                ),
            ),
        }),
        with_environment(settings, vars.remove("OTEL_TRACES_SAMPLER_ARG"@), None) == Ok::<
            _,
            Failure,
        >(base),
        is_plain(text) ==> quoted(text) == seq!['"'] + text + seq!['"'],
{
    lemma_names();
    lemma_stated(vars, "OTEL_TRACES_SAMPLER_ARG"@, before, text, after);
}

/// The traces endpoint is taken verbatim, and then the base endpoint does not matter.
pub proof fn law_the_traces_endpoint_is_taken_verbatim(
    settings: Settings,
    vars: Map<Seq<char>, Seq<char>>,
    ratio: Option<u64>,
    before: Seq<char>,
    address: Seq<char>,
    after: Seq<char>,
    other: Seq<char>,
    base: Settings,
)
    requires
        is_blank(before),
        is_blank(after),
        is_tight(address),
        with_environment(
            settings,
            vars.remove("OTEL_EXPORTER_OTLP_TRACES_ENDPOINT"@),
            ratio,
        ) == Ok::<_, Failure>(base),
    ensures
        with_environment(
            settings,
            vars.insert("OTEL_EXPORTER_OTLP_TRACES_ENDPOINT"@, before + address + after),
            ratio,
        ) == Ok::<_, Failure>(Settings { endpoint: Some(address), ..base }),
        with_environment(
            settings,
            vars.insert("OTEL_EXPORTER_OTLP_ENDPOINT"@, other).insert(
                "OTEL_EXPORTER_OTLP_TRACES_ENDPOINT"@,
                before + address + after,
            ),
            ratio,
        ) == Ok::<_, Failure>(Settings { endpoint: Some(address), ..base }),
{
    lemma_names();
    let key = "OTEL_EXPORTER_OTLP_TRACES_ENDPOINT"@;
    lemma_stated(vars, key, before, address, after);
    let more = vars.insert("OTEL_EXPORTER_OTLP_ENDPOINT"@, other);
    lemma_stated(more, key, before, address, after);
    assert forall|name: Seq<char>| name != "OTEL_EXPORTER_OTLP_ENDPOINT"@ && name
        != key implies #[trigger] setting(more.insert(key, before + address + after), name)
        == setting(vars.remove(key), name) by {}
}

/// To a base endpoint the signal path is appended, however many slashes it ends in, unless
/// it is there already; this is where spans go when no traces endpoint is stated.
pub proof fn law_the_base_endpoint_gets_the_signal_path(
    settings: Settings,
    vars: Map<Seq<char>, Seq<char>>,
    ratio: Option<u64>,
    before: Seq<char>,
    host: Seq<char>,
    slashes: nat,
    after: Seq<char>,
    base: Settings,
)
    requires
        is_blank(before),
        is_blank(after),
        is_tight(host) && host.last() != '/',
        !vars.contains_key("OTEL_EXPORTER_OTLP_TRACES_ENDPOINT"@),
        with_environment(settings, vars.remove("OTEL_EXPORTER_OTLP_ENDPOINT"@), ratio) == Ok::<
            _,
            Failure,
        >(base),
    ensures
        with_environment(
            settings,
            vars.insert(
                "OTEL_EXPORTER_OTLP_ENDPOINT"@,
                before + (host + repeated('/', slashes)) + after,
            ),
            ratio,
        ) == Ok::<_, Failure>(
            Settings {
                endpoint: if host.len() >= 10 && host.skip(host.len() - 10) == "/v1/traces"@ {
                    Some(host)
                } else {
                    Some(host + "/v1/traces"@)
                },
                ..base
            },
        ),
{
    lemma_names();
    let text = host + repeated('/', slashes);
    assert(text[0] == host[0]);
    assert(text.last() == '/' || text =~= host);
    lemma_stated(vars, "OTEL_EXPORTER_OTLP_ENDPOINT"@, before, text, after);
    law_the_base_address_gets_the_signal_path(host, slashes);
}

/// The headers that `OTEL_EXPORTER_OTLP_HEADERS` spells are put over those there are; a
/// list that cannot be read is refused before anything else is looked at.
pub proof fn law_headers_are_added(
    settings: Settings,
    vars: Map<Seq<char>, Seq<char>>,
    ratio: Option<u64>,
    before: Seq<char>,
    text: Seq<char>,
    after: Seq<char>,
    base: Settings,
)
    requires
        is_blank(before),
        is_blank(after),
        is_tight(text),
    ensures
        ({
            let with = with_environment(
                settings,
                vars.insert("OTEL_EXPORTER_OTLP_HEADERS"@, before + text + after),
                ratio,
            );
            let without = with_environment(
                settings,
                vars.remove("OTEL_EXPORTER_OTLP_HEADERS"@),
                ratio,
            );
            match parsed(text, "OTEL_EXPORTER_OTLP_HEADERS"@) {
                Err(failure) => with == Err::<Settings, _>(failure),
                Ok(pairs) => {
                    &&& without is Err ==> with == without
                    &&& without == Ok::<_, Failure>(base) && !vars.contains_key(
                        "CF_ACCESS_CLIENT_ID"@,
                    ) ==> with == Ok::<_, Failure>(
                        Settings { headers: insert_all(base.headers, pairs), ..base },
                    )
                    &&& without == Ok::<_, Failure>(base) ==> with is Ok && {
                        let found = with->Ok_0;
                        &&& found == Settings { headers: found.headers, ..base }
                        &&& forall|name: Seq<char>|
                            name != "CF-Access-Client-Id"@ && name != "CF-Access-Client-Secret"@
                                ==> {
                                let told = insert_all(settings.headers, pairs);
                                &&& #[trigger] found.headers.contains_key(name)
                                    == told.contains_key(name)
                                &&& told.contains_key(name) ==> found.headers[name] == told[name]
                            }
                    }
                },
            }
        }),
{
    lemma_names();
    lemma_stated(vars, "OTEL_EXPORTER_OTLP_HEADERS"@, before, text, after);
    let none = Seq::<(Seq<char>, Seq<char>)>::empty();
    assert(insert_all(settings.headers, none) == settings.headers);
}

/// Both halves of the Cloudflare Access token make the two headers, over what other
/// variables state of them; the other headers stay.
pub proof fn law_a_whole_token_makes_two_headers(
    settings: Settings,
    vars: Map<Seq<char>, Seq<char>>,
    ratio: Option<u64>,
    before: Seq<char>,
    id: Seq<char>,
    secret: Seq<char>,
    after: Seq<char>,
    base: Settings,
)
    requires
        is_blank(before),
        is_blank(after),
        is_tight(id),
        is_tight(secret),
        with_environment(
            settings,
            vars.remove("CF_ACCESS_CLIENT_ID"@).remove("CF_ACCESS_CLIENT_SECRET"@),
            ratio,
        ) == Ok::<_, Failure>(base),
    ensures
        with_environment(
            settings,
            vars.insert("CF_ACCESS_CLIENT_ID"@, before + id + after).insert(
                "CF_ACCESS_CLIENT_SECRET"@,
                before + secret + after,
            ),
            ratio,
        ) == Ok::<_, Failure>(
            Settings {
                headers: base.headers.insert("CF-Access-Client-Id"@, id).insert(
                    "CF-Access-Client-Secret"@,
                    secret,
                ),
                ..base
            },
        ),
{
    lemma_names();
    let a = vars.remove("CF_ACCESS_CLIENT_ID"@).remove("CF_ACCESS_CLIENT_SECRET"@);
    let b = vars.insert("CF_ACCESS_CLIENT_ID"@, before + id + after).insert(
        "CF_ACCESS_CLIENT_SECRET"@,
        before + secret + after,
    );
    law_a_variable_states_its_value(b, "CF_ACCESS_CLIENT_ID"@, before, id, after);
    law_a_variable_states_its_value(b, "CF_ACCESS_CLIENT_SECRET"@, before, secret, after);
    assert forall|name: Seq<char>| name != "CF_ACCESS_CLIENT_ID"@ && name
        != "CF_ACCESS_CLIENT_SECRET"@ implies #[trigger] setting(a, name) == setting(b, name) by {}
}

/// The attributes that `OTEL_RESOURCE_ATTRIBUTES` spells are put behind those there are; a
/// list that cannot be read is refused.
pub proof fn law_resource_attributes_are_added(
    settings: Settings,
    vars: Map<Seq<char>, Seq<char>>,
    ratio: Option<u64>,
    before: Seq<char>,
    text: Seq<char>,
    after: Seq<char>,
    base: Settings,
)
    requires
        is_blank(before),
        is_blank(after),
        is_tight(text),
        with_environment(settings, vars.remove("OTEL_RESOURCE_ATTRIBUTES"@), ratio) == Ok::<
            _,
            Failure,
        >(base),
    ensures
        with_environment(
            settings,
            vars.insert("OTEL_RESOURCE_ATTRIBUTES"@, before + text + after),
            ratio,
        ) == (match parsed(text, "OTEL_RESOURCE_ATTRIBUTES"@) {
            Ok(pairs) => Ok::<_, Failure>(
                Settings { resource_attributes: settings.resource_attributes + pairs, ..base },
            ),
            Err(failure) => Err(failure),
        }),
        base.resource_attributes == settings.resource_attributes,
{
    lemma_names();
    lemma_stated(vars, "OTEL_RESOURCE_ATTRIBUTES"@, before, text, after);
    let none = Seq::<(Seq<char>, Seq<char>)>::empty();
    assert(settings.resource_attributes + none =~= settings.resource_attributes);
}

/// The environment name is what `DEPLOYMENT_ENVIRONMENT` states, whatever `APP_ENV` does.
pub proof fn law_the_deployment_environment_names_it(
    settings: Settings,
    vars: Map<Seq<char>, Seq<char>>,
    ratio: Option<u64>,
    before: Seq<char>,
    name: Seq<char>,
    after: Seq<char>,
    base: Settings,
)
    requires
        is_blank(before),
        is_blank(after),
        is_tight(name),
    ensures
        with_environment(settings, vars.remove("DEPLOYMENT_ENVIRONMENT"@), ratio) == Ok::<
            _,
            Failure,
        >(base) ==> with_environment(
            settings,
            vars.insert("DEPLOYMENT_ENVIRONMENT"@, before + name + after),
            ratio,
        ) == Ok::<_, Failure>(Settings { environment: Some(name), ..base }),
        !vars.contains_key("DEPLOYMENT_ENVIRONMENT"@) && with_environment(
            settings,
            vars.remove("APP_ENV"@),
            ratio,
        ) == Ok::<_, Failure>(base) ==> with_environment(
            settings,
            vars.insert("APP_ENV"@, before + name + after),
            ratio,
        ) == Ok::<_, Failure>(Settings { environment: Some(name), ..base }),
{
    lemma_names();
    lemma_stated(vars, "DEPLOYMENT_ENVIRONMENT"@, before, name, after);
    lemma_stated(vars, "APP_ENV"@, before, name, after);
}

/// Of several variables that cannot be used the first is reported: the headers, then the
/// timeout, then the sampling ratio, then the resource attributes. What is wrong with the
/// earlier ones does not depend on the later ones.
pub proof fn law_the_first_unusable_variable_is_reported(
    settings: Settings,
    vars: Map<Seq<char>, Seq<char>>,
    ratio: Option<u64>,
)
    ensures
        ({
            let three = vars.remove("OTEL_RESOURCE_ATTRIBUTES"@);
            let two = three.remove("OTEL_TRACES_SAMPLER_ARG"@);
            let one = two.remove("OTEL_EXPORTER_OTLP_TIMEOUT"@);
            let found = with_environment(settings, vars, ratio);
            &&& with_environment(settings, three, ratio) is Err ==> found == with_environment(
                settings,
                three,
                ratio,
            )
            &&& with_environment(settings, two, ratio) is Err ==> found == with_environment(
                settings,
                two,
                ratio,
            )
            &&& with_environment(settings, one, ratio) is Err ==> found == with_environment(
                settings,
                one,
                ratio,
            )
            &&& with_environment(
                settings,
                one.remove("OTEL_EXPORTER_OTLP_HEADERS"@),
                ratio,
            ) is Ok
        }),
{
    lemma_names();
    let three = vars.remove("OTEL_RESOURCE_ATTRIBUTES"@);
    let two = three.remove("OTEL_TRACES_SAMPLER_ARG"@);
    let one = two.remove("OTEL_EXPORTER_OTLP_TIMEOUT"@);
    let none = one.remove("OTEL_EXPORTER_OTLP_HEADERS"@);
    assert(pairs_setting(three, "OTEL_EXPORTER_OTLP_HEADERS"@) == pairs_setting(
        vars,
        "OTEL_EXPORTER_OTLP_HEADERS"@,
    ));
    assert(timeout_setting(three) == timeout_setting(vars));
    assert(ratio_setting(three, ratio) == ratio_setting(vars, ratio));
    assert(timeout_setting(two) == timeout_setting(vars));
    assert(pairs_setting(none, "OTEL_RESOURCE_ATTRIBUTES"@) is Ok);
}

/// A variable with any other name decides nothing.
pub proof fn law_other_variables_decide_nothing(
    settings: Settings,
    vars: Map<Seq<char>, Seq<char>>,
    ratio: Option<u64>,
    key: Seq<char>,
    value: Seq<char>,
)
    requires
        key != "OTEL_SERVICE_NAME"@,
        key != "OTEL_EXPORTER_OTLP_TRACES_ENDPOINT"@,
        key != "OTEL_EXPORTER_OTLP_ENDPOINT"@,
        key != "OTEL_EXPORTER_OTLP_HEADERS"@,
        key != "CF_ACCESS_CLIENT_ID"@,
        key != "CF_ACCESS_CLIENT_SECRET"@,
        key != "OTEL_EXPORTER_OTLP_TIMEOUT"@,
        key != "OTEL_TRACES_SAMPLER_ARG"@,
        key != "OTEL_RESOURCE_ATTRIBUTES"@,
        key != "DEPLOYMENT_ENVIRONMENT"@,
        key != "APP_ENV"@,
    ensures
        with_environment(settings, vars.insert(key, value), ratio) == with_environment(
            settings,
            vars,
            ratio,
        ),
{
    assert forall|name: Seq<char>| name != key implies #[trigger] setting(
        vars.insert(key, value),
        name,
    ) == setting(vars, name) by {}
    assert(endpoint_setting(vars.insert(key, value)) == endpoint_setting(vars));
    assert(with_access(settings.headers, vars.insert(key, value)) == with_access(
        settings.headers,
        vars,
    ));
}

} // verus!
