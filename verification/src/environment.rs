//! The environment a process was started with, as plain values.

use vstd::prelude::*;

use crate::string_map::StringMap;
use crate::text::{
    is_blank, is_tight, law_trimming_takes_what_surrounds, trim, trimmed,
};

verus! {

/// The environment variables of a process.
///
/// A process reads its own variables and fills this in; nothing here touches the
/// operating system.
#[derive(Debug)]
pub struct Environment {
    /// Each variable by its name. One whose value is not Unicode is left out.
    pub vars: StringMap,
    /// The number that `OTEL_TRACES_SAMPLER_ARG` spells once it is trimmed, by the
    /// bits of an IEEE 754 binary64; `None` when it spells none.
    pub sampler_ratio: Option<u64>,
}

impl Environment {
    /// An environment without variables.
    pub fn empty() -> (env: Self)
        ensures
            env.vars@ == Map::<Seq<char>, Seq<char>>::empty(),
            env.sampler_ratio is None,
    {
        Environment { vars: StringMap::new(), sampler_ratio: None }
    }
}

/// What a value states: nothing when it is absent, and nothing when it is blank.
pub open spec fn stated(value: Option<Seq<char>>) -> Option<Seq<char>> {
    match value {
        Some(text) => if trimmed(text).len() > 0 {
            Some(trimmed(text))
        } else {
            None
        },
        None => None,
    }
}

/// The value of a variable as it stands, blank or not.
pub open spec fn raw_value(vars: Map<Seq<char>, Seq<char>>, key: Seq<char>) -> Option<Seq<char>> {
    if vars.contains_key(key) {
        Some(vars[key])
    } else {
        None
    }
}

/// What a variable states.
pub open spec fn setting(vars: Map<Seq<char>, Seq<char>>, key: Seq<char>) -> Option<Seq<char>> {
    stated(raw_value(vars, key))
}

/// The characters of a text that may be absent.
pub open spec fn opt_text(value: Option<String>) -> Option<Seq<char>> {
    match value {
        Some(text) => Some(text@),
        None => None,
    }
}

/// A copy of a text that may be absent.
pub(crate) fn copy_text(value: &Option<String>) -> (r: Option<String>)
    ensures
        opt_text(r) == opt_text(*value),
{
    match value {
        Some(text) => Some(text.clone()),
        None => None,
    }
}

/// What the variable `key` states, trimmed.
pub fn var(vars: &StringMap, key: &str) -> (r: Option<String>)
    ensures
        opt_text(r) == setting(vars@, key@),
{
    match vars.get(key) {
        Some(raw) => {
            let value = trim(raw.as_str());
            if value.unicode_len() > 0 {
                Some(value.to_owned())
            } else {
                None
            }
        },
        None => None,
    }
}

/// `RUST_LOG` as it stands.
pub fn rust_log(vars: &StringMap) -> (r: Option<String>)
    ensures
        opt_text(r) == raw_value(vars@, "RUST_LOG"@),
{
    match vars.get("RUST_LOG") {
        Some(raw) => Some(raw.clone()),
        None => None,
    }
}

/// The `EnvFilter` directives to install: `from_env` when it says something,
/// `default` otherwise.
///
/// An empty value parses into a filter that enables nothing, and a service
/// started with one would run in silence. Empty means absent here.
pub fn directives(from_env: Option<String>, default: &str) -> (r: String)
    ensures
        r@ == match stated(opt_text(from_env)) {
            Some(text) => text,
            None => default@,
        },
{
    match from_env {
        Some(raw) => {
            let value = trim(raw.as_str());
            if value.unicode_len() > 0 {
                value.to_owned()
            } else {
                default.to_owned()
            }
        },
        None => default.to_owned(),
    }
}

/// A variable states its value without the white space around it, and nothing when it is
/// blank or absent.
pub proof fn law_a_variable_states_its_value(
    vars: Map<Seq<char>, Seq<char>>,
    key: Seq<char>,
    before: Seq<char>,
    text: Seq<char>,
    after: Seq<char>,
)
    requires
        is_blank(before),
        is_blank(after),
    ensures
        is_tight(text) && vars.contains_key(key) && vars[key] == before + text + after ==> setting(
            vars,
            key,
        ) == Some(text),
        vars.contains_key(key) && vars[key] == before ==> setting(vars, key) is None,
        !vars.contains_key(key) ==> setting(vars, key) is None,
        raw_value(vars, key) is Some <==> vars.contains_key(key),
        vars.contains_key(key) ==> raw_value(vars, key) == Some(vars[key]),
{
    if is_tight(text) {
        law_trimming_takes_what_surrounds(before, text, after);
    }
    let none = Seq::<char>::empty();
    law_trimming_takes_what_surrounds(before, none, none);
    assert(before + none + none =~= before);
}

} // verus!
