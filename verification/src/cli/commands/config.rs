//! `config`: the settings that the command line can change.
use crate::text::str_eq;
use vstd::prelude::*;

verus! {

/// What `config set <key> <value>` asks for.
#[derive(Debug, PartialEq, Eq, Structural)]
pub enum Setting {
    /// Turn local telemetry on or off.
    Telemetry(bool),
    /// The key is known, but the value is not one of the yes/no words.
    BadValue,
    /// The key is not known.
    UnknownKey,
}

/// The yes/no words: `true`, `yes`, `1` and `false`, `no`, `0`.
pub open spec fn spec_flag(v: Seq<char>) -> Option<bool> {
    if v == "true"@ || v == "yes"@ || v == "1"@ {
        Some(true)
    } else if v == "false"@ || v == "no"@ || v == "0"@ {
        Some(false)
    } else {
        None
    }
}

/// The setting that `key` and `value` ask for; `telemetry` is the one key.
pub open spec fn spec_setting(key: Seq<char>, value: Seq<char>) -> Setting {
    if key == "telemetry"@ {
        match spec_flag(value) {
            Some(b) => Setting::Telemetry(b),
            None => Setting::BadValue,
        }
    } else {
        Setting::UnknownKey
    }
}

/// The setting that `config set <key> <value>` asks for.
pub fn parse_setting(key: &str, value: &str) -> (s: Setting)
    ensures
        s == spec_setting(key@, value@),
{
    if str_eq(key, "telemetry") {
        if str_eq(value, "true") || str_eq(value, "yes") || str_eq(value, "1") {
            Setting::Telemetry(true)
        } else if str_eq(value, "false") || str_eq(value, "no") || str_eq(value, "0") {
            Setting::Telemetry(false)
        } else {
            Setting::BadValue
        }
    } else {
        Setting::UnknownKey
    }
}

} // verus!
