//! The log module's view of an invocation input: a severity level and a
//! message, read from a document value.

use crate::transform::obj_get;
use crate::value::{SpecValue, Value};
use vstd::prelude::*;

verus! {

#[derive(PartialEq, Eq, Structural, Clone, Copy, Debug)]
pub enum LogLevel {
    Info,
    Debug,
    Warn,
    Error,
}

/// The level named by the `level` field; anything else means `Info`.
pub open spec fn spec_level_of(v: SpecValue) -> LogLevel {
    match obj_get(v, "level"@) {
        Some(SpecValue::Text(s)) => if s == "info"@ {
            LogLevel::Info
        } else if s == "debug"@ {
            LogLevel::Debug
        } else if s == "warn"@ {
            LogLevel::Warn
        } else if s == "error"@ {
            LogLevel::Error
        } else {
            LogLevel::Info
        },
        _ => LogLevel::Info,
    }
}

/// The text of the `message` field: text stands as itself; anything
/// else, a missing message included, is written out as its JSON.
pub open spec fn spec_message_of(v: SpecValue) -> Seq<char> {
    match obj_get(v, "message"@) {
        Some(SpecValue::Text(s)) => s,
        Some(other) => crate::json::json_of(other),
        None => crate::json::json_of(SpecValue::Null),
    }
}

#[derive(Debug)]
pub struct Log {
    pub level: LogLevel,
    pub message: String,
}

impl Log {
    /// Read a log entry from an invocation input value.
    pub fn from_value(value: &Value) -> (r: Log)
        ensures
            r.level == spec_level_of(value@),
            r.message@ == spec_message_of(value@),
    {
        let level = match value.get("level") {
            Some(Value::Text(s)) => {
                if crate::value::str_eq(s.as_str(), "info") {
                    LogLevel::Info
                } else if crate::value::str_eq(s.as_str(), "debug") {
                    LogLevel::Debug
                } else if crate::value::str_eq(s.as_str(), "warn") {
                    LogLevel::Warn
                } else if crate::value::str_eq(s.as_str(), "error") {
                    LogLevel::Error
                } else {
                    LogLevel::Info
                }
            },
            _ => LogLevel::Info,
        };
        let message = match value.get("message") {
            Some(Value::Text(s)) => s.clone(),
            Some(other) => crate::yaml::chars_to_string(&crate::json::to_json(other)),
            None => crate::yaml::chars_to_string(&crate::json::to_json(&Value::Null)),
        };
        Log { level, message }
    }
}

} // verus!
