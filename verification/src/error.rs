//! Errors of the argument parsers, with the messages the command line prints.
use vstd::prelude::*;

verus! {

/// Why a command line argument was refused. Each variant holds the
/// offending text.
#[derive(Debug, Clone, PartialEq, Eq)]
pub enum ArgError {
    /// The argument is not a duration such as `1h 2m 3s 4ms`.
    BadDuration(String),
    /// The argument is not a byte size such as `512MiB`.
    BadByteSize(String),
    /// The byte size names a unit (the text held) that is not supported.
    UnsupportedUnit(String),
    /// The player specification is none of `human`, `minimax...`, `subprocess@...`.
    BadPlayer(String),
}

/// The message that the command line prints for an error.
pub open spec fn message_text(e: ArgError) -> Seq<char> {
    match e {
        ArgError::BadDuration(a) => "Unable to parse duration: '"@ + a@ + "'"@,
        ArgError::BadByteSize(a) => "Unable to parse bytesize: '"@ + a@ + "'"@,
        ArgError::UnsupportedUnit(u) => "Unsupported unite: '"@ + u@ + "'"@,
        ArgError::BadPlayer(s) => "bad player spec: "@ + s@,
    }
}

/// Each message names the refused text: it is quoted after `Unable to parse
/// duration: `, `Unable to parse bytesize: ` or `Unsupported unite: `, and
/// follows `bad player spec: ` for a player.
pub proof fn law_messages_name_the_text(a: String)
    ensures
        message_text(ArgError::BadDuration(a)) == "Unable to parse duration: '"@ + a@ + "'"@,
        message_text(ArgError::BadByteSize(a)) == "Unable to parse bytesize: '"@ + a@ + "'"@,
        message_text(ArgError::UnsupportedUnit(a)) == "Unsupported unite: '"@ + a@ + "'"@,
        message_text(ArgError::BadPlayer(a)) == "bad player spec: "@ + a@,
{
}

impl ArgError {
    /// The message that the command line prints for this error.
    pub fn message(&self) -> (m: String)
        ensures
            m@ == message_text(*self),
    {
        match self {
            ArgError::BadDuration(a) => {
                let mut m = String::from_str("Unable to parse duration: '");
                m.append(a.as_str());
                m.append("'");
                m
            },
            ArgError::BadByteSize(a) => {
                let mut m = String::from_str("Unable to parse bytesize: '");
                m.append(a.as_str());
                m.append("'");
                m
            },
            ArgError::UnsupportedUnit(u) => {
                let mut m = String::from_str("Unsupported unite: '");
                m.append(u.as_str());
                m.append("'");
                m
            },
            ArgError::BadPlayer(s) => {
                let mut m = String::from_str("bad player spec: ");
                m.append(s.as_str());
                m
            },
        }
    }
}

} // verus!
