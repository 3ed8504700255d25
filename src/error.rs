use vstd::prelude::*;
use vstd::string::to_string_from_display_ensures;

verus! {

#[verifier::external_type_specification]
#[verifier::external_body]
pub struct ExFmtError(std::fmt::Error);

#[verifier::external_type_specification]
#[verifier::external_body]
pub struct ExIoError(std::io::Error);

/// An error that may occur while logging: the text could not be formatted,
/// or the output could not be written.
pub enum LogError {
    Fmt(std::fmt::Error),
    Io(std::io::Error),
}

impl From<std::fmt::Error> for LogError {
    fn from(err: std::fmt::Error) -> (r: LogError) {
        LogError::Fmt(err)
    }
}

impl vstd::std_specs::convert::FromSpecImpl<std::fmt::Error> for LogError {
    open spec fn obeys_from_spec() -> bool {
        true
    }

    open spec fn from_spec(err: std::fmt::Error) -> LogError {
        LogError::Fmt(err)
    }
}

impl From<std::io::Error> for LogError {
    fn from(err: std::io::Error) -> (r: LogError) {
        LogError::Io(err)
    }
}

impl vstd::std_specs::convert::FromSpecImpl<std::io::Error> for LogError {
    open spec fn obeys_from_spec() -> bool {
        true
    }

    open spec fn from_spec(err: std::io::Error) -> LogError {
        LogError::Io(err)
    }
}

/// The words that every error message starts with.
pub open spec fn error_intro() -> Seq<char> {
    seq!['l', 'o', 'g', ' ', 'w', 'r', 'i', 't', 'e', ' ', 'e', 'r', 'r', 'o', 'r', ':', ' ']
}

impl LogError {
    pub fn is_io(&self) -> (r: bool)
        ensures
            r == (self is Io),
    {
        match self {
            LogError::Fmt(_) => false,
            LogError::Io(_) => true,
        }
    }

    /// The error as text: the intro, then the cause's own message.
    pub fn message(&self) -> (r: String)
        ensures
            exists|cause: String|
                r@ == error_intro() + cause@ && match self {
                    LogError::Fmt(e) => to_string_from_display_ensures(e, cause),
                    LogError::Io(e) => to_string_from_display_ensures(e, cause),
                },
    {
        let intro = "log write error: ";
        proof {
            reveal_strlit("log write error: ");
        }
        let cause = match self {
            LogError::Fmt(e) => e.to_string(),
            LogError::Io(e) => e.to_string(),
        };
        let mut r = intro.to_owned();
        r.append(cause.as_str());
        assert(r@ =~= error_intro() + cause@);
        r
    }
}

} // verus!
