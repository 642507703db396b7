//! The errors that the library reports.

use vstd::prelude::*;
use vstd::string::StringExecFns;

verus! {

/// What went wrong with a request.
#[derive(Debug)]
pub enum GitGlobalError {
    /// The name is not that of a subcommand.
    BadSubcommand(String),
    /// The subcommand of this name was given no argument and needs one.
    MissingArgument(String),
    /// This path is on the ignore list already.
    AlreadyIgnored(String),
    /// Anything else.
    Generic,
}

/// The sentence that tells the operator of `e`.
pub open spec fn message_of(e: GitGlobalError) -> Seq<char> {
    match e {
        GitGlobalError::BadSubcommand(cmd) => "Unknown subcommand, "@ + cmd@ + "."@,
        GitGlobalError::MissingArgument(cmd) => "Missing argument for subcommand, "@ + cmd@ + "."@,
        GitGlobalError::AlreadyIgnored(path) => "Already ignored, "@ + path@ + "."@,
        GitGlobalError::Generic => "An error occured :(."@,
    }
}

impl GitGlobalError {
    /// The sentence that tells the operator of this error.
    pub fn message(&self) -> (m: String)
        ensures
            m@ == message_of(*self),
    {
        match self {
            GitGlobalError::BadSubcommand(cmd) => {
                let mut m = String::from_str("Unknown subcommand, ");
                m.append(cmd.as_str());
                m.append(".");
                m
            },
            GitGlobalError::MissingArgument(cmd) => {
                let mut m = String::from_str("Missing argument for subcommand, ");
                m.append(cmd.as_str());
                m.append(".");
                m
            },
            GitGlobalError::AlreadyIgnored(path) => {
                let mut m = String::from_str("Already ignored, ");
                m.append(path.as_str());
                m.append(".");
                m
            },
            GitGlobalError::Generic => String::from_str("An error occured :(."),
        }
    }

    /// The kind of this error, in a few words.
    pub fn description(&self) -> (d: &'static str)
        ensures
            d@ == match *self {
                GitGlobalError::BadSubcommand(_) => "unknown subcommand"@,
                GitGlobalError::MissingArgument(_) => "missing argument"@,
                GitGlobalError::AlreadyIgnored(_) => "already ignored"@,
                GitGlobalError::Generic => "an error occurred :("@,
            },
    {
        match self {
            GitGlobalError::BadSubcommand(_) => "unknown subcommand",
            GitGlobalError::MissingArgument(_) => "missing argument",
            GitGlobalError::AlreadyIgnored(_) => "already ignored",
            GitGlobalError::Generic => "an error occurred :(",
        }
    }
}

/// The error type of `std::io`. Nothing is said of what such an error
/// holds.
#[verifier::external_type_specification]
#[verifier::external_body]
pub struct ExIoError(std::io::Error);

impl From<std::io::Error> for GitGlobalError {
    /// Whatever went wrong with reading or writing is reported as
    /// `Generic`.
    fn from(err: std::io::Error) -> (e: GitGlobalError) {
        GitGlobalError::Generic
    }
}

impl vstd::std_specs::convert::FromSpecImpl<std::io::Error> for GitGlobalError {
    open spec fn obeys_from_spec() -> bool {
        true
    }

    open spec fn from_spec(err: std::io::Error) -> GitGlobalError {
        GitGlobalError::Generic
    }
}

} // verus!
