//! The `scan` subcommand: scans the filesystem for git repos.
//!
//! By default, the user's home directory is walked, but this starting point
//! can be configured with the `basedir` setting.
//!
//! The `scan` subcommand caches the list of git repos paths it finds, and
//! can be rerun at any time to refresh the list.

use vstd::prelude::*;
use vstd::string::StringExecFns;
use crate::decimal::{decimal, push_decimal};
use crate::errors::GitGlobalError;
use crate::repo::{paths_of, Repo};
use crate::report::{fresh, with_messages, Report};

verus! {

/// The sentence that says how many repos were found.
pub open spec fn found_message(count: nat) -> Seq<char> {
    "Found "@ + decimal(count) + " repos. Use `git global list` to show them."@
}

/// Says how many repos were found. `repos` is what the scan, made after the
/// cache was cleared, has brought.
pub fn execute(repos: &Vec<Repo>) -> (made: Result<Report, GitGlobalError>)
    ensures
        made matches Ok(report) && report@ == with_messages(
            fresh(paths_of(repos@)),
            seq![found_message(repos.len() as nat)],
        ),
{
    let mut report = Report::new(repos);
    let mut message = String::from_str("Found ");
    push_decimal(&mut message, repos.len() as u64);
    message.append(" repos. Use `git global list` to show them.");
    report.add_message(message);
    proof {
        assert(report@.messages =~= seq![found_message(repos.len() as nat)]);
    }
    Ok(report)
}

} // verus!
