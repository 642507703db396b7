//! The `stashed` subcommand: shows stash list for all known repos with
//! stashes.

use vstd::prelude::*;
use crate::errors::GitGlobalError;
use crate::repo::{paths_of, Repo};
use crate::report::{fresh, padded, with_additions, Report};
use crate::subcommands::{all_lines, findings, report_lines};

verus! {

/// Gathers the stashes of all known repos. `results` holds the stash lines
/// that were found, each list with the path of its repository.
pub fn execute(repos: &Vec<Repo>, results: &Vec<(String, Vec<String>)>) -> (made: Result<
    Report,
    GitGlobalError,
>)
    ensures
        made matches Ok(report) && report@ == with_additions(
            padded(fresh(paths_of(repos@))),
            all_lines(findings(results@)),
        ),
{
    Ok(report_lines(repos, results))
}

} // verus!
