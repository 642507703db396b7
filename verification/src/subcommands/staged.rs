//! The `staged` subcommand: shows `git status -s` for staged changes in all
//! known repos with such changes.

use vstd::prelude::*;
use crate::config::Config;
use crate::errors::GitGlobalError;
use crate::repo::{paths_of, Repo};
use crate::report::{fresh, padded, with_additions, Report};
use crate::subcommands::{
    all_lines, findings, report_lines, status_query, StatusQuery, StatusScope,
};

verus! {

/// What to ask git of each repository: the status of the index.
pub fn query(config: &Config) -> (query: StatusQuery)
    ensures
        query == (StatusQuery {
            scope: StatusScope::Index,
            include_untracked: config.show_untracked,
            include_ignored: false,
        }),
{
    status_query(config, StatusScope::Index)
}

/// Gathers the staged changes of all known repos. `results` holds the
/// status lines that were found, each list with the path of its repository.
pub fn execute(repos: &Vec<Repo>, results: &Vec<(String, Vec<String>)>) -> (made: Result<
    Report,
    GitGlobalError,
>)
    ensures
        made matches Ok(report) && report@ == with_additions(
            padded(fresh(paths_of(repos@))),
            all_lines(findings(results@)),
        ),
{
    Ok(report_lines(repos, results))
}

} // verus!
