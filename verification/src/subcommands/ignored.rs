//! The `ignored` subcommand: lists what is left out of scans.

use vstd::prelude::*;
use vstd::string::StringExecFns;
use crate::config::Config;
use crate::decimal::{decimal, push_decimal};
use crate::errors::GitGlobalError;
use crate::ignore::IgnoreList;
use crate::repo::{paths_of, Repo};
use crate::report::{fresh, non_empty, with_messages, without_empty, Report};
use crate::text::texts;

verus! {

/// Each of `lines` behind two spaces.
pub open spec fn indented(lines: Seq<Seq<char>>) -> Seq<Seq<char>> {
    Seq::new(lines.len(), |i: int| "  "@ + lines[i])
}

/// What is said of the patterns: how many there are and which, or that
/// there are none and how to add one. Empty patterns do not count.
pub open spec fn pattern_messages(patterns: Seq<Seq<char>>) -> Seq<Seq<char>> {
    let shown = without_empty(patterns);
    if shown.len() == 0 {
        seq![
            "No patterns in global.ignore."@,
            "Use `git global ignore <pattern>` to add one."@,
        ]
    } else {
        seq!["Ignored patterns ("@ + decimal(shown.len()) + "):"@] + indented(shown)
    }
}

/// What is said of the ignored repos: how many there are and which, or
/// nothing where there are none.
pub open spec fn repo_messages(ignored: Seq<Seq<char>>) -> Seq<Seq<char>> {
    if ignored.len() == 0 {
        Seq::empty()
    } else {
        seq!["Ignored repos ("@ + decimal(ignored.len()) + "):"@] + indented(ignored)
    }
}

/// Adds each of `lines` to the messages of `report`, behind two spaces.
fn add_indented(report: &mut Report, lines: &Vec<String>)
    ensures
        final(report)@ == with_messages(old(report)@, indented(texts(lines@))),
{
    let ghost all = indented(texts(lines@));
    let mut i: usize = 0;
    proof {
        assert(old(report)@.messages + all.take(0) =~= old(report)@.messages);
    }
    while i < lines.len()
        invariant
            i <= lines.len(),
            all == indented(texts(lines@)),
            report@ == with_messages(old(report)@, all.take(i as int)),
        decreases lines.len() - i,
    {
        let mut line = String::from_str("  ");
        line.append(lines[i].as_str());
        proof {
            assert((old(report)@.messages + all.take(i as int)).push(line@) =~= old(
                report,
            )@.messages + all.take(i + 1));
        }
        report.add_message(line);
        i += 1;
    }
    proof {
        assert(all.take(lines.len() as int) =~= all);
    }
}

/// Lists the patterns of the configuration, and the repos on the ignore
/// list.
pub fn execute(config: &Config, ignored: &IgnoreList) -> (made: Result<Report, GitGlobalError>)
    ensures
        made matches Ok(report) && report@ == with_messages(
            fresh(Seq::empty()),
            pattern_messages(config@.ignored_patterns) + repo_messages(ignored@),
        ),
{
    let none: Vec<Repo> = Vec::new();
    let mut report = Report::new(&none);
    proof {
        assert(paths_of(none@) =~= Seq::<Seq<char>>::empty());
    }
    let patterns = non_empty(&config.ignored_patterns);
    if patterns.len() == 0 {
        report.add_message(String::from_str("No patterns in global.ignore."));
        report.add_message(String::from_str("Use `git global ignore <pattern>` to add one."));
    } else {
        let mut head = String::from_str("Ignored patterns (");
        push_decimal(&mut head, patterns.len() as u64);
        head.append("):");
        report.add_message(head);
        add_indented(&mut report, &patterns);
    }
    proof {
        assert(report@.messages =~= pattern_messages(config@.ignored_patterns));
    }
    let entries = ignored.entries();
    if entries.len() > 0 {
        let mut head = String::from_str("Ignored repos (");
        push_decimal(&mut head, entries.len() as u64);
        head.append("):");
        report.add_message(head);
        add_indented(&mut report, entries);
    }
    proof {
        assert(report@.messages =~= pattern_messages(config@.ignored_patterns) + repo_messages(
            ignored@,
        ));
    }
    Ok(report)
}

} // verus!
