//! Subcommand implementations and the dispatch function `run()`.
//!
//! A subcommand is run in two steps. `run()` finds out which subcommand is
//! meant. What that subcommand needs is then gathered (the repositories,
//! and what git says of each), and its `execute()` makes the report.

pub mod ahead;
pub mod ignore;
pub mod ignored;
pub mod info;
pub mod install_manpage;
pub mod list;
pub mod scan;
pub mod staged;
pub mod stashed;
pub mod status;
pub mod unstaged;

use vstd::prelude::*;
use vstd::string::StringExecFns;
use crate::config::Config;
use crate::errors::GitGlobalError;
use crate::repo::{paths_of, Repo};
use crate::report::{fresh, padded, with_additions, Report};
use crate::text::{str_eq, texts};

verus! {

/// The subcommands, without what they are given.
#[derive(Clone, Copy, Debug, PartialEq, Eq, Structural)]
pub enum Kind {
    Info,
    List,
    Scan,
    Staged,
    Stashed,
    Status,
    Unstaged,
    Ahead,
    Ignore,
    Ignored,
}

/// A subcommand to run.
#[derive(Debug)]
pub enum Subcommand {
    /// Shows meta-information about git-global.
    Info,
    /// Lists all known repos.
    List,
    /// Updates the cache of known repos.
    Scan,
    /// Shows the status of the index for repos with staged changes.
    Staged,
    /// Shows repos with stashed changes.
    Stashed,
    /// Shows the status of repos with any changes.
    Status,
    /// Shows the status of the working directory for repos with unstaged
    /// changes.
    Unstaged,
    /// Shows repos with changes that are not pushed to a remote.
    Ahead,
    /// Puts the repo at this path on the ignore list.
    Ignore(String),
    /// Lists what is ignored.
    Ignored,
}

impl Subcommand {
    /// Which subcommand this is.
    pub open spec fn kind(self) -> Kind {
        match self {
            Subcommand::Info => Kind::Info,
            Subcommand::List => Kind::List,
            Subcommand::Scan => Kind::Scan,
            Subcommand::Staged => Kind::Staged,
            Subcommand::Stashed => Kind::Stashed,
            Subcommand::Status => Kind::Status,
            Subcommand::Unstaged => Kind::Unstaged,
            Subcommand::Ahead => Kind::Ahead,
            Subcommand::Ignore(_) => Kind::Ignore,
            Subcommand::Ignored => Kind::Ignored,
        }
    }
}

/// The subcommand of the name `name`, if there is one.
pub open spec fn kind_named(name: Seq<char>) -> Option<Kind> {
    if name == "info"@ {
        Some(Kind::Info)
    } else if name == "list"@ {
        Some(Kind::List)
    } else if name == "scan"@ {
        Some(Kind::Scan)
    } else if name == "staged"@ {
        Some(Kind::Staged)
    } else if name == "stashed"@ {
        Some(Kind::Stashed)
    } else if name == "status"@ {
        Some(Kind::Status)
    } else if name == "unstaged"@ {
        Some(Kind::Unstaged)
    } else if name == "ahead"@ {
        Some(Kind::Ahead)
    } else if name == "ignore"@ {
        Some(Kind::Ignore)
    } else if name == "ignored"@ {
        Some(Kind::Ignored)
    } else {
        None
    }
}

/// The name under which a subcommand is looked up: the one given, or the
/// default of the configuration where none is given.
pub open spec fn name_meant(given: Option<&str>, config: Config) -> Seq<char> {
    match given {
        Some(name) => name@,
        None => config.default_cmd@,
    }
}

/// The names and descriptions of all subcommands.
pub open spec fn subcommands() -> Seq<(Seq<char>, Seq<char>)> {
    seq![
        ("info"@, "Shows meta-information about git-global"@),
        ("list"@, "Lists all known repos"@),
        ("scan"@, "Updates cache of known repos"@),
        ("staged"@, "Show git index status for repos with staged changes"@),
        ("stashed"@, "Shows repos with stashed changes"@),
        ("status"@, "Shows status (`git status -s`) for repos with any changes"@),
        ("unstaged"@, "Show working dir status for repos with unstaged changes"@),
        ("ahead"@, "Shows repos with changes that are not pushed to a remote"@),
        ("ignore"@, "Ignores the repo at the given path"@),
        ("ignored"@, "Lists what is ignored"@),
    ]
}

/// The views of a list of names and descriptions.
pub open spec fn pairs_view(pairs: Seq<(&'static str, &'static str)>) -> Seq<
    (Seq<char>, Seq<char>),
> {
    Seq::new(pairs.len(), |i: int| (pairs[i].0@, pairs[i].1@))
}

/// Finds the subcommand to run. If `None` is given for the optional
/// subcommand, the one that `config.default_cmd` names is meant. Else, the
/// given `&str` is matched to a known subcommand. `argument` is what the
/// subcommand was given on the command line, if anything; `ignore` needs
/// it, and the others do not look at it.
pub fn run(maybe_subcmd: Option<&str>, argument: Option<String>, config: &Config) -> (found: Result<
    Subcommand,
    GitGlobalError,
>)
    ensures
        match found {
            Ok(subcommand) => {
                &&& kind_named(name_meant(maybe_subcmd, *config)) == Some(subcommand.kind())
                &&& subcommand matches Subcommand::Ignore(path) ==> argument matches Some(given)
                    && path@ == given@
            },
            Err(GitGlobalError::BadSubcommand(name)) => {
                &&& kind_named(name_meant(maybe_subcmd, *config)) is None
                &&& name@ == name_meant(maybe_subcmd, *config)
            },
            Err(GitGlobalError::MissingArgument(name)) => {
                &&& kind_named(name_meant(maybe_subcmd, *config)) == Some(Kind::Ignore)
                &&& argument is None
                &&& name@ == name_meant(maybe_subcmd, *config)
            },
            Err(_) => false,
        },
{
    let command: &str = match maybe_subcmd {
        Some(name) => name,
        None => config.default_cmd.as_str(),
    };
    if str_eq(command, "info") {
        Ok(Subcommand::Info)
    } else if str_eq(command, "list") {
        Ok(Subcommand::List)
    } else if str_eq(command, "scan") {
        Ok(Subcommand::Scan)
    } else if str_eq(command, "staged") {
        Ok(Subcommand::Staged)
    } else if str_eq(command, "stashed") {
        Ok(Subcommand::Stashed)
    } else if str_eq(command, "status") {
        Ok(Subcommand::Status)
    } else if str_eq(command, "unstaged") {
        Ok(Subcommand::Unstaged)
    } else if str_eq(command, "ahead") {
        Ok(Subcommand::Ahead)
    } else if str_eq(command, "ignore") {
        match argument {
            Some(path) => Ok(Subcommand::Ignore(path)),
            None => Err(GitGlobalError::MissingArgument(String::from_str(command))),
        }
    } else if str_eq(command, "ignored") {
        Ok(Subcommand::Ignored)
    } else {
        Err(GitGlobalError::BadSubcommand(String::from_str(command)))
    }
}

/// Return the list of all subcommand names and descriptions.
pub fn get_subcommands() -> (list: Vec<(&'static str, &'static str)>)
    ensures
        pairs_view(list@) == subcommands(),
{
    let mut list: Vec<(&'static str, &'static str)> = Vec::new();
    list.push(("info", "Shows meta-information about git-global"));
    list.push(("list", "Lists all known repos"));
    list.push(("scan", "Updates cache of known repos"));
    list.push(("staged", "Show git index status for repos with staged changes"));
    list.push(("stashed", "Shows repos with stashed changes"));
    list.push(("status", "Shows status (`git status -s`) for repos with any changes"));
    list.push(("unstaged", "Show working dir status for repos with unstaged changes"));
    list.push(("ahead", "Shows repos with changes that are not pushed to a remote"));
    list.push(("ignore", "Ignores the repo at the given path"));
    list.push(("ignored", "Lists what is ignored"));
    proof {
        assert(pairs_view(list@) =~= subcommands());
    }
    list
}

/// The names that `run()` knows are the names that `get_subcommands()`
/// lists.
pub proof fn lemma_known_names_are_listed(name: Seq<char>)
    ensures
        kind_named(name) is Some <==> exists|i: int|
            0 <= i < subcommands().len() && (#[trigger] subcommands()[i]).0 == name,
{
    let listed = subcommands();
    if kind_named(name) is Some {
        if name == "info"@ {
            assert(listed[0].0 == name);
        } else if name == "list"@ {
            assert(listed[1].0 == name);
        } else if name == "scan"@ {
            assert(listed[2].0 == name);
        } else if name == "staged"@ {
            assert(listed[3].0 == name);
        } else if name == "stashed"@ {
            assert(listed[4].0 == name);
        } else if name == "status"@ {
            assert(listed[5].0 == name);
        } else if name == "unstaged"@ {
            assert(listed[6].0 == name);
        } else if name == "ahead"@ {
            assert(listed[7].0 == name);
        } else if name == "ignore"@ {
            assert(listed[8].0 == name);
        } else {
            assert(listed[9].0 == name);
        }
    }
}

/// The code with which the program ends: 0 where the subcommand has made
/// its report, 1 where it has failed.
pub fn exit_code(made: &Result<Report, GitGlobalError>) -> (code: i32)
    ensures
        code == if made is Ok {
            0i32
        } else {
            1i32
        },
{
    match made {
        Ok(_) => 0,
        Err(_) => 1,
    }
}

/// Which part of the status of a repository is asked for.
#[derive(Clone, Copy, Debug, PartialEq, Eq, Structural)]
pub enum StatusScope {
    /// What is staged: the index against the last commit.
    Index,
    /// What is not staged: the working directory against the index.
    Workdir,
    /// Both.
    IndexAndWorkdir,
}

/// What to ask git for the status of a repository.
#[derive(Clone, Copy, Debug, PartialEq, Eq, Structural)]
pub struct StatusQuery {
    /// The part of the status that is asked for.
    pub scope: StatusScope,
    /// Whether files that git does not track are reported.
    pub include_untracked: bool,
    /// Whether files that git ignores are reported.
    pub include_ignored: bool,
}

/// The question to ask git for `scope` under `config`: untracked files are
/// reported where the configuration says so, ignored files never.
pub fn status_query(config: &Config, scope: StatusScope) -> (query: StatusQuery)
    ensures
        query == (StatusQuery {
            scope,
            include_untracked: config.show_untracked,
            include_ignored: false,
        }),
{
    StatusQuery { scope, include_untracked: config.show_untracked, include_ignored: false }
}

/// The lines that were found for each repository, as plain values.
pub open spec fn findings(results: Seq<(String, Vec<String>)>) -> Seq<(Seq<char>, Seq<Seq<char>>)> {
    Seq::new(results.len(), |i: int| (results[i].0@, texts(results[i].1@)))
}

/// Each line of `lines` with the path that it belongs to.
pub open spec fn lines_at(path: Seq<char>, lines: Seq<Seq<char>>) -> Seq<(Seq<char>, Seq<char>)> {
    Seq::new(lines.len(), |j: int| (path, lines[j]))
}

/// All lines of `found`, each with its path, in the order of `found`.
pub open spec fn all_lines(found: Seq<(Seq<char>, Seq<Seq<char>>)>) -> Seq<(Seq<char>, Seq<char>)>
    decreases found.len(),
{
    if found.len() == 0 {
        Seq::empty()
    } else {
        all_lines(found.drop_last()) + lines_at(found.last().0, found.last().1)
    }
}

/// The report on `repos` that holds the lines of `results`, each as a
/// message on the repository at its path, in the order of `results`. The
/// report is padded.
pub fn report_lines(repos: &Vec<Repo>, results: &Vec<(String, Vec<String>)>) -> (report: Report)
    ensures
        report@ == with_additions(
            padded(fresh(paths_of(repos@))),
            all_lines(findings(results@)),
        ),
{
    let mut report = Report::new(repos);
    report.pad_repo_output();
    let ghost base = padded(fresh(paths_of(repos@)));
    let ghost found = findings(results@);
    let mut i: usize = 0;
    proof {
        assert(found.take(0) =~= Seq::<(Seq<char>, Seq<Seq<char>>)>::empty());
    }
    while i < results.len()
        invariant
            i <= results.len(),
            found == findings(results@),
            report@ == with_additions(base, all_lines(found.take(i as int))),
        decreases results.len() - i,
    {
        let repo = Repo::new(results[i].0.clone());
        let lines = &results[i].1;
        let ghost done = all_lines(found.take(i as int));
        let ghost here = lines_at(repo@, texts(lines@));
        let mut j: usize = 0;
        proof {
            assert(done + here.take(0) =~= done);
        }
        while j < lines.len()
            invariant
                j <= lines.len(),
                here == lines_at(repo@, texts(lines@)),
                report@ == with_additions(base, done + here.take(j as int)),
            decreases lines.len() - j,
        {
            proof {
                let next = done + here.take(j + 1);
                assert(next.drop_last() =~= done + here.take(j as int));
                assert(next.last() == (repo@, lines@[j as int]@));
            }
            report.add_repo_message(&repo, lines[j].clone());
            j += 1;
        }
        proof {
            assert(here.take(lines.len() as int) =~= here);
            assert(found.take(i + 1).drop_last() =~= found.take(i as int));
            assert(found.take(i + 1).last() == (repo@, texts(lines@)));
        }
        i += 1;
    }
    proof {
        assert(found.take(results.len() as int) =~= found);
    }
    report
}

} // verus!
