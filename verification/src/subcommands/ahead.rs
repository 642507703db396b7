//! The `ahead` subcommand: shows repositories that have commits not pushed
//! to a remote.

use vstd::prelude::*;
use crate::errors::GitGlobalError;
use crate::repo::{paths_of, Repo};
use crate::report::{fresh, with_additions, Report};

verus! {

/// What was found of each repository, as plain values.
pub open spec fn verdicts(results: Seq<(String, bool)>) -> Seq<(Seq<char>, bool)> {
    Seq::new(results.len(), |i: int| (results[i].0@, results[i].1))
}

/// An empty message for each repository of `found` that is ahead, in the
/// order of `found`.
pub open spec fn ahead_marks(found: Seq<(Seq<char>, bool)>) -> Seq<(Seq<char>, Seq<char>)>
    decreases found.len(),
{
    if found.len() == 0 {
        Seq::empty()
    } else if found.last().1 {
        ahead_marks(found.drop_last()).push((found.last().0, Seq::empty()))
    } else {
        ahead_marks(found.drop_last())
    }
}

/// Runs the `ahead` subcommand: the report shows the repositories that are
/// ahead of their remotes. `results` holds, with the path of each
/// repository, whether it is ahead.
pub fn execute(repos: &Vec<Repo>, results: &Vec<(String, bool)>) -> (made: Result<
    Report,
    GitGlobalError,
>)
    ensures
        made matches Ok(report) && report@ == with_additions(
            fresh(paths_of(repos@)),
            ahead_marks(verdicts(results@)),
        ),
{
    let mut report = Report::new(repos);
    let ghost found = verdicts(results@);
    let mut i: usize = 0;
    proof {
        assert(found.take(0) =~= Seq::<(Seq<char>, bool)>::empty());
    }
    while i < results.len()
        invariant
            i <= results.len(),
            found == verdicts(results@),
            report@ == with_additions(fresh(paths_of(repos@)), ahead_marks(found.take(i as int))),
        decreases results.len() - i,
    {
        proof {
            assert(found.take(i + 1).drop_last() =~= found.take(i as int));
            assert(found.take(i + 1).last() == (results@[i as int].0@, results@[i as int].1));
            let marks = ahead_marks(found.take(i as int));
            assert(marks.push((results@[i as int].0@, Seq::<char>::empty())).drop_last() =~= marks);
        }
        if results[i].1 {
            let repo = Repo::new(results[i].0.clone());
            report.add_repo_message(&repo, String::new());
        }
        i += 1;
    }
    proof {
        assert(found.take(results.len() as int) =~= found);
    }
    Ok(report)
}

} // verus!
