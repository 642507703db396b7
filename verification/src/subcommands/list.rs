//! The `list` subcommand: lists all repos known to git-global.

use vstd::prelude::*;
use crate::errors::GitGlobalError;
use crate::repo::{paths_of, Repo};
use crate::report::{
    block, blocks, fresh, printed, with_additions, with_repo_message, without_empty, Report,
    ReportView,
};
use crate::text::joined;

verus! {

/// An empty message for each of `paths`, in their order.
pub open spec fn empty_marks(paths: Seq<Seq<char>>) -> Seq<(Seq<char>, Seq<char>)> {
    Seq::new(paths.len(), |i: int| (paths[i], Seq::<char>::empty()))
}

/// Forces the display of each repo path, without any extra output: the
/// report holds an empty message on each repository, which prints as the
/// path alone.
pub fn execute(repos: &Vec<Repo>) -> (made: Result<Report, GitGlobalError>)
    ensures
        made matches Ok(report) && report@ == with_additions(
            fresh(paths_of(repos@)),
            empty_marks(paths_of(repos@)),
        ),
{
    let mut report = Report::new(repos);
    let ghost marks = empty_marks(paths_of(repos@));
    let mut i: usize = 0;
    proof {
        assert(marks.take(0) =~= Seq::<(Seq<char>, Seq<char>)>::empty());
    }
    while i < repos.len()
        invariant
            i <= repos.len(),
            marks == empty_marks(paths_of(repos@)),
            report@ == with_additions(fresh(paths_of(repos@)), marks.take(i as int)),
        decreases repos.len() - i,
    {
        proof {
            assert(marks.take(i + 1).drop_last() =~= marks.take(i as int));
            assert(marks.take(i + 1).last() == (repos@[i as int]@, Seq::<char>::empty()));
        }
        // An empty message makes the path of the repo show in print, and
        // nothing else.
        report.add_repo_message(&repos[i], String::new());
        i += 1;
    }
    proof {
        assert(marks.take(repos.len() as int) =~= marks);
    }
    Ok(report)
}

/// The report on `paths` in which each of the first `k` repositories has
/// one empty message and the others have none.
pub open spec fn marked(paths: Seq<Seq<char>>, k: int) -> ReportView {
    ReportView {
        repo_messages: Seq::new(
            paths.len(),
            |i: int|
                if i < k {
                    seq![Seq::<char>::empty()]
                } else {
                    Seq::<Seq<char>>::empty()
                },
        ),
        ..fresh(paths)
    }
}

/// The first `k` marks leave the first `k` repositories marked, where no
/// path stands twice.
proof fn lemma_marked(paths: Seq<Seq<char>>, k: int)
    requires
        paths.no_duplicates(),
        0 <= k <= paths.len(),
    ensures
        with_additions(fresh(paths), empty_marks(paths).take(k)) == marked(paths, k),
    decreases k,
{
    let marks = empty_marks(paths).take(k);
    let want = marked(paths, k).repo_messages;
    if k == 0 {
        assert(want =~= fresh(paths).repo_messages);
    } else {
        lemma_marked(paths, k - 1);
        assert(marks.drop_last() =~= empty_marks(paths).take(k - 1));
        assert(marks.last() == (paths[k - 1], Seq::<char>::empty()));
        let before = marked(paths, k - 1);
        let after = with_repo_message(before, paths[k - 1], Seq::empty());
        assert forall|i: int| 0 <= i < paths.len() implies after[i] == want[i] by {
            if i == k - 1 {
                assert(before.repo_messages[i].push(Seq::<char>::empty()) =~= want[i]);
            } else {
                assert(paths[i] != paths[k - 1]);
            }
        }
        assert(after =~= want);
    }
}

/// The blocks of a report in which each repository has one empty message
/// are the paths of the repositories.
proof fn lemma_blocks_of_marked(report: ReportView, n: int)
    requires
        0 <= n <= report.repos.len(),
        !report.pad_repo_output,
        forall|i: int|
            0 <= i < n ==> #[trigger] report.repo_messages[i] == seq![Seq::<char>::empty()],
    ensures
        blocks(report, n) == report.repos.take(n),
    decreases n,
{
    if n == 0 {
        assert(blocks(report, n) =~= report.repos.take(n));
    } else {
        lemma_blocks_of_marked(report, n - 1);
        let messages = report.repo_messages[n - 1];
        assert(messages.drop_last() =~= Seq::<Seq<char>>::empty());
        assert(without_empty(messages.drop_last()) =~= Seq::<Seq<char>>::empty());
        assert(without_empty(messages) =~= Seq::<Seq<char>>::empty());
        assert(block(report.repos[n - 1], messages, false) =~= seq![report.repos[n - 1]]);
        assert(report.repos.take(n - 1) + seq![report.repos[n - 1]] =~= report.repos.take(n));
    }
}

/// What `list` reports prints as the paths of the repositories, one on each
/// line and in their order, where no repository is listed twice.
pub proof fn lemma_list_prints_each_path(paths: Seq<Seq<char>>)
    requires
        paths.no_duplicates(),
    ensures
        printed(with_additions(fresh(paths), empty_marks(paths))) == joined(paths),
{
    let report = with_additions(fresh(paths), empty_marks(paths));
    lemma_marked(paths, paths.len() as int);
    assert(empty_marks(paths).take(paths.len() as int) =~= empty_marks(paths));
    lemma_blocks_of_marked(report, paths.len() as int);
    assert(paths.take(paths.len() as int) =~= paths);
    assert(report.messages + paths =~= paths);
}

} // verus!
