//! What a subcommand has to say.
//!
//! A report holds messages on the run as a whole and, for each repository
//! that the subcommand looked at, the messages on that repository. It is
//! printed as lines of text: first the messages on the run, then for each
//! repository with messages its path and its messages.

use vstd::prelude::*;
use vstd::string::StringExecFns;
use crate::repo::{paths_of, Repo};
use crate::text::{joined, texts, NEWLINE};

verus! {

/// What a `Report` holds, as plain values.
pub struct ReportView {
    /// The messages on the run as a whole.
    pub messages: Seq<Seq<char>>,
    /// The paths of the repositories that the report is about.
    pub repos: Seq<Seq<char>>,
    /// For each repository, at its place in `repos`, the messages on it.
    pub repo_messages: Seq<Seq<Seq<char>>>,
    /// Whether an empty line follows the messages of each repository.
    pub pad_repo_output: bool,
}

/// A report containing the results of a subcommand.
#[derive(Debug)]
pub struct Report {
    messages: Vec<String>,
    repos: Vec<Repo>,
    repo_messages: Vec<Vec<String>>,
    pad_repo_output: bool,
}

/// The contents of a sequence of lists of strings.
pub open spec fn nested_texts(lists: Seq<Vec<String>>) -> Seq<Seq<Seq<char>>> {
    Seq::new(lists.len(), |i: int| texts(lists[i]@))
}

/// `lines` without the empty ones.
pub open spec fn without_empty(lines: Seq<Seq<char>>) -> Seq<Seq<char>>
    decreases lines.len(),
{
    if lines.len() == 0 {
        Seq::empty()
    } else if lines.last().len() == 0 {
        without_empty(lines.drop_last())
    } else {
        without_empty(lines.drop_last()).push(lines.last())
    }
}

/// The lines that a repository takes in print: none where there is no
/// message on it; else its path, its messages that are not empty, and an
/// empty line where `pad` is set.
pub open spec fn block(path: Seq<char>, messages: Seq<Seq<char>>, pad: bool) -> Seq<Seq<char>> {
    if messages.len() == 0 {
        Seq::empty()
    } else {
        seq![path] + without_empty(messages) + if pad {
            seq![Seq::<char>::empty()]
        } else {
            Seq::empty()
        }
    }
}

/// The lines that the first `n` repositories of a report take in print.
pub open spec fn blocks(report: ReportView, n: int) -> Seq<Seq<char>>
    decreases n,
{
    if n <= 0 {
        Seq::empty()
    } else {
        blocks(report, n - 1) + block(
            report.repos[n - 1],
            report.repo_messages[n - 1],
            report.pad_repo_output,
        )
    }
}

/// The lines of a report in print: the messages on the run, then the lines
/// of each repository, in the order of the repositories.
pub open spec fn printed_lines(report: ReportView) -> Seq<Seq<char>> {
    report.messages + blocks(report, report.repos.len() as int)
}

/// A report in print: each of its lines, ended by a newline.
pub open spec fn printed(report: ReportView) -> Seq<char> {
    joined(printed_lines(report))
}

/// The messages of a report after `line` has been added for the repository
/// at `path`: it stands at the end of the messages of every repository with
/// that path.
pub open spec fn with_repo_message(
    report: ReportView,
    path: Seq<char>,
    line: Seq<char>,
) -> Seq<Seq<Seq<char>>> {
    Seq::new(
        report.repo_messages.len(),
        |i: int|
            if report.repos[i] == path {
                report.repo_messages[i].push(line)
            } else {
                report.repo_messages[i]
            },
    )
}

/// The report that holds no message yet on the repositories at `paths`.
pub open spec fn fresh(paths: Seq<Seq<char>>) -> ReportView {
    ReportView {
        messages: Seq::empty(),
        repos: paths,
        repo_messages: Seq::new(paths.len(), |i: int| Seq::empty()),
        pad_repo_output: false,
    }
}

/// `report`, set to print an empty line after the messages of each
/// repository.
pub open spec fn padded(report: ReportView) -> ReportView {
    ReportView { pad_repo_output: true, ..report }
}

/// The report after each of `additions` has been added in turn, each a
/// path and a message on the repository there.
pub open spec fn with_additions(
    report: ReportView,
    additions: Seq<(Seq<char>, Seq<char>)>,
) -> ReportView
    decreases additions.len(),
{
    if additions.len() == 0 {
        report
    } else {
        let before = with_additions(report, additions.drop_last());
        ReportView {
            repo_messages: with_repo_message(before, additions.last().0, additions.last().1),
            ..before
        }
    }
}

/// The messages of `additions` that are on the repository at `path`, in
/// their order.
pub open spec fn lines_for(additions: Seq<(Seq<char>, Seq<char>)>, path: Seq<char>) -> Seq<
    Seq<char>,
>
    decreases additions.len(),
{
    if additions.len() == 0 {
        Seq::empty()
    } else if additions.last().0 == path {
        lines_for(additions.drop_last(), path).push(additions.last().1)
    } else {
        lines_for(additions.drop_last(), path)
    }
}

/// To add messages is to give each repository the messages on its path, in
/// their order, behind those it has, and to change nothing else. No
/// message on a repository of the report is lost, and none goes astray.
pub proof fn lemma_with_additions(report: ReportView, additions: Seq<(Seq<char>, Seq<char>)>)
    requires
        report.repo_messages.len() == report.repos.len(),
    ensures
        with_additions(report, additions).messages == report.messages,
        with_additions(report, additions).repos == report.repos,
        with_additions(report, additions).pad_repo_output == report.pad_repo_output,
        with_additions(report, additions).repo_messages.len() == report.repos.len(),
        forall|i: int|
            0 <= i < report.repos.len() ==> #[trigger] with_additions(
                report,
                additions,
            ).repo_messages[i] == report.repo_messages[i] + lines_for(additions, report.repos[i]),
    decreases additions.len(),
{
    if additions.len() == 0 {
        assert forall|i: int| 0 <= i < report.repos.len() implies report.repo_messages[i]
            == report.repo_messages[i] + lines_for(additions, report.repos[i]) by {
            assert(report.repo_messages[i] + Seq::<Seq<char>>::empty()
                =~= report.repo_messages[i]);
        }
    } else {
        let head = additions.drop_last();
        let (path, line) = additions.last();
        lemma_with_additions(report, head);
        let before = with_additions(report, head);
        let after = with_additions(report, additions);
        assert forall|i: int| 0 <= i < report.repos.len() implies #[trigger] after.repo_messages[i]
            == report.repo_messages[i] + lines_for(additions, report.repos[i]) by {
            let had = report.repo_messages[i];
            let got = lines_for(head, report.repos[i]);
            assert(before.repo_messages[i] == had + got);
            if report.repos[i] == path {
                assert((had + got).push(line) =~= had + got.push(line));
            }
        }
    }
}

/// The report after each of `messages` has been added in turn to the
/// messages on the run.
pub open spec fn with_messages(report: ReportView, messages: Seq<Seq<char>>) -> ReportView {
    ReportView { messages: report.messages + messages, ..report }
}

/// The strings of `lines` that are not empty, in their order.
pub fn non_empty(lines: &Vec<String>) -> (kept: Vec<String>)
    ensures
        texts(kept@) == without_empty(texts(lines@)),
{
    let mut kept: Vec<String> = Vec::new();
    let ghost all = texts(lines@);
    let mut i: usize = 0;
    proof {
        assert(all.take(0) =~= Seq::<Seq<char>>::empty());
        assert(texts(kept@) =~= Seq::<Seq<char>>::empty());
    }
    while i < lines.len()
        invariant
            i <= lines.len(),
            all == texts(lines@),
            texts(kept@) == without_empty(all.take(i as int)),
        decreases lines.len() - i,
    {
        proof {
            assert(all.take(i + 1).drop_last() =~= all.take(i as int));
            assert(all.take(i + 1).last() == lines@[i as int]@);
        }
        if !lines[i].as_str().is_empty() {
            proof {
                assert(texts(kept@.push(lines@[i as int])) =~= texts(kept@).push(
                    lines@[i as int]@,
                ));
            }
            kept.push(lines[i].clone());
        }
        i += 1;
    }
    proof {
        assert(all.take(lines.len() as int) =~= all);
    }
    kept
}

/// Appends `line` and a newline to `out`.
fn write_line(out: &mut String, line: &str, Ghost(lines): Ghost<Seq<Seq<char>>>)
    ensures
        final(out)@ == old(out)@ + line@.push(NEWLINE),
        joined(lines.push(line@)) == joined(lines) + line@.push(NEWLINE),
{
    proof {
        assert(lines.push(line@).drop_last() =~= lines);
        assert(old(out)@ + line@ + seq![NEWLINE] =~= old(out)@ + line@.push(NEWLINE));
    }
    out.append(line);
    out.push(NEWLINE);
}

impl View for Report {
    type V = ReportView;

    closed spec fn view(&self) -> ReportView {
        ReportView {
            messages: texts(self.messages@),
            repos: paths_of(self.repos@),
            repo_messages: nested_texts(self.repo_messages@),
            pad_repo_output: self.pad_repo_output,
        }
    }
}

impl Report {
    #[verifier::type_invariant]
    spec fn aligned(self) -> bool {
        self.repo_messages@.len() == self.repos@.len()
    }

    /// Create a new `Report` for the given `Repo`s: it holds no message
    /// yet, and prints without padding.
    pub fn new(repos: &[Repo]) -> (report: Report)
        ensures
            report@ == fresh(paths_of(repos@)),
    {
        let mut own: Vec<Repo> = Vec::new();
        let mut repo_messages: Vec<Vec<String>> = Vec::new();
        let mut i: usize = 0;
        while i < repos.len()
            invariant
                i <= repos.len(),
                own.len() == i,
                repo_messages.len() == i,
                forall|k: int| 0 <= k < i ==> (#[trigger] own[k])@ == repos[k]@,
                forall|k: int| 0 <= k < i ==> (#[trigger] repo_messages[k])@.len() == 0,
            decreases repos.len() - i,
        {
            own.push(repos[i].clone());
            repo_messages.push(Vec::new());
            i += 1;
        }
        let messages: Vec<String> = Vec::new();
        proof {
            assert(texts(messages@) =~= Seq::<Seq<char>>::empty());
            assert(paths_of(own@) =~= paths_of(repos@));
            assert forall|k: int| 0 <= k < repo_messages.len() implies nested_texts(
                repo_messages@,
            )[k] == Seq::<Seq<char>>::empty() by {
                assert(texts(repo_messages[k]@) =~= Seq::<Seq<char>>::empty());
            }
            assert(nested_texts(repo_messages@) =~= fresh(paths_of(repos@)).repo_messages);
        }
        Report { messages, repos: own, repo_messages, pad_repo_output: false }
    }

    /// Declares the desire to separate output when showing per-repo
    /// messages: an empty line then follows the messages of each
    /// repository in print.
    pub fn pad_repo_output(&mut self)
        ensures
            final(self)@ == padded(old(self)@),
    {
        proof {
            use_type_invariant(&*self);
        }
        self.pad_repo_output = true;
    }

    /// Adds a message that applies to the overall operation.
    pub fn add_message(&mut self, message: String)
        ensures
            final(self)@ == (ReportView {
                messages: old(self)@.messages.push(message@),
                ..old(self)@
            }),
    {
        proof {
            use_type_invariant(&*self);
        }
        let mut messages: Vec<String> = Vec::new();
        core::mem::swap(&mut self.messages, &mut messages);
        proof {
            assert(texts(messages@.push(message)) =~= texts(messages@).push(message@));
        }
        messages.push(message);
        core::mem::swap(&mut self.messages, &mut messages);
    }

    /// Adds a message that applies to the given repo. Nothing is added
    /// where the report is not about that repo.
    pub fn add_repo_message(&mut self, repo: &Repo, data_line: String)
        ensures
            final(self)@ == (ReportView {
                repo_messages: with_repo_message(old(self)@, repo@, data_line@),
                ..old(self)@
            }),
    {
        proof {
            use_type_invariant(&*self);
        }
        let ghost before = old(self)@.repo_messages;
        let ghost want = with_repo_message(old(self)@, repo@, data_line@);
        let n = self.repos.len();
        let mut i: usize = 0;
        while i < n
            invariant
                i <= n,
                n == self.repos.len(),
                n == self.repo_messages.len(),
                before.len() == n,
                want.len() == n,
                self.repos == old(self).repos,
                self.messages == old(self).messages,
                self.pad_repo_output == old(self).pad_repo_output,
                forall|k: int| 0 <= k < n ==> want[k] == if self.repos[k]@ == repo@ {
                    before[k].push(data_line@)
                } else {
                    before[k]
                },
                forall|k: int| 0 <= k < i ==> texts((#[trigger] self.repo_messages[k])@) == want[k],
                forall|k: int|
                    i <= k < n ==> texts((#[trigger] self.repo_messages[k])@) == before[k],
            decreases n - i,
        {
            if self.repos[i].same_as(repo) {
                let mut list: Vec<String> = Vec::new();
                core::mem::swap(&mut self.repo_messages[i], &mut list);
                proof {
                    assert(texts(list@.push(data_line)) =~= texts(list@).push(data_line@));
                }
                list.push(data_line.clone());
                core::mem::swap(&mut self.repo_messages[i], &mut list);
            }
            i += 1;
        }
        proof {
            assert(nested_texts(self.repo_messages@) =~= want);
        }
    }

    /// Writes all result messages to the given writer, as text.
    pub fn print(&self, writer: &mut String)
        ensures
            final(writer)@ == old(writer)@ + printed(self@),
    {
        proof {
            use_type_invariant(self);
        }
        let ghost view = self@;
        let ghost mut lines: Seq<Seq<char>> = Seq::empty();
        let mut i: usize = 0;
        proof {
            assert(old(writer)@ + joined(lines) =~= old(writer)@);
            assert(view.messages.take(0) =~= lines);
        }
        while i < self.messages.len()
            invariant
                i <= self.messages.len(),
                view == self@,
                lines == view.messages.take(i as int),
                writer@ == old(writer)@ + joined(lines),
            decreases self.messages.len() - i,
        {
            write_line(writer, self.messages[i].as_str(), Ghost(lines));
            proof {
                assert(view.messages.take(i + 1) =~= lines.push(self.messages@[i as int]@));
                lines = view.messages.take(i + 1);
                let done = joined(view.messages.take(i as int));
                let line = self.messages@[i as int]@.push(NEWLINE);
                assert(old(writer)@ + done + line =~= old(writer)@ + (done + line));
            }
            i += 1;
        }
        proof {
            assert(view.messages.take(self.messages.len() as int) =~= view.messages);
            assert(lines + blocks(view, 0) =~= lines);
        }
        let n = self.repos.len();
        let mut r: usize = 0;
        while r < n
            invariant
                r <= n,
                n == self.repos.len(),
                n == self.repo_messages.len(),
                view == self@,
                lines == view.messages + blocks(view, r as int),
                writer@ == old(writer)@ + joined(lines),
            decreases n - r,
        {
            let messages = &self.repo_messages[r];
            let ghost path = view.repos[r as int];
            let ghost all = view.repo_messages[r as int];
            let ghost start = lines;
            proof {
                assert(all == texts(messages@));
            }
            if messages.len() > 0 {
                let name = self.repos[r].path();
                write_line(writer, name.as_str(), Ghost(lines));
                proof {
                    lines = lines.push(path);
                    assert(all.take(0) =~= Seq::<Seq<char>>::empty());
                    assert(start + (seq![path] + without_empty(all.take(0))) =~= lines);
                    assert(old(writer)@ + joined(start) + path.push(NEWLINE) =~= old(writer)@ + (
                    joined(start) + path.push(NEWLINE)));
                }
                let mut m: usize = 0;
                while m < messages.len()
                    invariant
                        m <= messages.len(),
                        all == texts(messages@),
                        lines == start + (seq![path] + without_empty(all.take(m as int))),
                        writer@ == old(writer)@ + joined(lines),
                    decreases messages.len() - m,
                {
                    let line = &messages[m];
                    proof {
                        assert(all.take(m + 1).drop_last() =~= all.take(m as int));
                        assert(all.take(m + 1).last() == line@);
                    }
                    if !line.as_str().is_empty() {
                        let ghost so_far = lines;
                        write_line(writer, line.as_str(), Ghost(lines));
                        proof {
                            lines = lines.push(line@);
                            assert(start + (seq![path] + without_empty(all.take(m + 1))) =~= lines);
                            assert(old(writer)@ + joined(so_far) + line@.push(NEWLINE) =~= old(
                                writer,
                            )@ + (joined(so_far) + line@.push(NEWLINE)));
                        }
                    }
                    m += 1;
                }
                proof {
                    assert(all.take(messages.len() as int) =~= all);
                }
                if self.pad_repo_output {
                    let ghost so_far = lines;
                    write_line(writer, "", Ghost(lines));
                    proof {
                        assert(""@ =~= Seq::<char>::empty()) by {
                            reveal_strlit("");
                        }
                        lines = lines.push(Seq::empty());
                        assert(old(writer)@ + joined(so_far) + Seq::<char>::empty().push(NEWLINE)
                            =~= old(writer)@ + (joined(so_far) + Seq::<char>::empty().push(
                            NEWLINE,
                        )));
                    }
                }
                proof {
                    assert(lines =~= start + block(path, all, view.pad_repo_output));
                }
            } else {
                proof {
                    assert(start + block(path, all, view.pad_repo_output) =~= start);
                }
            }
            proof {
                assert(view.messages + blocks(view, r as int) + block(
                    path,
                    all,
                    view.pad_repo_output,
                ) =~= view.messages + blocks(view, r + 1));
            }
            r += 1;
        }
    }

    /// For each repository, in the order of the report, its path and its
    /// messages that are not empty.
    pub fn shown_messages(&self) -> (shown: Vec<(String, Vec<String>)>)
        ensures
            shown.len() == self@.repos.len(),
            forall|i: int|
                0 <= i < shown.len() ==> (#[trigger] shown[i]).0@ == self@.repos[i] && texts(
                    shown[i].1@,
                ) == without_empty(self@.repo_messages[i]),
    {
        proof {
            use_type_invariant(self);
        }
        let mut shown: Vec<(String, Vec<String>)> = Vec::new();
        let mut i: usize = 0;
        while i < self.repos.len()
            invariant
                i <= self.repos.len(),
                self.repos.len() == self.repo_messages.len(),
                shown.len() == i,
                forall|k: int|
                    0 <= k < i ==> (#[trigger] shown[k]).0@ == self@.repos[k] && texts(
                        shown[k].1@,
                    ) == without_empty(self@.repo_messages[k]),
            decreases self.repos.len() - i,
        {
            let path = self.repos[i].path();
            let lines = non_empty(&self.repo_messages[i]);
            shown.push((path, lines));
            i += 1;
        }
        shown
    }

    /// The messages on the run as a whole.
    pub fn messages(&self) -> (messages: &Vec<String>)
        ensures
            texts(messages@) == self@.messages,
    {
        &self.messages
    }

    /// The repositories that the report is about.
    pub fn repos(&self) -> (repos: &Vec<Repo>)
        ensures
            paths_of(repos@) == self@.repos,
    {
        &self.repos
    }

    /// The messages on each repository, at its place in `repos`.
    pub fn repo_messages(&self) -> (lists: &Vec<Vec<String>>)
        ensures
            nested_texts(lists@) == self@.repo_messages,
            lists.len() == self@.repos.len(),
    {
        proof {
            use_type_invariant(self);
        }
        &self.repo_messages
    }
}

} // verus!
