//! Git repositories, and what is reported of them.

use vstd::prelude::*;
use vstd::string::StringExecFns;
use crate::decimal::{decimal, push_decimal};
use crate::text::{holds, texts};

verus! {

/// A git repository, identified by the full path to its working tree (the
/// directory that holds `.git`, not `.git` itself).
#[derive(Debug, PartialEq, Eq, Hash)]
pub struct Repo {
    path: String,
}

impl View for Repo {
    type V = Seq<char>;

    /// A repository is its path.
    closed spec fn view(&self) -> Seq<char> {
        self.path@
    }
}

impl Clone for Repo {
    fn clone(&self) -> (r: Self)
        ensures
            r@ == self@,
    {
        Repo { path: self.path.clone() }
    }
}

impl Repo {
    /// The repository whose working tree is at `path`.
    pub fn new(path: String) -> (r: Repo)
        ensures
            r@ == path@,
    {
        Repo { path }
    }

    /// The full path to the repository.
    pub fn path(&self) -> (p: String)
        ensures
            p@ == self@,
    {
        self.path.clone()
    }

    /// Whether `other` is this repository: the two have the same path.
    pub fn same_as(&self, other: &Repo) -> (b: bool)
        ensures
            b == (self@ == other@),
    {
        self.path == other.path
    }
}

/// The paths of a sequence of repositories.
pub open spec fn paths_of(repos: Seq<Repo>) -> Seq<Seq<char>> {
    Seq::new(repos.len(), |i: int| repos[i]@)
}

/// What git says of the state of one file: in the index, in the working
/// tree, and as a whole.
#[derive(Clone, Copy, Debug)]
pub struct StatusFlags {
    pub index_new: bool,
    pub index_modified: bool,
    pub index_deleted: bool,
    pub index_renamed: bool,
    pub index_typechange: bool,
    pub wt_new: bool,
    pub wt_modified: bool,
    pub wt_deleted: bool,
    pub wt_renamed: bool,
    pub wt_typechange: bool,
    pub ignored: bool,
    pub conflicted: bool,
}

/// The letter for the state of a file in the index. A conflict shows as `C`
/// and an ignored file as `!`, whatever else holds; a file that is new in
/// the working tree and unchanged in the index shows as `?`.
pub open spec fn index_code(status: StatusFlags) -> char {
    if status.conflicted {
        'C'
    } else if status.ignored {
        '!'
    } else if status.index_new {
        'A'
    } else if status.index_modified {
        'M'
    } else if status.index_deleted {
        'D'
    } else if status.index_renamed {
        'R'
    } else if status.index_typechange {
        'T'
    } else if status.wt_new {
        '?'
    } else {
        ' '
    }
}

/// The letter for the state of a file in the working tree.
pub open spec fn worktree_code(status: StatusFlags) -> char {
    if status.conflicted {
        'C'
    } else if status.ignored {
        '!'
    } else if status.wt_new {
        '?'
    } else if status.wt_modified {
        'M'
    } else if status.wt_deleted {
        'D'
    } else if status.wt_renamed {
        'R'
    } else if status.wt_typechange {
        'T'
    } else {
        ' '
    }
}

/// The state of a file in the short format of `git status`: the letter for
/// the index, then the letter for the working tree.
pub open spec fn short_format(status: StatusFlags) -> Seq<char> {
    seq![index_code(status), worktree_code(status)]
}

/// Translates the state of a file to the short format of `git status`.
pub fn get_short_format_status(status: StatusFlags) -> (code: String)
    ensures
        code@ == short_format(status),
{
    let mut istatus = if status.index_new {
        'A'
    } else if status.index_modified {
        'M'
    } else if status.index_deleted {
        'D'
    } else if status.index_renamed {
        'R'
    } else if status.index_typechange {
        'T'
    } else {
        ' '
    };
    let mut wstatus = if status.wt_new {
        if istatus == ' ' {
            istatus = '?';
        }
        '?'
    } else if status.wt_modified {
        'M'
    } else if status.wt_deleted {
        'D'
    } else if status.wt_renamed {
        'R'
    } else if status.wt_typechange {
        'T'
    } else {
        ' '
    };
    if status.ignored {
        istatus = '!';
        wstatus = '!';
    }
    if status.conflicted {
        istatus = 'C';
        wstatus = 'C';
    }
    let mut code = String::new();
    code.push(istatus);
    code.push(wstatus);
    proof {
        assert(code@ =~= short_format(status));
    }
    code
}

/// The state of one file of a repository.
#[derive(Debug)]
pub struct StatusEntry {
    /// What git says of the file.
    pub status: StatusFlags,
    /// The path of the file, from the root of the repository.
    pub path: String,
}

/// The line that reports `entry`: its state in the short format, a space,
/// and its path.
pub open spec fn status_line(entry: StatusEntry) -> Seq<char> {
    short_format(entry.status) + seq![' '] + entry.path@
}

/// The line that reports the stash at position `index`.
pub open spec fn stash_line(index: nat, name: Seq<char>) -> Seq<char> {
    "stash@{"@ + decimal(index) + "}: "@ + name
}

/// Whether some local branch holds work that no remote branch holds: one
/// of `local_tips` is not among `remote_commits`.
pub open spec fn ahead(local_tips: Seq<Seq<char>>, remote_commits: Seq<Seq<char>>) -> bool {
    exists|i: int| 0 <= i < local_tips.len() && !remote_commits.contains(#[trigger] local_tips[i])
}

impl Repo {
    /// The status of the repository, a line for each file of `entries` in
    /// their order.
    pub fn get_status_lines(&self, entries: &Vec<StatusEntry>) -> (lines: Vec<String>)
        ensures
            lines.len() == entries.len(),
            forall|i: int|
                0 <= i < lines.len() ==> (#[trigger] lines[i])@ == status_line(entries[i]),
    {
        let mut lines: Vec<String> = Vec::new();
        let mut i: usize = 0;
        while i < entries.len()
            invariant
                i <= entries.len(),
                lines.len() == i,
                forall|k: int| 0 <= k < i ==> (#[trigger] lines[k])@ == status_line(entries[k]),
            decreases entries.len() - i,
        {
            let entry = &entries[i];
            let mut line = get_short_format_status(entry.status);
            line.push(' ');
            line.append(entry.path.as_str());
            proof {
                assert(line@ =~= status_line(*entry));
            }
            lines.push(line);
            i += 1;
        }
        lines
    }

    /// The stashes of the repository, a line for each. `names` holds what
    /// git calls them, the newest first, as git lists them.
    pub fn get_stash_list(&self, names: &Vec<String>) -> (lines: Vec<String>)
        ensures
            lines.len() == names.len(),
            forall|i: int|
                0 <= i < lines.len() ==> (#[trigger] lines[i])@ == stash_line(i as nat, names[i]@),
    {
        let mut lines: Vec<String> = Vec::new();
        let mut i: usize = 0;
        while i < names.len()
            invariant
                i <= names.len(),
                lines.len() == i,
                forall|k: int|
                    0 <= k < i ==> (#[trigger] lines[k])@ == stash_line(k as nat, names[k]@),
            decreases names.len() - i,
        {
            let mut line = String::from_str("stash@{");
            push_decimal(&mut line, i as u64);
            line.append("}: ");
            line.append(names[i].as_str());
            lines.push(line);
            i += 1;
        }
        lines
    }

    /// Whether the repository is ahead of its remotes. `local_tips` are the
    /// commits at which the local branches stand; `remote_commits` are the
    /// commits that can be reached from the remote branches, those at which
    /// they stand included.
    pub fn is_ahead(&self, local_tips: &Vec<String>, remote_commits: &Vec<String>) -> (b: bool)
        ensures
            b == ahead(texts(local_tips@), texts(remote_commits@)),
    {
        let mut i: usize = 0;
        while i < local_tips.len()
            invariant
                i <= local_tips.len(),
                forall|k: int|
                    0 <= k < i ==> texts(remote_commits@).contains(
                        #[trigger] texts(local_tips@)[k],
                    ),
            decreases local_tips.len() - i,
        {
            if !holds(remote_commits, local_tips[i].as_str()) {
                proof {
                    assert(texts(local_tips@)[i as int] == local_tips@[i as int]@);
                }
                return true;
            }
            i += 1;
        }
        false
    }
}

} // verus!
