//! Finding the repositories below a directory.
//!
//! The walk over the directory tree is made elsewhere; what it meets comes
//! here as a list of entries. A repository is found where an entry is a
//! directory named `.git` whose parent opens as a repository and which is
//! not left out of the scan. What is found is listed in the order of the
//! dictionary, so that the same tree always gives the same list.

use vstd::prelude::*;
use vstd::seq_lib::{group_to_multiset_ensures, to_multiset_build};
use vstd::string::StringExecFns;
use crate::matcher::{excluded, is_excluded};
use crate::config::Config;
use crate::decimal::{decimal, push_decimal};
use crate::ignore::IgnoreList;
use crate::order::{
    le, lemma_lex_le_total, lemma_lex_le_transitive, lemma_listing, lemma_listing_is_unique,
    lemma_sorted_listing_is_unique, lex_le, listing, sorted,
};
use crate::repo::{paths_of, Repo};
use crate::text::{chars_of, opt_str, opt_text, rows, str_eq, string_of_range, texts};

verus! {

/// The name of the directory in which git keeps a repository's data.
pub open spec fn metadata_dir() -> Seq<char> {
    ".git"@
}

/// What a walk over a directory tree has met at one place.
#[derive(Debug)]
pub struct WalkEntry {
    /// The path of the entry.
    pub path: String,
    /// What the path resolves to once symbolic links are followed, where it
    /// could be resolved.
    pub canonical: Option<String>,
    /// The last component of the path.
    pub file_name: String,
    /// The path of the directory that holds the entry, where it has one.
    pub parent: Option<String>,
    /// Whether the entry is a directory.
    pub is_dir: bool,
    /// Whether the parent opens as a git repository.
    pub is_repository: bool,
}

/// Whether an entry of this name and kind may show a repository: it is a
/// directory, and it is named as git names the directory of its data.
pub open spec fn may_show_root(file_name: Seq<char>, is_dir: bool) -> bool {
    is_dir && file_name == metadata_dir()
}

/// The repository that `entry` shows, if it shows one: the parent of a
/// directory named `.git` that opens as a repository and is not left out.
pub open spec fn root_shown(
    entry: WalkEntry,
    patterns: Seq<Seq<char>>,
    ignored: Seq<Seq<char>>,
) -> Option<Seq<char>> {
    if may_show_root(entry.file_name@, entry.is_dir) && entry.is_repository && !excluded(
        entry.path@,
        opt_text(entry.canonical),
        patterns,
        ignored,
    ) {
        opt_text(entry.parent)
    } else {
        None
    }
}

/// The repositories that `entries` show, in the order of the entries.
pub open spec fn roots_shown(
    entries: Seq<WalkEntry>,
    patterns: Seq<Seq<char>>,
    ignored: Seq<Seq<char>>,
) -> Seq<Seq<char>>
    decreases entries.len(),
{
    if entries.len() == 0 {
        Seq::empty()
    } else {
        let before = roots_shown(entries.drop_last(), patterns, ignored);
        match root_shown(entries.last(), patterns, ignored) {
            Some(root) => before.push(root),
            None => before,
        }
    }
}

/// Whether an entry of this name and kind may show a repository. Only of
/// such an entry does anybody need to know whether its parent opens as a
/// repository.
pub fn is_candidate(file_name: &str, is_dir: bool) -> (b: bool)
    ensures
        b == may_show_root(file_name@, is_dir),
{
    is_dir && str_eq(file_name, ".git")
}

/// Puts `repo` into the sorted list `repos`, behind every repository that
/// comes no later than it. `keys` holds the paths of `repos` as characters.
fn insert_sorted(keys: &mut Vec<Vec<char>>, repos: &mut Vec<Repo>, key: Vec<char>, repo: Repo)
    requires
        rows(old(keys)@) == paths_of(old(repos)@),
        sorted(paths_of(old(repos)@)),
        key@ == repo@,
    ensures
        rows(final(keys)@) == paths_of(final(repos)@),
        sorted(paths_of(final(repos)@)),
        paths_of(final(repos)@).to_multiset() == paths_of(old(repos)@).to_multiset().insert(repo@),
{
    broadcast use group_to_multiset_ensures;

    let ghost before = paths_of(repos@);
    assert(keys.len() == repos.len()) by {
        assert(rows(keys@).len() == paths_of(repos@).len());
    }
    let mut pos: usize = keys.len();
    while pos > 0 && !le(&keys[pos - 1], &key)
        invariant
            pos <= keys.len(),
            keys.len() == repos.len(),
            *keys == *old(keys),
            *repos == *old(repos),
            rows(keys@) == before,
            forall|j: int| pos <= j < keys.len() ==> !lex_le(#[trigger] before[j], key@),
        decreases pos,
    {
        proof {
            assert(rows(keys@)[pos - 1] == keys@[pos - 1]@);
        }
        pos -= 1;
    }
    proof {
        if pos > 0 {
            assert(rows(keys@)[pos - 1] == keys@[pos - 1]@);
            assert(lex_le(before[pos - 1], key@));
        }
    }
    keys.insert(pos, key);
    repos.insert(pos, repo);
    proof {
        let after = paths_of(repos@);
        assert(after =~= before.insert(pos as int, repo@));
        assert(rows(keys@) =~= after);
        assert forall|i: int, j: int| 0 <= i < j < after.len() implies lex_le(
            after[i],
            after[j],
        ) by {
            if j < pos {
                assert(after[i] == before[i] && after[j] == before[j]);
            } else if j == pos {
                assert(after[i] == before[i]);
                if i < pos - 1 {
                    lemma_lex_le_transitive(before[i], before[pos - 1], repo@);
                }
            } else if i == pos {
                assert(after[j] == before[j - 1]);
                lemma_lex_le_total(before[j - 1], repo@);
            } else if i < pos {
                assert(after[i] == before[i] && after[j] == before[j - 1]);
            } else {
                assert(after[i] == before[i - 1] && after[j] == before[j - 1]);
            }
        }
    }
}

/// The repositories of `repos`, listed in the order of the dictionary by
/// their paths.
pub fn sort_by_path(repos: &Vec<Repo>) -> (listed: Vec<Repo>)
    ensures
        sorted(paths_of(listed@)),
        paths_of(listed@).to_multiset() == paths_of(repos@).to_multiset(),
{
    let mut keys: Vec<Vec<char>> = Vec::new();
    let mut listed: Vec<Repo> = Vec::new();
    let mut i: usize = 0;
    proof {
        assert(rows(keys@) =~= paths_of(listed@));
        assert(paths_of(repos@).take(0) =~= paths_of(listed@));
    }
    while i < repos.len()
        invariant
            i <= repos.len(),
            rows(keys@) == paths_of(listed@),
            sorted(paths_of(listed@)),
            paths_of(listed@).to_multiset() == paths_of(repos@).take(i as int).to_multiset(),
        decreases repos.len() - i,
    {
        let repo = repos[i].clone();
        let path = repo.path();
        let key = chars_of(path.as_str());
        proof {
            let done = paths_of(repos@).take(i as int);
            assert(paths_of(repos@).take(i + 1) =~= done.push(repo@));
            to_multiset_build(done, repo@);
        }
        insert_sorted(&mut keys, &mut listed, key, repo);
        i += 1;
    }
    proof {
        assert(paths_of(repos@).take(repos.len() as int) =~= paths_of(repos@));
    }
    listed
}

/// The repositories that a walk has met, sorted by path. `entries` is what
/// the walk yielded, in any order; the patterns of `config` and the paths
/// of `ignored` say what is left out.
pub fn find_repos(config: &Config, ignored: &IgnoreList, entries: &Vec<WalkEntry>) -> (repos: Vec<
    Repo,
>)
    ensures
        paths_of(repos@) == listing(roots_shown(entries@, config@.ignored_patterns, ignored@)),
        sorted(paths_of(repos@)),
        paths_of(repos@).to_multiset() == roots_shown(
            entries@,
            config@.ignored_patterns,
            ignored@,
        ).to_multiset(),
{
    let patterns = &config.ignored_patterns;
    let skipped = ignored.entries();
    let mut found: Vec<Repo> = Vec::new();
    let mut i: usize = 0;
    proof {
        assert(entries@.take(0) =~= Seq::<WalkEntry>::empty());
        assert(paths_of(found@) =~= Seq::<Seq<char>>::empty());
    }
    while i < entries.len()
        invariant
            i <= entries.len(),
            texts(patterns@) == config@.ignored_patterns,
            texts(skipped@) == ignored@,
            paths_of(found@) == roots_shown(
                entries@.take(i as int),
                config@.ignored_patterns,
                ignored@,
            ),
        decreases entries.len() - i,
    {
        let entry = &entries[i];
        proof {
            assert(entries@.take(i + 1).drop_last() =~= entries@.take(i as int));
            assert(entries@.take(i + 1).last() == *entry);
        }
        if is_candidate(entry.file_name.as_str(), entry.is_dir) && entry.is_repository {
            let canonical: Option<&str> = match &entry.canonical {
                Some(c) => Some(c.as_str()),
                None => None,
            };
            if !is_excluded(entry.path.as_str(), canonical, patterns, skipped) {
                match &entry.parent {
                    Some(parent) => {
                        let repo = Repo::new(parent.clone());
                        proof {
                            assert(paths_of(found@.push(repo)) =~= paths_of(found@).push(repo@));
                        }
                        found.push(repo);
                    },
                    None => {},
                }
            }
        }
        i += 1;
    }
    proof {
        assert(entries@.take(entries.len() as int) =~= entries@);
    }
    let repos = sort_by_path(&found);
    proof {
        lemma_listing_is_unique(paths_of(found@), paths_of(repos@));
    }
    repos
}

impl Config {
    /// Returns `true` if the directory entry at `path` should be included
    /// in scans: it is not left out by a pattern of this configuration,
    /// nor is it, or what it resolves to, ignored. `canonical` is what
    /// `path` resolves to once symbolic links are followed, where it could
    /// be resolved.
    pub fn filter(&self, path: &str, canonical: Option<&str>, ignored: &IgnoreList) -> (kept: bool)
        ensures
            kept == !excluded(path@, opt_str(canonical), self@.ignored_patterns, ignored@),
    {
        !is_excluded(path, canonical, &self.ignored_patterns, ignored.entries())
    }
}

/// The line that tells the operator that a scan starts.
pub open spec fn banner(basedir: Seq<char>) -> Seq<char> {
    "Scanning for git repos under "@ + basedir + "; this may take a while..."@
}

/// The line that tells the operator how far a scan has come: how many
/// repositories were found and where the walk stands.
pub open spec fn progress(found: nat, path: Seq<char>) -> Seq<char> {
    decimal(found) + " repos found; scanning "@ + path
}

/// `line`, cut off where it would not fit in `width` characters.
pub open spec fn fitted(line: Seq<char>, width: nat) -> Seq<char> {
    if line.len() <= width {
        line
    } else {
        line.take(width as int)
    }
}

/// The line that tells the operator that the scan under the base directory
/// of `config` starts.
pub fn scan_banner(config: &Config) -> (line: String)
    ensures
        line@ == banner(config@.basedir),
{
    let mut line = String::from_str("Scanning for git repos under ");
    line.append(config.basedir.as_str());
    line.append("; this may take a while...");
    line
}

/// The line that tells the operator how far the scan has come, cut to the
/// width of the terminal. `found` is the number of repositories found so
/// far and `path` is where the walk stands.
pub fn progress_line(found: usize, path: &str, width: usize) -> (line: String)
    ensures
        line@ == fitted(progress(found as nat, path@), width as nat),
{
    let mut whole = String::new();
    push_decimal(&mut whole, found as u64);
    whole.append(" repos found; scanning ");
    whole.append(path);
    let chars = chars_of(whole.as_str());
    if chars.len() <= width {
        whole
    } else {
        string_of_range(&chars, 0, width)
    }
}

/// Discovery is repeatable. What `find_repos` returns is fixed by what the
/// walk shows: two walks that show the same repositories, each as often as
/// the other, give the same list, in whatever order they met them. In
/// particular a second scan of an unchanged tree returns what the first
/// returned.
pub proof fn lemma_discovery_is_repeatable(
    first: Seq<WalkEntry>,
    second: Seq<WalkEntry>,
    patterns: Seq<Seq<char>>,
    ignored: Seq<Seq<char>>,
)
    requires
        roots_shown(first, patterns, ignored).to_multiset() == roots_shown(
            second,
            patterns,
            ignored,
        ).to_multiset(),
    ensures
        listing(roots_shown(first, patterns, ignored)) == listing(
            roots_shown(second, patterns, ignored),
        ),
{
    lemma_listing(roots_shown(first, patterns, ignored));
    lemma_listing(roots_shown(second, patterns, ignored));
    lemma_sorted_listing_is_unique(
        listing(roots_shown(first, patterns, ignored)),
        listing(roots_shown(second, patterns, ignored)),
    );
}

} // verus!
