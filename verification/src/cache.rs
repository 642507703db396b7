//! The cache of known repositories.
//!
//! The cache is a text file. Its first line is the fingerprint of the
//! configuration under which it was written, in decimal; each further line
//! is the path of a repository, in the order in which the paths were handed
//! over. The file itself is read and written elsewhere: here its text is
//! made and taken apart.
//!
//! A cache is good for a configuration where its first line reads as that
//! configuration's fingerprint. What is read from it is looked at again,
//! path by path: a repository that is gone from the disk, or is ignored by
//! now, is dropped, and the others are kept.

use vstd::prelude::*;
use vstd::string::StringExecFns;
use crate::config::{Config, ConfigView};
use crate::decimal::{
    decimal, is_digit, lemma_decimal_round_trip, parse_u64, parsed_u64, push_decimal,
};
use crate::fingerprint::{fingerprint, fingerprint_of};
use crate::ignore::IgnoreList;
use crate::matcher::{excluded, is_excluded};
use crate::repo::{paths_of, Repo};
use crate::text::{
    chars_of, chomp, joined, lemma_first_index_of, lemma_joined_first,
    lemma_lines_of_joined, lemma_split_on_nonempty, lines, lines_of, opt_str, opt_text, split_on,
    texts, NEWLINE,
};

verus! {

/// The text of the cache that holds `paths` under the fingerprint `print`.
pub open spec fn cache_text(print: u64, paths: Seq<Seq<char>>) -> Seq<char> {
    joined(seq![decimal(print as nat)] + paths)
}

/// Whether a cache is good for the fingerprint `print`: there is one, it has
/// a first line, and that line reads as `print`.
pub open spec fn valid_for(cache: Option<Seq<char>>, print: u64) -> bool {
    &&& cache matches Some(text)
    &&& lines_of(text).len() > 0
    &&& parsed_u64(lines_of(text)[0]) == Some(print)
}

/// The paths that the text of a cache lists: its lines but the first.
pub open spec fn paths_in(text: Seq<char>) -> Seq<Seq<char>> {
    let found = lines_of(text);
    if found.len() == 0 {
        found
    } else {
        found.skip(1)
    }
}

/// What the disk says of a path.
#[derive(Debug)]
pub struct PathProbe {
    /// The path that was looked at.
    pub path: String,
    /// Whether anything is there.
    pub exists: bool,
    /// What the path resolves to once symbolic links are followed, where it
    /// could be resolved.
    pub canonical: Option<String>,
}

/// Whether the path of `probe` is still a repository to list: it is there,
/// and neither it nor what it resolves to is ignored.
pub open spec fn is_live(probe: PathProbe, ignored: Seq<Seq<char>>) -> bool {
    probe.exists && !excluded(probe.path@, opt_text(probe.canonical), Seq::empty(), ignored)
}

/// The paths of `probes` that are still repositories to list, in their
/// order.
pub open spec fn live_paths(probes: Seq<PathProbe>, ignored: Seq<Seq<char>>) -> Seq<Seq<char>>
    decreases probes.len(),
{
    if probes.len() == 0 {
        Seq::empty()
    } else {
        let before = live_paths(probes.drop_last(), ignored);
        if is_live(probes.last(), ignored) {
            before.push(probes.last().path@)
        } else {
            before
        }
    }
}

/// The text of the cache for `repos` under `config`: the fingerprint of
/// `config`, then the path of each repository, in the order given.
pub fn cache_repos(config: &Config, repos: &Vec<Repo>) -> (text: String)
    ensures
        text@ == cache_text(fingerprint_of(config@), paths_of(repos@)),
{
    let print = fingerprint(config);
    let ghost all = seq![decimal(print as nat)] + paths_of(repos@);
    let mut text = String::new();
    push_decimal(&mut text, print);
    text.push(NEWLINE);
    proof {
        assert(all.take(1) =~= seq![decimal(print as nat)]);
        assert(all.take(1).drop_last() =~= Seq::<Seq<char>>::empty());
        assert(joined(all.take(1).drop_last()) =~= Seq::<char>::empty());
        assert(text@ =~= joined(all.take(1)));
    }
    let mut i: usize = 0;
    while i < repos.len()
        invariant
            i <= repos.len(),
            all == seq![decimal(print as nat)] + paths_of(repos@),
            text@ == joined(all.take(i + 1)),
        decreases repos.len() - i,
    {
        let path = repos[i].path();
        proof {
            assert(all.take(i + 2).drop_last() =~= all.take(i + 1));
            assert(all.take(i + 2).last() == path@);
            assert(text@ + path@ + seq![NEWLINE] =~= text@ + path@.push(NEWLINE));
        }
        text.append(path.as_str());
        text.push(NEWLINE);
        i += 1;
    }
    proof {
        assert(all.take(repos.len() + 1) =~= all);
    }
    text
}

/// The paths that the text of a cache lists.
pub fn cached_paths(text: &str) -> (paths: Vec<String>)
    ensures
        texts(paths@) == paths_in(text@),
{
    let mut found = lines(text);
    if found.len() > 0 {
        let ghost before = texts(found@);
        found.remove(0);
        proof {
            assert(texts(found@) =~= before.skip(1));
        }
    }
    found
}

/// The repositories of a cache that are still to be listed. `probes` holds,
/// for each path of the cache and in its order, what the disk says of it; a
/// path that is gone, or that is ignored, is left out.
pub fn read(probes: &Vec<PathProbe>, ignored: &IgnoreList) -> (repos: Vec<Repo>)
    ensures
        paths_of(repos@) == live_paths(probes@, ignored@),
{
    let no_patterns: Vec<String> = Vec::new();
    let entries = ignored.entries();
    let mut repos: Vec<Repo> = Vec::new();
    let mut i: usize = 0;
    proof {
        assert(texts(no_patterns@) =~= Seq::<Seq<char>>::empty());
        assert(probes@.take(0) =~= Seq::<PathProbe>::empty());
        assert(paths_of(repos@) =~= Seq::<Seq<char>>::empty());
    }
    while i < probes.len()
        invariant
            i <= probes.len(),
            texts(no_patterns@) == Seq::<Seq<char>>::empty(),
            texts(entries@) == ignored@,
            paths_of(repos@) == live_paths(probes@.take(i as int), ignored@),
        decreases probes.len() - i,
    {
        let probe = &probes[i];
        proof {
            assert(probes@.take(i + 1).drop_last() =~= probes@.take(i as int));
            assert(probes@.take(i + 1).last() == *probe);
        }
        if probe.exists {
            let canonical: Option<&str> = match &probe.canonical {
                Some(c) => Some(c.as_str()),
                None => None,
            };
            if !is_excluded(probe.path.as_str(), canonical, &no_patterns, entries) {
                let repo = Repo::new(probe.path.clone());
                proof {
                    assert(paths_of(repos@.push(repo)) =~= paths_of(repos@).push(repo@));
                }
                repos.push(repo);
            }
        }
        i += 1;
    }
    proof {
        assert(probes@.take(probes.len() as int) =~= probes@);
    }
    repos
}

impl Config {
    /// Whether there is a cache that is good for this configuration. `cache`
    /// is the text of the cache file, or `None` where there is no such file.
    pub fn has_cache(&self, cache: Option<&str>) -> (b: bool)
        ensures
            b == valid_for(opt_str(cache), fingerprint_of(self@)),
    {
        match cache {
            None => false,
            Some(text) => {
                let found = lines(text);
                if found.len() == 0 {
                    return false;
                }
                let first = chars_of(found[0].as_str());
                proof {
                    assert(texts(found@)[0] == first@);
                }
                match parse_u64(&first) {
                    Some(print) => print == fingerprint(self),
                    None => false,
                }
            },
        }
    }
}

/// A text that starts with a line without a newline in it has that line as
/// its first, whatever follows.
pub proof fn lemma_first_line(first: Seq<char>, rest: Seq<char>)
    requires
        !first.contains(NEWLINE),
    ensures
        lines_of(first.push(NEWLINE) + rest).len() > 0,
        lines_of(first.push(NEWLINE) + rest)[0] == chomp(first),
{
    let text = first.push(NEWLINE) + rest;
    let k = first.len() as int;
    assert forall|j: int| 0 <= j < k implies text[j] != NEWLINE by {
        assert(text[j] == first[j]);
        if first[j] == NEWLINE {
            assert(first.contains(NEWLINE));
        }
    }
    assert(text[k] == NEWLINE);
    lemma_first_index_of(text, NEWLINE, k);
    lemma_split_on_nonempty(text.skip(k + 1), NEWLINE);
    assert(text.take(k) =~= first);
    let pieces = split_on(text, NEWLINE);
    assert(pieces == seq![first] + split_on(text.skip(k + 1), NEWLINE));
    assert(pieces.len() >= 2);
    assert(pieces.drop_last()[0] == first);
}

/// The decimal text of a number is a line as it stands: it holds no
/// newline and ends in no carriage return.
pub proof fn lemma_decimal_is_a_line(n: nat)
    ensures
        !decimal(n).contains(NEWLINE),
        chomp(decimal(n)) == decimal(n),
{
    lemma_decimal_round_trip(n);
    let text = decimal(n);
    assert(is_digit(text[text.len() - 1]));
    if text.contains(NEWLINE) {
        let i = choose|i: int| 0 <= i < text.len() && text[i] == NEWLINE;
        assert(is_digit(text[i]));
    }
}

/// A cache is good for exactly the fingerprint under which it was written:
/// written under one configuration, it is accepted under another where the
/// two have the same fingerprint, and refused where they have not.
pub proof fn lemma_cache_is_good_for_its_fingerprint(
    written: u64,
    paths: Seq<Seq<char>>,
    asked: u64,
)
    ensures
        valid_for(Some(cache_text(written, paths)), asked) <==> written == asked,
{
    let first = decimal(written as nat);
    let all = seq![first] + paths;
    lemma_decimal_is_a_line(written as nat);
    lemma_decimal_round_trip(written as nat);
    lemma_joined_first(all);
    lemma_first_line(first, joined(all.skip(1)));
}

/// A stale cache is refused: a cache that was written under one
/// configuration is not good for a configuration with another fingerprint,
/// whatever it lists.
pub proof fn lemma_stale_cache_is_refused(
    written: ConfigView,
    asked: ConfigView,
    paths: Seq<Seq<char>>,
)
    requires
        fingerprint_of(written) != fingerprint_of(asked),
    ensures
        !valid_for(Some(cache_text(fingerprint_of(written), paths)), fingerprint_of(asked)),
{
    lemma_cache_is_good_for_its_fingerprint(
        fingerprint_of(written),
        paths,
        fingerprint_of(asked),
    );
}

/// A fresh cache is accepted: a cache is good for the configuration under
/// which it was written, whatever it lists.
pub proof fn lemma_fresh_cache_is_accepted(written: ConfigView, paths: Seq<Seq<char>>)
    ensures
        valid_for(Some(cache_text(fingerprint_of(written), paths)), fingerprint_of(written)),
{
    lemma_cache_is_good_for_its_fingerprint(
        fingerprint_of(written),
        paths,
        fingerprint_of(written),
    );
}

/// There is no cache where there is no cache file. So to remove the file
/// is to force a scan the next time the repositories are asked for.
pub proof fn lemma_no_file_is_no_cache(print: u64)
    ensures
        !valid_for(None, print),
{
}

/// Whether a path can stand on a line of its own: it holds no newline and
/// does not end in a carriage return.
pub open spec fn fits_a_line(path: Seq<char>) -> bool {
    !path.contains(NEWLINE) && chomp(path) == path
}

/// What was written is read back: the cache written for `paths` lists
/// exactly `paths`, in their order, where each of them fits a line.
pub proof fn lemma_cache_lists_what_was_written(print: u64, paths: Seq<Seq<char>>)
    requires
        forall|i: int| 0 <= i < paths.len() ==> fits_a_line(#[trigger] paths[i]),
    ensures
        paths_in(cache_text(print, paths)) == paths,
{
    let all = seq![decimal(print as nat)] + paths;
    lemma_decimal_is_a_line(print as nat);
    assert forall|i: int| 0 <= i < all.len() implies !(#[trigger] all[i]).contains(NEWLINE)
        && chomp(all[i]) == all[i] by {
        if i > 0 {
            assert(all[i] == paths[i - 1]);
            assert(fits_a_line(paths[i - 1]));
        }
    }
    lemma_lines_of_joined(all);
    assert(all.skip(1) =~= paths);
}

/// What is read from a cache has passed the filter, whether the cache was
/// fresh or written just now: each path that is kept is the path of a probe
/// that is there and is not ignored.
pub proof fn lemma_read_keeps_only_live(probes: Seq<PathProbe>, ignored: Seq<Seq<char>>, k: int)
    requires
        0 <= k < live_paths(probes, ignored).len(),
    ensures
        exists|i: int|
            0 <= i < probes.len() && is_live(#[trigger] probes[i], ignored) && probes[i].path@
                == live_paths(probes, ignored)[k],
    decreases probes.len(),
{
    let head = probes.drop_last();
    let last = probes.len() - 1;
    if is_live(probes.last(), ignored) && k == live_paths(head, ignored).len() {
        assert(probes[last] == probes.last());
    } else {
        lemma_read_keeps_only_live(head, ignored, k);
        let i = choose|i: int|
            0 <= i < head.len() && is_live(#[trigger] head[i], ignored) && head[i].path@
                == live_paths(head, ignored)[k];
        assert(probes[i] == head[i]);
    }
}

/// Nothing is dropped without a reason: where every path is there and
/// nothing is ignored, all paths are kept, in their order.
pub proof fn lemma_all_live_without_ignores(probes: Seq<PathProbe>)
    requires
        forall|i: int| 0 <= i < probes.len() ==> (#[trigger] probes[i]).exists,
    ensures
        live_paths(probes, Seq::empty()) == Seq::new(probes.len(), |i: int| probes[i].path@),
    decreases probes.len(),
{
    let want = Seq::new(probes.len(), |i: int| probes[i].path@);
    if probes.len() == 0 {
        assert(live_paths(probes, Seq::empty()) =~= want);
    } else {
        let head = probes.drop_last();
        assert forall|i: int| 0 <= i < head.len() implies (#[trigger] head[i]).exists by {
            assert(head[i] == probes[i]);
        }
        lemma_all_live_without_ignores(head);
        assert(probes.last() == probes[probes.len() - 1]);
        assert(is_live(probes.last(), Seq::empty()));
        assert(live_paths(probes, Seq::empty()) =~= want);
    }
}

/// The round trip of the cache: write the cache for some repositories, read
/// it, find every path on the disk and nothing ignored, and the same
/// repositories come back in the same order. `probes` is what the disk says
/// of the paths that the cache lists.
pub proof fn lemma_cache_round_trip(print: u64, paths: Seq<Seq<char>>, probes: Seq<PathProbe>)
    requires
        forall|i: int| 0 <= i < paths.len() ==> fits_a_line(#[trigger] paths[i]),
        probes.len() == paths_in(cache_text(print, paths)).len(),
        forall|i: int|
            0 <= i < probes.len() ==> (#[trigger] probes[i]).path@ == paths_in(
                cache_text(print, paths),
            )[i],
        forall|i: int| 0 <= i < probes.len() ==> (#[trigger] probes[i]).exists,
    ensures
        live_paths(probes, Seq::empty()) == paths,
{
    lemma_cache_lists_what_was_written(print, paths);
    lemma_all_live_without_ignores(probes);
    assert(Seq::new(probes.len(), |i: int| probes[i].path@) =~= paths);
}

} // verus!
