//! Which paths are left out of a scan.
//!
//! A path is left out where it holds one of the configured patterns, or where
//! it is an ignored repository or lies below one. The second test is made on
//! the path as it was found and on what it resolves to once symbolic links
//! are followed, so that a link into an ignored directory is left out too.

use vstd::prelude::*;
use crate::text::{chars_of, contains, contains_seq, matches_at, occurs_at, opt_str, texts};

verus! {

/// The character that parts the components of a path.
pub const SEPARATOR: char = '/';

/// `path` holds one of `patterns` that is not empty.
pub open spec fn matches_pattern(path: Seq<char>, patterns: Seq<Seq<char>>) -> bool {
    exists|i: int|
        0 <= i < patterns.len() && (#[trigger] patterns[i]).len() > 0 && contains_seq(
            path,
            patterns[i],
        )
}

/// `path` is `entry`, or lies below the directory `entry`.
pub open spec fn is_under(path: Seq<char>, entry: Seq<char>) -> bool {
    path == entry || entry.push(SEPARATOR).is_prefix_of(path)
}

/// `path` is one of `ignored`, or lies below one of them.
pub open spec fn matches_ignored(path: Seq<char>, ignored: Seq<Seq<char>>) -> bool {
    exists|i: int| 0 <= i < ignored.len() && is_under(path, #[trigger] ignored[i])
}

/// `path` is left out: it holds a pattern, or it is ignored as it stands, or
/// what it resolves to is ignored. A path that could not be resolved
/// (`canonical` is `None`) is judged as it stands.
pub open spec fn excluded(
    path: Seq<char>,
    canonical: Option<Seq<char>>,
    patterns: Seq<Seq<char>>,
    ignored: Seq<Seq<char>>,
) -> bool {
    ||| matches_pattern(path, patterns)
    ||| matches_ignored(path, ignored)
    ||| (canonical matches Some(c) && matches_ignored(c, ignored))
}

/// Whether `path` is `entry` or lies below it.
pub fn lies_under(path: &Vec<char>, entry: &Vec<char>) -> (b: bool)
    ensures
        b == is_under(path@, entry@),
{
    let n = entry.len();
    if path.len() < n {
        return false;
    }
    let head = matches_at(path, entry, 0);
    if path.len() == n {
        proof {
            assert(path@.subrange(0, n as int) =~= path@);
        }
        return head;
    }
    let b = head && path[n] == SEPARATOR;
    proof {
        let with_sep = entry@.push(SEPARATOR);
        if b {
            assert(path@.subrange(0, n + 1) =~= with_sep);
        }
        if with_sep.is_prefix_of(path@) {
            let front = path@.subrange(0, n + 1);
            assert(front[n as int] == with_sep[n as int]);
            assert(path@.subrange(0, n as int) =~= entry@) by {
                assert forall|k: int| 0 <= k < n implies path@[k] == entry@[k] by {
                    assert(front[k] == with_sep[k]);
                }
            }
        }
        assert(path@.len() != entry@.len());
    }
    b
}

/// Whether `path` holds a pattern of `patterns` that is not empty.
fn holds_pattern(path: &Vec<char>, patterns: &Vec<String>) -> (b: bool)
    ensures
        b == matches_pattern(path@, texts(patterns@)),
{
    let mut i: usize = 0;
    while i < patterns.len()
        invariant
            i <= patterns.len(),
            forall|k: int|
                0 <= k < i ==> !((#[trigger] texts(patterns@)[k]).len() > 0 && contains_seq(
                    path@,
                    texts(patterns@)[k],
                )),
        decreases patterns.len() - i,
    {
        let pattern = chars_of(patterns[i].as_str());
        if pattern.len() > 0 && contains(path, &pattern) {
            proof {
                assert(texts(patterns@)[i as int] == pattern@);
            }
            return true;
        }
        i += 1;
    }
    false
}

/// Whether `path` is one of `ignored` or lies below one.
fn is_ignored(path: &Vec<char>, ignored: &Vec<String>) -> (b: bool)
    ensures
        b == matches_ignored(path@, texts(ignored@)),
{
    let mut i: usize = 0;
    while i < ignored.len()
        invariant
            i <= ignored.len(),
            forall|k: int| 0 <= k < i ==> !is_under(path@, #[trigger] texts(ignored@)[k]),
        decreases ignored.len() - i,
    {
        let entry = chars_of(ignored[i].as_str());
        if lies_under(path, &entry) {
            proof {
                assert(texts(ignored@)[i as int] == entry@);
            }
            return true;
        }
        i += 1;
    }
    false
}

/// Whether `path` is left out of a scan. `canonical` is what `path` resolves
/// to once symbolic links are followed, or `None` where it could not be
/// resolved.
pub fn is_excluded(
    path: &str,
    canonical: Option<&str>,
    patterns: &Vec<String>,
    ignored: &Vec<String>,
) -> (b: bool)
    ensures
        b == excluded(path@, opt_str(canonical), texts(patterns@), texts(ignored@)),
{
    let chars = chars_of(path);
    if holds_pattern(&chars, patterns) {
        return true;
    }
    if is_ignored(&chars, ignored) {
        return true;
    }
    match canonical {
        Some(resolved) => {
            let resolved_chars = chars_of(resolved);
            is_ignored(&resolved_chars, ignored)
        },
        None => false,
    }
}

/// An ignored repository is left out itself.
pub proof fn lemma_ignored_entry_is_excluded(
    canonical: Option<Seq<char>>,
    patterns: Seq<Seq<char>>,
    ignored: Seq<Seq<char>>,
    i: int,
)
    requires
        0 <= i < ignored.len(),
    ensures
        excluded(ignored[i], canonical, patterns, ignored),
{
    assert(is_under(ignored[i], ignored[i]));
}

/// What lies below an ignored repository is left out: the repository's
/// path, a separator, and anything after it.
pub proof fn lemma_below_ignored_is_excluded(
    rest: Seq<char>,
    canonical: Option<Seq<char>>,
    patterns: Seq<Seq<char>>,
    ignored: Seq<Seq<char>>,
    i: int,
)
    requires
        0 <= i < ignored.len(),
    ensures
        excluded(ignored[i].push(SEPARATOR) + rest, canonical, patterns, ignored),
{
    lemma_below_is_under(ignored[i], rest);
}

/// A path that resolves to an ignored repository, or to something below
/// one, is left out, whatever the path itself is.
pub proof fn lemma_link_into_ignored_is_excluded(
    path: Seq<char>,
    resolved: Seq<char>,
    patterns: Seq<Seq<char>>,
    ignored: Seq<Seq<char>>,
    i: int,
)
    requires
        0 <= i < ignored.len(),
        is_under(resolved, ignored[i]),
    ensures
        excluded(path, Some(resolved), patterns, ignored),
{
}

/// `entry`, a separator and anything after it lies below `entry`.
pub proof fn lemma_below_is_under(entry: Seq<char>, rest: Seq<char>)
    ensures
        is_under(entry.push(SEPARATOR) + rest, entry),
{
    let with_sep = entry.push(SEPARATOR);
    assert((with_sep + rest).subrange(0, with_sep.len() as int) =~= with_sep);
}

/// A path that goes on after `entry` with anything but a separator does not
/// lie below `entry`: the name of a neighbour may start with the name of an
/// ignored repository.
pub proof fn lemma_neighbour_is_not_under(entry: Seq<char>, rest: Seq<char>)
    requires
        rest.len() > 0,
        rest[0] != SEPARATOR,
    ensures
        !is_under(entry + rest, entry),
{
    let path = entry + rest;
    let with_sep = entry.push(SEPARATOR);
    assert(path.len() != entry.len());
    if with_sep.is_prefix_of(path) {
        assert(path.subrange(0, with_sep.len() as int)[entry.len() as int] == rest[0]);
        assert(with_sep[entry.len() as int] == SEPARATOR);
    }
}

/// A path is left out only for one of the three reasons: where it holds no
/// pattern, and neither it nor what it resolves to is an ignored repository
/// or lies below one, it is kept.
pub proof fn lemma_kept_unless_matched(
    path: Seq<char>,
    canonical: Option<Seq<char>>,
    patterns: Seq<Seq<char>>,
    ignored: Seq<Seq<char>>,
)
    requires
        forall|i: int|
            0 <= i < patterns.len() ==> (#[trigger] patterns[i]).len() == 0 || !contains_seq(
                path,
                patterns[i],
            ),
        forall|i: int| 0 <= i < ignored.len() ==> !is_under(path, #[trigger] ignored[i]),
        canonical matches Some(c) ==> forall|i: int|
            0 <= i < ignored.len() ==> !is_under(c, #[trigger] ignored[i]),
    ensures
        !excluded(path, canonical, patterns, ignored),
{
}

/// With nothing ignored, what a path resolves to decides nothing: the path
/// is left out with it exactly where it is left out without it.
pub proof fn lemma_resolved_counts_for_ignores_only(
    path: Seq<char>,
    canonical: Option<Seq<char>>,
    patterns: Seq<Seq<char>>,
)
    ensures
        excluded(path, canonical, patterns, Seq::empty()) == excluded(
            path,
            None,
            patterns,
            Seq::empty(),
        ),
{
}

/// What is left out as it stands stays left out further down: a path that
/// holds a pattern, or lies below an ignored repository, passes this on to
/// every path below it. So to skip a directory is to skip nothing that would
/// have been kept.
pub proof fn lemma_exclusion_is_inherited(
    dir: Seq<char>,
    rest: Seq<char>,
    below_canonical: Option<Seq<char>>,
    patterns: Seq<Seq<char>>,
    ignored: Seq<Seq<char>>,
)
    requires
        excluded(dir, None, patterns, ignored),
    ensures
        excluded(dir.push(SEPARATOR) + rest, below_canonical, patterns, ignored),
{
    let below = dir.push(SEPARATOR) + rest;
    if matches_pattern(dir, patterns) {
        let i = choose|i: int|
            0 <= i < patterns.len() && (#[trigger] patterns[i]).len() > 0 && contains_seq(
                dir,
                patterns[i],
            );
        let k = choose|k: int| occurs_at(dir, patterns[i], k);
        assert(below.subrange(k, k + patterns[i].len()) =~= dir.subrange(k, k + patterns[i].len()));
        assert(occurs_at(below, patterns[i], k));
    } else {
        let i = choose|i: int| 0 <= i < ignored.len() && is_under(dir, #[trigger] ignored[i]);
        let entry = ignored[i];
        if dir == entry {
            lemma_below_is_under(entry, rest);
        } else {
            let with_sep = entry.push(SEPARATOR);
            assert(below.subrange(0, with_sep.len() as int) =~= dir.subrange(
                0,
                with_sep.len() as int,
            ));
        }
        assert(is_under(below, ignored[i]));
    }
}

} // verus!
