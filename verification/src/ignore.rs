//! The list of ignored repositories.
//!
//! The list holds the paths of the repositories that the operator wants left
//! out, in the order in which they were added and each once. The paths are
//! kept as they were handed in; whoever adds one hands in its resolved form,
//! so that a path reached through a symbolic link is matched as well.

use vstd::prelude::*;
use vstd::string::StringExecFns;
use crate::errors::GitGlobalError;
use crate::text::{
    chomp, holds, joined, lemma_lines_of_joined, lines, lines_of, texts, NEWLINE,
};

verus! {

/// The paths of `lines` that are not empty, each at its first place only.
pub open spec fn entries_in(lines: Seq<Seq<char>>) -> Seq<Seq<char>>
    decreases lines.len(),
{
    if lines.len() == 0 {
        Seq::empty()
    } else {
        let before = entries_in(lines.drop_last());
        let line = lines.last();
        if line.len() == 0 || before.contains(line) {
            before
        } else {
            before.push(line)
        }
    }
}

/// The paths of the repositories that are left out.
#[derive(Debug)]
pub struct IgnoreList {
    entries: Vec<String>,
}

impl View for IgnoreList {
    type V = Seq<Seq<char>>;

    closed spec fn view(&self) -> Seq<Seq<char>> {
        texts(self.entries@)
    }
}

impl IgnoreList {
    #[verifier::type_invariant]
    spec fn each_once(self) -> bool {
        texts(self.entries@).no_duplicates()
    }

    /// The list that holds nothing.
    pub fn new() -> (list: IgnoreList)
        ensures
            list@ == Seq::<Seq<char>>::empty(),
    {
        let entries: Vec<String> = Vec::new();
        proof {
            assert(texts(entries@) =~= Seq::<Seq<char>>::empty());
        }
        IgnoreList { entries }
    }

    /// The list that a file holds: one path on each line, without the empty
    /// lines and without the lines that repeat an earlier one.
    pub fn parse(text: &str) -> (list: IgnoreList)
        ensures
            list@ == entries_in(lines_of(text@)),
            list@.no_duplicates(),
    {
        let found = lines(text);
        let mut list = IgnoreList::new();
        let mut i: usize = 0;
        proof {
            assert(texts(found@).take(0) =~= Seq::<Seq<char>>::empty());
        }
        while i < found.len()
            invariant
                i <= found.len(),
                list@ == entries_in(texts(found@).take(i as int)),
            decreases found.len() - i,
        {
            let line = found[i].clone();
            proof {
                let done = texts(found@).take(i + 1);
                assert(done.drop_last() =~= texts(found@).take(i as int));
                assert(done.last() == line@);
            }
            if !line.as_str().is_empty() {
                let _ = list.add(line);
            }
            i += 1;
        }
        proof {
            assert(texts(found@).take(found.len() as int) =~= texts(found@));
            use_type_invariant(&list);
        }
        list
    }

    /// The paths of the list, in the order in which they were added. No path
    /// stands twice.
    pub fn entries(&self) -> (entries: &Vec<String>)
        ensures
            texts(entries@) == self@,
            self@.no_duplicates(),
    {
        proof {
            use_type_invariant(self);
        }
        &self.entries
    }

    /// How many paths the list holds.
    pub fn len(&self) -> (n: usize)
        ensures
            n == self@.len(),
    {
        self.entries.len()
    }

    /// Whether the list holds `path`.
    pub fn contains(&self, path: &str) -> (b: bool)
        ensures
            b == self@.contains(path@),
    {
        holds(&self.entries, path)
    }

    /// Puts `path` at the end of the list. A path that the list holds
    /// already is refused, and the list stays as it was.
    pub fn add(&mut self, path: String) -> (r: Result<(), GitGlobalError>)
        ensures
            old(self)@.contains(path@) ==> r == Err::<(), GitGlobalError>(
                GitGlobalError::AlreadyIgnored(path),
            ) && final(self)@ == old(self)@,
            !old(self)@.contains(path@) ==> r is Ok && final(self)@ == old(self)@.push(path@),
            final(self)@.no_duplicates(),
    {
        proof {
            use_type_invariant(&*self);
        }
        if self.contains(path.as_str()) {
            return Err(GitGlobalError::AlreadyIgnored(path));
        }
        let mut entries: Vec<String> = Vec::new();
        proof {
            assert(texts(entries@) =~= Seq::<Seq<char>>::empty());
        }
        core::mem::swap(&mut self.entries, &mut entries);
        proof {
            let before = texts(entries@);
            let after = before.push(path@);
            assert(texts(entries@.push(path)) =~= after);
            assert forall|i: int, j: int| 0 <= i < after.len() && 0 <= j < after.len() && i
                != j implies after[i] != after[j] by {
                if i < before.len() && j < before.len() {
                } else if i < before.len() {
                    assert(before.contains(before[i]));
                } else {
                    assert(before.contains(before[j]));
                }
            }
        }
        entries.push(path);
        core::mem::swap(&mut self.entries, &mut entries);
        Ok(())
    }

    /// The text of the file that keeps the list: each path on a line of its
    /// own.
    pub fn to_text(&self) -> (text: String)
        ensures
            text@ == joined(self@),
    {
        let mut text = String::new();
        let mut i: usize = 0;
        proof {
            assert(self@.take(0) =~= Seq::<Seq<char>>::empty());
        }
        while i < self.entries.len()
            invariant
                i <= self.entries.len(),
                text@ == joined(self@.take(i as int)),
            decreases self.entries.len() - i,
        {
            proof {
                let done = self@.take(i + 1);
                assert(done.drop_last() =~= self@.take(i as int));
                assert(done.last() == self.entries@[i as int]@);
                assert(text@ + self.entries@[i as int]@ + seq![NEWLINE] =~= text@
                    + self.entries@[i as int]@.push(NEWLINE));
            }
            text.append(self.entries[i].as_str());
            text.push(NEWLINE);
            i += 1;
        }
        proof {
            assert(self@.take(self.entries.len() as int) =~= self@);
        }
        text
    }
}

/// A list whose paths hold each path once, none of them empty, is what its
/// own lines hold.
pub proof fn lemma_entries_in_distinct(paths: Seq<Seq<char>>)
    requires
        paths.no_duplicates(),
        forall|i: int| 0 <= i < paths.len() ==> (#[trigger] paths[i]).len() > 0,
    ensures
        entries_in(paths) == paths,
    decreases paths.len(),
{
    if paths.len() > 0 {
        let head = paths.drop_last();
        assert forall|i: int| 0 <= i < head.len() implies (#[trigger] head[i]).len() > 0 by {
            assert(head[i] == paths[i]);
        }
        lemma_entries_in_distinct(head);
        assert(paths.last() == paths[paths.len() - 1]);
        if head.contains(paths.last()) {
            let k = choose|k: int| 0 <= k < head.len() && head[k] == paths.last();
            assert(paths[k] == paths[paths.len() - 1]);
        }
        assert(head.push(paths.last()) =~= paths);
    } else {
        assert(entries_in(paths) =~= paths);
    }
}

/// The ignore list survives being written and read: the text of a list,
/// read as a list, is the list, where each of its paths is not empty and
/// fits a line.
pub proof fn lemma_ignore_list_round_trip(list: Seq<Seq<char>>)
    requires
        list.no_duplicates(),
        forall|i: int| 0 <= i < list.len() ==> (#[trigger] list[i]).len() > 0,
        forall|i: int| 0 <= i < list.len() ==> !(#[trigger] list[i]).contains(NEWLINE),
        forall|i: int| 0 <= i < list.len() ==> chomp(#[trigger] list[i]) == list[i],
    ensures
        entries_in(lines_of(joined(list))) == list,
{
    lemma_lines_of_joined(list);
    lemma_entries_in_distinct(list);
}

} // verus!
