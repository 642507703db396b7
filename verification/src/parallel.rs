//! Running an operation on many repositories, a few at a time.
//!
//! The work itself is done by whoever drives the executor: one worker for
//! each repository that is being looked at. The executor decides. It says
//! when a worker may start on the next repository and when to wait for one
//! to come back, takes the results as they come in, and says when all of
//! them are there. It never lets more workers run than it was told to, and
//! it hands out every repository once.

use vstd::prelude::*;
use vstd::set::{
    axiom_set_contains_len, axiom_set_empty_len, axiom_set_insert_finite, axiom_set_insert_len,
    axiom_set_remove_finite, axiom_set_remove_len,
};
use vstd::seq_lib::{to_multiset_build, to_multiset_remove};
use vstd::set_lib::lemma_set_empty_equivalency_len;
use crate::repo::{paths_of, Repo};

verus! {

/// The number of workers to use where the operator has not said: the number
/// of processors of the machine, as `num_cpus::get` reports it. That crate
/// documents the number as never less than one, which is all that is
/// claimed of it here.
#[verifier::external_body]
pub fn default_parallelism() -> (n: usize)
    ensures
        n >= 1,
{
    num_cpus::get()
}

/// What the driver of an executor is to do next.
#[derive(Debug)]
pub enum Step {
    /// Start a worker on the repository at this place in the list.
    Start(usize),
    /// Wait for a worker to come back, and hand in what it brings.
    Wait,
    /// Nothing is left to do: every repository has its result.
    Finished,
}

/// The state of an executor, as plain values.
#[verifier::ext_equal]
pub struct ExecutorView<T> {
    /// The paths of the repositories to work on.
    pub repos: Seq<Seq<char>>,
    /// How many workers may run at a time.
    pub max_workers: nat,
    /// How many repositories have been handed out: those at the places
    /// before this one.
    pub started: nat,
    /// The places of the repositories that a worker is looking at.
    pub running: Set<int>,
    /// The places of the repositories whose results are in, in the order in
    /// which they came.
    pub finished: Seq<int>,
    /// The results, in the order in which they came, each with the path of
    /// its repository.
    pub results: Seq<(Seq<char>, T)>,
}

impl<T> ExecutorView<T> {
    /// What holds of every state that an executor can be in.
    pub open spec fn wf(self) -> bool {
        &&& self.max_workers >= 1 || self.repos.len() == 0
        &&& self.started <= self.repos.len()
        &&& self.running.finite()
        &&& self.running.len() <= self.max_workers
        &&& self.running.len() + self.finished.len() == self.started
        &&& self.finished.no_duplicates()
        &&& forall|i: int| self.running.contains(i) ==> 0 <= i < self.started
        &&& forall|i: int| self.running.contains(i) ==> !self.finished.contains(i)
        &&& forall|k: int|
            0 <= k < self.finished.len() ==> 0 <= #[trigger] self.finished[k] < self.started
        &&& forall|i: int|
            0 <= i < self.started ==> self.running.contains(i) || self.finished.contains(i)
        &&& self.results.len() == self.finished.len()
        &&& forall|k: int|
            0 <= k < self.results.len() ==> (#[trigger] self.results[k]).0
                == self.repos[self.finished[k]]
    }

    /// A worker may start: a repository is left to hand out, and fewer
    /// workers run than may.
    pub open spec fn can_start(self) -> bool {
        self.started < self.repos.len() && self.running.len() < self.max_workers
    }

    /// All is done: every repository was handed out and no worker runs.
    pub open spec fn is_finished(self) -> bool {
        self.started == self.repos.len() && self.running.len() == 0
    }

    /// The state after a worker has started on the next repository.
    pub open spec fn start(self) -> Self {
        ExecutorView {
            started: self.started + 1,
            running: self.running.insert(self.started as int),
            ..self
        }
    }

    /// The state after the worker on the repository at `index` has come
    /// back with `result`.
    pub open spec fn complete(self, index: int, result: T) -> Self {
        ExecutorView {
            running: self.running.remove(index),
            finished: self.finished.push(index),
            results: self.results.push((self.repos[index], result)),
            ..self
        }
    }

    /// The paths of the results, in the order in which they came.
    pub open spec fn result_paths(self) -> Seq<Seq<char>> {
        Seq::new(self.results.len(), |k: int| self.results[k].0)
    }
}

/// The results of an executor as plain values.
pub open spec fn results_view<T>(results: Seq<(String, T)>) -> Seq<(Seq<char>, T)> {
    Seq::new(results.len(), |k: int| (results[k].0@, results[k].1))
}

/// Decides how an operation is run on a list of repositories by a bounded
/// number of workers, and gathers the results.
pub struct Executor<T> {
    repos: Vec<Repo>,
    max_workers: usize,
    started: usize,
    running: Vec<bool>,
    active: usize,
    results: Vec<(String, T)>,
    running_set: Ghost<Set<int>>,
    finished: Ghost<Seq<int>>,
}

impl<T> View for Executor<T> {
    type V = ExecutorView<T>;

    closed spec fn view(&self) -> ExecutorView<T> {
        ExecutorView {
            repos: paths_of(self.repos@),
            max_workers: self.max_workers as nat,
            started: self.started as nat,
            running: self.running_set@,
            finished: self.finished@,
            results: results_view(self.results@),
        }
    }
}

impl<T> Executor<T> {
    /// The marks that the executor keeps agree with its state.
    pub closed spec fn marks_agree(&self) -> bool {
        &&& self.running@.len() == self.repos@.len()
        &&& self.active == self.running_set@.len()
        &&& forall|i: int|
            0 <= i < self.running@.len() ==> (#[trigger] self.running@[i]
                <==> self.running_set@.contains(i))
    }

    /// The executor is in a state that it can be in.
    pub open spec fn wf(&self) -> bool {
        self@.wf() && self.marks_agree()
    }

    /// The state in which an executor for `repos` and `max_workers` workers
    /// starts: nothing handed out, nothing running, nothing in.
    pub open spec fn initial(repos: Seq<Repo>, max_workers: usize) -> ExecutorView<T> {
        ExecutorView {
            repos: paths_of(repos),
            max_workers: max_workers as nat,
            started: 0,
            running: Set::empty(),
            finished: Seq::empty(),
            results: Seq::empty(),
        }
    }

    /// Makes the executor for `repos` and `max_workers` workers.
    fn start(repos: Vec<Repo>, max_workers: usize) -> (executor: Executor<T>)
        requires
            max_workers >= 1 || repos.len() == 0,
        ensures
            executor.wf(),
            executor@ == Self::initial(repos@, max_workers),
    {
        let mut running: Vec<bool> = Vec::new();
        let mut i: usize = 0;
        while i < repos.len()
            invariant
                i <= repos.len(),
                running.len() == i,
                forall|k: int| 0 <= k < i ==> !running[k],
            decreases repos.len() - i,
        {
            running.push(false);
            i += 1;
        }
        let executor = Executor {
            repos,
            max_workers,
            started: 0,
            running,
            active: 0,
            results: Vec::new(),
            running_set: Ghost(Set::empty()),
            finished: Ghost(Seq::empty()),
        };
        proof {
            broadcast use axiom_set_empty_len;

            assert(Set::<int>::empty().len() == 0);
            assert(results_view(executor.results@) =~= Seq::<(Seq<char>, T)>::empty());
        }
        executor
    }

    /// An executor for `repos` that lets `max_workers` workers run at a
    /// time. There is none for work without workers: with repositories to
    /// look at and no worker allowed, nothing could ever be done.
    pub fn new(repos: Vec<Repo>, max_workers: usize) -> (made: Option<Executor<T>>)
        ensures
            made is None <==> max_workers == 0 && repos.len() > 0,
            made matches Some(executor) ==> executor.wf() && executor@ == Self::initial(
                repos@,
                max_workers,
            ),
    {
        if max_workers == 0 && repos.len() > 0 {
            None
        } else {
            Some(Self::start(repos, max_workers))
        }
    }

    /// An executor for `repos` that lets as many workers run at a time as
    /// the machine has processors. How many that are is for the machine to
    /// say; it is one at least.
    pub fn with_default_parallelism(repos: Vec<Repo>) -> (executor: Executor<T>)
        ensures
            executor.wf(),
            executor@.max_workers >= 1,
            executor@ == (ExecutorView {
                max_workers: executor@.max_workers,
                ..Self::initial(repos@, 0)
            }),
    {
        Self::start(repos, default_parallelism())
    }

    /// What to do next. A worker is started where one may start; else the
    /// driver is told to wait while any worker runs; else all is done.
    pub fn next_step(&mut self) -> (step: Step)
        requires
            old(self).wf(),
        ensures
            final(self).wf(),
            match step {
                Step::Start(index) => {
                    &&& old(self)@.can_start()
                    &&& index == old(self)@.started
                    &&& final(self)@ == old(self)@.start()
                },
                Step::Wait => {
                    &&& !old(self)@.can_start()
                    &&& old(self)@.running.len() > 0
                    &&& final(self)@ == old(self)@
                },
                Step::Finished => {
                    &&& old(self)@.is_finished()
                    &&& final(self)@ == old(self)@
                },
            },
    {
        if self.started < self.repos.len() && self.active < self.max_workers {
            let index = self.started;
            proof {
                let before = self@;
                axiom_set_insert_finite(before.running, index as int);
                axiom_set_insert_len(before.running, index as int);
                assert(!before.running.contains(index as int));
            }
            self.running.set(index, true);
            self.running_set = Ghost(self.running_set@.insert(index as int));
            self.started = self.started + 1;
            self.active = self.active + 1;
            proof {
                assert(self@ =~= old(self)@.start());
            }
            Step::Start(index)
        } else if self.active > 0 {
            Step::Wait
        } else {
            proof {
                if self.started < self.repos.len() {
                    assert(self@.max_workers >= 1);
                }
            }
            Step::Finished
        }
    }

    /// Takes the result that the worker on the repository at `index` has
    /// brought. It is refused, and nothing changes, where no worker is
    /// looking at that repository.
    pub fn complete(&mut self, index: usize, result: T) -> (accepted: bool)
        requires
            old(self).wf(),
        ensures
            final(self).wf(),
            accepted == old(self)@.running.contains(index as int),
            accepted ==> final(self)@ == old(self)@.complete(index as int, result),
            !accepted ==> final(self)@ == old(self)@,
    {
        if index >= self.running.len() || !self.running[index] {
            return false;
        }
        let path = self.repos[index].path();
        proof {
            let before = self@;
            axiom_set_contains_len(before.running, index as int);
            axiom_set_remove_finite(before.running, index as int);
            axiom_set_remove_len(before.running, index as int);
            let after = before.complete(index as int, result);
            assert(results_view(self.results@.push((path, result))) =~= before.results.push(
                (before.repos[index as int], result),
            ));
            assert forall|i: int, j: int|
                0 <= i < after.finished.len() && 0 <= j < after.finished.len() && i
                    != j implies after.finished[i] != after.finished[j] by {
                if i < before.finished.len() && j < before.finished.len() {
                } else if i < before.finished.len() {
                    assert(before.finished.contains(before.finished[i]));
                } else {
                    assert(before.finished.contains(before.finished[j]));
                }
            }
            assert forall|i: int| after.running.contains(i) implies !after.finished.contains(
                i,
            ) by {
                if after.finished.contains(i) {
                    let k = choose|k: int| 0 <= k < after.finished.len() && after.finished[k] == i;
                    if k < before.finished.len() {
                        assert(before.finished.contains(i));
                    }
                }
            }
            assert forall|i: int| 0 <= i < after.started implies after.running.contains(i)
                || after.finished.contains(i) by {
                if i == index {
                    assert(after.finished[before.finished.len() as int] == i);
                } else if before.finished.contains(i) {
                    let k = choose|k: int|
                        0 <= k < before.finished.len() && before.finished[k] == i;
                    assert(after.finished[k] == i);
                }
            }
            assert(after.wf());
        }
        self.running.set(index, false);
        self.running_set = Ghost(self.running_set@.remove(index as int));
        self.finished = Ghost(self.finished@.push(index as int));
        self.active = self.active - 1;
        self.results.push((path, result));
        proof {
            assert(self@ =~= old(self)@.complete(index as int, result));
        }
        true
    }

    /// The repository at `index` of the list, where there is one.
    pub fn repo(&self, index: usize) -> (found: Option<&Repo>)
        ensures
            found is Some <==> index < self@.repos.len(),
            found matches Some(repo) ==> repo@ == self@.repos[index as int],
    {
        if index < self.repos.len() {
            Some(&self.repos[index])
        } else {
            None
        }
    }

    /// Whether all is done.
    pub fn is_finished(&self) -> (done: bool)
        requires
            self.wf(),
        ensures
            done == self@.is_finished(),
    {
        self.started == self.repos.len() && self.active == 0
    }

    /// How many workers are running.
    pub fn active(&self) -> (n: usize)
        requires
            self.wf(),
        ensures
            n == self@.running.len(),
    {
        self.active
    }

    /// The results that are in, in the order in which they came, each with
    /// the path of its repository.
    pub fn into_results(self) -> (results: Vec<(String, T)>)
        ensures
            results_view(results@) == self@.results,
    {
        self.results
    }
}

/// The items of `list`, picked in the order that `places` gives.
pub open spec fn picked<A>(list: Seq<A>, places: Seq<int>) -> Seq<A> {
    Seq::new(places.len(), |k: int| list[places[k]])
}

/// To pick every item once is to keep what the list holds: where `places`
/// names every place of `list` and none twice, the picked items are the
/// items of the list, each as often as the list holds it.
pub proof fn lemma_picked_once_each<A>(list: Seq<A>, places: Seq<int>)
    requires
        places.len() == list.len(),
        places.no_duplicates(),
        forall|k: int| 0 <= k < places.len() ==> 0 <= #[trigger] places[k] < list.len(),
        forall|i: int| 0 <= i < list.len() ==> places.contains(i),
    ensures
        picked(list, places).to_multiset() == list.to_multiset(),
    decreases list.len(),
{
    let n = list.len() as int;
    if n == 0 {
        assert(picked(list, places) =~= list);
    } else {
        let last = n - 1;
        assert(places.contains(last));
        let p = choose|p: int| 0 <= p < places.len() && places[p] == last;
        let fewer = places.remove(p);
        let shorter = list.drop_last();
        assert forall|k: int| 0 <= k < fewer.len() implies 0 <= #[trigger] fewer[k]
            < shorter.len() by {
            if k < p {
                assert(fewer[k] == places[k]);
            } else {
                assert(fewer[k] == places[k + 1]);
            }
        }
        assert forall|i: int, j: int|
            0 <= i < fewer.len() && 0 <= j < fewer.len() && i != j implies fewer[i]
            != fewer[j] by {
            let x = if i < p {
                i
            } else {
                i + 1
            };
            let y = if j < p {
                j
            } else {
                j + 1
            };
            assert(fewer[i] == places[x] && fewer[j] == places[y]);
        }
        assert forall|i: int| 0 <= i < shorter.len() implies fewer.contains(i) by {
            assert(places.contains(i));
            let k = choose|k: int| 0 <= k < places.len() && places[k] == i;
            if k < p {
                assert(fewer[k] == i);
            } else {
                assert(fewer[k - 1] == i);
            }
        }
        lemma_picked_once_each(shorter, fewer);
        let all = picked(list, places);
        assert(all.remove(p) =~= picked(shorter, fewer)) by {
            assert forall|k: int| 0 <= k < fewer.len() implies all.remove(p)[k] == picked(
                shorter,
                fewer,
            )[k] by {
                if k < p {
                    assert(fewer[k] == places[k]);
                } else {
                    assert(fewer[k] == places[k + 1]);
                }
            }
        }
        to_multiset_remove(all, p);
        to_multiset_build(shorter, list[last]);
        assert(shorter.push(list[last]) =~= list);
        assert(all[p] == list[last]);
        assert(all.to_multiset() =~= all.remove(p).to_multiset().insert(all[p])) by {
            broadcast use vstd::multiset::group_multiset_axioms;
            broadcast use vstd::seq_lib::group_to_multiset_ensures;

            assert(all.to_multiset().count(all[p]) > 0);
        }
    }
}

/// Concurrency is bounded: in no state do more workers run than may.
pub proof fn lemma_bounded_concurrency<T>(state: ExecutorView<T>)
    requires
        state.wf(),
    ensures
        state.running.len() <= state.max_workers,
{
}

/// Aggregation is complete: once all is done there is one result for each
/// repository of the list, no more and no fewer. The results stand in the
/// order in which they came; the place `finished[k]` tells whose result
/// the one at `k` is, every place of the list is the place of exactly one
/// result, and the paths of the results are the paths of the list.
pub proof fn lemma_complete_aggregation<T>(state: ExecutorView<T>)
    requires
        state.wf(),
        state.is_finished(),
    ensures
        state.results.len() == state.repos.len(),
        state.finished.len() == state.repos.len(),
        state.finished.no_duplicates(),
        forall|i: int| 0 <= i < state.repos.len() ==> state.finished.contains(i),
        forall|k: int|
            0 <= k < state.results.len() ==> 0 <= #[trigger] state.finished[k] < state.repos.len(),
        forall|k: int|
            0 <= k < state.results.len() ==> (#[trigger] state.results[k]).0
                == state.repos[state.finished[k]],
        state.result_paths().to_set() == state.repos.to_set(),
        state.result_paths().to_multiset() == state.repos.to_multiset(),
{
    lemma_set_empty_equivalency_len(state.running);
    assert forall|i: int| 0 <= i < state.repos.len() implies state.finished.contains(i) by {
        assert(!state.running.contains(i));
    }
    let got = state.result_paths();
    assert forall|p: Seq<char>| got.to_set().contains(p) <==> state.repos.to_set().contains(p) by {
        if got.to_set().contains(p) {
            let k = choose|k: int| 0 <= k < got.len() && got[k] == p;
            assert(state.results[k].0 == state.repos[state.finished[k]]);
            assert(state.repos.contains(p));
        }
        if state.repos.to_set().contains(p) {
            let i = choose|i: int| 0 <= i < state.repos.len() && state.repos[i] == p;
            assert(state.finished.contains(i));
            let k = choose|k: int| 0 <= k < state.finished.len() && state.finished[k] == i;
            assert(got[k] == p);
            assert(got.contains(p));
        }
    }
    assert(got.to_set() =~= state.repos.to_set());
    lemma_picked_once_each(state.repos, state.finished);
    assert(got =~= picked(state.repos, state.finished));
}

} // verus!
