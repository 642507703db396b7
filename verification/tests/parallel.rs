use git_global::parallel::{default_parallelism, Executor, Step};
use git_global::Repo;

fn repos(n: usize) -> Vec<Repo> {
    (0..n).map(|i| Repo::new(format!("/r/{}", i))).collect()
}

/// Runs the executor to its end. The workers come back in the order that
/// `pick` chooses among those that run. Returns the results and the largest
/// number of workers that ran at a time.
fn drive(n: usize, max_workers: usize, pick: fn(&Vec<usize>) -> usize) -> (Vec<(String, usize)>, usize) {
    let mut executor: Executor<usize> = Executor::new(repos(n), max_workers).unwrap();
    let mut running: Vec<usize> = vec![];
    let mut most = 0;
    loop {
        match executor.next_step() {
            Step::Start(index) => {
                assert!(!running.contains(&index));
                running.push(index);
                assert!(running.len() <= max_workers);
                assert_eq!(executor.active(), running.len());
                if running.len() > most {
                    most = running.len();
                }
            }
            Step::Wait => {
                assert!(!running.is_empty());
                let at = pick(&running);
                let index = running.remove(at);
                assert!(executor.complete(index, index * 10));
                assert_eq!(executor.active(), running.len());
            }
            Step::Finished => {
                assert!(running.is_empty());
                assert!(executor.is_finished());
                break;
            }
        }
    }
    (executor.into_results(), most)
}

fn oldest(_running: &Vec<usize>) -> usize {
    0
}

fn newest(running: &Vec<usize>) -> usize {
    running.len() - 1
}

fn middle(running: &Vec<usize>) -> usize {
    running.len() / 2
}

#[test]
fn default_parallelism_is_at_least_one() {
    assert!(default_parallelism() >= 1);
}

#[test]
fn the_default_executor_has_a_worker() {
    let mut executor: Executor<u8> = Executor::with_default_parallelism(repos(2));
    assert_eq!(executor.active(), 0);
    assert!(!executor.is_finished());
    assert!(matches!(executor.next_step(), Step::Start(0)));
    assert_eq!(executor.active(), 1);
    assert!(executor.complete(0, 1));
    assert!(matches!(executor.next_step(), Step::Start(1)));
    assert!(executor.complete(1, 2));
    assert!(matches!(executor.next_step(), Step::Finished));
    assert_eq!(executor.into_results(), vec![("/r/0".to_string(), 1), ("/r/1".to_string(), 2)]);
}

#[test]
fn the_default_executor_lets_as_many_run_as_there_are_processors() {
    let n = default_parallelism();
    let mut executor: Executor<u8> = Executor::with_default_parallelism(repos(n + 3));
    for index in 0..n {
        assert!(matches!(executor.next_step(), Step::Start(i) if i == index));
    }
    assert!(matches!(executor.next_step(), Step::Wait));
    assert_eq!(executor.active(), n);
}

#[test]
fn bounded_concurrency() {
    for k in 1..5 {
        let (results, most) = drive(9, k, newest);
        assert_eq!(results.len(), 9);
        assert!(most <= k);
        assert_eq!(most, k);
    }
}

#[test]
fn more_workers_than_repos_are_not_used() {
    let (results, most) = drive(3, 8, oldest);
    assert_eq!(results.len(), 3);
    assert_eq!(most, 3);
}

#[test]
fn complete_aggregation() {
    for pick in [oldest as fn(&Vec<usize>) -> usize, newest, middle] {
        let (results, _) = drive(7, 3, pick);
        assert_eq!(results.len(), 7);
        let mut got: Vec<String> = results.iter().map(|(p, _)| p.clone()).collect();
        got.sort();
        let mut want: Vec<String> = repos(7).iter().map(|r| r.path()).collect();
        want.sort();
        assert_eq!(got, want);
        for (path, value) in results.iter() {
            assert_eq!(path, &format!("/r/{}", value / 10));
        }
    }
}

#[test]
fn results_stand_in_the_order_in_which_they_came() {
    let (results, _) = drive(4, 2, newest);
    let order: Vec<usize> = results.iter().map(|(_, v)| v / 10).collect();
    assert_eq!(order, vec![1, 2, 3, 0]);
    let (results, _) = drive(4, 2, oldest);
    let order: Vec<usize> = results.iter().map(|(_, v)| v / 10).collect();
    assert_eq!(order, vec![0, 1, 2, 3]);
}

#[test]
fn repos_are_handed_out_in_their_order() {
    let mut executor: Executor<()> = Executor::new(repos(3), 3).unwrap();
    assert!(matches!(executor.next_step(), Step::Start(0)));
    assert!(matches!(executor.next_step(), Step::Start(1)));
    assert!(matches!(executor.next_step(), Step::Start(2)));
    assert!(matches!(executor.next_step(), Step::Wait));
    assert!(matches!(executor.next_step(), Step::Wait));
}

#[test]
fn the_executor_waits_while_the_pool_is_full() {
    let mut executor: Executor<u8> = Executor::new(repos(3), 1).unwrap();
    assert!(matches!(executor.next_step(), Step::Start(0)));
    assert!(matches!(executor.next_step(), Step::Wait));
    assert!(!executor.is_finished());
    assert!(executor.complete(0, 1));
    assert!(matches!(executor.next_step(), Step::Start(1)));
    assert!(matches!(executor.next_step(), Step::Wait));
}

#[test]
fn a_result_that_nobody_works_on_is_refused() {
    let mut executor: Executor<u8> = Executor::new(repos(3), 2).unwrap();
    assert!(!executor.complete(0, 1));
    assert!(matches!(executor.next_step(), Step::Start(0)));
    assert!(!executor.complete(1, 1));
    assert!(!executor.complete(3, 1));
    assert!(!executor.complete(usize::MAX, 1));
    assert!(executor.complete(0, 1));
    assert!(!executor.complete(0, 2));
    assert_eq!(executor.active(), 0);
    assert_eq!(executor.into_results(), vec![("/r/0".to_string(), 1)]);
}

#[test]
fn there_is_no_executor_without_workers() {
    assert!(Executor::<u8>::new(repos(2), 0).is_none());
}

#[test]
fn nothing_to_do_is_finished_at_once() {
    let mut executor: Executor<u8> = Executor::new(vec![], 4).unwrap();
    assert!(executor.is_finished());
    assert!(matches!(executor.next_step(), Step::Finished));
    assert_eq!(executor.into_results(), vec![]);
    let mut idle: Executor<u8> = Executor::new(vec![], 0).unwrap();
    assert!(matches!(idle.next_step(), Step::Finished));
}

#[test]
fn the_executor_knows_its_repos() {
    let executor: Executor<u8> = Executor::new(repos(2), 1).unwrap();
    assert_eq!(executor.repo(0).map(|r| r.path()), Some("/r/0".to_string()));
    assert_eq!(executor.repo(1).map(|r| r.path()), Some("/r/1".to_string()));
    assert!(executor.repo(2).is_none());
}

#[test]
fn finished_stays_finished() {
    let mut executor: Executor<u8> = Executor::new(repos(1), 1).unwrap();
    assert!(matches!(executor.next_step(), Step::Start(0)));
    assert!(executor.complete(0, 9));
    assert!(matches!(executor.next_step(), Step::Finished));
    assert!(matches!(executor.next_step(), Step::Finished));
    assert!(!executor.complete(0, 9));
    assert_eq!(executor.into_results(), vec![("/r/0".to_string(), 9)]);
}
