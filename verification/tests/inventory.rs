use git_global::cache::PathProbe;
use git_global::discover::WalkEntry;
use git_global::ignore::IgnoreList;
use git_global::inventory::{Action, Event, Phase};
use git_global::{Config, Repo};

fn config() -> Config {
    Config {
        basedir: "/base".to_string(),
        follow_symlinks: true,
        same_filesystem: true,
        ignored_patterns: vec![],
        default_cmd: "status".to_string(),
        verbose: false,
        show_untracked: true,
        cache_file: Some("/base/test-cache-file.txt".to_string()),
        ignore_file: None,
    }
}

fn git_dir(root: &str) -> WalkEntry {
    WalkEntry {
        path: format!("{}/.git", root),
        canonical: Some(format!("{}/.git", root)),
        file_name: ".git".to_string(),
        parent: Some(root.to_string()),
        is_dir: true,
        is_repository: true,
    }
}

fn paths(repos: &[Repo]) -> Vec<String> {
    repos.iter().map(|r| r.path()).collect()
}

/// A disk that holds repositories and, perhaps, a cache file.
struct Disk {
    repos: Vec<String>,
    cache: Option<String>,
    scans: usize,
}

/// Asks for the repositories and does what is asked for in turn, as a
/// caller with a disk would.
fn get_repos(config: &Config, ignored: &IgnoreList, disk: &mut Disk) -> Vec<Repo> {
    let mut phase = Phase::Idle;
    let mut event = Event::Asked;
    loop {
        let (next, action) = config.get_repos(ignored, phase, event);
        phase = next;
        event = match action {
            Action::ReadCache => Event::CacheRead(disk.cache.clone()),
            Action::Scan => {
                disk.scans += 1;
                Event::Scanned(disk.repos.iter().rev().map(|r| git_dir(r)).collect())
            }
            Action::Store(text) => {
                disk.cache = Some(text);
                Event::Stored
            }
            Action::Probe(paths) => Event::Probed(
                paths
                    .iter()
                    .map(|p| PathProbe {
                        path: p.clone(),
                        exists: disk.repos.contains(p),
                        canonical: if disk.repos.contains(p) { Some(p.clone()) } else { None },
                    })
                    .collect(),
            ),
            Action::Return(repos) => {
                assert_eq!(phase, Phase::Done);
                return repos;
            }
            Action::Refuse => panic!("the step was refused"),
        };
    }
}

fn three_repos() -> Disk {
    Disk {
        repos: vec!["/base/a".to_string(), "/base/b".to_string(), "/base/c".to_string()],
        cache: None,
        scans: 0,
    }
}

#[test]
fn scan_then_list() {
    let mut disk = three_repos();
    let repos = get_repos(&config(), &IgnoreList::new(), &mut disk);
    assert_eq!(paths(&repos), vec!["/base/a", "/base/b", "/base/c"]);
    let cache = disk.cache.unwrap();
    assert_eq!(cache.lines().count(), 4);
    let lines: Vec<&str> = cache.lines().collect();
    assert_eq!(lines[1..], ["/base/a", "/base/b", "/base/c"]);
    assert!(lines[0].parse::<u64>().is_ok());
    assert_eq!(disk.scans, 1);
}

#[test]
fn a_good_cache_is_used_without_a_scan() {
    let mut disk = three_repos();
    get_repos(&config(), &IgnoreList::new(), &mut disk);
    let again = get_repos(&config(), &IgnoreList::new(), &mut disk);
    assert_eq!(paths(&again), vec!["/base/a", "/base/b", "/base/c"]);
    assert_eq!(disk.scans, 1);
}

#[test]
fn a_cache_of_another_configuration_is_written_anew() {
    let mut disk = three_repos();
    get_repos(&config(), &IgnoreList::new(), &mut disk);
    let before = disk.cache.clone().unwrap();
    let other = Config { follow_symlinks: false, ..config() };
    let repos = get_repos(&other, &IgnoreList::new(), &mut disk);
    assert_eq!(paths(&repos), vec!["/base/a", "/base/b", "/base/c"]);
    assert_eq!(disk.scans, 2);
    assert_ne!(disk.cache.clone().unwrap(), before);
    assert!(other.has_cache(disk.cache.as_deref()));
    assert!(!config().has_cache(disk.cache.as_deref()));
}

#[test]
fn clearing_the_cache_forces_a_scan() {
    let mut disk = three_repos();
    get_repos(&config(), &IgnoreList::new(), &mut disk);
    disk.cache = None;
    disk.repos.push("/base/d".to_string());
    let repos = get_repos(&config(), &IgnoreList::new(), &mut disk);
    assert_eq!(paths(&repos), vec!["/base/a", "/base/b", "/base/c", "/base/d"]);
    assert_eq!(disk.scans, 2);
}

#[test]
fn a_repo_that_is_gone_is_dropped_and_the_cache_stays() {
    let mut disk = three_repos();
    get_repos(&config(), &IgnoreList::new(), &mut disk);
    let cache = disk.cache.clone();
    disk.repos.retain(|r| r != "/base/b");
    let repos = get_repos(&config(), &IgnoreList::new(), &mut disk);
    assert_eq!(paths(&repos), vec!["/base/a", "/base/c"]);
    assert_eq!(disk.cache, cache);
    assert_eq!(disk.scans, 1);
}

#[test]
fn ignore_then_rescan() {
    let mut disk = three_repos();
    let mut ignored = IgnoreList::new();
    get_repos(&config(), &ignored, &mut disk);
    ignored.add("/base/b".to_string()).unwrap();
    disk.cache = None;
    let repos = get_repos(&config(), &ignored, &mut disk);
    assert_eq!(paths(&repos), vec!["/base/a", "/base/c"]);
    assert_eq!(disk.cache.unwrap().lines().count(), 3);
}

#[test]
fn an_ignored_repo_is_dropped_from_a_cache_that_lists_it() {
    let mut disk = three_repos();
    let mut ignored = IgnoreList::new();
    get_repos(&config(), &ignored, &mut disk);
    ignored.add("/base/b".to_string()).unwrap();
    let repos = get_repos(&config(), &ignored, &mut disk);
    assert_eq!(paths(&repos), vec!["/base/a", "/base/c"]);
    assert_eq!(disk.scans, 1);
    assert_eq!(disk.cache.unwrap().lines().count(), 4);
}

#[test]
fn without_a_cache_file_nothing_is_listed() {
    let config = Config { cache_file: None, ..config() };
    let ignored = IgnoreList::new();
    let (phase, action) = config.get_repos(&ignored, Phase::Idle, Event::Asked);
    assert!(matches!(action, Action::ReadCache));
    let (phase, action) = config.get_repos(&ignored, phase, Event::CacheRead(None));
    assert!(matches!(action, Action::Scan));
    let (phase, action) = config.get_repos(&ignored, phase, Event::Scanned(vec![git_dir("/base/a")]));
    assert!(matches!(action, Action::Store(_)));
    let (phase, action) = config.get_repos(&ignored, phase, Event::Stored);
    assert!(matches!(action, Action::ReadCache));
    let (phase, action) = config.get_repos(&ignored, phase, Event::CacheRead(None));
    assert_eq!(phase, Phase::Done);
    match action {
        Action::Return(repos) => assert_eq!(repos.len(), 0),
        other => panic!("expected Return, got {:?}", other),
    }
}

#[test]
fn the_steps_follow_one_another() {
    let config = config();
    let ignored = IgnoreList::new();
    let (phase, action) = config.get_repos(&ignored, Phase::Idle, Event::Asked);
    assert_eq!(phase, Phase::CheckingCache);
    assert!(matches!(action, Action::ReadCache));
    let (phase, action) = config.get_repos(&ignored, phase, Event::CacheRead(Some("junk\n/x\n".to_string())));
    assert_eq!(phase, Phase::Scanning);
    assert!(matches!(action, Action::Scan));
    let (phase, action) =
        config.get_repos(&ignored, phase, Event::Scanned(vec![git_dir("/base/b"), git_dir("/base/a")]));
    assert_eq!(phase, Phase::Storing);
    let text = match action {
        Action::Store(text) => text,
        other => panic!("expected Store, got {:?}", other),
    };
    assert!(text.ends_with("\n/base/a\n/base/b\n"));
    let (phase, action) = config.get_repos(&ignored, phase, Event::Stored);
    assert_eq!(phase, Phase::Rereading);
    assert!(matches!(action, Action::ReadCache));
    let (phase, action) = config.get_repos(&ignored, phase, Event::CacheRead(Some(text)));
    assert_eq!(phase, Phase::Probing);
    match action {
        Action::Probe(paths) => assert_eq!(paths, vec!["/base/a".to_string(), "/base/b".to_string()]),
        other => panic!("expected Probe, got {:?}", other),
    }
    let probes = vec![
        PathProbe { path: "/base/a".to_string(), exists: true, canonical: None },
        PathProbe { path: "/base/b".to_string(), exists: false, canonical: None },
    ];
    let (phase, action) = config.get_repos(&ignored, phase, Event::Probed(probes));
    assert_eq!(phase, Phase::Done);
    match action {
        Action::Return(repos) => assert_eq!(paths(&repos), vec!["/base/a"]),
        other => panic!("expected Return, got {:?}", other),
    }
}

#[test]
fn an_event_out_of_turn_is_refused() {
    let config = config();
    let ignored = IgnoreList::new();
    let out_of_turn = vec![
        (Phase::Idle, Event::Stored),
        (Phase::Idle, Event::CacheRead(None)),
        (Phase::CheckingCache, Event::Asked),
        (Phase::CheckingCache, Event::Scanned(vec![])),
        (Phase::Scanning, Event::Stored),
        (Phase::Storing, Event::CacheRead(None)),
        (Phase::Rereading, Event::Probed(vec![])),
        (Phase::Probing, Event::Asked),
        (Phase::Done, Event::Asked),
        (Phase::Done, Event::Probed(vec![])),
    ];
    for (phase, event) in out_of_turn {
        let (next, action) = config.get_repos(&ignored, phase, event);
        assert_eq!(next, phase);
        assert!(matches!(action, Action::Refuse));
    }
}
