use std::path::{Path, PathBuf};

use regex::{escape, Regex};

use git_global::cache::PathProbe;
use git_global::discover::WalkEntry;
use git_global::ignore::IgnoreList;
use git_global::inventory::{Action, Event, Phase};
use git_global::parallel::{Executor, Step};
use git_global::repo::{StatusEntry, StatusFlags};
use git_global::subcommands::info::Installation;
use git_global::subcommands::{self, StatusQuery, StatusScope};
use git_global::{Config, Repo, Report};

const VERSION: &str = "0.6.0";

fn report_to_string(report: &Report) -> String {
    let mut out = String::new();
    report.print(&mut out);
    out
}

/// Create a temporary directory with three empty git repos within, a, b, and c,
/// then run a closure that takes a Config initialized for that temporary
/// directory.
fn with_base_dir_of_three_repos<T>(test: T)
where
    T: FnOnce(Config),
{
    let tempdir = tempfile::Builder::new().prefix("git-global-test").tempdir().unwrap();
    let base_path = tempdir.path();
    for repo_name in ["a", "b", "c"].iter() {
        let mut repo_path = PathBuf::from(base_path);
        repo_path.push(repo_name);
        git2::Repository::init(repo_path).unwrap();
    }
    let config = Config {
        basedir: base_path.to_str().unwrap().to_string(),
        follow_symlinks: true,
        same_filesystem: true,
        ignored_patterns: vec![],
        default_cmd: String::from("status"),
        verbose: false,
        show_untracked: true,
        cache_file: Some(base_path.join("test-cache-file.txt").to_str().unwrap().to_string()),
        ignore_file: None,
    };
    test(config);
}

fn resolved(path: &Path) -> Option<String> {
    path.canonicalize().ok().and_then(|p| p.to_str().map(|s| s.to_string()))
}

/// Walks the base directory of `config` and tells what is there.
fn scan(config: &Config, ignored: &IgnoreList) -> Vec<WalkEntry> {
    let mut entries = Vec::new();
    let walker = walkdir::WalkDir::new(&config.basedir)
        .follow_links(config.follow_symlinks)
        .same_file_system(config.same_filesystem);
    let kept = |e: &walkdir::DirEntry| match e.path().to_str() {
        Some(path) => config.filter(path, resolved(e.path()).as_deref(), ignored),
        None => false,
    };
    for entry in walker.into_iter().filter_entry(kept).flatten() {
        let (path, file_name) = match (entry.path().to_str(), entry.file_name().to_str()) {
            (Some(path), Some(name)) => (path.to_string(), name.to_string()),
            _ => continue,
        };
        let parent = entry.path().parent();
        entries.push(WalkEntry {
            canonical: resolved(entry.path()),
            parent: parent.and_then(|p| p.to_str().map(|s| s.to_string())),
            is_dir: entry.file_type().is_dir(),
            is_repository: git_global::discover::is_candidate(&file_name, entry.file_type().is_dir())
                && parent.map_or(false, |p| git2::Repository::open(p).is_ok()),
            path,
            file_name,
        });
    }
    entries
}

/// The known repos, found as the program finds them. The cache file is the
/// text in `cache`.
fn get_repos(config: &Config, cache: &mut Option<String>) -> Vec<Repo> {
    let ignored = IgnoreList::new();
    let mut phase = Phase::Idle;
    let mut event = Event::Asked;
    loop {
        let (next, action) = config.get_repos(&ignored, phase, event);
        phase = next;
        event = match action {
            Action::ReadCache => Event::CacheRead(cache.clone()),
            Action::Scan => Event::Scanned(scan(config, &ignored)),
            Action::Store(text) => {
                *cache = Some(text);
                Event::Stored
            }
            Action::Probe(paths) => Event::Probed(
                paths
                    .into_iter()
                    .map(|path| PathProbe {
                        exists: Path::new(&path).exists(),
                        canonical: resolved(Path::new(&path)),
                        path,
                    })
                    .collect(),
            ),
            Action::Return(repos) => return repos,
            Action::Refuse => panic!("the step was refused"),
        };
    }
}

fn flags_of(status: git2::Status) -> StatusFlags {
    StatusFlags {
        index_new: status.is_index_new(),
        index_modified: status.is_index_modified(),
        index_deleted: status.is_index_deleted(),
        index_renamed: status.is_index_renamed(),
        index_typechange: status.is_index_typechange(),
        wt_new: status.is_wt_new(),
        wt_modified: status.is_wt_modified(),
        wt_deleted: status.is_wt_deleted(),
        wt_renamed: status.is_wt_renamed(),
        wt_typechange: status.is_wt_typechange(),
        ignored: status.is_ignored(),
        conflicted: status.is_conflicted(),
    }
}

fn status_lines(repo: &Repo, query: StatusQuery) -> Vec<String> {
    let git2_repo = git2::Repository::open(repo.path()).unwrap();
    let mut options = git2::StatusOptions::new();
    options
        .show(match query.scope {
            StatusScope::Index => git2::StatusShow::Index,
            StatusScope::Workdir => git2::StatusShow::Workdir,
            StatusScope::IndexAndWorkdir => git2::StatusShow::IndexAndWorkdir,
        })
        .include_untracked(query.include_untracked)
        .include_ignored(query.include_ignored);
    let statuses = git2_repo.statuses(Some(&mut options)).unwrap();
    let entries: Vec<StatusEntry> = statuses
        .iter()
        .map(|entry| StatusEntry { status: flags_of(entry.status()), path: entry.path().unwrap().to_string() })
        .collect();
    repo.get_status_lines(&entries)
}

fn stash_lines(repo: &Repo) -> Vec<String> {
    let mut git2_repo = git2::Repository::open(repo.path()).unwrap();
    let mut names = Vec::new();
    git2_repo
        .stash_foreach(|_index, name, _oid| {
            names.push(name.to_string());
            true
        })
        .unwrap();
    repo.get_stash_list(&names)
}

/// Runs `operation` on each of `repos`, as the executor says.
fn run_each<T>(repos: &[Repo], operation: impl Fn(&Repo) -> T) -> Vec<(String, T)> {
    let mut executor = Executor::new(repos.to_vec(), 2).unwrap();
    let mut running = Vec::new();
    loop {
        match executor.next_step() {
            Step::Start(index) => running.push(index),
            Step::Wait => {
                let index = running.pop().unwrap();
                let result = operation(executor.repo(index).unwrap());
                assert!(executor.complete(index, result));
            }
            Step::Finished => return executor.into_results(),
        }
    }
}

#[test]
fn test_info() {
    with_base_dir_of_three_repos(|config| {
        let basedir = config.basedir.clone();
        let cache = config.cache_file.clone().unwrap();
        let manpage = "/test".to_string();
        let mut cache_text = None;
        let repos = get_repos(&config, &mut cache_text);
        let installation = Installation {
            version: VERSION.to_string(),
            cache_age: Some(0),
            manpage_file: Some(manpage.clone()),
            os: "linux".to_string(),
        };
        let report = subcommands::info::execute(&config, &repos, &installation).unwrap();
        let expected = vec![
            format!(r"^git-global {}$", VERSION),
            format!(r"^============+"),
            format!(r"^Number of repos: 3$"),
            format!(r"^Base directory: {}$", escape(&basedir)),
            format!(r"^Ignored patterns:$"),
            format!(r"^Default command: status$"),
            format!(r"^Verbose: false$"),
            format!(r"^Show untracked: true$"),
            format!(r"^Cache file: {}$", escape(&cache)),
            format!(r"^Cache file age: 0d, 0h, 0m, .s$"),
            format!(r"^Manpage file: {}$", escape(&manpage)),
            format!(r"^Detected OS: {}$", escape("linux")),
            format!(r"^$"),
        ];
        let output = report_to_string(&report);
        assert_eq!(output.lines().count(), 12);
        for (i, line) in output.lines().enumerate() {
            let pattern = &expected[i];
            let re = Regex::new(pattern).unwrap();
            assert!(re.is_match(line), "Line {} didn't match; got {}, want {}", i + 1, line, pattern)
        }
    });
}

#[test]
fn test_list() {
    with_base_dir_of_three_repos(|config| {
        let basedir = config.basedir.clone();
        let mut cache_text = None;
        let repos = get_repos(&config, &mut cache_text);
        let report = subcommands::list::execute(&repos).unwrap();
        // There are no global messages; the per-repo messages are simply a list
        // of the repo paths themselves.
        let expected = vec![
            PathBuf::from(&basedir).join("a"),
            PathBuf::from(&basedir).join("b"),
            PathBuf::from(&basedir).join("c"),
        ];
        let output = report_to_string(&report);
        assert_eq!(output.lines().count(), 3);
        for (i, line) in output.lines().enumerate() {
            assert_eq!(expected[i].to_str().unwrap(), line);
        }
        assert_eq!(cache_text.unwrap().lines().count(), 4);
    });
}

#[test]
fn test_scan() {
    with_base_dir_of_three_repos(|config| {
        let mut cache_text = None;
        let repos = get_repos(&config, &mut cache_text);
        let report = subcommands::scan::execute(&repos).unwrap();
        // There is one global message about the three repos we found.
        assert_eq!(report_to_string(&report), "Found 3 repos. Use `git global list` to show them.\n");
    });
}

#[test]
fn test_staged() {
    with_base_dir_of_three_repos(|config| {
        let mut cache_text = None;
        let repos = get_repos(&config, &mut cache_text);
        let query = subcommands::staged::query(&config);
        let results = run_each(&repos, |repo| status_lines(repo, query));
        let report = subcommands::staged::execute(&repos, &results).unwrap();
        // There are no global messages.
        assert_eq!(report_to_string(&report), "");
    });
}

#[test]
fn test_stashes() {
    with_base_dir_of_three_repos(|config| {
        let mut cache_text = None;
        let repos = get_repos(&config, &mut cache_text);
        let results = run_each(&repos, stash_lines);
        let report = subcommands::stashed::execute(&repos, &results).unwrap();
        // There are no global messages.
        assert_eq!(report_to_string(&report), "");
    });
}

#[test]
fn test_status() {
    with_base_dir_of_three_repos(|config| {
        let mut cache_text = None;
        let repos = get_repos(&config, &mut cache_text);
        let query = subcommands::status::query(&config);
        let results = run_each(&repos, |repo| status_lines(repo, query));
        let report = subcommands::status::execute(&repos, &results).unwrap();
        // There are no global messages.
        assert_eq!(report_to_string(&report), "");
    });
}

#[test]
fn test_unstaged() {
    with_base_dir_of_three_repos(|config| {
        let mut cache_text = None;
        let repos = get_repos(&config, &mut cache_text);
        let query = subcommands::unstaged::query(&config);
        let results = run_each(&repos, |repo| status_lines(repo, query));
        let report = subcommands::unstaged::execute(&repos, &results).unwrap();
        // There are no global messages.
        assert_eq!(report_to_string(&report), "");
    });
}

#[test]
fn a_second_scan_of_the_same_tree_finds_the_same() {
    with_base_dir_of_three_repos(|config| {
        let ignored = IgnoreList::new();
        let first = git_global::discover::find_repos(&config, &ignored, &scan(&config, &ignored));
        let second = git_global::discover::find_repos(&config, &ignored, &scan(&config, &ignored));
        assert_eq!(first, second);
        assert_eq!(first.len(), 3);
    });
}

#[test]
fn an_ignored_repo_is_not_found_on_the_disk() {
    with_base_dir_of_three_repos(|config| {
        let mut ignored = IgnoreList::new();
        let b = resolved(&PathBuf::from(&config.basedir).join("b")).unwrap();
        ignored.add(b).unwrap();
        let found = git_global::discover::find_repos(&config, &ignored, &scan(&config, &ignored));
        let names: Vec<String> =
            found.iter().map(|r| r.path().rsplit('/').next().unwrap().to_string()).collect();
        assert_eq!(names, vec!["a", "c"]);
    });
}

#[test]
fn an_untracked_file_shows_in_the_status() {
    with_base_dir_of_three_repos(|config| {
        let mut cache_text = None;
        let repos = get_repos(&config, &mut cache_text);
        // A file of settings in `b` is something that `b` does not track.
        let file = PathBuf::from(&config.basedir).join("b").join("notes.ini");
        git2::Config::open(&file).unwrap().set_str("note.text", "x").unwrap();
        let query = subcommands::status::query(&config);
        let results = run_each(&repos, |repo| status_lines(repo, query));
        let report = subcommands::status::execute(&repos, &results).unwrap();
        assert_eq!(report_to_string(&report), format!("{}\n?? notes.ini\n\n", repos[1].path()));
        let hidden = Config { show_untracked: false, ..config };
        let query = subcommands::status::query(&hidden);
        let results = run_each(&repos, |repo| status_lines(repo, query));
        let report = subcommands::status::execute(&repos, &results).unwrap();
        assert_eq!(report_to_string(&report), "");
    });
}
