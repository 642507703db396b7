use git_global::ignore::IgnoreList;
use git_global::subcommands::info::{get_age, Installation};
use git_global::subcommands::{
    ahead, exit_code, get_subcommands, ignore, ignored, info, install_manpage, list, run, scan,
    staged, stashed, status, status_query, unstaged, StatusQuery, StatusScope, Subcommand,
};
use git_global::{Config, GitGlobalError, Repo, Report};

fn config() -> Config {
    Config {
        basedir: "/base".to_string(),
        follow_symlinks: true,
        same_filesystem: true,
        ignored_patterns: vec![],
        default_cmd: "status".to_string(),
        verbose: false,
        show_untracked: true,
        cache_file: Some("/base/test-cache-file.txt".to_string()),
        ignore_file: None,
    }
}

fn repos(paths: &[&str]) -> Vec<Repo> {
    paths.iter().map(|p| Repo::new(p.to_string())).collect()
}

fn printed(report: &Report) -> String {
    let mut out = String::new();
    report.print(&mut out);
    out
}

fn lines(items: &[&str]) -> Vec<String> {
    items.iter().map(|s| s.to_string()).collect()
}

#[test]
fn run_finds_each_subcommand_by_its_name() {
    let config = config();
    assert!(matches!(run(Some("info"), None, &config), Ok(Subcommand::Info)));
    assert!(matches!(run(Some("list"), None, &config), Ok(Subcommand::List)));
    assert!(matches!(run(Some("scan"), None, &config), Ok(Subcommand::Scan)));
    assert!(matches!(run(Some("staged"), None, &config), Ok(Subcommand::Staged)));
    assert!(matches!(run(Some("stashed"), None, &config), Ok(Subcommand::Stashed)));
    assert!(matches!(run(Some("status"), None, &config), Ok(Subcommand::Status)));
    assert!(matches!(run(Some("unstaged"), None, &config), Ok(Subcommand::Unstaged)));
    assert!(matches!(run(Some("ahead"), None, &config), Ok(Subcommand::Ahead)));
    assert!(matches!(run(Some("ignored"), None, &config), Ok(Subcommand::Ignored)));
}

#[test]
fn run_takes_the_default_where_no_subcommand_is_given() {
    assert!(matches!(run(None, None, &config()), Ok(Subcommand::Status)));
    let listing = Config { default_cmd: "list".to_string(), ..config() };
    assert!(matches!(run(None, None, &listing), Ok(Subcommand::List)));
    assert!(matches!(run(Some("scan"), None, &listing), Ok(Subcommand::Scan)));
}

#[test]
fn run_refuses_an_unknown_subcommand() {
    match run(Some("frobnicate"), None, &config()) {
        Err(GitGlobalError::BadSubcommand(name)) => assert_eq!(name, "frobnicate"),
        other => panic!("expected BadSubcommand, got {:?}", other),
    }
    assert!(matches!(run(Some(""), None, &config()), Err(GitGlobalError::BadSubcommand(_))));
    assert!(matches!(run(Some("Status"), None, &config()), Err(GitGlobalError::BadSubcommand(_))));
    assert!(matches!(run(Some("install-manpage"), None, &config()), Err(GitGlobalError::BadSubcommand(_))));
    let broken = Config { default_cmd: "nope".to_string(), ..config() };
    match run(None, None, &broken) {
        Err(e) => assert_eq!(e.message(), "Unknown subcommand, nope."),
        Ok(other) => panic!("expected an error, got {:?}", other),
    }
}

#[test]
fn run_hands_ignore_its_argument() {
    match run(Some("ignore"), Some("/base/b".to_string()), &config()) {
        Ok(Subcommand::Ignore(path)) => assert_eq!(path, "/base/b"),
        other => panic!("expected Ignore, got {:?}", other),
    }
}

#[test]
fn run_refuses_ignore_without_an_argument() {
    match run(Some("ignore"), None, &config()) {
        Err(GitGlobalError::MissingArgument(name)) => assert_eq!(name, "ignore"),
        other => panic!("expected MissingArgument, got {:?}", other),
    }
}

#[test]
fn run_knows_every_listed_subcommand() {
    for (name, _) in get_subcommands() {
        assert!(run(Some(name), Some("/x".to_string()), &config()).is_ok());
    }
}

#[test]
fn subcommands_are_listed_with_their_descriptions() {
    assert_eq!(
        get_subcommands(),
        vec![
            ("info", "Shows meta-information about git-global"),
            ("list", "Lists all known repos"),
            ("scan", "Updates cache of known repos"),
            ("staged", "Show git index status for repos with staged changes"),
            ("stashed", "Shows repos with stashed changes"),
            ("status", "Shows status (`git status -s`) for repos with any changes"),
            ("unstaged", "Show working dir status for repos with unstaged changes"),
            ("ahead", "Shows repos with changes that are not pushed to a remote"),
            ("ignore", "Ignores the repo at the given path"),
            ("ignored", "Lists what is ignored"),
        ]
    );
}

#[test]
fn list_shows_the_path_of_each_repo() {
    let report = list::execute(&repos(&["/base/a", "/base/b", "/base/c"])).unwrap();
    assert_eq!(printed(&report), "/base/a\n/base/b\n/base/c\n");
}

#[test]
fn list_of_nothing_shows_nothing() {
    assert_eq!(printed(&list::execute(&vec![]).unwrap()), "");
}

#[test]
fn scan_says_how_many_repos_were_found() {
    let report = scan::execute(&repos(&["/base/a", "/base/b", "/base/c"])).unwrap();
    assert_eq!(printed(&report), "Found 3 repos. Use `git global list` to show them.\n");
    assert_eq!(printed(&scan::execute(&vec![]).unwrap()), "Found 0 repos. Use `git global list` to show them.\n");
    let many: Vec<Repo> = (0..12).map(|i| Repo::new(format!("/r/{}", i))).collect();
    assert_eq!(printed(&scan::execute(&many).unwrap()), "Found 12 repos. Use `git global list` to show them.\n");
}

#[test]
fn status_shows_the_lines_of_each_repo_with_changes() {
    let all = repos(&["/base/a", "/base/b", "/base/c"]);
    let results = vec![
        ("/base/c".to_string(), lines(&[" M src/x.rs", "?? new"])),
        ("/base/a".to_string(), lines(&[])),
        ("/base/b".to_string(), lines(&["A  added"])),
    ];
    let report = status::execute(&all, &results).unwrap();
    assert_eq!(printed(&report), "/base/b\nA  added\n\n/base/c\n M src/x.rs\n?? new\n\n");
    assert_eq!(printed(&staged::execute(&all, &results).unwrap()), printed(&report));
    assert_eq!(printed(&unstaged::execute(&all, &results).unwrap()), printed(&report));
}

#[test]
fn status_of_clean_repos_shows_nothing() {
    let all = repos(&["/base/a", "/base/b"]);
    let results = vec![("/base/a".to_string(), vec![]), ("/base/b".to_string(), vec![])];
    assert_eq!(printed(&status::execute(&all, &results).unwrap()), "");
    assert_eq!(printed(&status::execute(&all, &vec![]).unwrap()), "");
}

#[test]
fn stashed_shows_the_stashes_of_each_repo() {
    let all = repos(&["/base/a", "/base/b"]);
    let results = vec![
        ("/base/b".to_string(), lines(&["stash@{0}: WIP on main", "stash@{1}: On dev"])),
        ("/base/a".to_string(), vec![]),
    ];
    let report = stashed::execute(&all, &results).unwrap();
    assert_eq!(printed(&report), "/base/b\nstash@{0}: WIP on main\nstash@{1}: On dev\n\n");
}

#[test]
fn ahead_shows_the_repos_that_are_ahead() {
    let all = repos(&["/base/a", "/base/b", "/base/c"]);
    let results =
        vec![("/base/c".to_string(), true), ("/base/a".to_string(), false), ("/base/b".to_string(), true)];
    assert_eq!(printed(&ahead::execute(&all, &results).unwrap()), "/base/b\n/base/c\n");
    let none = vec![("/base/a".to_string(), false)];
    assert_eq!(printed(&ahead::execute(&all, &none).unwrap()), "");
}

#[test]
fn the_status_question_follows_the_configuration() {
    let config = config();
    assert_eq!(
        status::query(&config),
        StatusQuery { scope: StatusScope::IndexAndWorkdir, include_untracked: true, include_ignored: false }
    );
    assert_eq!(
        staged::query(&config),
        StatusQuery { scope: StatusScope::Index, include_untracked: true, include_ignored: false }
    );
    assert_eq!(
        unstaged::query(&config),
        StatusQuery { scope: StatusScope::Workdir, include_untracked: true, include_ignored: false }
    );
    let hidden = Config { show_untracked: false, ..config };
    assert_eq!(
        status_query(&hidden, StatusScope::Workdir),
        StatusQuery { scope: StatusScope::Workdir, include_untracked: false, include_ignored: false }
    );
    assert!(!status::query(&hidden).include_untracked);
}

#[test]
fn age_is_told_in_days_hours_minutes_and_seconds() {
    assert_eq!(get_age(0), "0d, 0h, 0m, 0s");
    assert_eq!(get_age(59), "0d, 0h, 0m, 59s");
    assert_eq!(get_age(60), "0d, 0h, 1m, 0s");
    assert_eq!(get_age(3599), "0d, 0h, 59m, 59s");
    assert_eq!(get_age(3600), "0d, 1h, 0m, 0s");
    assert_eq!(get_age(86399), "0d, 23h, 59m, 59s");
    assert_eq!(get_age(86400), "1d, 0h, 0m, 0s");
    assert_eq!(get_age(90061), "1d, 1h, 1m, 1s");
    assert_eq!(get_age(u64::MAX), "213503982334601d, 7h, 0m, 15s");
}

#[test]
fn info_shows_the_installation_and_the_configuration() {
    let config = Config {
        ignored_patterns: lines(&["node_modules", "target"]),
        verbose: true,
        ..config()
    };
    let installation = Installation {
        version: "0.6.0".to_string(),
        cache_age: Some(3725),
        manpage_file: Some("/test".to_string()),
        os: "linux".to_string(),
    };
    let report = info::execute(&config, &repos(&["/base/a", "/base/b", "/base/c"]), &installation).unwrap();
    assert_eq!(
        printed(&report),
        "git-global 0.6.0\n\
         ================\n\
         Number of repos: 3\n\
         Base directory: /base\n\
         Ignored patterns:\n\
         \x20 node_modules\n\
         \x20 target\n\
         Default command: status\n\
         Verbose: true\n\
         Show untracked: true\n\
         Cache file: /base/test-cache-file.txt\n\
         Cache file age: 0d, 1h, 2m, 5s\n\
         Manpage file: /test\n\
         Detected OS: linux\n"
    );
}

#[test]
fn info_says_what_is_not_known() {
    let config = Config { cache_file: None, show_untracked: false, ..config() };
    let installation =
        Installation { version: "1".to_string(), cache_age: Some(5), manpage_file: None, os: "x".to_string() };
    let report = info::execute(&config, &vec![], &installation).unwrap();
    assert_eq!(
        printed(&report),
        "git-global 1\n\
         ============\n\
         Number of repos: 0\n\
         Base directory: /base\n\
         Ignored patterns:\n\
         Default command: status\n\
         Verbose: false\n\
         Show untracked: false\n\
         Cache file: <none>\n\
         Manpage file: <none>\n\
         Detected OS: x\n"
    );
}

#[test]
fn info_leaves_out_the_age_of_a_cache_that_has_none() {
    let installation =
        Installation { version: "1".to_string(), cache_age: None, manpage_file: None, os: "x".to_string() };
    let report = info::execute(&config(), &vec![], &installation).unwrap();
    let out = printed(&report);
    assert!(out.contains("Cache file: /base/test-cache-file.txt\nManpage file: <none>\n"));
}

#[test]
fn install_manpage_says_where_the_page_would_go() {
    let report = install_manpage::execute(&vec![], Some("/usr/share/man/man1/git-global.1")).unwrap();
    assert_eq!(
        printed(&report),
        "This feature is a work-in-progress.\n\
         In the meantime, you can find the manpage at https://raw.githubusercontent.com/peap/git-global/master/doc/git-global.1\n\
         ...would write file to /usr/share/man/man1/git-global.1\n"
    );
    let lost = install_manpage::execute(&vec![], None).unwrap();
    assert!(printed(&lost).ends_with("...not sure where to put it!\n"));
}

#[test]
fn ignore_puts_the_path_on_the_list() {
    let mut list = IgnoreList::new();
    let report = ignore::execute(&mut list, Some("/base/b".to_string())).unwrap();
    assert_eq!(
        printed(&report),
        "Added '/base/b' to global.ignore. Run `git global scan` to update the cache.\n"
    );
    assert_eq!(list.entries(), &vec!["/base/b".to_string()]);
}

#[test]
fn ignore_refuses_a_path_that_is_on_the_list() {
    let mut list = IgnoreList::new();
    ignore::execute(&mut list, Some("/base/b".to_string())).unwrap();
    match ignore::execute(&mut list, Some("/base/b".to_string())) {
        Err(GitGlobalError::AlreadyIgnored(path)) => assert_eq!(path, "/base/b"),
        Err(other) => panic!("expected AlreadyIgnored, got {:?}", other),
        Ok(_) => panic!("expected AlreadyIgnored, got a report"),
    }
    assert_eq!(list.len(), 1);
}

#[test]
fn ignore_refuses_a_path_that_does_not_resolve() {
    let mut list = IgnoreList::new();
    list.add("/base/a".to_string()).unwrap();
    assert!(matches!(ignore::execute(&mut list, None), Err(GitGlobalError::Generic)));
    assert_eq!(list.entries(), &vec!["/base/a".to_string()]);
}

#[test]
fn ignored_lists_patterns_and_repos() {
    let config = Config { ignored_patterns: lines(&["node_modules", "", "target"]), ..config() };
    let mut list = IgnoreList::new();
    list.add("/base/b".to_string()).unwrap();
    let report = ignored::execute(&config, &list).unwrap();
    assert_eq!(
        printed(&report),
        "Ignored patterns (2):\n\x20 node_modules\n\x20 target\nIgnored repos (1):\n\x20 /base/b\n"
    );
}

#[test]
fn ignored_says_that_there_are_no_patterns() {
    let report = ignored::execute(&config(), &IgnoreList::new()).unwrap();
    assert_eq!(
        printed(&report),
        "No patterns in global.ignore.\nUse `git global ignore <pattern>` to add one.\n"
    );
    let blank = Config { ignored_patterns: lines(&[""]), ..config() };
    assert_eq!(printed(&ignored::execute(&blank, &IgnoreList::new()).unwrap()), printed(&report));
}

#[test]
fn the_program_ends_with_0_on_success_and_1_on_failure() {
    assert_eq!(exit_code(&list::execute(&vec![])), 0);
    assert_eq!(exit_code(&Err(GitGlobalError::Generic)), 1);
    assert_eq!(exit_code(&Err(GitGlobalError::BadSubcommand("x".to_string()))), 1);
    let mut list = IgnoreList::new();
    assert_eq!(exit_code(&ignore::execute(&mut list, None)), 1);
}
