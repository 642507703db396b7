use git_global::Repo;

/// Initialize an empty git repo in a temporary directory, then run a closure
/// that takes that Repo instance.
fn with_temp_repo<T>(test: T)
where
    T: FnOnce(Repo),
{
    let tempdir = tempfile::Builder::new().prefix("git-global-test").tempdir().unwrap();
    let repo_path = tempdir.path();
    git2::Repository::init(repo_path).unwrap();
    let repo = Repo::new(repo_path.to_str().unwrap().to_string());
    test(repo);
}

#[test]
/// Test that we get an actual git repo, we can get a git2::Repository
/// reference to it, and it's not bare.
fn test_repo_initialization() {
    with_temp_repo(|repo| {
        let git2_repo = git2::Repository::open(repo.path()).unwrap();
        assert!(!git2_repo.is_bare());
    });
}

#[test]
fn a_fresh_repo_has_no_status_no_stash_and_is_not_ahead() {
    with_temp_repo(|repo| {
        let mut git2_repo = git2::Repository::open(repo.path()).unwrap();
        assert_eq!(git2_repo.statuses(None).unwrap().len(), 0);
        assert_eq!(repo.get_status_lines(&vec![]), Vec::<String>::new());
        let mut names: Vec<String> = vec![];
        git2_repo
            .stash_foreach(|_index, name, _oid| {
                names.push(name.to_string());
                true
            })
            .unwrap();
        assert_eq!(repo.get_stash_list(&names), Vec::<String>::new());
        assert!(!repo.is_ahead(&vec![], &vec![]));
    });
}
