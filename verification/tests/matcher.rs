use git_global::matcher::{is_excluded, lies_under};

fn strings(items: &[&str]) -> Vec<String> {
    items.iter().map(|s| s.to_string()).collect()
}

fn chars(s: &str) -> Vec<char> {
    s.chars().collect()
}

#[test]
fn an_ignored_repository_is_excluded() {
    let ignored = strings(&["/home/u/proj"]);
    assert!(is_excluded("/home/u/proj", None, &vec![], &ignored));
}

#[test]
fn what_lies_below_an_ignored_repository_is_excluded() {
    let ignored = strings(&["/home/u/proj"]);
    assert!(is_excluded("/home/u/proj/sub", None, &vec![], &ignored));
    assert!(is_excluded("/home/u/proj/sub/deeper/.git", None, &vec![], &ignored));
    assert!(is_excluded("/home/u/proj/", None, &vec![], &ignored));
}

#[test]
fn a_link_into_an_ignored_repository_is_excluded() {
    let ignored = strings(&["/home/u/proj"]);
    assert!(is_excluded("/home/u/link", Some("/home/u/proj/sub"), &vec![], &ignored));
    assert!(is_excluded("/elsewhere", Some("/home/u/proj"), &vec![], &ignored));
}

#[test]
fn a_neighbour_with_a_longer_name_is_kept() {
    let ignored = strings(&["/home/u/proj"]);
    assert!(!is_excluded("/home/u/project2", None, &vec![], &ignored));
    assert!(!is_excluded("/home/u/project2", Some("/home/u/project2"), &vec![], &ignored));
    assert!(!is_excluded("/home/u/pro", None, &vec![], &ignored));
    assert!(!is_excluded("/home/u", Some("/home/u"), &vec![], &ignored));
}

#[test]
fn a_path_that_does_not_resolve_is_judged_as_it_stands() {
    let ignored = strings(&["/home/u/proj"]);
    assert!(is_excluded("/home/u/proj/gone", None, &vec![], &ignored));
    assert!(!is_excluded("/home/u/link-to-gone", None, &vec![], &ignored));
}

#[test]
fn a_pattern_excludes_every_path_that_holds_it() {
    let patterns = strings(&["node_modules", "/target"]);
    assert!(is_excluded("/home/u/app/node_modules/dep", None, &patterns, &vec![]));
    assert!(is_excluded("/home/u/app/target", None, &patterns, &vec![]));
    assert!(!is_excluded("/home/u/app/src", None, &patterns, &vec![]));
}

#[test]
fn patterns_are_matched_with_case() {
    let patterns = strings(&["Build"]);
    assert!(is_excluded("/x/Build/y", None, &patterns, &vec![]));
    assert!(!is_excluded("/x/build/y", None, &patterns, &vec![]));
}

#[test]
fn an_empty_pattern_excludes_nothing() {
    let patterns = strings(&["", ""]);
    assert!(!is_excluded("/home/u/app", None, &patterns, &vec![]));
    assert!(!is_excluded("", None, &patterns, &vec![]));
}

#[test]
fn patterns_are_not_matched_against_the_resolved_path() {
    let patterns = strings(&["secret"]);
    assert!(!is_excluded("/home/u/link", Some("/home/u/secret/repo"), &patterns, &vec![]));
}

#[test]
fn nothing_is_excluded_without_patterns_and_ignores() {
    assert!(!is_excluded("/home/u/app", Some("/home/u/app"), &vec![], &vec![]));
}

#[test]
fn lies_under_wants_a_separator_behind_the_entry() {
    assert!(lies_under(&chars("/a/b"), &chars("/a/b")));
    assert!(lies_under(&chars("/a/b/c"), &chars("/a/b")));
    assert!(!lies_under(&chars("/a/bc"), &chars("/a/b")));
    assert!(!lies_under(&chars("/a"), &chars("/a/b")));
    assert!(!lies_under(&chars("/a/b"), &chars("/a/b/")));
    assert!(lies_under(&chars("/x"), &chars("")));
    assert!(!lies_under(&chars("x"), &chars("")));
}
