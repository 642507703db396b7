use git_global::{Repo, Report};

fn repos(paths: &[&str]) -> Vec<Repo> {
    paths.iter().map(|p| Repo::new(p.to_string())).collect()
}

fn printed(report: &Report) -> String {
    let mut out = String::new();
    report.print(&mut out);
    out
}

#[test]
fn a_new_report_prints_nothing() {
    assert_eq!(printed(&Report::new(&repos(&["/a", "/b"]))), "");
    assert_eq!(printed(&Report::new(&vec![])), "");
}

#[test]
fn messages_print_in_the_order_added() {
    let mut report = Report::new(&repos(&["/a"]));
    report.add_message("first".to_string());
    report.add_message("second".to_string());
    report.add_message("".to_string());
    report.add_message("third".to_string());
    assert_eq!(printed(&report), "first\nsecond\n\nthird\n");
    assert_eq!(
        report.messages(),
        &vec!["first".to_string(), "second".to_string(), "".to_string(), "third".to_string()]
    );
}

#[test]
fn repo_messages_print_under_the_path_of_the_repo() {
    let all = repos(&["/a", "/b", "/c"]);
    let mut report = Report::new(&all);
    report.add_repo_message(&all[2], " M x".to_string());
    report.add_repo_message(&all[0], "?? y".to_string());
    report.add_repo_message(&all[2], "A  z".to_string());
    assert_eq!(printed(&report), "/a\n?? y\n/c\n M x\nA  z\n");
}

#[test]
fn repos_without_messages_do_not_print() {
    let all = repos(&["/a", "/b"]);
    let mut report = Report::new(&all);
    report.add_repo_message(&all[1], "line".to_string());
    assert_eq!(printed(&report), "/b\nline\n");
}

#[test]
fn an_empty_message_shows_the_path_alone() {
    let all = repos(&["/a", "/b"]);
    let mut report = Report::new(&all);
    report.add_repo_message(&all[0], String::new());
    assert_eq!(printed(&report), "/a\n");
}

#[test]
fn empty_messages_are_left_out_between_others() {
    let all = repos(&["/a"]);
    let mut report = Report::new(&all);
    report.add_repo_message(&all[0], "one".to_string());
    report.add_repo_message(&all[0], String::new());
    report.add_repo_message(&all[0], "two".to_string());
    assert_eq!(printed(&report), "/a\none\ntwo\n");
}

#[test]
fn padding_puts_an_empty_line_after_each_repo() {
    let all = repos(&["/a", "/b", "/c"]);
    let mut report = Report::new(&all);
    report.pad_repo_output();
    report.add_message("head".to_string());
    report.add_repo_message(&all[0], "one".to_string());
    report.add_repo_message(&all[2], "two".to_string());
    assert_eq!(printed(&report), "head\n/a\none\n\n/c\ntwo\n\n");
}

#[test]
fn a_message_on_an_unknown_repo_is_dropped() {
    let all = repos(&["/a"]);
    let mut report = Report::new(&all);
    report.add_repo_message(&Repo::new("/elsewhere".to_string()), "lost".to_string());
    assert_eq!(printed(&report), "");
    assert_eq!(report.repo_messages(), &vec![Vec::<String>::new()]);
}

#[test]
fn a_message_goes_to_the_repo_with_that_path() {
    let all = repos(&["/a", "/b"]);
    let mut report = Report::new(&all);
    report.add_repo_message(&Repo::new("/b".to_string()), "found by path".to_string());
    assert_eq!(printed(&report), "/b\nfound by path\n");
}

#[test]
fn a_repo_that_is_listed_twice_prints_twice() {
    let all = repos(&["/a", "/a"]);
    let mut report = Report::new(&all);
    report.add_repo_message(&all[0], "line".to_string());
    assert_eq!(printed(&report), "/a\nline\n/a\nline\n");
}

#[test]
fn print_appends_to_what_is_there() {
    let mut report = Report::new(&vec![]);
    report.add_message("m".to_string());
    let mut out = String::from("before\n");
    report.print(&mut out);
    assert_eq!(out, "before\nm\n");
}

#[test]
fn a_report_keeps_its_repos() {
    let all = repos(&["/b", "/a"]);
    let report = Report::new(&all);
    assert_eq!(report.repos(), &all);
    assert_eq!(report.repo_messages().len(), 2);
}

#[test]
fn shown_messages_are_the_messages_that_are_not_empty() {
    let all = repos(&["/a", "/b", "/c"]);
    let mut report = Report::new(&all);
    report.add_repo_message(&all[0], "one".to_string());
    report.add_repo_message(&all[0], String::new());
    report.add_repo_message(&all[0], "two".to_string());
    report.add_repo_message(&all[2], String::new());
    assert_eq!(
        report.shown_messages(),
        vec![
            ("/a".to_string(), vec!["one".to_string(), "two".to_string()]),
            ("/b".to_string(), vec![]),
            ("/c".to_string(), vec![]),
        ]
    );
}
