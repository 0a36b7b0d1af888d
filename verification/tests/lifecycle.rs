use dottar::lifecycle::{clone_plan, init_plan};
use dottar::path::FilePath;
use dottar::steps::{FileOp, Notice, Step};

fn repo() -> FilePath {
    FilePath::parse("/home/u/.dotfiles")
}

fn cloning(url: &str) -> Step {
    Step::Say(Notice::Cloning { url: String::from(url), into: repo() })
}

fn fetch(url: &str) -> Step {
    Step::CloneRepository { url: String::from(url), into: repo() }
}

#[test]
fn clone_into_a_missing_directory() {
    let url = "https://example.org/dots";
    assert_eq!(clone_plan(url, &repo(), false, false), vec![cloning(url), fetch(url)]);
    assert_eq!(clone_plan(url, &repo(), false, true), vec![cloning(url), fetch(url)]);
}

#[test]
fn clone_into_an_existing_directory_is_a_conflict() {
    let url = "https://example.org/dots";
    assert_eq!(
        clone_plan(url, &repo(), true, false),
        vec![cloning(url), Step::Say(Notice::AlreadyExists)]
    );
}

#[test]
fn clone_with_force_removes_the_directory_first() {
    let url = "https://example.org/dots";
    assert_eq!(
        clone_plan(url, &repo(), true, true),
        vec![
            cloning(url),
            Step::Say(Notice::Overwriting),
            Step::File(FileOp::RemoveDirAll { path: repo() }),
            fetch(url),
        ]
    );
}

#[test]
fn init_in_a_missing_directory() {
    let expected = vec![
        Step::Say(Notice::Creating { at: repo() }),
        Step::File(FileOp::CreateDirAll { path: repo() }),
        Step::InitRepository { at: repo() },
    ];
    assert_eq!(init_plan(&repo(), false, false), expected);
    assert_eq!(init_plan(&repo(), false, true), expected);
}

#[test]
fn init_in_an_existing_directory_is_a_conflict() {
    assert_eq!(
        init_plan(&repo(), true, false),
        vec![Step::Say(Notice::Creating { at: repo() }), Step::Say(Notice::AlreadyExists)]
    );
}

#[test]
fn init_with_force_replaces_the_directory() {
    assert_eq!(
        init_plan(&repo(), true, true),
        vec![
            Step::Say(Notice::Creating { at: repo() }),
            Step::Say(Notice::Overwriting),
            Step::File(FileOp::RemoveDirAll { path: repo() }),
            Step::File(FileOp::CreateDirAll { path: repo() }),
            Step::InitRepository { at: repo() },
        ]
    );
}
