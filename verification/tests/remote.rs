use dottar::remote::{is_remote_url, normalize_repository, normalize_with};

#[test]
fn user_name_maps_to_hosted_url() {
    assert_eq!(
        normalize_repository("alice"),
        Ok(String::from("https://github.com/alice/dotfiles"))
    );
}

#[test]
fn full_url_is_passed_through() {
    assert_eq!(
        normalize_repository("https://gitlab.com/bob/dots"),
        Ok(String::from("https://gitlab.com/bob/dots"))
    );
}

#[test]
fn every_scheme_is_recognised() {
    for url in [
        "http://example.org/a",
        "https://example.org/a/b",
        "git@github.com/alice/dotfiles",
        "git://example.org/x.git",
        "ssh://git@example.org/x",
        "git+ssh://example.org/x",
    ] {
        assert_eq!(is_remote_url(url), Ok(true));
        assert_eq!(normalize_repository(url), Ok(String::from(url)));
    }
}

#[test]
fn a_scheme_without_host_and_path_is_a_user_name() {
    for name in ["https://", "https://host", "https:///path", "ftp://example.org/a", "bob"] {
        assert_eq!(is_remote_url(name), Ok(false));
    }
    assert_eq!(
        normalize_repository("https://host"),
        Ok(String::from("https://github.com/https://host/dotfiles"))
    );
}

#[test]
fn the_scheme_has_to_stand_at_the_start() {
    assert_eq!(is_remote_url(" https://example.org/a"), Ok(false));
    assert_eq!(is_remote_url("xhttps://example.org/a"), Ok(false));
}

#[test]
fn normalize_with_follows_the_flag() {
    assert_eq!(normalize_with("alice", false), "https://github.com/alice/dotfiles");
    assert_eq!(normalize_with("alice", true), "alice");
    assert_eq!(normalize_with("", false), "https://github.com//dotfiles");
}
