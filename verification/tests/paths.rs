use dottar::path::{is_plain_name, FilePath};
use dottar::resolve::{
    get_dest_path, get_dotfiles_dir, get_full_path, get_relative_dest_path, Config, ConfigError,
    PathError,
};

fn config(home: &str, cwd: &str) -> Config {
    Config::new(FilePath::parse(home), FilePath::parse(cwd)).unwrap()
}

#[test]
fn parse_then_display_keeps_a_normal_path() {
    assert_eq!(FilePath::parse("/home/u/.vimrc").display(), "/home/u/.vimrc");
    assert_eq!(FilePath::parse(".config/nvim").display(), ".config/nvim");
}

#[test]
fn parse_drops_empty_pieces_and_dots() {
    assert_eq!(FilePath::parse("/home//u/./x/").display(), "/home/u/x");
    assert_eq!(FilePath::parse("./a/./b").display(), "a/b");
    assert_eq!(FilePath::parse("/").display(), "/");
    assert_eq!(FilePath::parse("").display(), ".");
    assert_eq!(FilePath::parse(".").display(), ".");
}

#[test]
fn parse_resolves_parent_steps() {
    assert_eq!(FilePath::parse("/home/u/../v").display(), "/home/v");
    assert_eq!(FilePath::parse("/..").display(), "/");
    assert_eq!(FilePath::parse("a/../..").display(), "..");
    assert_eq!(FilePath::parse("../../a").display(), "../../a");
    assert_eq!(FilePath::parse("a/b/../../c").display(), "c");
}

#[test]
fn parse_counts_components() {
    let p = FilePath::parse("/home/u/.config/nvim");
    assert!(p.is_absolute());
    assert_eq!(p.len(), 4);
    let q = FilePath::parse("x");
    assert!(!q.is_absolute());
    assert_eq!(q.len(), 1);
}

#[test]
fn parse_reads_text_beyond_ascii() {
    let p = FilePath::parse("/home/ü/été");
    assert_eq!(p.len(), 3);
    assert_eq!(p.display(), "/home/ü/été");
}

#[test]
fn join_walks_a_relative_path() {
    let base = FilePath::parse("/home/u");
    assert_eq!(base.join(&FilePath::parse(".vimrc")).display(), "/home/u/.vimrc");
    assert_eq!(base.join(&FilePath::parse("../v/x")).display(), "/home/v/x");
    assert_eq!(base.join(&FilePath::parse("")).display(), "/home/u");
}

#[test]
fn join_with_an_absolute_path_replaces() {
    let base = FilePath::parse("/home/u");
    assert_eq!(base.join(&FilePath::parse("/etc/passwd")).display(), "/etc/passwd");
}

#[test]
fn child_appends_a_plain_name() {
    let base = FilePath::parse("/home/u");
    assert_eq!(base.child("init.vim").display(), "/home/u/init.vim");
    assert_eq!(base.child("..").display(), "/home");
}

#[test]
fn starts_with_compares_whole_components() {
    let home = FilePath::parse("/home/u");
    assert!(FilePath::parse("/home/u/.vimrc").starts_with(&home));
    assert!(FilePath::parse("/home/u").starts_with(&home));
    assert!(!FilePath::parse("/home/user/.vimrc").starts_with(&home));
    assert!(!FilePath::parse("home/u/.vimrc").starts_with(&home));
    assert!(!FilePath::parse("/home").starts_with(&home));
}

#[test]
fn strip_prefix_gives_the_rest() {
    let home = FilePath::parse("/home/u");
    let rel = FilePath::parse("/home/u/.config/nvim").strip_prefix(&home).unwrap();
    assert!(!rel.is_absolute());
    assert_eq!(rel.display(), ".config/nvim");
    assert_eq!(FilePath::parse("/home/u").strip_prefix(&home).unwrap().display(), ".");
    assert_eq!(FilePath::parse("/etc").strip_prefix(&home), None);
}

#[test]
fn parent_drops_the_last_component() {
    assert_eq!(FilePath::parse("/a/b").parent().unwrap().display(), "/a");
    assert_eq!(FilePath::parse("a").parent().unwrap().display(), ".");
    assert_eq!(FilePath::parse("/").parent(), None);
}

#[test]
fn duplicate_is_equal() {
    let p = FilePath::parse("/a/b/c");
    assert_eq!(p.duplicate(), p);
}

#[test]
fn display_agrees_with_std_on_joined_paths() {
    let joined = std::path::Path::new("/home/u").join(".config/nvim/init.vim");
    let ours = FilePath::parse("/home/u").join(&FilePath::parse(".config/nvim/init.vim"));
    assert_eq!(ours.display(), joined.to_str().unwrap());
}

#[test]
fn config_needs_an_absolute_home() {
    let r = Config::new(FilePath::parse("home/u"), FilePath::parse("/tmp"));
    assert_eq!(r, Err(ConfigError::HomeNotAbsolute));
}

#[test]
fn config_holds_its_directories() {
    let c = config("/home/u", "/home/u/work");
    assert_eq!(c.home_dir().display(), "/home/u");
    assert_eq!(c.dotfiles_dir().display(), "/home/u/.dotfiles");
    assert_eq!(c.current_dir().display(), "/home/u/work");
}

#[test]
fn dotfiles_dir_is_in_home() {
    assert_eq!(get_dotfiles_dir(&FilePath::parse("/home/u")).display(), "/home/u/.dotfiles");
    assert_eq!(get_dotfiles_dir(&FilePath::parse("/")).display(), "/.dotfiles");
}

#[test]
fn full_path_is_taken_from_the_working_directory() {
    let c = config("/home/u", "/home/u");
    assert_eq!(
        get_full_path(&c, &FilePath::parse(".config/nvim/init.vim")).display(),
        "/home/u/.config/nvim/init.vim"
    );
    assert_eq!(get_full_path(&c, &FilePath::parse("/etc/hosts")).display(), "/etc/hosts");
}

#[test]
fn dest_path_mirrors_the_path_below_home() {
    let c = config("/home/u", "/home/u");
    let dest = get_dest_path(&c, &FilePath::parse("/home/u/.vimrc")).unwrap();
    assert_eq!(dest.display(), "/home/u/.dotfiles/.vimrc");
    let dest = get_dest_path(&c, &FilePath::parse(".config/nvim/init.vim")).unwrap();
    assert_eq!(dest.display(), "/home/u/.dotfiles/.config/nvim/init.vim");
}

#[test]
fn relative_dest_path_is_the_path_below_home() {
    let c = config("/home/u", "/home/u/.config");
    let rel = get_relative_dest_path(&c, &FilePath::parse("nvim/init.vim")).unwrap();
    assert_eq!(rel.display(), ".config/nvim/init.vim");
    assert!(!rel.is_absolute());
    let rel = get_relative_dest_path(&c, &FilePath::parse("../.vimrc")).unwrap();
    assert_eq!(rel.display(), ".vimrc");
}

#[test]
fn dest_is_repository_joined_with_relative() {
    let c = config("/home/u", "/home/u");
    for text in [".vimrc", ".config/nvim", "/home/u/a/b/c", "x/../y"] {
        let file = FilePath::parse(text);
        let rel = get_relative_dest_path(&c, &file).unwrap();
        let dest = get_dest_path(&c, &file).unwrap();
        assert_eq!(dest, c.dotfiles_dir().join(&rel));
        assert_eq!(dest.strip_prefix(c.dotfiles_dir()), Some(rel));
    }
}

#[test]
fn paths_outside_home_are_refused() {
    let c = config("/home/u", "/home/u");
    for text in ["/etc/passwd", "/home/user/.vimrc", "/home", "..", "../v/.vimrc", "/"] {
        let file = FilePath::parse(text);
        assert_eq!(get_dest_path(&c, &file), Err(PathError::OutsideHome));
        assert_eq!(get_relative_dest_path(&c, &file), Err(PathError::OutsideHome));
    }
}

#[test]
fn home_itself_is_refused() {
    let c = config("/home/u", "/home/u");
    assert_eq!(get_dest_path(&c, &FilePath::parse("/home/u")), Err(PathError::OutsideHome));
    assert_eq!(get_dest_path(&c, &FilePath::parse(".")), Err(PathError::OutsideHome));
    assert_eq!(get_dest_path(&c, &FilePath::parse("a/..")), Err(PathError::OutsideHome));
}

#[test]
fn a_relative_working_directory_resolves_nothing() {
    let c = config("/home/u", "home/u");
    assert_eq!(get_dest_path(&c, &FilePath::parse(".vimrc")), Err(PathError::OutsideHome));
}

#[test]
fn reading_the_text_of_a_path_gives_the_path_back() {
    for text in ["/", ".", "..", "../..", "/a", "a", "a/b/c", "/home/u/.dotfiles", "../a/b"] {
        let p = FilePath::parse(text);
        assert_eq!(p.display(), text);
        assert_eq!(FilePath::parse(&p.display()), p);
    }
    for text in ["", "//", "/./", "a//b/", "./x/..", "/../..", "a/./../b/"] {
        let p = FilePath::parse(text);
        assert_eq!(FilePath::parse(&p.display()), p);
    }
}

#[test]
fn a_name_with_a_separator_is_walked_as_a_path() {
    let base = FilePath::parse("/home/u");
    assert_eq!(base.child("a/b").display(), "/home/u/a/b");
    assert_eq!(base.child("").display(), "/home/u");
    assert_eq!(base.child(".").display(), "/home/u");
}

#[test]
fn plain_names_are_told_apart() {
    for name in ["a", ".vimrc", "...", "init.vim", "é", " "] {
        assert!(is_plain_name(name));
    }
    for name in ["", ".", "..", "a/b", "/", "a/", "/a"] {
        assert!(!is_plain_name(name));
    }
}
