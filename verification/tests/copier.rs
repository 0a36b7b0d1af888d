use dottar::copier::{copy_recursively, entry_is_well_formed, listing_is_well_formed, Entry};
use dottar::path::FilePath;
use dottar::steps::{FileOp, Notice, Step};
use std::collections::BTreeMap;

fn path(text: &str) -> FilePath {
    FilePath::parse(text)
}

fn file(name: &str) -> Entry {
    Entry::File { name: String::from(name) }
}

fn dir(name: &str, entries: Vec<Entry>) -> Entry {
    Entry::Dir { name: String::from(name), entries }
}

fn make(text: &str) -> Step {
    Step::File(FileOp::CreateDirAll { path: path(text) })
}

fn copy(from: &str, to: &str) -> Step {
    Step::File(FileOp::CopyFile { from: path(from), to: path(to) })
}

fn say(from: &str, to: &str) -> Step {
    Step::Say(Notice::Copying { from: path(from), to: path(to) })
}

/// A small file system: a path holds a directory (`None`) or a file.
fn carry_out(fs: &mut BTreeMap<String, Option<Vec<u8>>>, steps: &[Step]) {
    for step in steps {
        match step {
            Step::File(FileOp::CreateDirAll { path }) => {
                let mut at = Some(path.duplicate());
                while let Some(p) = at {
                    fs.insert(p.display(), None);
                    at = p.parent();
                }
            }
            Step::File(FileOp::CopyFile { from, to }) => {
                if let Some(Some(bytes)) = fs.get(&from.display()).cloned() {
                    fs.insert(to.display(), Some(bytes));
                }
            }
            Step::File(FileOp::RemoveFile { path }) => {
                fs.remove(&path.display());
            }
            Step::File(FileOp::RemoveDirAll { path }) => {
                fs.retain(|k, _| !FilePath::parse(k).starts_with(path));
            }
            _ => {}
        }
    }
}

fn nvim_tree() -> Vec<Entry> {
    vec![
        file("init.vim"),
        dir("lua", vec![file("plugins.lua"), dir("deep", vec![file("x")]), dir("empty", vec![])]),
        file("README"),
    ]
}

fn nvim_fs() -> BTreeMap<String, Option<Vec<u8>>> {
    let mut fs = BTreeMap::new();
    for d in ["/", "/home", "/home/u", "/home/u/.config", "/home/u/.config/nvim"] {
        fs.insert(String::from(d), None);
    }
    fs.insert(String::from("/home/u/.config/nvim/lua"), None);
    fs.insert(String::from("/home/u/.config/nvim/lua/deep"), None);
    fs.insert(String::from("/home/u/.config/nvim/lua/empty"), None);
    fs.insert(String::from("/home/u/.config/nvim/init.vim"), Some(b"set nu".to_vec()));
    fs.insert(String::from("/home/u/.config/nvim/lua/plugins.lua"), Some(b"return {}".to_vec()));
    fs.insert(String::from("/home/u/.config/nvim/lua/deep/x"), Some(vec![0, 255, 7]));
    fs.insert(String::from("/home/u/.config/nvim/README"), Some(Vec::new()));
    fs
}

#[test]
fn empty_listing_only_makes_the_destination() {
    let steps = copy_recursively(&path("/a"), &path("/b/c"), &Vec::new(), false);
    assert_eq!(steps, vec![make("/b/c")]);
    let steps = copy_recursively(&path("/a"), &path("/b/c"), &Vec::new(), true);
    assert_eq!(steps, vec![make("/b/c")]);
}

#[test]
fn files_are_copied_in_listing_order() {
    let entries = vec![file("b"), file("a"), file("c")];
    let steps = copy_recursively(&path("/src"), &path("/dst"), &entries, false);
    assert_eq!(
        steps,
        vec![
            make("/dst"),
            copy("/src/b", "/dst/b"),
            copy("/src/a", "/dst/a"),
            copy("/src/c", "/dst/c"),
        ]
    );
}

#[test]
fn directories_are_walked_where_they_stand() {
    let steps = copy_recursively(
        &path("/home/u/.config/nvim"),
        &path("/home/u/.dotfiles/.config/nvim"),
        &nvim_tree(),
        false,
    );
    let d = "/home/u/.dotfiles/.config/nvim";
    let s = "/home/u/.config/nvim";
    assert_eq!(
        steps,
        vec![
            make(d),
            copy(&format!("{s}/init.vim"), &format!("{d}/init.vim")),
            make(&format!("{d}/lua")),
            copy(&format!("{s}/lua/plugins.lua"), &format!("{d}/lua/plugins.lua")),
            make(&format!("{d}/lua/deep")),
            copy(&format!("{s}/lua/deep/x"), &format!("{d}/lua/deep/x")),
            make(&format!("{d}/lua/empty")),
            copy(&format!("{s}/README"), &format!("{d}/README")),
        ]
    );
}

#[test]
fn verbose_announces_each_file_before_its_copy() {
    let entries = vec![file("a"), dir("d", vec![file("b")])];
    let steps = copy_recursively(&path("/src"), &path("/dst"), &entries, true);
    assert_eq!(
        steps,
        vec![
            make("/dst"),
            say("/src/a", "/dst/a"),
            copy("/src/a", "/dst/a"),
            make("/dst/d"),
            say("/src/d/b", "/dst/d/b"),
            copy("/src/d/b", "/dst/d/b"),
        ]
    );
}

#[test]
fn relative_paths_are_copied_too() {
    let steps = copy_recursively(&path("src"), &path("out/copy"), &vec![file("a")], false);
    assert_eq!(steps, vec![make("out/copy"), copy("src/a", "out/copy/a")]);
}

#[test]
fn every_file_has_its_bytes_at_the_destination() {
    let mut fs = nvim_fs();
    let before = fs.clone();
    let steps = copy_recursively(
        &path("/home/u/.config/nvim"),
        &path("/home/u/.dotfiles/.config/nvim"),
        &nvim_tree(),
        false,
    );
    carry_out(&mut fs, &steps);
    for rel in ["init.vim", "lua/plugins.lua", "lua/deep/x", "README"] {
        let from = format!("/home/u/.config/nvim/{rel}");
        let to = format!("/home/u/.dotfiles/.config/nvim/{rel}");
        assert_eq!(fs.get(&to), before.get(&from));
        assert!(matches!(fs.get(&to), Some(Some(_))));
    }
    assert_eq!(fs.get("/home/u/.dotfiles/.config/nvim/lua/empty"), Some(&None));
    assert_eq!(fs.get("/home/u/.dotfiles"), Some(&None));
    for (k, v) in before.iter() {
        assert_eq!(fs.get(k), Some(v));
    }
}

#[test]
fn copying_twice_gives_what_copying_once_gives() {
    let mut fs = nvim_fs();
    let steps = copy_recursively(
        &path("/home/u/.config/nvim"),
        &path("/home/u/.dotfiles/.config/nvim"),
        &nvim_tree(),
        true,
    );
    carry_out(&mut fs, &steps);
    let once = fs.clone();
    carry_out(&mut fs, &steps);
    assert_eq!(fs, once);
}

#[test]
fn a_copy_replaces_what_the_destination_held() {
    let mut fs = nvim_fs();
    fs.insert(String::from("/home/u/.dotfiles/.config/nvim/init.vim"), Some(b"old".to_vec()));
    let steps = copy_recursively(
        &path("/home/u/.config/nvim"),
        &path("/home/u/.dotfiles/.config/nvim"),
        &nvim_tree(),
        false,
    );
    carry_out(&mut fs, &steps);
    assert_eq!(
        fs.get("/home/u/.dotfiles/.config/nvim/init.vim"),
        Some(&Some(b"set nu".to_vec()))
    );
}

#[test]
fn a_listing_of_a_tree_is_well_formed() {
    assert!(listing_is_well_formed(&Vec::new()));
    assert!(listing_is_well_formed(&nvim_tree()));
    assert!(entry_is_well_formed(&dir("lua", vec![file("a"), dir("a.d", vec![])])));
    assert!(listing_is_well_formed(&vec![file("..."), file(".a"), file("a.")]));
}

#[test]
fn a_name_twice_is_not_well_formed() {
    assert!(!listing_is_well_formed(&vec![file("a"), file("b"), file("a")]));
    assert!(!listing_is_well_formed(&vec![file("a"), dir("a", vec![])]));
    assert!(!listing_is_well_formed(&vec![dir("d", vec![file("x"), file("x")])]));
    assert!(listing_is_well_formed(&vec![dir("d", vec![file("x")]), dir("e", vec![file("x")])]));
}

#[test]
fn a_name_that_is_no_file_name_is_not_well_formed() {
    for name in ["", ".", "..", "a/b", "/", "/a", "a/"] {
        assert!(!entry_is_well_formed(&file(name)));
        assert!(!entry_is_well_formed(&dir(name, vec![])));
        assert!(!listing_is_well_formed(&vec![dir("ok", vec![file(name)])]));
    }
}
