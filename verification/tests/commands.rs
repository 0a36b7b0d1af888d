use clap_complete::Shell;
use dottar::cli::{
    add_plan, dispatch, plan, question, remove_plan, Cli, CliOpts, CliSubcommand, DispatchError,
    Observed, Question,
};
use dottar::copier::Entry;
use dottar::path::FilePath;
use dottar::resolve::Config;
use dottar::steps::{FileOp, Notice, Step};
use std::collections::BTreeMap;

fn path(text: &str) -> FilePath {
    FilePath::parse(text)
}

fn config() -> Config {
    Config::new(path("/home/u"), path("/home/u")).unwrap()
}

fn quiet() -> CliOpts {
    CliOpts { verbose: false }
}

fn add(text: &str) -> CliSubcommand {
    CliSubcommand::Add { file: path(text) }
}

fn remove(text: &str) -> CliSubcommand {
    CliSubcommand::Remove { file: path(text) }
}

fn init(repository: Option<&str>, force: bool) -> CliSubcommand {
    CliSubcommand::Init { repository: repository.map(String::from), force }
}

fn nvim() -> Observed {
    Observed::Dir { entries: vec![Entry::File { name: String::from("init.vim") }] }
}

fn carry_out(fs: &mut BTreeMap<String, Option<Vec<u8>>>, steps: &[Step]) {
    for step in steps {
        match step {
            Step::File(FileOp::CreateDirAll { path }) => {
                let mut at = Some(path.duplicate());
                while let Some(p) = at {
                    fs.insert(p.display(), None);
                    at = p.parent();
                }
            }
            Step::File(FileOp::CopyFile { from, to }) => {
                if let Some(Some(bytes)) = fs.get(&from.display()).cloned() {
                    fs.insert(to.display(), Some(bytes));
                }
            }
            Step::File(FileOp::RemoveFile { path }) => {
                fs.remove(&path.display());
            }
            Step::File(FileOp::RemoveDirAll { path }) => {
                fs.retain(|k, _| !FilePath::parse(k).starts_with(path));
            }
            _ => {}
        }
    }
}

fn home_fs() -> BTreeMap<String, Option<Vec<u8>>> {
    let mut fs = BTreeMap::new();
    for d in ["/", "/home", "/home/u", "/home/u/.config", "/home/u/.config/nvim"] {
        fs.insert(String::from(d), None);
    }
    fs.insert(String::from("/home/u/.vimrc"), Some(b"syntax on\n".to_vec()));
    fs.insert(String::from("/home/u/.config/nvim/init.vim"), Some(b"set nu\n".to_vec()));
    fs
}

#[test]
fn init_asks_for_the_repository_directory() {
    let q = question(&config(), &init(None, false));
    assert_eq!(q, Ok(Question::KindOf { path: path("/home/u/.dotfiles") }));
    let q = question(&config(), &init(Some("alice"), true));
    assert_eq!(q, Ok(Question::KindOf { path: path("/home/u/.dotfiles") }));
}

#[test]
fn add_asks_for_the_tree_at_the_full_path() {
    let q = question(&config(), &add(".config/nvim"));
    assert_eq!(q, Ok(Question::TreeOf { path: path("/home/u/.config/nvim") }));
}

#[test]
fn remove_asks_for_the_place_in_the_repository() {
    let q = question(&config(), &remove(".vimrc"));
    assert_eq!(q, Ok(Question::KindOf { path: path("/home/u/.dotfiles/.vimrc") }));
}

#[test]
fn other_commands_ask_nothing() {
    let c = config();
    assert_eq!(question(&c, &CliSubcommand::List), Ok(Question::Nothing));
    assert_eq!(question(&c, &CliSubcommand::Cd), Ok(Question::Nothing));
    assert_eq!(
        question(&c, &CliSubcommand::Diff { file: None, viewer: None }),
        Ok(Question::Nothing)
    );
    assert_eq!(
        question(&c, &CliSubcommand::Edit { path: path(".vimrc"), editor: None }),
        Ok(Question::Nothing)
    );
    assert_eq!(
        question(&c, &CliSubcommand::Generate { generator: Shell::Zsh }),
        Ok(Question::Nothing)
    );
}

#[test]
fn a_path_outside_home_is_refused_before_anything_is_asked() {
    let c = config();
    assert_eq!(question(&c, &add("/etc/passwd")), Err(DispatchError::OutsideHome));
    assert_eq!(question(&c, &remove("../v/.vimrc")), Err(DispatchError::OutsideHome));
    assert_eq!(
        dispatch(&c, &quiet(), &add("/etc/passwd"), &Observed::File),
        Err(DispatchError::OutsideHome)
    );
    assert_eq!(
        dispatch(&c, &quiet(), &remove("/etc/passwd"), &Observed::File),
        Err(DispatchError::OutsideHome)
    );
    assert_eq!(
        add_plan(&c, &quiet(), &path("/home/u"), &Observed::Dir { entries: vec![] }),
        Err(DispatchError::OutsideHome)
    );
    assert_eq!(remove_plan(&c, &path("/"), &Observed::Missing), Err(DispatchError::OutsideHome));
}

#[test]
fn add_vimrc_copies_it_into_the_repository() {
    let steps = dispatch(&config(), &quiet(), &add("/home/u/.vimrc"), &Observed::File).unwrap();
    assert_eq!(
        steps,
        vec![
            Step::Say(Notice::Adding { full: path("/home/u/.vimrc"), relative: path(".vimrc") }),
            Step::File(FileOp::CreateDirAll { path: path("/home/u/.dotfiles") }),
            Step::File(FileOp::CopyFile {
                from: path("/home/u/.vimrc"),
                to: path("/home/u/.dotfiles/.vimrc"),
            }),
        ]
    );
    let mut fs = home_fs();
    carry_out(&mut fs, &steps);
    assert_eq!(fs.get("/home/u/.dotfiles/.vimrc"), Some(&Some(b"syntax on\n".to_vec())));
    assert_eq!(fs.get("/home/u/.vimrc"), Some(&Some(b"syntax on\n".to_vec())));
}

#[test]
fn add_nvim_directory_copies_its_tree() {
    let opts = CliOpts { verbose: true };
    let steps = dispatch(&config(), &opts, &add("/home/u/.config/nvim"), &nvim()).unwrap();
    let from = path("/home/u/.config/nvim/init.vim");
    let to = path("/home/u/.dotfiles/.config/nvim/init.vim");
    assert_eq!(
        steps,
        vec![
            Step::Say(Notice::Adding {
                full: path("/home/u/.config/nvim"),
                relative: path(".config/nvim"),
            }),
            Step::File(FileOp::CreateDirAll { path: path("/home/u/.dotfiles/.config/nvim") }),
            Step::Say(Notice::Copying { from: from.duplicate(), to: to.duplicate() }),
            Step::File(FileOp::CopyFile { from, to }),
        ]
    );
    let mut fs = home_fs();
    carry_out(&mut fs, &steps);
    assert_eq!(
        fs.get("/home/u/.dotfiles/.config/nvim/init.vim"),
        Some(&Some(b"set nu\n".to_vec()))
    );
}

#[test]
fn add_of_a_file_in_a_directory_makes_the_directories_above() {
    let c = Config::new(path("/home/u"), path("/home/u/.config")).unwrap();
    let steps = add_plan(&c, &quiet(), &path("nvim/init.vim"), &Observed::File).unwrap();
    assert_eq!(
        steps[1],
        Step::File(FileOp::CreateDirAll { path: path("/home/u/.dotfiles/.config/nvim") })
    );
    let mut fs = home_fs();
    carry_out(&mut fs, &steps);
    assert_eq!(fs.get("/home/u/.dotfiles/.config"), Some(&None));
    assert_eq!(
        fs.get("/home/u/.dotfiles/.config/nvim/init.vim"),
        Some(&Some(b"set nu\n".to_vec()))
    );
}

#[test]
fn add_of_nothing_only_says_so() {
    let steps = dispatch(&config(), &quiet(), &add(".missing"), &Observed::Missing).unwrap();
    assert_eq!(
        steps,
        vec![
            Step::Say(Notice::Adding { full: path("/home/u/.missing"), relative: path(".missing") }),
            Step::Say(Notice::CannotFind),
        ]
    );
    let mut fs = home_fs();
    carry_out(&mut fs, &steps);
    assert_eq!(fs, home_fs());
}

#[test]
fn remove_deletes_a_tracked_file() {
    let steps = dispatch(&config(), &quiet(), &remove(".vimrc"), &Observed::File).unwrap();
    assert_eq!(
        steps,
        vec![
            Step::Say(Notice::Removing { full: path("/home/u/.vimrc"), relative: path(".vimrc") }),
            Step::File(FileOp::RemoveFile { path: path("/home/u/.dotfiles/.vimrc") }),
        ]
    );
}

#[test]
fn remove_deletes_a_tracked_directory_with_its_tree() {
    let found = Observed::Dir { entries: vec![] };
    let steps = remove_plan(&config(), &path(".config/nvim"), &found).unwrap();
    assert_eq!(
        steps[1],
        Step::File(FileOp::RemoveDirAll { path: path("/home/u/.dotfiles/.config/nvim") })
    );
    assert_eq!(steps.len(), 2);
}

#[test]
fn remove_of_an_untracked_path_says_so() {
    let steps = dispatch(&config(), &quiet(), &remove(".bashrc"), &Observed::Missing).unwrap();
    assert_eq!(
        steps,
        vec![
            Step::Say(Notice::Removing { full: path("/home/u/.bashrc"), relative: path(".bashrc") }),
            Step::Say(Notice::NotTracked),
        ]
    );
}

#[test]
fn add_then_remove_leaves_nothing_in_the_repository() {
    let c = config();
    let mut fs = home_fs();
    carry_out(&mut fs, &dispatch(&c, &quiet(), &add(".vimrc"), &Observed::File).unwrap());
    carry_out(&mut fs, &dispatch(&c, &quiet(), &add(".config/nvim"), &nvim()).unwrap());
    assert!(fs.contains_key("/home/u/.dotfiles/.vimrc"));
    assert!(fs.contains_key("/home/u/.dotfiles/.config/nvim/init.vim"));
    carry_out(&mut fs, &dispatch(&c, &quiet(), &remove(".vimrc"), &Observed::File).unwrap());
    let found = Observed::Dir { entries: vec![] };
    carry_out(&mut fs, &dispatch(&c, &quiet(), &remove(".config/nvim"), &found).unwrap());
    assert!(!fs.contains_key("/home/u/.dotfiles/.vimrc"));
    assert!(!fs.keys().any(|k| k.starts_with("/home/u/.dotfiles/.config/nvim")));
    assert!(fs.contains_key("/home/u/.vimrc"));
    assert!(fs.contains_key("/home/u/.config/nvim/init.vim"));
}

#[test]
fn init_on_an_existing_repository_reports_a_conflict() {
    let found = Observed::Dir { entries: vec![] };
    let steps = dispatch(&config(), &quiet(), &init(None, false), &found).unwrap();
    assert_eq!(
        steps,
        vec![
            Step::Say(Notice::Creating { at: path("/home/u/.dotfiles") }),
            Step::Say(Notice::AlreadyExists),
        ]
    );
    let mut fs = home_fs();
    fs.insert(String::from("/home/u/.dotfiles"), None);
    fs.insert(String::from("/home/u/.dotfiles/.vimrc"), Some(vec![1]));
    let before = fs.clone();
    carry_out(&mut fs, &steps);
    assert_eq!(fs, before);
}

#[test]
fn init_with_force_replaces_an_existing_repository() {
    let steps = dispatch(&config(), &quiet(), &init(None, true), &Observed::File).unwrap();
    assert_eq!(
        steps,
        vec![
            Step::Say(Notice::Creating { at: path("/home/u/.dotfiles") }),
            Step::Say(Notice::Overwriting),
            Step::File(FileOp::RemoveDirAll { path: path("/home/u/.dotfiles") }),
            Step::File(FileOp::CreateDirAll { path: path("/home/u/.dotfiles") }),
            Step::InitRepository { at: path("/home/u/.dotfiles") },
        ]
    );
    let mut fs = home_fs();
    fs.insert(String::from("/home/u/.dotfiles"), None);
    fs.insert(String::from("/home/u/.dotfiles/.vimrc"), Some(vec![1]));
    carry_out(&mut fs, &steps);
    assert_eq!(fs.get("/home/u/.dotfiles"), Some(&None));
    assert!(!fs.keys().any(|k| k.starts_with("/home/u/.dotfiles/")));
    assert!(fs.contains_key("/home/u/.vimrc"));
}

#[test]
fn init_without_a_repository_makes_one() {
    let steps = dispatch(&config(), &quiet(), &init(None, false), &Observed::Missing).unwrap();
    assert_eq!(
        steps,
        vec![
            Step::Say(Notice::Creating { at: path("/home/u/.dotfiles") }),
            Step::File(FileOp::CreateDirAll { path: path("/home/u/.dotfiles") }),
            Step::InitRepository { at: path("/home/u/.dotfiles") },
        ]
    );
}

#[test]
fn init_with_a_user_name_clones_the_hosted_repository() {
    let steps =
        dispatch(&config(), &quiet(), &init(Some("alice"), false), &Observed::Missing).unwrap();
    let url = String::from("https://github.com/alice/dotfiles");
    assert_eq!(
        steps,
        vec![
            Step::Say(Notice::Cloning { url: url.clone(), into: path("/home/u/.dotfiles") }),
            Step::CloneRepository { url, into: path("/home/u/.dotfiles") },
        ]
    );
}

#[test]
fn init_with_a_full_address_clones_it_as_it_is() {
    let found = Observed::Dir { entries: vec![] };
    let name = "https://gitlab.com/bob/dots";
    let steps = dispatch(&config(), &quiet(), &init(Some(name), true), &found).unwrap();
    assert_eq!(
        steps,
        vec![
            Step::Say(Notice::Cloning { url: String::from(name), into: path("/home/u/.dotfiles") }),
            Step::Say(Notice::Overwriting),
            Step::File(FileOp::RemoveDirAll { path: path("/home/u/.dotfiles") }),
            Step::CloneRepository { url: String::from(name), into: path("/home/u/.dotfiles") },
        ]
    );
    let steps = dispatch(&config(), &quiet(), &init(Some(name), false), &found).unwrap();
    assert_eq!(steps.len(), 2);
    assert_eq!(steps[1], Step::Say(Notice::AlreadyExists));
}

#[test]
fn plan_takes_the_flag_it_is_given() {
    let c = config();
    let steps = plan(&c, &quiet(), &init(Some("alice"), false), &Observed::Missing, true).unwrap();
    assert_eq!(
        steps[1],
        Step::CloneRepository { url: String::from("alice"), into: path("/home/u/.dotfiles") }
    );
    let steps = plan(&c, &quiet(), &add(".vimrc"), &Observed::Missing, true).unwrap();
    assert_eq!(steps[1], Step::Say(Notice::CannotFind));
}

#[test]
fn commands_without_logic_say_what_they_are() {
    let c = config();
    let none = Observed::Missing;
    assert_eq!(
        dispatch(&c, &quiet(), &CliSubcommand::List, &none),
        Ok(vec![Step::Say(Notice::Listing)])
    );
    assert_eq!(
        dispatch(&c, &quiet(), &CliSubcommand::Cd, &none),
        Ok(vec![Step::Say(Notice::ChangingDirectory)])
    );
    assert_eq!(
        dispatch(&c, &quiet(), &CliSubcommand::Diff { file: None, viewer: None }, &none),
        Ok(vec![Step::Say(Notice::Diffing)])
    );
    let edit = CliSubcommand::Edit { path: path(".vimrc"), editor: Some(String::from("vi")) };
    assert_eq!(dispatch(&c, &quiet(), &edit, &none), Ok(vec![Step::Say(Notice::Editing)]));
}

#[test]
fn generate_asks_for_the_completion_script() {
    let command = CliSubcommand::Generate { generator: Shell::Fish };
    assert_eq!(
        dispatch(&config(), &quiet(), &command, &Observed::Missing),
        Ok(vec![Step::PrintCompletions { shell: Shell::Fish }])
    );
}

#[test]
fn a_command_line_holds_options_and_command() {
    let cli = Cli { opts: CliOpts { verbose: true }, command: CliSubcommand::List };
    assert!(cli.opts.verbose);
    assert_eq!(cli.command, CliSubcommand::List);
}
