//! The commands, and the dispatcher that turns a command into steps.
//!
//! The dispatcher does not look at the file system. It first says what has to
//! be looked up for a command, then plans the steps from what was found.

use crate::copier::{copy_plan, copy_recursively, Entry};
use crate::lifecycle::{clone_plan, clone_plan_spec, init_plan, init_plan_spec};
use crate::path::{FilePath, PathView};
use crate::remote::{is_remote_url, normalize_with, normalized, pattern_search, REMOTE_PATTERN};
use crate::resolve::{
    dest_spec, full_path_spec, get_dest_path, get_full_path, get_relative_dest_path, law_resolve,
    relative_dest_spec, Config, ConfigView,
};
use crate::steps::{push_step, steps_view, FileOp, FileOpView, Notice, NoticeView, Step, StepView};
use vstd::prelude::*;

verus! {

/// The options that hold for every command.
#[derive(Debug, Clone, Copy, PartialEq, Eq, Structural)]
pub struct CliOpts {
    /// Announce each file that is copied.
    pub verbose: bool,
}

/// A command of the tool.
#[derive(Debug, PartialEq, Eq)]
#[allow(inconsistent_fields)]
pub enum CliSubcommand {
    /// Make the repository: a clone of `repository` where one is named, an
    /// empty repository else.
    Init { repository: Option<String>, force: bool },
    /// Take a file or a directory into the repository.
    Add { file: FilePath },
    /// Take a file or a directory out of the repository.
    Remove { file: FilePath },
    /// Compare a file with its copy in the repository.
    Diff { file: Option<FilePath>, viewer: Option<String> },
    /// Edit a file of the repository.
    Edit { path: FilePath, editor: Option<String> },
    /// List what the repository holds.
    List,
    /// Go to the repository directory.
    Cd,
    /// Print the completion script for a shell.
    Generate { generator: clap_complete::Shell },
}

/// A parsed command line.
#[derive(Debug, PartialEq, Eq)]
pub struct Cli {
    pub opts: CliOpts,
    pub command: CliSubcommand,
}

/// What has to be looked up before a command can be planned.
#[derive(Debug, PartialEq, Eq)]
pub enum Question {
    /// Nothing.
    Nothing,
    /// Whether `path` is missing, a file or a directory.
    KindOf { path: FilePath },
    /// The same, and for a directory the listing of its tree.
    TreeOf { path: FilePath },
}

/// What a [`Question`] is.
pub enum QuestionView {
    Nothing,
    KindOf { path: PathView },
    TreeOf { path: PathView },
}

impl View for Question {
    type V = QuestionView;

    open spec fn view(&self) -> QuestionView {
        match self {
            Question::Nothing => QuestionView::Nothing,
            Question::KindOf { path } => QuestionView::KindOf { path: path@ },
            Question::TreeOf { path } => QuestionView::TreeOf { path: path@ },
        }
    }
}

/// What was found at the path of a [`Question`].
#[derive(Debug, PartialEq, Eq)]
pub enum Observed {
    /// Nothing is there.
    Missing,
    /// A file is there.
    File,
    /// A directory is there; `entries` lists its tree where that was asked.
    Dir { entries: Vec<Entry> },
}

/// Why a command could not be planned.
#[derive(Debug, Clone, Copy, PartialEq, Eq, Structural)]
pub enum DispatchError {
    /// The path is the home directory itself or lies outside it.
    OutsideHome,
    /// The pattern of full addresses was refused by the matcher.
    BadPattern,
}

/// What has to be looked up for `command`: for `Init` the repository
/// directory, for `Add` the tree at the file's full path, for `Remove` the
/// file's place in the repository.
pub open spec fn question_spec(config: ConfigView, command: CliSubcommand) -> Result<
    QuestionView,
    DispatchError,
> {
    match command {
        CliSubcommand::Init { .. } => Ok(QuestionView::KindOf { path: config.dotfiles_dir }),
        CliSubcommand::Add { file } => match dest_spec(config, file@) {
            Ok(_) => Ok(QuestionView::TreeOf { path: full_path_spec(config, file@) }),
            Err(_) => Err(DispatchError::OutsideHome),
        },
        CliSubcommand::Remove { file } => match dest_spec(config, file@) {
            Ok(dest) => Ok(QuestionView::KindOf { path: dest }),
            Err(_) => Err(DispatchError::OutsideHome),
        },
        _ => Ok(QuestionView::Nothing),
    }
}

/// The steps that add what was found at `full` to the repository at `dest`:
/// a file is copied after the directory above `dest` was made, a directory
/// is copied as a tree, and where nothing was found only that is said.
pub open spec fn add_steps(
    full: PathView,
    relative: PathView,
    dest: PathView,
    observed: Observed,
    verbose: bool,
) -> Seq<StepView> {
    let announce = seq![StepView::Say(NoticeView::Adding { full, relative })];
    match observed {
        Observed::File => announce + seq![
            StepView::File(FileOpView::CreateDirAll { path: dest.parent().unwrap() }),
            StepView::File(FileOpView::CopyFile { from: full, to: dest }),
        ],
        Observed::Dir { entries } => announce + copy_plan(full, dest, entries@, verbose),
        Observed::Missing => announce + seq![StepView::Say(NoticeView::CannotFind)],
    }
}

/// The steps that remove `dest` from the repository, given what was found
/// there: a file is deleted, a directory is deleted with all below it, and
/// where nothing was found it is said that the path is not tracked.
pub open spec fn remove_steps(
    full: PathView,
    relative: PathView,
    dest: PathView,
    observed: Observed,
) -> Seq<StepView> {
    let announce = StepView::Say(NoticeView::Removing { full, relative });
    match observed {
        Observed::File => seq![announce, StepView::File(FileOpView::RemoveFile { path: dest })],
        Observed::Dir { .. } => seq![
            announce,
            StepView::File(FileOpView::RemoveDirAll { path: dest }),
        ],
        Observed::Missing => seq![announce, StepView::Say(NoticeView::NotTracked)],
    }
}

/// The plan for `Add`.
pub open spec fn add_plan_spec(
    config: ConfigView,
    verbose: bool,
    file: PathView,
    observed: Observed,
) -> Result<Seq<StepView>, DispatchError> {
    match dest_spec(config, file) {
        Ok(dest) => Ok(
            add_steps(
                full_path_spec(config, file),
                relative_dest_spec(config, file).unwrap(),
                dest,
                observed,
                verbose,
            ),
        ),
        Err(_) => Err(DispatchError::OutsideHome),
    }
}

/// The plan for `Remove`.
pub open spec fn remove_plan_spec(config: ConfigView, file: PathView, observed: Observed) -> Result<
    Seq<StepView>,
    DispatchError,
> {
    match dest_spec(config, file) {
        Ok(dest) => Ok(
            remove_steps(
                full_path_spec(config, file),
                relative_dest_spec(config, file).unwrap(),
                dest,
                observed,
            ),
        ),
        Err(_) => Err(DispatchError::OutsideHome),
    }
}

/// The plan for `command`, given what was found for its question and, for an
/// `Init` that names a repository, whether the name is a full address.
pub open spec fn plan_spec(
    config: ConfigView,
    verbose: bool,
    command: CliSubcommand,
    observed: Observed,
    is_url: bool,
) -> Result<Seq<StepView>, DispatchError> {
    let exists = !(observed is Missing);
    match command {
        CliSubcommand::Init { repository: Some(name), force } => Ok(
            clone_plan_spec(normalized(name@, is_url), config.dotfiles_dir, exists, force),
        ),
        CliSubcommand::Init { repository: None, force } => Ok(
            init_plan_spec(config.dotfiles_dir, exists, force),
        ),
        CliSubcommand::Add { file } => add_plan_spec(config, verbose, file@, observed),
        CliSubcommand::Remove { file } => remove_plan_spec(config, file@, observed),
        CliSubcommand::Diff { .. } => Ok(seq![StepView::Say(NoticeView::Diffing)]),
        CliSubcommand::Edit { .. } => Ok(seq![StepView::Say(NoticeView::Editing)]),
        CliSubcommand::List => Ok(seq![StepView::Say(NoticeView::Listing)]),
        CliSubcommand::Cd => Ok(seq![StepView::Say(NoticeView::ChangingDirectory)]),
        CliSubcommand::Generate { generator } => Ok(
            seq![StepView::PrintCompletions { shell: generator }],
        ),
    }
}

/// A result of steps, seen through the views of the steps.
pub open spec fn plan_view(r: Result<Vec<Step>, DispatchError>) -> Result<
    Seq<StepView>,
    DispatchError,
> {
    match r {
        Ok(steps) => Ok(steps_view(steps@)),
        Err(e) => Err(e),
    }
}

/// A plan of the one step `step`.
fn single(step: Step) -> (steps: Vec<Step>)
    ensures
        steps_view(steps@) == seq![step@],
{
    let mut steps: Vec<Step> = Vec::new();
    proof {
        assert(steps_view(steps@) =~= Seq::<StepView>::empty());
    }
    push_step(&mut steps, step);
    proof {
        assert(steps_view(steps@) =~= seq![step@]);
    }
    steps
}

/// What has to be looked up before `command` can be planned.
pub fn question(config: &Config, command: &CliSubcommand) -> (r: Result<Question, DispatchError>)
    ensures
        match r {
            Ok(q) => question_spec(config@, *command) == Ok::<QuestionView, DispatchError>(q@),
            Err(e) => question_spec(config@, *command) == Err::<QuestionView, DispatchError>(e),
        },
{
    match command {
        CliSubcommand::Init { .. } => Ok(
            Question::KindOf { path: config.dotfiles_dir().duplicate() },
        ),
        CliSubcommand::Add { file } => match get_dest_path(config, file) {
            Ok(_) => Ok(Question::TreeOf { path: get_full_path(config, file) }),
            Err(_) => Err(DispatchError::OutsideHome),
        },
        CliSubcommand::Remove { file } => match get_dest_path(config, file) {
            Ok(dest) => Ok(Question::KindOf { path: dest }),
            Err(_) => Err(DispatchError::OutsideHome),
        },
        _ => Ok(Question::Nothing),
    }
}

/// The plan for adding `file`, given what was found at its full path.
pub fn add_plan(
    config: &Config,
    opts: &CliOpts,
    file: &FilePath,
    observed: &Observed,
) -> (r: Result<Vec<Step>, DispatchError>)
    ensures
        plan_view(r) == add_plan_spec(config@, opts.verbose, file@, *observed),
{
    proof {
        use_type_invariant(config);
        use_type_invariant(file);
        law_resolve(config@, file@);
    }
    let relative = match get_relative_dest_path(config, file) {
        Ok(relative) => relative,
        Err(_) => {
            return Err(DispatchError::OutsideHome);
        },
    };
    let full = get_full_path(config, file);
    let dest = config.dotfiles_dir().join(&relative);
    let ghost announce = seq![StepView::Say(NoticeView::Adding { full: full@, relative: relative@ })];
    let mut steps = single(
        Step::Say(Notice::Adding { full: full.duplicate(), relative: relative.duplicate() }),
    );
    match observed {
        Observed::File => {
            let above = dest.parent().unwrap();
            push_step(&mut steps, Step::File(FileOp::CreateDirAll { path: above }));
            push_step(&mut steps, Step::File(FileOp::CopyFile { from: full, to: dest }));
            proof {
                assert(steps_view(steps@) =~= add_steps(
                    full@,
                    relative@,
                    dest@,
                    *observed,
                    opts.verbose,
                ));
            }
        },
        Observed::Dir { entries } => {
            let mut copy = copy_recursively(&full, &dest, entries, opts.verbose);
            let ghost tail = steps_view(copy@);
            steps.append(&mut copy);
            proof {
                assert(steps_view(steps@) =~= announce + tail);
            }
        },
        Observed::Missing => {
            push_step(&mut steps, Step::Say(Notice::CannotFind));
            proof {
                assert(steps_view(steps@) =~= add_steps(
                    full@,
                    relative@,
                    dest@,
                    *observed,
                    opts.verbose,
                ));
            }
        },
    }
    Ok(steps)
}

/// The plan for removing `file`, given what was found at its place in the
/// repository.
pub fn remove_plan(
    config: &Config,
    file: &FilePath,
    observed: &Observed,
) -> (r: Result<Vec<Step>, DispatchError>)
    ensures
        plan_view(r) == remove_plan_spec(config@, file@, *observed),
{
    let relative = match get_relative_dest_path(config, file) {
        Ok(relative) => relative,
        Err(_) => {
            return Err(DispatchError::OutsideHome);
        },
    };
    let full = get_full_path(config, file);
    let dest = config.dotfiles_dir().join(&relative);
    let mut steps = single(Step::Say(Notice::Removing { full, relative }));
    match observed {
        Observed::File => {
            push_step(&mut steps, Step::File(FileOp::RemoveFile { path: dest }));
        },
        Observed::Dir { .. } => {
            push_step(&mut steps, Step::File(FileOp::RemoveDirAll { path: dest }));
        },
        Observed::Missing => {
            push_step(&mut steps, Step::Say(Notice::NotTracked));
        },
    }
    proof {
        assert(steps_view(steps@) =~= remove_plan_spec(config@, file@, *observed).unwrap());
    }
    Ok(steps)
}

/// The plan for `command`, given what was found for its question and, for an
/// `Init` that names a repository, whether the name is a full address.
pub fn plan(
    config: &Config,
    opts: &CliOpts,
    command: &CliSubcommand,
    observed: &Observed,
    is_url: bool,
) -> (r: Result<Vec<Step>, DispatchError>)
    ensures
        plan_view(r) == plan_spec(config@, opts.verbose, *command, *observed, is_url),
{
    let exists = match observed {
        Observed::Missing => false,
        _ => true,
    };
    match command {
        CliSubcommand::Init { repository: Some(name), force } => {
            let url = normalize_with(name.as_str(), is_url);
            Ok(clone_plan(url.as_str(), config.dotfiles_dir(), exists, *force))
        },
        CliSubcommand::Init { repository: None, force } => Ok(
            init_plan(config.dotfiles_dir(), exists, *force),
        ),
        CliSubcommand::Add { file } => add_plan(config, opts, file, observed),
        CliSubcommand::Remove { file } => remove_plan(config, file, observed),
        CliSubcommand::Diff { .. } => Ok(single(Step::Say(Notice::Diffing))),
        CliSubcommand::Edit { .. } => Ok(single(Step::Say(Notice::Editing))),
        CliSubcommand::List => Ok(single(Step::Say(Notice::Listing))),
        CliSubcommand::Cd => Ok(single(Step::Say(Notice::ChangingDirectory))),
        CliSubcommand::Generate { generator } => Ok(
            single(Step::PrintCompletions { shell: *generator }),
        ),
    }
}

/// The plan for `command`, given what was found for its question. For an
/// `Init` that names a repository, the matcher decides whether the name is a
/// full address; no other command asks it.
pub fn dispatch(
    config: &Config,
    opts: &CliOpts,
    command: &CliSubcommand,
    observed: &Observed,
) -> (r: Result<Vec<Step>, DispatchError>)
    ensures
        match *command {
            CliSubcommand::Init { repository: Some(name), .. } => match pattern_search(
                REMOTE_PATTERN@,
                name@,
            ) {
                Some(found) => plan_view(r) == plan_spec(
                    config@,
                    opts.verbose,
                    *command,
                    *observed,
                    found,
                ),
                None => r == Err::<Vec<Step>, DispatchError>(DispatchError::BadPattern),
            },
            _ => plan_view(r) == plan_spec(config@, opts.verbose, *command, *observed, false),
        },
{
    match command {
        CliSubcommand::Init { repository: Some(name), .. } => match is_remote_url(name.as_str()) {
            Ok(found) => plan(config, opts, command, observed, found),
            Err(_) => Err(DispatchError::BadPattern),
        },
        _ => plan(config, opts, command, observed, false),
    }
}

} // verus!
