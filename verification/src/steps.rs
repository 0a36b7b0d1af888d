//! The steps that the library asks a front end to carry out.

use crate::path::{FilePath, PathView};
use vstd::prelude::*;

verus! {

/// The shell of the `clap_complete` crate, `clap_complete::Shell`, carried
/// from the command to the step as it is: nothing is said of what it holds.
#[verifier::external_type_specification]
#[verifier::external_body]
pub struct ExShell(clap_complete::Shell);

/// A change to the file system.
#[derive(Debug, PartialEq, Eq)]
pub enum FileOp {
    /// Create the directory `path` and every missing directory above it.
    CreateDirAll { path: FilePath },
    /// Copy the bytes of the file `from` to `to`, replacing what is there.
    CopyFile { from: FilePath, to: FilePath },
    /// Delete the file `path`.
    RemoveFile { path: FilePath },
    /// Delete the directory `path` with everything below it.
    RemoveDirAll { path: FilePath },
}

/// What a [`FileOp`] is.
pub enum FileOpView {
    CreateDirAll { path: PathView },
    CopyFile { from: PathView, to: PathView },
    RemoveFile { path: PathView },
    RemoveDirAll { path: PathView },
}

impl View for FileOp {
    type V = FileOpView;

    open spec fn view(&self) -> FileOpView {
        match self {
            FileOp::CreateDirAll { path } => FileOpView::CreateDirAll { path: path@ },
            FileOp::CopyFile { from, to } => FileOpView::CopyFile { from: from@, to: to@ },
            FileOp::RemoveFile { path } => FileOpView::RemoveFile { path: path@ },
            FileOp::RemoveDirAll { path } => FileOpView::RemoveDirAll { path: path@ },
        }
    }
}

/// Something to tell the user.
#[derive(Debug, PartialEq, Eq)]
pub enum Notice {
    /// The remote repository `url` is being cloned to `into`.
    Cloning { url: String, into: FilePath },
    /// No remote repository was named: a new one is made at `at`.
    Creating { at: FilePath },
    /// The repository exists already and was left as it is.
    AlreadyExists,
    /// The existing repository is being replaced.
    Overwriting,
    /// `full` is being added to the repository as `relative`.
    Adding { full: FilePath, relative: FilePath },
    /// The file `from` is being copied to `to`.
    Copying { from: FilePath, to: FilePath },
    /// There is neither a file nor a directory at the path given.
    CannotFind,
    /// `full` is being removed from the repository as `relative`.
    Removing { full: FilePath, relative: FilePath },
    /// The repository holds nothing at the place of the path given.
    NotTracked,
    /// A file of the repository is to be edited; nothing is done for it yet.
    Editing,
    /// A file is to be compared with its copy; nothing is done for it yet.
    Diffing,
    /// The repository is to be listed; nothing is done for it yet.
    Listing,
    /// The repository directory is to be entered; nothing is done for it yet.
    ChangingDirectory,
}

/// What a [`Notice`] is.
pub enum NoticeView {
    Cloning { url: Seq<char>, into: PathView },
    Creating { at: PathView },
    AlreadyExists,
    Overwriting,
    Adding { full: PathView, relative: PathView },
    Copying { from: PathView, to: PathView },
    CannotFind,
    Removing { full: PathView, relative: PathView },
    NotTracked,
    Editing,
    Diffing,
    Listing,
    ChangingDirectory,
}

impl View for Notice {
    type V = NoticeView;

    open spec fn view(&self) -> NoticeView {
        match self {
            Notice::Cloning { url, into } => NoticeView::Cloning { url: url@, into: into@ },
            Notice::Creating { at } => NoticeView::Creating { at: at@ },
            Notice::AlreadyExists => NoticeView::AlreadyExists,
            Notice::Overwriting => NoticeView::Overwriting,
            Notice::Adding { full, relative } => NoticeView::Adding {
                full: full@,
                relative: relative@,
            },
            Notice::Copying { from, to } => NoticeView::Copying { from: from@, to: to@ },
            Notice::CannotFind => NoticeView::CannotFind,
            Notice::Removing { full, relative } => NoticeView::Removing {
                full: full@,
                relative: relative@,
            },
            Notice::NotTracked => NoticeView::NotTracked,
            Notice::Editing => NoticeView::Editing,
            Notice::Diffing => NoticeView::Diffing,
            Notice::Listing => NoticeView::Listing,
            Notice::ChangingDirectory => NoticeView::ChangingDirectory,
        }
    }
}

/// One step of a plan.
#[derive(Debug, PartialEq, Eq)]
pub enum Step {
    /// Tell the user.
    Say(Notice),
    /// Change the file system.
    File(FileOp),
    /// Clone the remote repository `url` into the directory `into`.
    CloneRepository { url: String, into: FilePath },
    /// Make an empty repository in the directory `at`.
    InitRepository { at: FilePath },
    /// Print the completion script for `shell`.
    PrintCompletions { shell: clap_complete::Shell },
}

/// What a [`Step`] is.
pub enum StepView {
    Say(NoticeView),
    File(FileOpView),
    CloneRepository { url: Seq<char>, into: PathView },
    InitRepository { at: PathView },
    PrintCompletions { shell: clap_complete::Shell },
}

impl View for Step {
    type V = StepView;

    open spec fn view(&self) -> StepView {
        match self {
            Step::Say(notice) => StepView::Say(notice@),
            Step::File(op) => StepView::File(op@),
            Step::CloneRepository { url, into } => StepView::CloneRepository {
                url: url@,
                into: into@,
            },
            Step::InitRepository { at } => StepView::InitRepository { at: at@ },
            Step::PrintCompletions { shell } => StepView::PrintCompletions { shell: *shell },
        }
    }
}

/// What a plan is: the views of its steps, in order.
pub open spec fn steps_view(steps: Seq<Step>) -> Seq<StepView> {
    steps.map_values(|s: Step| s@)
}

/// Puts `step` at the end of `steps`.
pub fn push_step(steps: &mut Vec<Step>, step: Step)
    ensures
        steps_view(final(steps)@) == steps_view(old(steps)@).push(step@),
{
    steps.push(step);
    assert(steps_view(steps@) =~= steps_view(old(steps)@).push(step@));
}

} // verus!
