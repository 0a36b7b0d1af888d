//! The life of the repository directory: cloning a remote repository into
//! it, or making an empty one, with one policy for a directory that exists.

use crate::path::{FilePath, PathView};
use crate::steps::{push_step, steps_view, FileOp, FileOpView, Notice, NoticeView, Step, StepView};
use vstd::prelude::*;
use vstd::string::*;

verus! {

/// The steps that clone `url` into `destination`. An existing destination is
/// a conflict unless `force` is given; with `force` it is removed first.
pub open spec fn clone_plan_spec(
    url: Seq<char>,
    destination: PathView,
    exists: bool,
    force: bool,
) -> Seq<StepView> {
    let announce = StepView::Say(NoticeView::Cloning { url, into: destination });
    let fetch = StepView::CloneRepository { url, into: destination };
    if exists && !force {
        seq![announce, StepView::Say(NoticeView::AlreadyExists)]
    } else if exists {
        seq![
            announce,
            StepView::Say(NoticeView::Overwriting),
            StepView::File(FileOpView::RemoveDirAll { path: destination }),
            fetch,
        ]
    } else {
        seq![announce, fetch]
    }
}

/// The steps that make an empty repository at `destination`. An existing
/// destination is a conflict unless `force` is given; with `force` it is
/// removed first.
pub open spec fn init_plan_spec(destination: PathView, exists: bool, force: bool) -> Seq<
    StepView,
> {
    let announce = StepView::Say(NoticeView::Creating { at: destination });
    let make = StepView::File(FileOpView::CreateDirAll { path: destination });
    let init = StepView::InitRepository { at: destination };
    if exists && !force {
        seq![announce, StepView::Say(NoticeView::AlreadyExists)]
    } else if exists {
        seq![
            announce,
            StepView::Say(NoticeView::Overwriting),
            StepView::File(FileOpView::RemoveDirAll { path: destination }),
            make,
            init,
        ]
    } else {
        seq![announce, make, init]
    }
}

/// The steps that clone the remote repository `url` into `destination`,
/// given whether `destination` exists.
pub fn clone_plan(url: &str, destination: &FilePath, exists: bool, force: bool) -> (steps: Vec<
    Step,
>)
    ensures
        steps_view(steps@) == clone_plan_spec(url@, destination@, exists, force),
{
    let mut steps: Vec<Step> = Vec::new();
    proof {
        assert(steps_view(steps@) =~= Seq::<StepView>::empty());
    }
    push_step(
        &mut steps,
        Step::Say(Notice::Cloning { url: String::from_str(url), into: destination.duplicate() }),
    );
    if exists && !force {
        push_step(&mut steps, Step::Say(Notice::AlreadyExists));
    } else {
        if exists {
            push_step(&mut steps, Step::Say(Notice::Overwriting));
            push_step(&mut steps, Step::File(FileOp::RemoveDirAll { path: destination.duplicate() }));
        }
        push_step(
            &mut steps,
            Step::CloneRepository { url: String::from_str(url), into: destination.duplicate() },
        );
    }
    proof {
        assert(steps_view(steps@) =~= clone_plan_spec(url@, destination@, exists, force));
    }
    steps
}

/// The steps that make an empty repository at `destination`, given whether
/// `destination` exists.
pub fn init_plan(destination: &FilePath, exists: bool, force: bool) -> (steps: Vec<Step>)
    ensures
        steps_view(steps@) == init_plan_spec(destination@, exists, force),
{
    let mut steps: Vec<Step> = Vec::new();
    proof {
        assert(steps_view(steps@) =~= Seq::<StepView>::empty());
    }
    push_step(&mut steps, Step::Say(Notice::Creating { at: destination.duplicate() }));
    if exists && !force {
        push_step(&mut steps, Step::Say(Notice::AlreadyExists));
    } else {
        if exists {
            push_step(&mut steps, Step::Say(Notice::Overwriting));
            push_step(&mut steps, Step::File(FileOp::RemoveDirAll { path: destination.duplicate() }));
        }
        push_step(&mut steps, Step::File(FileOp::CreateDirAll { path: destination.duplicate() }));
        push_step(&mut steps, Step::InitRepository { at: destination.duplicate() });
    }
    proof {
        assert(steps_view(steps@) =~= init_plan_spec(destination@, exists, force));
    }
    steps
}

} // verus!
