//! What holds of the plans, stated over the model of the file system.

use crate::cli::{add_plan_spec, plan_spec, remove_plan_spec, CliSubcommand, Observed};
use crate::copier::{copy_plan, tree_wf, Entry};
use crate::lifecycle::init_plan_spec;
use crate::model::{
    apart, apply_step, has_file, is_dir, is_file, lemma_copy_copied, lemma_copy_frame,
    lemma_copy_makes_above, lemma_copy_settles, lemma_run_concat, lemma_run_one, run, same_at,
    Node,
};
use crate::path::PathView;
use crate::resolve::{
    dest_spec, full_path_spec, law_resolve, relative_dest_spec, repo_dir_name, ConfigView,
};
use crate::steps::{FileOpView, NoticeView, StepView};
use vstd::prelude::*;

verus! {

/// What was found at `path` is what the file system holds there.
pub open spec fn observes(fs: Map<PathView, Node>, path: PathView, found: Observed) -> bool {
    match found {
        Observed::Missing => !fs.dom().contains(path),
        Observed::File => is_file(fs, path),
        Observed::Dir { .. } => is_dir(fs, path),
    }
}

/// Running a plan with one more step is running the plan, then taking the
/// step.
pub proof fn lemma_run_push(fs: Map<PathView, Node>, steps: Seq<StepView>, step: StepView)
    ensures
        run(fs, steps.push(step)) == apply_step(run(fs, steps), step),
{
    assert(steps.push(step).drop_last() =~= steps);
}

/// After a tree was copied, every file of the tree that the file system held
/// below `source` has the same bytes at the same place below `destination`,
/// and what lies apart from `destination` is as it was. `source` and
/// `destination` have to be apart.
pub proof fn law_copy_tree(
    source: PathView,
    destination: PathView,
    entries: Seq<Entry>,
    verbose: bool,
    fs: Map<PathView, Node>,
)
    requires
        tree_wf(entries),
        apart(source, destination),
    ensures
        ({
            let after = run(fs, copy_plan(source, destination, entries, verbose));
            &&& is_dir(after, destination)
            &&& forall|rel: Seq<Seq<char>>| #[trigger]
                has_file(entries, rel) && is_file(fs, source.below(rel)) ==> is_file(
                    after,
                    destination.below(rel),
                ) && after[destination.below(rel)] == fs[source.below(rel)]
            &&& forall|q: PathView| #[trigger] apart(q, destination) ==> same_at(after, fs, q)
        }),
{
    let after = run(fs, copy_plan(source, destination, entries, verbose));
    assert(destination.parts.is_prefix_of(destination.parts));
    lemma_copy_makes_above(source, destination, entries, verbose, fs, destination);
    assert forall|rel: Seq<Seq<char>>| #[trigger]
        has_file(entries, rel) && is_file(fs, source.below(rel)) implies is_file(
        after,
        destination.below(rel),
    ) && after[destination.below(rel)] == fs[source.below(rel)] by {
        lemma_copy_copied(source, destination, entries, verbose, fs, rel);
    }
    assert forall|q: PathView| #[trigger] apart(q, destination) implies same_at(after, fs, q) by {
        lemma_copy_frame(source, destination, entries, verbose, fs, q);
    }
}

/// Copying a tree twice gives what copying it once gives. `source` and
/// `destination` have to be apart.
pub proof fn law_copy_idempotent(
    source: PathView,
    destination: PathView,
    entries: Seq<Entry>,
    verbose: bool,
    fs: Map<PathView, Node>,
)
    requires
        tree_wf(entries),
        apart(source, destination),
    ensures
        run(
            run(fs, copy_plan(source, destination, entries, verbose)),
            copy_plan(source, destination, entries, verbose),
        ) == run(fs, copy_plan(source, destination, entries, verbose)),
{
    lemma_copy_settles(source, destination, entries, verbose, fs);
}

/// The full path of a file outside the repository and its place in the
/// repository are apart, and so are the full path and the directory above
/// that place.
pub proof fn lemma_add_apart(config: ConfigView, file: PathView)
    requires
        config.wf(),
        file.wf(),
        dest_spec(config, file) is Ok,
        !full_path_spec(config, file).starts_with(config.dotfiles_dir),
    ensures
        apart(full_path_spec(config, file), dest_spec(config, file).unwrap()),
        dest_spec(config, file).unwrap().parent() is Some,
        !dest_spec(config, file).unwrap().parent().unwrap().starts_with(
            full_path_spec(config, file),
        ),
{
    law_resolve(config, file);
    let full = full_path_spec(config, file);
    let home = config.home_dir;
    let repo = config.dotfiles_dir;
    let dest = dest_spec(config, file).unwrap();
    let n = home.parts.len() as int;
    let rest = full.parts.skip(n);
    assert(repo.parts[n] == repo_dir_name());
    assert(dest.parts[n] == repo.parts[n]);
    assert(dest.parts.len() == n + 1 + rest.len());
    assert(full.parts.len() == n + rest.len());
    assert(home.parts =~= full.parts.subrange(0, n));
    if dest.starts_with(full) || dest.parent().unwrap().starts_with(full) {
        let upper = if dest.starts_with(full) {
            dest.parts
        } else {
            dest.parts.drop_last()
        };
        assert(full.parts =~= upper.subrange(0, full.parts.len() as int));
        assert(upper.subrange(0, full.parts.len() as int)[n] == upper[n]);
        assert(full.parts[n] == repo_dir_name());
        assert(repo.parts =~= full.parts.subrange(0, n + 1)) by {
            assert forall|k: int| 0 <= k < n + 1 implies repo.parts[k] == full.parts[k] by {
                if k < n {
                    assert(repo.parts[k] == home.parts[k]);
                    assert(full.parts.subrange(0, n)[k] == full.parts[k]);
                }
            }
        }
        assert(false);
    }
}

/// After `Add` of a file that the file system holds, the file's place in the
/// repository holds a file with the same bytes. The file has to lie outside
/// the repository directory.
pub proof fn law_add_file(config: ConfigView, verbose: bool, file: PathView, fs: Map<PathView, Node>)
    requires
        config.wf(),
        file.wf(),
        dest_spec(config, file) is Ok,
        !full_path_spec(config, file).starts_with(config.dotfiles_dir),
        is_file(fs, full_path_spec(config, file)),
    ensures
        add_plan_spec(config, verbose, file, Observed::File) is Ok,
        ({
            let after = run(fs, add_plan_spec(config, verbose, file, Observed::File).unwrap());
            let dest = dest_spec(config, file).unwrap();
            is_file(after, dest) && after[dest] == fs[full_path_spec(config, file)]
        }),
{
    lemma_add_apart(config, file);
    let full = full_path_spec(config, file);
    let relative = relative_dest_spec(config, file).unwrap();
    let dest = dest_spec(config, file).unwrap();
    let say = StepView::Say(NoticeView::Adding { full, relative });
    let make = StepView::File(FileOpView::CreateDirAll { path: dest.parent().unwrap() });
    let copy = StepView::File(FileOpView::CopyFile { from: full, to: dest });
    let plan = add_plan_spec(config, verbose, file, Observed::File).unwrap();
    assert(plan =~= seq![say].push(make).push(copy));
    lemma_run_push(fs, seq![say].push(make), copy);
    lemma_run_push(fs, seq![say], make);
    lemma_run_one(fs, say);
}

/// After `Add` of a directory, every file of its tree that the file system
/// held has the same bytes at the same place below the directory's place in
/// the repository. The directory has to lie outside the repository directory.
pub proof fn law_add_dir(
    config: ConfigView,
    verbose: bool,
    file: PathView,
    entries: Vec<Entry>,
    fs: Map<PathView, Node>,
)
    requires
        config.wf(),
        file.wf(),
        dest_spec(config, file) is Ok,
        !full_path_spec(config, file).starts_with(config.dotfiles_dir),
        tree_wf(entries@),
    ensures
        add_plan_spec(config, verbose, file, Observed::Dir { entries }) is Ok,
        ({
            let after = run(
                fs,
                add_plan_spec(config, verbose, file, Observed::Dir { entries }).unwrap(),
            );
            let full = full_path_spec(config, file);
            let dest = dest_spec(config, file).unwrap();
            &&& is_dir(after, dest)
            &&& forall|rel: Seq<Seq<char>>| #[trigger]
                has_file(entries@, rel) && is_file(fs, full.below(rel)) ==> is_file(
                    after,
                    dest.below(rel),
                ) && after[dest.below(rel)] == fs[full.below(rel)]
        }),
{
    lemma_add_apart(config, file);
    let full = full_path_spec(config, file);
    let relative = relative_dest_spec(config, file).unwrap();
    let dest = dest_spec(config, file).unwrap();
    let say = StepView::Say(NoticeView::Adding { full, relative });
    let copy = copy_plan(full, dest, entries@, verbose);
    lemma_run_concat(fs, seq![say], copy);
    lemma_run_one(fs, say);
    law_copy_tree(full, dest, entries@, verbose, fs);
}

/// After `Remove`, given that the place in the repository held what was
/// found there and that something was found, the place holds nothing; where
/// a directory was found, nothing is left below it either.
pub proof fn law_remove(config: ConfigView, file: PathView, found: Observed, fs: Map<PathView, Node>)
    requires
        dest_spec(config, file) is Ok,
        !(found is Missing),
    ensures
        remove_plan_spec(config, file, found) is Ok,
        ({
            let after = run(fs, remove_plan_spec(config, file, found).unwrap());
            let dest = dest_spec(config, file).unwrap();
            &&& !after.dom().contains(dest)
            &&& found is Dir ==> forall|q: PathView| #[trigger]
                q.starts_with(dest) ==> !after.dom().contains(q)
        }),
{
    let full = full_path_spec(config, file);
    let relative = relative_dest_spec(config, file).unwrap();
    let dest = dest_spec(config, file).unwrap();
    let say = StepView::Say(NoticeView::Removing { full, relative });
    let plan = remove_plan_spec(config, file, found).unwrap();
    lemma_run_one(fs, say);
    assert(dest.parts.is_prefix_of(dest.parts));
    match found {
        Observed::File => {
            let del = StepView::File(FileOpView::RemoveFile { path: dest });
            assert(plan =~= seq![say].push(del));
            lemma_run_push(fs, seq![say], del);
        },
        Observed::Dir { .. } => {
            let del = StepView::File(FileOpView::RemoveDirAll { path: dest });
            assert(plan =~= seq![say].push(del));
            lemma_run_push(fs, seq![say], del);
        },
        Observed::Missing => {},
    }
}

/// After `Add` of a file or a directory that is there, followed by `Remove`
/// of the same path, the place in the repository holds nothing. `Remove`
/// finds there what `Add` has left: a file after a file, a directory after a
/// directory. The path has to lie outside the repository directory.
pub proof fn law_add_then_remove(
    config: ConfigView,
    verbose: bool,
    file: PathView,
    source_found: Observed,
    repo_found: Observed,
    fs: Map<PathView, Node>,
)
    requires
        config.wf(),
        file.wf(),
        dest_spec(config, file) is Ok,
        !full_path_spec(config, file).starts_with(config.dotfiles_dir),
        match source_found {
            Observed::Missing => false,
            Observed::File => is_file(fs, full_path_spec(config, file)),
            Observed::Dir { entries } => tree_wf(entries@),
        },
        observes(
            run(fs, add_plan_spec(config, verbose, file, source_found).unwrap()),
            dest_spec(config, file).unwrap(),
            repo_found,
        ),
    ensures
        source_found is File ==> repo_found is File,
        source_found is Dir ==> repo_found is Dir,
        !run(
            run(fs, add_plan_spec(config, verbose, file, source_found).unwrap()),
            remove_plan_spec(config, file, repo_found).unwrap(),
        ).dom().contains(dest_spec(config, file).unwrap()),
{
    let added = run(fs, add_plan_spec(config, verbose, file, source_found).unwrap());
    match source_found {
        Observed::File => {
            law_add_file(config, verbose, file, fs);
        },
        Observed::Dir { entries } => {
            law_add_dir(config, verbose, file, entries, fs);
        },
        Observed::Missing => {},
    }
    law_remove(config, file, repo_found, added);
}

/// `Init` without a repository name and without `force`, where the
/// repository directory exists, only tells the user: the last thing said is
/// that the repository exists, and the file system is left as it is.
pub proof fn law_init_conflict(
    config: ConfigView,
    verbose: bool,
    found: Observed,
    is_url: bool,
    fs: Map<PathView, Node>,
)
    requires
        !(found is Missing),
    ensures
        ({
            let command = CliSubcommand::Init { repository: None, force: false };
            let plan = plan_spec(config, verbose, command, found, is_url);
            &&& plan is Ok
            &&& forall|k: int| 0 <= k < plan.unwrap().len() ==> plan.unwrap()[k] is Say
            &&& plan.unwrap().last() == StepView::Say(NoticeView::AlreadyExists)
            &&& run(fs, plan.unwrap()) == fs
        }),
{
    let at = config.dotfiles_dir;
    let say = StepView::Say(NoticeView::Creating { at });
    let conflict = StepView::Say(NoticeView::AlreadyExists);
    let plan = init_plan_spec(at, true, false);
    assert(plan =~= seq![say].push(conflict));
    lemma_run_push(fs, seq![say], conflict);
    lemma_run_one(fs, say);
}

/// `Init` without a repository name and with `force`, where the repository
/// directory exists, ends with making the repository in a directory that was
/// emptied first: before that last step the repository directory holds a
/// directory with nothing below it, and what lies apart from it is as it was.
pub proof fn law_init_force(
    config: ConfigView,
    verbose: bool,
    found: Observed,
    is_url: bool,
    fs: Map<PathView, Node>,
)
    requires
        !(found is Missing),
    ensures
        ({
            let command = CliSubcommand::Init { repository: None, force: true };
            let plan = plan_spec(config, verbose, command, found, is_url);
            let at = config.dotfiles_dir;
            let before = run(fs, plan.unwrap().drop_last());
            &&& plan is Ok
            &&& plan.unwrap().last() == StepView::InitRepository { at }
            &&& is_dir(before, at)
            &&& forall|q: PathView| #[trigger]
                q.is_strictly_under(at) ==> !before.dom().contains(q)
            &&& forall|q: PathView| #[trigger] apart(q, at) ==> same_at(before, fs, q)
        }),
{
    let at = config.dotfiles_dir;
    let say = StepView::Say(NoticeView::Creating { at });
    let over = StepView::Say(NoticeView::Overwriting);
    let del = StepView::File(FileOpView::RemoveDirAll { path: at });
    let make = StepView::File(FileOpView::CreateDirAll { path: at });
    let init = StepView::InitRepository { at };
    let plan = init_plan_spec(at, true, true);
    assert(plan =~= seq![say].push(over).push(del).push(make).push(init));
    assert(plan.drop_last() =~= seq![say].push(over).push(del).push(make));
    lemma_run_push(fs, seq![say].push(over).push(del), make);
    lemma_run_push(fs, seq![say].push(over), del);
    lemma_run_push(fs, seq![say], over);
    lemma_run_one(fs, say);
    assert(at.parts.is_prefix_of(at.parts));
    let before = run(fs, plan.drop_last());
    assert forall|q: PathView| #[trigger] q.is_strictly_under(at) implies !before.dom().contains(
        q,
    ) by {
        if at.starts_with(q) {
            assert(q.parts.len() <= at.parts.len());
        }
    }
}

} // verus!
