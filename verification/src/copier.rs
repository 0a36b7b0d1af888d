//! The recursive copier: from the listing of a directory tree to the steps
//! that duplicate it below another directory.

use crate::path::{is_plain, is_plain_name, parse_spec, FilePath, PathView};
use crate::steps::{push_step, steps_view, FileOp, FileOpView, Notice, NoticeView, Step, StepView};
use vstd::prelude::*;

verus! {

/// One entry of a directory listing.
#[derive(Debug, PartialEq, Eq)]
pub enum Entry {
    /// A file, by its name in the directory.
    File { name: String },
    /// A directory, by its name and its own listing.
    Dir { name: String, entries: Vec<Entry> },
}

/// The name of an entry.
pub open spec fn entry_name(entry: Entry) -> Seq<char> {
    match entry {
        Entry::File { name } => name@,
        Entry::Dir { name, .. } => name@,
    }
}

/// An entry is well formed: its name is plain, and so is its listing.
pub open spec fn entry_wf(entry: Entry) -> bool
    decreases entry, 0nat,
{
    &&& is_plain(entry_name(entry))
    &&& match entry {
        Entry::File { .. } => true,
        Entry::Dir { entries, .. } => tree_wf(entries@),
    }
}

/// A listing is well formed: no name occurs twice in it, and every entry is
/// well formed.
pub open spec fn tree_wf(entries: Seq<Entry>) -> bool
    decreases entries, 1nat,
{
    &&& forall|i: int, j: int|
        0 <= i < j < entries.len() ==> entry_name(#[trigger] entries[i]) != entry_name(
            #[trigger] entries[j],
        )
    &&& forall|i: int| 0 <= i < entries.len() ==> entry_wf(#[trigger] entries[i])
}

/// The name of an entry.
fn name_of(entry: &Entry) -> (r: &String)
    ensures
        r@ == entry_name(*entry),
{
    match entry {
        Entry::File { name } => name,
        Entry::Dir { name, .. } => name,
    }
}

/// Whether an entry is well formed.
pub fn entry_is_well_formed(entry: &Entry) -> (r: bool)
    ensures
        r == entry_wf(*entry),
    decreases entry,
{
    if !is_plain_name(name_of(entry).as_str()) {
        return false;
    }
    match entry {
        Entry::File { .. } => true,
        Entry::Dir { entries, .. } => listing_is_well_formed(entries),
    }
}

/// Whether a listing is well formed: what the listing of a directory tree
/// always is, with one name for each entry of a directory.
pub fn listing_is_well_formed(entries: &Vec<Entry>) -> (r: bool)
    ensures
        r == tree_wf(entries@),
    decreases entries,
{
    let mut i: usize = 0;
    while i < entries.len()
        invariant
            i <= entries.len(),
            forall|a: int, b: int|
                0 <= a < b < i ==> entry_name(#[trigger] entries@[a]) != entry_name(
                    #[trigger] entries@[b],
                ),
            forall|a: int| 0 <= a < i ==> entry_wf(#[trigger] entries@[a]),
        decreases entries.len() - i,
    {
        if !entry_is_well_formed(&entries[i]) {
            return false;
        }
        let mut j: usize = 0;
        while j < i
            invariant
                j <= i < entries.len(),
                forall|a: int|
                    0 <= a < j ==> entry_name(#[trigger] entries@[a]) != entry_name(
                        entries@[i as int],
                    ),
            decreases i - j,
        {
            if *name_of(&entries[j]) == *name_of(&entries[i]) {
                return false;
            }
            j += 1;
        }
        i += 1;
    }
    true
}

/// The steps that copy one file: a notice first where `verbose` asks for it.
pub open spec fn file_plan(from: PathView, to: PathView, verbose: bool) -> Seq<StepView> {
    let copy = StepView::File(FileOpView::CopyFile { from, to });
    if verbose {
        seq![StepView::Say(NoticeView::Copying { from, to }), copy]
    } else {
        seq![copy]
    }
}

/// The steps for one entry of the directory `source`: a directory is copied
/// as a tree, a file is copied to the same name below `destination`.
pub open spec fn entry_plan(
    source: PathView,
    destination: PathView,
    entry: Entry,
    verbose: bool,
) -> Seq<StepView>
    decreases entry, 0nat,
{
    match entry {
        Entry::Dir { name, entries } => copy_plan(
            source.join(parse_spec(name@)),
            destination.join(parse_spec(name@)),
            entries@,
            verbose,
        ),
        Entry::File { name } => file_plan(
            source.join(parse_spec(name@)),
            destination.join(parse_spec(name@)),
            verbose,
        ),
    }
}

/// The steps for the entries of a listing, in the order of the listing.
pub open spec fn entries_plan(
    source: PathView,
    destination: PathView,
    entries: Seq<Entry>,
    verbose: bool,
) -> Seq<StepView>
    decreases entries, 0nat,
{
    if entries.len() == 0 {
        Seq::<StepView>::empty()
    } else {
        entries_plan(source, destination, entries.drop_last(), verbose) + entry_plan(
            source,
            destination,
            entries.last(),
            verbose,
        )
    }
}

/// The steps that copy the tree listed by `entries` from `source` to
/// `destination`: the destination directory is created with all that is
/// missing above it, then each entry is handled in turn.
pub open spec fn copy_plan(
    source: PathView,
    destination: PathView,
    entries: Seq<Entry>,
    verbose: bool,
) -> Seq<StepView>
    decreases entries, 1nat,
{
    seq![StepView::File(FileOpView::CreateDirAll { path: destination })] + entries_plan(
        source,
        destination,
        entries,
        verbose,
    )
}

/// Appends to `steps` the steps that copy the tree listed by `entries`.
fn copy_into(
    source: &FilePath,
    destination: &FilePath,
    entries: &Vec<Entry>,
    verbose: bool,
    steps: &mut Vec<Step>,
)
    ensures
        steps_view(final(steps)@) == steps_view(old(steps)@) + copy_plan(
            source@,
            destination@,
            entries@,
            verbose,
        ),
    decreases entries,
{
    let ghost before = steps_view(steps@);
    push_step(steps, Step::File(FileOp::CreateDirAll { path: destination.duplicate() }));
    let ghost head = steps_view(steps@);
    let mut i: usize = 0;
    proof {
        assert(entries@.take(0) =~= Seq::<Entry>::empty());
        assert(head =~= head + entries_plan(source@, destination@, entries@.take(0), verbose));
    }
    while i < entries.len()
        invariant
            i <= entries.len(),
            steps_view(steps@) == head + entries_plan(
                source@,
                destination@,
                entries@.take(i as int),
                verbose,
            ),
        decreases entries.len() - i,
    {
        let ghost done = entries_plan(source@, destination@, entries@.take(i as int), verbose);
        proof {
            assert(entries@.take(i + 1).drop_last() =~= entries@.take(i as int));
            assert(entries@.take(i + 1).last() == entries@[i as int]);
        }
        match &entries[i] {
            Entry::Dir { name, entries: inner } => {
                let from = source.child(name.as_str());
                let to = destination.child(name.as_str());
                copy_into(&from, &to, inner, verbose, steps);
                proof {
                    assert(steps_view(steps@) =~= head + (done + entry_plan(
                        source@,
                        destination@,
                        entries@[i as int],
                        verbose,
                    )));
                }
            },
            Entry::File { name } => {
                let from = source.child(name.as_str());
                let to = destination.child(name.as_str());
                if verbose {
                    push_step(
                        steps,
                        Step::Say(Notice::Copying { from: from.duplicate(), to: to.duplicate() }),
                    );
                }
                push_step(steps, Step::File(FileOp::CopyFile { from, to }));
                proof {
                    assert(steps_view(steps@) =~= head + (done + entry_plan(
                        source@,
                        destination@,
                        entries@[i as int],
                        verbose,
                    )));
                }
            },
        }
        i += 1;
    }
    proof {
        assert(entries@.take(entries.len() as int) =~= entries@);
        assert(head =~= before + seq![
            StepView::File(FileOpView::CreateDirAll { path: destination@ }),
        ]);
        assert(steps_view(steps@) =~= before + copy_plan(
            source@,
            destination@,
            entries@,
            verbose,
        ));
    }
}

/// The steps that copy the directory tree listed by `entries` from `source`
/// to `destination`, creating `destination` and what is missing above it.
/// With `verbose`, each copy of a file is announced first.
pub fn copy_recursively(
    source: &FilePath,
    destination: &FilePath,
    entries: &Vec<Entry>,
    verbose: bool,
) -> (steps: Vec<Step>)
    ensures
        steps_view(steps@) == copy_plan(source@, destination@, entries@, verbose),
{
    let mut steps: Vec<Step> = Vec::new();
    copy_into(source, destination, entries, verbose, &mut steps);
    proof {
        assert(steps_view(Seq::<Step>::empty()) =~= Seq::<StepView>::empty());
        assert(Seq::<StepView>::empty() + copy_plan(source@, destination@, entries@, verbose)
            =~= copy_plan(source@, destination@, entries@, verbose));
    }
    steps
}

} // verus!
