//! What the steps of a plan do to a file system, as far as they succeed.
//!
//! The model follows the file operations of a plan: which paths exist, which
//! of them are directories, and the bytes of each file. What the version
//! control system writes is outside it.

use crate::copier::{
    copy_plan, entries_plan, entry_name, entry_plan, entry_wf, file_plan, tree_wf, Entry,
};
use crate::path::{is_plain, lemma_extend_plain, lemma_parse_plain, parse_spec, PathView};
use crate::steps::{FileOpView, NoticeView, StepView};
use vstd::prelude::*;

verus! {

/// What stands at a path.
pub enum Node {
    /// A file with its bytes.
    File(Seq<u8>),
    /// A directory.
    Dir,
}

/// A file stands at `path`.
pub open spec fn is_file(fs: Map<PathView, Node>, path: PathView) -> bool {
    fs.dom().contains(path) && fs[path] is File
}

/// A directory stands at `path`.
pub open spec fn is_dir(fs: Map<PathView, Node>, path: PathView) -> bool {
    fs.dom().contains(path) && fs[path] is Dir
}

/// Two file systems hold the same at `path`.
pub open spec fn same_at(a: Map<PathView, Node>, b: Map<PathView, Node>, path: PathView) -> bool {
    &&& a.dom().contains(path) == b.dom().contains(path)
    &&& a.dom().contains(path) ==> a[path] == b[path]
}

/// The file system after a file operation that succeeded. A copy from a path
/// that holds no file changes nothing.
pub open spec fn apply_op(fs: Map<PathView, Node>, op: FileOpView) -> Map<PathView, Node> {
    match op {
        FileOpView::CreateDirAll { path } => Map::new(
            |q: PathView| fs.dom().contains(q) || path.starts_with(q),
            |q: PathView|
                if path.starts_with(q) {
                    Node::Dir
                } else {
                    fs[q]
                },
        ),
        FileOpView::CopyFile { from, to } => if is_file(fs, from) {
            fs.insert(to, fs[from])
        } else {
            fs
        },
        FileOpView::RemoveFile { path } => fs.remove(path),
        FileOpView::RemoveDirAll { path } => Map::new(
            |q: PathView| fs.dom().contains(q) && !q.starts_with(path),
            |q: PathView| fs[q],
        ),
    }
}

/// The file system after one step: only file operations change it.
pub open spec fn apply_step(fs: Map<PathView, Node>, step: StepView) -> Map<PathView, Node> {
    match step {
        StepView::File(op) => apply_op(fs, op),
        _ => fs,
    }
}

/// The file system after the steps of a plan, taken in order.
pub open spec fn run(fs: Map<PathView, Node>, steps: Seq<StepView>) -> Map<PathView, Node>
    decreases steps.len(),
{
    if steps.len() == 0 {
        fs
    } else {
        apply_step(run(fs, steps.drop_last()), steps.last())
    }
}

/// `rel` leads from the directory of `entry` to a file of its tree.
pub open spec fn entry_has_file(entry: Entry, rel: Seq<Seq<char>>) -> bool
    decreases entry, 0nat,
{
    match entry {
        Entry::File { name } => rel == seq![name@],
        Entry::Dir { name, entries } => rel.len() > 0 && rel[0] == name@ && has_file(
            entries@,
            rel.skip(1),
        ),
    }
}

/// `rel` leads from the listed directory to a file of the tree.
pub open spec fn has_file(entries: Seq<Entry>, rel: Seq<Seq<char>>) -> bool
    decreases entries, 0nat,
{
    entries.len() > 0 && (has_file(entries.drop_last(), rel) || entry_has_file(
        entries.last(),
        rel,
    ))
}

/// Neither path is the other or lies below it.
pub open spec fn apart(a: PathView, b: PathView) -> bool {
    !a.starts_with(b) && !b.starts_with(a)
}

/// `q` is none of the entries' places below `destination`, nor below one.
pub open spec fn avoids(q: PathView, destination: PathView, entries: Seq<Entry>) -> bool {
    forall|i: int|
        0 <= i < entries.len() ==> !q.starts_with(
            destination.child(entry_name(#[trigger] entries[i])),
        )
}

/// Running two plans one after the other is running their concatenation.
pub proof fn lemma_run_concat(fs: Map<PathView, Node>, a: Seq<StepView>, b: Seq<StepView>)
    ensures
        run(fs, a + b) == run(run(fs, a), b),
    decreases b.len(),
{
    if b.len() == 0 {
        assert(a + b =~= a);
    } else {
        lemma_run_concat(fs, a, b.drop_last());
        assert((a + b).drop_last() =~= a + b.drop_last());
        assert((a + b).last() == b.last());
    }
}

/// Running a plan of one step is taking the step.
pub proof fn lemma_run_one(fs: Map<PathView, Node>, step: StepView)
    ensures
        run(fs, seq![step]) == apply_step(fs, step),
{
    let s = seq![step];
    assert(s.drop_last() =~= Seq::<StepView>::empty());
    assert(run(fs, s.drop_last()) == fs);
}

/// A step by a plain name leads to the child of that name.
pub proof fn lemma_step_plain(p: PathView, name: Seq<char>)
    requires
        is_plain(name),
    ensures
        p.join(parse_spec(name)) == p.child(name),
{
    lemma_parse_plain(name);
    lemma_extend_plain(p.absolute, p.parts, seq![name]);
    assert(p.parts + seq![name] =~= p.parts.push(name));
}

/// A path that is no child's place and lies below none, and is not above
/// the child either, unless above the parent.
proof fn lemma_above_child(q: PathView, destination: PathView, name: Seq<char>)
    requires
        !q.starts_with(destination.child(name)),
        destination.child(name).starts_with(q),
    ensures
        destination.starts_with(q),
{
    let c = destination.child(name);
    assert(q.parts.len() <= c.parts.len());
    if q.parts.len() == c.parts.len() {
        assert(q.parts =~= c.parts);
        assert(c.parts.is_prefix_of(q.parts));
        assert(false);
    }
    assert(q.parts =~= destination.parts.subrange(0, q.parts.len() as int));
}

/// The steps for one file leave every other path as it is.
pub proof fn lemma_file_frame(
    from: PathView,
    to: PathView,
    verbose: bool,
    fs: Map<PathView, Node>,
    q: PathView,
)
    requires
        q != to,
    ensures
        same_at(run(fs, file_plan(from, to, verbose)), fs, q),
{
    let copy = StepView::File(FileOpView::CopyFile { from, to });
    if verbose {
        let say = StepView::Say(NoticeView::Copying { from, to });
        assert(file_plan(from, to, verbose) =~= seq![say] + seq![copy]);
        lemma_run_concat(fs, seq![say], seq![copy]);
        lemma_run_one(fs, say);
        lemma_run_one(fs, copy);
    } else {
        lemma_run_one(fs, copy);
    }
}

/// The steps for one entry leave a path as it is, where the path is not the
/// entry's place below `destination` and lies not below it, and where it
/// holds a directory already if it lies above `destination`.
pub proof fn lemma_entry_frame(
    source: PathView,
    destination: PathView,
    entry: Entry,
    verbose: bool,
    fs: Map<PathView, Node>,
    q: PathView,
)
    requires
        entry_wf(entry),
        !q.starts_with(destination.child(entry_name(entry))),
        destination.starts_with(q) ==> is_dir(fs, q),
    ensures
        same_at(run(fs, entry_plan(source, destination, entry, verbose)), fs, q),
    decreases entry, 0nat,
{
    let name = entry_name(entry);
    lemma_step_plain(source, name);
    lemma_step_plain(destination, name);
    let to = destination.child(name);
    match entry {
        Entry::File { .. } => {
            assert(to.parts.is_prefix_of(to.parts));
            lemma_file_frame(source.child(name), to, verbose, fs, q);
        },
        Entry::Dir { entries, .. } => {
            if to.starts_with(q) {
                lemma_above_child(q, destination, name);
            }
            lemma_copy_frame(source.child(name), to, entries@, verbose, fs, q);
        },
    }
}

/// The steps for a listing leave a path as it is, where the path is no
/// entry's place below `destination` and lies below none, and where it holds
/// a directory already if it is `destination` or lies above it.
pub proof fn lemma_entries_frame(
    source: PathView,
    destination: PathView,
    entries: Seq<Entry>,
    verbose: bool,
    fs: Map<PathView, Node>,
    q: PathView,
)
    requires
        tree_wf(entries),
        avoids(q, destination, entries),
        destination.starts_with(q) ==> is_dir(fs, q),
    ensures
        same_at(run(fs, entries_plan(source, destination, entries, verbose)), fs, q),
    decreases entries, 0nat,
{
    if entries.len() > 0 {
        let init = entries.drop_last();
        let last = entries.last();
        lemma_tree_wf_init(entries);
        assert forall|i: int| 0 <= i < init.len() implies !q.starts_with(
            destination.child(entry_name(#[trigger] init[i])),
        ) by {
            assert(init[i] == entries[i]);
        }
        lemma_entries_frame(source, destination, init, verbose, fs, q);
        let fs1 = run(fs, entries_plan(source, destination, init, verbose));
        lemma_run_concat(
            fs,
            entries_plan(source, destination, init, verbose),
            entry_plan(source, destination, last, verbose),
        );
        lemma_entry_frame(source, destination, last, verbose, fs1, q);
    }
}

/// The steps that copy a tree leave a path as it is, where the path is not
/// `destination` and lies not below it, and where it holds a directory
/// already if it lies above `destination`.
pub proof fn lemma_copy_frame(
    source: PathView,
    destination: PathView,
    entries: Seq<Entry>,
    verbose: bool,
    fs: Map<PathView, Node>,
    q: PathView,
)
    requires
        tree_wf(entries),
        !q.starts_with(destination),
        destination.starts_with(q) ==> is_dir(fs, q),
    ensures
        same_at(run(fs, copy_plan(source, destination, entries, verbose)), fs, q),
    decreases entries, 1nat,
{
    let make = StepView::File(FileOpView::CreateDirAll { path: destination });
    let rest = entries_plan(source, destination, entries, verbose);
    lemma_run_concat(fs, seq![make], rest);
    lemma_run_one(fs, make);
    let fs0 = run(fs, seq![make]);
    assert(same_at(fs0, fs, q));
    assert forall|i: int| 0 <= i < entries.len() implies !q.starts_with(
        destination.child(entry_name(#[trigger] entries[i])),
    ) by {
        if q.starts_with(destination.child(entry_name(entries[i]))) {
            lemma_below_child(q, destination, entry_name(entries[i]));
        }
    }
    lemma_entries_frame(source, destination, entries, verbose, fs0, q);
}

/// What lies below a child lies below the parent.
pub proof fn lemma_below_child(q: PathView, destination: PathView, name: Seq<char>)
    requires
        q.starts_with(destination.child(name)),
    ensures
        q.is_strictly_under(destination),
        q.parts[destination.parts.len() as int] == name,
{
    let c = destination.child(name);
    let n = destination.parts.len() as int;
    assert(c.parts =~= q.parts.subrange(0, n + 1));
    assert(destination.parts =~= q.parts.subrange(0, n)) by {
        assert forall|k: int| 0 <= k < n implies destination.parts[k] == q.parts[k] by {
            assert(c.parts[k] == destination.parts[k]);
            assert(q.parts.subrange(0, n + 1)[k] == q.parts[k]);
        }
    }
    assert(c.parts[n] == name);
    assert(q.parts.subrange(0, n + 1)[n] == q.parts[n]);
}

/// A well-formed listing without its last entry is well formed, and so is
/// its last entry.
pub proof fn lemma_tree_wf_init(entries: Seq<Entry>)
    requires
        tree_wf(entries),
        entries.len() > 0,
    ensures
        tree_wf(entries.drop_last()),
        entry_wf(entries.last()),
{
    let init = entries.drop_last();
    assert forall|i: int, j: int| 0 <= i < j < init.len() implies entry_name(
        #[trigger] init[i],
    ) != entry_name(#[trigger] init[j]) by {
        assert(init[i] == entries[i]);
        assert(init[j] == entries[j]);
    }
    assert forall|i: int| 0 <= i < init.len() implies entry_wf(#[trigger] init[i]) by {
        assert(init[i] == entries[i]);
    }
}

/// The path to a file of a listing starts with the name of an entry.
pub proof fn lemma_has_file_head(entries: Seq<Entry>, rel: Seq<Seq<char>>)
    requires
        has_file(entries, rel),
    ensures
        rel.len() > 0,
        exists|i: int| 0 <= i < entries.len() && entry_name(#[trigger] entries[i]) == rel[0],
    decreases entries.len(),
{
    if entry_has_file(entries.last(), rel) {
        assert(entry_name(entries[entries.len() - 1]) == rel[0]);
    } else {
        lemma_has_file_head(entries.drop_last(), rel);
        let i = choose|i: int|
            0 <= i < entries.drop_last().len() && entry_name(#[trigger] entries.drop_last()[i])
                == rel[0];
        assert(entries.drop_last()[i] == entries[i]);
    }
}

/// What lies at or below one of two paths that are apart is apart from the
/// other path.
pub proof fn lemma_apart_below(source: PathView, destination: PathView, rel: Seq<Seq<char>>)
    requires
        apart(source, destination),
    ensures
        apart(source.below(rel), destination),
{
    let q = source.below(rel);
    let s = source.parts;
    let d = destination.parts;
    if destination.starts_with(q) {
        assert(s =~= d.subrange(0, s.len() as int)) by {
            assert forall|k: int| 0 <= k < s.len() implies s[k] == d[k] by {
                assert(q.parts[k] == s[k]);
                assert(d.subrange(0, q.parts.len() as int)[k] == d[k]);
            }
        }
        assert(false);
    }
    if q.starts_with(destination) {
        if d.len() <= s.len() {
            assert(d =~= s.subrange(0, d.len() as int)) by {
                assert forall|k: int| 0 <= k < d.len() implies d[k] == s[k] by {
                    assert(q.parts.subrange(0, d.len() as int)[k] == q.parts[k]);
                    assert(q.parts[k] == s[k]);
                }
            }
        } else {
            assert(s =~= d.subrange(0, s.len() as int)) by {
                assert forall|k: int| 0 <= k < s.len() implies s[k] == d[k] by {
                    assert(q.parts.subrange(0, d.len() as int)[k] == q.parts[k]);
                    assert(q.parts[k] == s[k]);
                }
            }
        }
        assert(false);
    }
}

/// The children of one name of two paths that are apart are apart.
pub proof fn lemma_apart_child(source: PathView, destination: PathView, name: Seq<char>)
    requires
        apart(source, destination),
    ensures
        apart(source.child(name), destination.child(name)),
{
    let a = source.child(name);
    let b = destination.child(name);
    let s = source.parts;
    let d = destination.parts;
    if a.starts_with(b) {
        // b is a prefix of a
        assert(d =~= s.subrange(0, d.len() as int)) by {
            assert forall|k: int| 0 <= k < d.len() implies d[k] == s[k] by {
                assert(b.parts[k] == d[k]);
                assert(a.parts.subrange(0, b.parts.len() as int)[k] == a.parts[k]);
            }
        }
        assert(false);
    }
    if b.starts_with(a) {
        assert(s =~= d.subrange(0, s.len() as int)) by {
            assert forall|k: int| 0 <= k < s.len() implies s[k] == d[k] by {
                assert(a.parts[k] == s[k]);
                assert(b.parts.subrange(0, a.parts.len() as int)[k] == b.parts[k]);
            }
        }
        assert(false);
    }
}

/// After the steps for one file, the destination holds the bytes of the
/// source.
pub proof fn lemma_file_copied(
    from: PathView,
    to: PathView,
    verbose: bool,
    fs: Map<PathView, Node>,
)
    requires
        is_file(fs, from),
    ensures
        run(fs, file_plan(from, to, verbose)).dom().contains(to),
        run(fs, file_plan(from, to, verbose))[to] == fs[from],
{
    let copy = StepView::File(FileOpView::CopyFile { from, to });
    if verbose {
        let say = StepView::Say(NoticeView::Copying { from, to });
        assert(file_plan(from, to, verbose) =~= seq![say] + seq![copy]);
        lemma_run_concat(fs, seq![say], seq![copy]);
        lemma_run_one(fs, say);
        lemma_run_one(fs, copy);
    } else {
        lemma_run_one(fs, copy);
    }
}

/// After the steps for one entry, each file of its tree that the file system
/// held has its bytes at the same place below `destination`.
pub proof fn lemma_entry_copied(
    source: PathView,
    destination: PathView,
    entry: Entry,
    verbose: bool,
    fs: Map<PathView, Node>,
    rel: Seq<Seq<char>>,
)
    requires
        entry_wf(entry),
        apart(source, destination),
        entry_has_file(entry, rel),
        is_file(fs, source.below(rel)),
    ensures
        run(fs, entry_plan(source, destination, entry, verbose)).dom().contains(
            destination.below(rel),
        ),
        run(fs, entry_plan(source, destination, entry, verbose))[destination.below(rel)]
            == fs[source.below(rel)],
    decreases entry, 0nat,
{
    let name = entry_name(entry);
    lemma_step_plain(source, name);
    lemma_step_plain(destination, name);
    match entry {
        Entry::File { .. } => {
            assert(source.below(rel).parts =~= source.child(name).parts);
            assert(destination.below(rel).parts =~= destination.child(name).parts);
            lemma_file_copied(source.child(name), destination.child(name), verbose, fs);
        },
        Entry::Dir { entries, .. } => {
            let rest = rel.skip(1);
            assert(source.child(name).below(rest).parts =~= source.below(rel).parts);
            assert(destination.child(name).below(rest).parts =~= destination.below(rel).parts);
            lemma_apart_child(source, destination, name);
            lemma_copy_copied(
                source.child(name),
                destination.child(name),
                entries@,
                verbose,
                fs,
                rest,
            );
        },
    }
}

/// After the steps for a listing, each file of the tree that the file system
/// held has its bytes at the same place below `destination`.
pub proof fn lemma_entries_copied(
    source: PathView,
    destination: PathView,
    entries: Seq<Entry>,
    verbose: bool,
    fs: Map<PathView, Node>,
    rel: Seq<Seq<char>>,
)
    requires
        tree_wf(entries),
        apart(source, destination),
        has_file(entries, rel),
        is_file(fs, source.below(rel)),
    ensures
        run(fs, entries_plan(source, destination, entries, verbose)).dom().contains(
            destination.below(rel),
        ),
        run(fs, entries_plan(source, destination, entries, verbose))[destination.below(rel)]
            == fs[source.below(rel)],
    decreases entries, 0nat,
{
    let init = entries.drop_last();
    let last = entries.last();
    let from = source.below(rel);
    let to = destination.below(rel);
    lemma_tree_wf_init(entries);
    let fs1 = run(fs, entries_plan(source, destination, init, verbose));
    lemma_run_concat(
        fs,
        entries_plan(source, destination, init, verbose),
        entry_plan(source, destination, last, verbose),
    );
    lemma_apart_below(source, destination, rel);
    if entry_has_file(last, rel) {
        assert forall|i: int| 0 <= i < init.len() implies !from.starts_with(
            destination.child(entry_name(#[trigger] init[i])),
        ) by {
            if from.starts_with(destination.child(entry_name(init[i]))) {
                lemma_below_child(from, destination, entry_name(init[i]));
            }
        }
        lemma_entries_frame(source, destination, init, verbose, fs, from);
        lemma_entry_copied(source, destination, last, verbose, fs1, rel);
    } else {
        lemma_entries_copied(source, destination, init, verbose, fs, rel);
        lemma_has_file_head(init, rel);
        let i = choose|i: int|
            0 <= i < init.len() && entry_name(#[trigger] init[i]) == rel[0];
        assert(init[i] == entries[i]);
        assert(entry_name(entries[i]) != entry_name(entries[entries.len() - 1]));
        assert(to.parts[destination.parts.len() as int] == rel[0]);
        if to.starts_with(destination.child(entry_name(last))) {
            lemma_below_child(to, destination, entry_name(last));
        }
        lemma_entry_frame(source, destination, last, verbose, fs1, to);
    }
}

/// After the steps that copy a tree, each file of the tree that the file
/// system held has its bytes at the same place below `destination`.
pub proof fn lemma_copy_copied(
    source: PathView,
    destination: PathView,
    entries: Seq<Entry>,
    verbose: bool,
    fs: Map<PathView, Node>,
    rel: Seq<Seq<char>>,
)
    requires
        tree_wf(entries),
        apart(source, destination),
        has_file(entries, rel),
        is_file(fs, source.below(rel)),
    ensures
        run(fs, copy_plan(source, destination, entries, verbose)).dom().contains(
            destination.below(rel),
        ),
        run(fs, copy_plan(source, destination, entries, verbose))[destination.below(rel)]
            == fs[source.below(rel)],
    decreases entries, 1nat,
{
    let make = StepView::File(FileOpView::CreateDirAll { path: destination });
    let rest = entries_plan(source, destination, entries, verbose);
    lemma_run_concat(fs, seq![make], rest);
    lemma_run_one(fs, make);
    let fs0 = run(fs, seq![make]);
    lemma_apart_below(source, destination, rel);
    assert(same_at(fs0, fs, source.below(rel)));
    lemma_entries_copied(source, destination, entries, verbose, fs0, rel);
}

/// `rel` leads from the directory of `entry` to a directory of its tree.
pub open spec fn entry_has_dir(entry: Entry, rel: Seq<Seq<char>>) -> bool
    decreases entry, 0nat,
{
    match entry {
        Entry::File { .. } => false,
        Entry::Dir { name, entries } => rel.len() > 0 && rel[0] == name@ && (rel.len() == 1
            || has_dir(entries@, rel.skip(1))),
    }
}

/// `rel` leads from the listed directory to a directory of the tree.
pub open spec fn has_dir(entries: Seq<Entry>, rel: Seq<Seq<char>>) -> bool
    decreases entries, 0nat,
{
    entries.len() > 0 && (has_dir(entries.drop_last(), rel) || entry_has_dir(
        entries.last(),
        rel,
    ))
}

/// The path to a directory of a listing starts with the name of an entry.
pub proof fn lemma_has_dir_head(entries: Seq<Entry>, rel: Seq<Seq<char>>)
    requires
        has_dir(entries, rel),
    ensures
        rel.len() > 0,
        exists|i: int| 0 <= i < entries.len() && entry_name(#[trigger] entries[i]) == rel[0],
    decreases entries.len(),
{
    if entry_has_dir(entries.last(), rel) {
        assert(entry_name(entries[entries.len() - 1]) == rel[0]);
    } else {
        lemma_has_dir_head(entries.drop_last(), rel);
        let i = choose|i: int|
            0 <= i < entries.drop_last().len() && entry_name(#[trigger] entries.drop_last()[i])
                == rel[0];
        assert(entries.drop_last()[i] == entries[i]);
    }
}

/// A path above `destination.below(rel)` that is not above `destination`
/// lies strictly below `destination`, and goes on with the head of `rel`.
pub proof fn lemma_between(q: PathView, destination: PathView, rel: Seq<Seq<char>>)
    requires
        destination.below(rel).starts_with(q),
        !destination.starts_with(q),
    ensures
        q.is_strictly_under(destination),
        rel.len() > 0,
        q.parts[destination.parts.len() as int] == rel[0],
{
    let d = destination.parts;
    let full = destination.below(rel).parts;
    if q.parts.len() <= d.len() {
        assert(q.parts =~= d.subrange(0, q.parts.len() as int)) by {
            assert forall|k: int| 0 <= k < q.parts.len() implies q.parts[k] == d[k] by {
                assert(full.subrange(0, q.parts.len() as int)[k] == full[k]);
            }
        }
        assert(false);
    }
    assert(d =~= q.parts.subrange(0, d.len() as int)) by {
        assert forall|k: int| 0 <= k < d.len() implies d[k] == q.parts[k] by {
            assert(full.subrange(0, q.parts.len() as int)[k] == full[k]);
        }
    }
    assert(full.subrange(0, q.parts.len() as int)[d.len() as int] == full[d.len() as int]);
}

/// After the steps for a directory entry, every path from its place below
/// `destination` down to a directory of its tree, and every path above that
/// place, holds a directory.
pub proof fn lemma_entry_dirs(
    source: PathView,
    destination: PathView,
    entry: Entry,
    verbose: bool,
    fs: Map<PathView, Node>,
    rel: Seq<Seq<char>>,
    q: PathView,
)
    requires
        entry_wf(entry),
        entry_has_dir(entry, rel),
        destination.below(rel).starts_with(q),
    ensures
        is_dir(run(fs, entry_plan(source, destination, entry, verbose)), q),
    decreases entry, 0nat,
{
    let name = entry_name(entry);
    lemma_step_plain(source, name);
    lemma_step_plain(destination, name);
    match entry {
        Entry::File { .. } => {},
        Entry::Dir { entries, .. } => {
            let from = source.child(name);
            let to = destination.child(name);
            let make = StepView::File(FileOpView::CreateDirAll { path: to });
            let rest = entries_plan(from, to, entries@, verbose);
            lemma_run_concat(fs, seq![make], rest);
            lemma_run_one(fs, make);
            let fs0 = run(fs, seq![make]);
            let tail = rel.skip(1);
            assert(to.below(tail).parts =~= destination.below(rel).parts);
            if to.starts_with(q) {
                assert(is_dir(fs0, q));
                assert forall|i: int| 0 <= i < entries@.len() implies !q.starts_with(
                    to.child(entry_name(#[trigger] entries@[i])),
                ) by {
                    if q.starts_with(to.child(entry_name(entries@[i]))) {
                        lemma_below_child(q, to, entry_name(entries@[i]));
                    }
                }
                lemma_entries_frame(from, to, entries@, verbose, fs0, q);
            } else {
                lemma_between(q, to, tail);
                lemma_entries_dirs(from, to, entries@, verbose, fs0, tail, q);
            }
        },
    }
}

/// After the steps for a listing, every path from `destination` down to a
/// directory of the tree holds a directory, and so does a path above
/// `destination` that held one before.
pub proof fn lemma_entries_dirs(
    source: PathView,
    destination: PathView,
    entries: Seq<Entry>,
    verbose: bool,
    fs: Map<PathView, Node>,
    rel: Seq<Seq<char>>,
    q: PathView,
)
    requires
        tree_wf(entries),
        has_dir(entries, rel),
        destination.below(rel).starts_with(q),
        destination.starts_with(q) ==> is_dir(fs, q),
    ensures
        is_dir(run(fs, entries_plan(source, destination, entries, verbose)), q),
    decreases entries, 0nat,
{
    if destination.starts_with(q) {
        assert forall|i: int| 0 <= i < entries.len() implies !q.starts_with(
            destination.child(entry_name(#[trigger] entries[i])),
        ) by {
            if q.starts_with(destination.child(entry_name(entries[i]))) {
                lemma_below_child(q, destination, entry_name(entries[i]));
            }
        }
        lemma_entries_frame(source, destination, entries, verbose, fs, q);
    } else {
        let init = entries.drop_last();
        let last = entries.last();
        lemma_tree_wf_init(entries);
        lemma_between(q, destination, rel);
        let fs1 = run(fs, entries_plan(source, destination, init, verbose));
        lemma_run_concat(
            fs,
            entries_plan(source, destination, init, verbose),
            entry_plan(source, destination, last, verbose),
        );
        if entry_has_dir(last, rel) {
            lemma_entry_dirs(source, destination, last, verbose, fs1, rel, q);
        } else {
            lemma_entries_dirs(source, destination, init, verbose, fs, rel, q);
            lemma_has_dir_head(init, rel);
            let i = choose|i: int|
                0 <= i < init.len() && entry_name(#[trigger] init[i]) == rel[0];
            assert(init[i] == entries[i]);
            assert(entry_name(entries[i]) != entry_name(entries[entries.len() - 1]));
            if q.starts_with(destination.child(entry_name(last))) {
                lemma_below_child(q, destination, entry_name(last));
            }
            lemma_entry_frame(source, destination, last, verbose, fs1, q);
        }
    }
}

/// Every path from `destination` down to a directory of the entry's tree
/// holds a directory.
pub open spec fn entry_dirs_made(
    fs: Map<PathView, Node>,
    destination: PathView,
    entry: Entry,
) -> bool {
    forall|rel: Seq<Seq<char>>, q: PathView|
        #![trigger entry_has_dir(entry, rel), is_dir(fs, q)]
        entry_has_dir(entry, rel) && destination.below(rel).starts_with(q) ==> is_dir(fs, q)
}

/// Every path from `destination` down to a directory of the listed tree
/// holds a directory.
pub open spec fn dirs_made(
    fs: Map<PathView, Node>,
    destination: PathView,
    entries: Seq<Entry>,
) -> bool {
    forall|rel: Seq<Seq<char>>, q: PathView|
        #![trigger has_dir(entries, rel), is_dir(fs, q)]
        has_dir(entries, rel) && destination.below(rel).starts_with(q) ==> is_dir(fs, q)
}

/// Every file of the entry's tree that the file system holds below `source`
/// has the same bytes at the same place below `destination`.
pub open spec fn entry_files_copied(
    fs: Map<PathView, Node>,
    source: PathView,
    destination: PathView,
    entry: Entry,
) -> bool {
    forall|rel: Seq<Seq<char>>| #[trigger]
        entry_has_file(entry, rel) && is_file(fs, source.below(rel)) ==> fs.dom().contains(
            destination.below(rel),
        ) && fs[destination.below(rel)] == fs[source.below(rel)]
}

/// Every file of the listed tree that the file system holds below `source`
/// has the same bytes at the same place below `destination`.
pub open spec fn files_copied(
    fs: Map<PathView, Node>,
    source: PathView,
    destination: PathView,
    entries: Seq<Entry>,
) -> bool {
    forall|rel: Seq<Seq<char>>| #[trigger]
        has_file(entries, rel) && is_file(fs, source.below(rel)) ==> fs.dom().contains(
            destination.below(rel),
        ) && fs[destination.below(rel)] == fs[source.below(rel)]
}

/// Where the directories of an entry's tree are made and its files are
/// copied already, the steps for the entry change nothing.
pub proof fn lemma_entry_settled(
    source: PathView,
    destination: PathView,
    entry: Entry,
    verbose: bool,
    fs: Map<PathView, Node>,
)
    requires
        entry_wf(entry),
        entry_dirs_made(fs, destination, entry),
        entry_files_copied(fs, source, destination, entry),
    ensures
        run(fs, entry_plan(source, destination, entry, verbose)) == fs,
    decreases entry, 0nat,
{
    let name = entry_name(entry);
    lemma_step_plain(source, name);
    lemma_step_plain(destination, name);
    let from = source.child(name);
    let to = destination.child(name);
    let one = seq![name];
    assert(source.below(one).parts =~= from.parts);
    assert(destination.below(one).parts =~= to.parts);
    match entry {
        Entry::File { .. } => {
            assert(entry_has_file(entry, one));
            let copy = StepView::File(FileOpView::CopyFile { from, to });
            if is_file(fs, from) {
                assert(fs.insert(to, fs[from]) =~= fs);
            }
            assert(apply_step(fs, copy) == fs);
            lemma_run_one(fs, copy);
            if verbose {
                let say = StepView::Say(NoticeView::Copying { from, to });
                assert(file_plan(from, to, verbose) =~= seq![say] + seq![copy]);
                lemma_run_concat(fs, seq![say], seq![copy]);
                lemma_run_one(fs, say);
            }
        },
        Entry::Dir { entries, .. } => {
            assert(entry_has_dir(entry, one));
            let make = StepView::File(FileOpView::CreateDirAll { path: to });
            let rest = entries_plan(from, to, entries@, verbose);
            assert forall|q: PathView| to.starts_with(q) implies is_dir(fs, q) by {
                assert(destination.below(one).starts_with(q));
            }
            assert(apply_op(fs, FileOpView::CreateDirAll { path: to }) =~= fs);
            lemma_run_one(fs, make);
            lemma_run_concat(fs, seq![make], rest);
            assert forall|rel: Seq<Seq<char>>, q: PathView|
                #![trigger has_dir(entries@, rel), is_dir(fs, q)]
                has_dir(entries@, rel) && to.below(rel).starts_with(q) implies is_dir(fs, q) by {
                let long = one + rel;
                assert(long.skip(1) =~= rel);
                assert(entry_has_dir(entry, long));
                assert(destination.below(long).parts =~= to.below(rel).parts);
            }
            assert forall|rel: Seq<Seq<char>>| #[trigger]
                has_file(entries@, rel) && is_file(fs, from.below(rel)) implies fs.dom().contains(
                to.below(rel),
            ) && fs[to.below(rel)] == fs[from.below(rel)] by {
                let long = one + rel;
                assert(long.skip(1) =~= rel);
                assert(entry_has_file(entry, long));
                assert(destination.below(long).parts =~= to.below(rel).parts);
                assert(source.below(long).parts =~= from.below(rel).parts);
            }
            lemma_entries_settled(from, to, entries@, verbose, fs);
        },
    }
}

/// Where the directories of a listed tree are made and its files are copied
/// already, the steps for the listing change nothing.
pub proof fn lemma_entries_settled(
    source: PathView,
    destination: PathView,
    entries: Seq<Entry>,
    verbose: bool,
    fs: Map<PathView, Node>,
)
    requires
        tree_wf(entries),
        dirs_made(fs, destination, entries),
        files_copied(fs, source, destination, entries),
    ensures
        run(fs, entries_plan(source, destination, entries, verbose)) == fs,
    decreases entries, 0nat,
{
    if entries.len() > 0 {
        let init = entries.drop_last();
        let last = entries.last();
        lemma_tree_wf_init(entries);
        assert forall|rel: Seq<Seq<char>>, q: PathView|
            #![trigger has_dir(init, rel), is_dir(fs, q)]
            has_dir(init, rel) && destination.below(rel).starts_with(q) implies is_dir(fs, q) by {
            assert(has_dir(entries, rel));
        }
        assert forall|rel: Seq<Seq<char>>| #[trigger]
            has_file(init, rel) && is_file(fs, source.below(rel)) implies fs.dom().contains(
            destination.below(rel),
        ) && fs[destination.below(rel)] == fs[source.below(rel)] by {
            assert(has_file(entries, rel));
        }
        lemma_entries_settled(source, destination, init, verbose, fs);
        assert forall|rel: Seq<Seq<char>>, q: PathView|
            #![trigger entry_has_dir(last, rel), is_dir(fs, q)]
            entry_has_dir(last, rel) && destination.below(rel).starts_with(q) implies is_dir(
            fs,
            q,
        ) by {
            assert(has_dir(entries, rel));
        }
        assert forall|rel: Seq<Seq<char>>| #[trigger]
            entry_has_file(last, rel) && is_file(fs, source.below(rel)) implies fs.dom().contains(
            destination.below(rel),
        ) && fs[destination.below(rel)] == fs[source.below(rel)] by {
            assert(has_file(entries, rel));
        }
        lemma_entry_settled(source, destination, last, verbose, fs);
        lemma_run_concat(
            fs,
            entries_plan(source, destination, init, verbose),
            entry_plan(source, destination, last, verbose),
        );
    }
}

/// After the steps that copy a tree, `destination` and every path above it
/// hold a directory.
pub proof fn lemma_copy_makes_above(
    source: PathView,
    destination: PathView,
    entries: Seq<Entry>,
    verbose: bool,
    fs: Map<PathView, Node>,
    q: PathView,
)
    requires
        tree_wf(entries),
        destination.starts_with(q),
    ensures
        is_dir(run(fs, copy_plan(source, destination, entries, verbose)), q),
{
    let make = StepView::File(FileOpView::CreateDirAll { path: destination });
    let rest = entries_plan(source, destination, entries, verbose);
    lemma_run_concat(fs, seq![make], rest);
    lemma_run_one(fs, make);
    let fs0 = run(fs, seq![make]);
    assert(is_dir(fs0, q));
    assert forall|i: int| 0 <= i < entries.len() implies !q.starts_with(
        destination.child(entry_name(#[trigger] entries[i])),
    ) by {
        if q.starts_with(destination.child(entry_name(entries[i]))) {
            lemma_below_child(q, destination, entry_name(entries[i]));
        }
    }
    lemma_entries_frame(source, destination, entries, verbose, fs0, q);
}

/// After the steps that copy a tree, everything that the steps make is
/// there: a second run of the same steps changes nothing.
pub proof fn lemma_copy_settles(
    source: PathView,
    destination: PathView,
    entries: Seq<Entry>,
    verbose: bool,
    fs: Map<PathView, Node>,
)
    requires
        tree_wf(entries),
        apart(source, destination),
    ensures
        run(
            run(fs, copy_plan(source, destination, entries, verbose)),
            copy_plan(source, destination, entries, verbose),
        ) == run(fs, copy_plan(source, destination, entries, verbose)),
{
    let plan = copy_plan(source, destination, entries, verbose);
    let make = StepView::File(FileOpView::CreateDirAll { path: destination });
    let rest = entries_plan(source, destination, entries, verbose);
    let fs0 = run(fs, seq![make]);
    let fs1 = run(fs, plan);
    lemma_run_concat(fs, seq![make], rest);
    lemma_run_one(fs, make);
    assert forall|q: PathView| destination.starts_with(q) implies #[trigger] is_dir(fs1, q) by {
        lemma_copy_makes_above(source, destination, entries, verbose, fs, q);
    }
    assert forall|rel: Seq<Seq<char>>, q: PathView|
        #![trigger has_dir(entries, rel), is_dir(fs1, q)]
        has_dir(entries, rel) && destination.below(rel).starts_with(q) implies is_dir(fs1, q) by {
        lemma_entries_dirs(source, destination, entries, verbose, fs0, rel, q);
    }
    assert forall|rel: Seq<Seq<char>>| #[trigger]
        has_file(entries, rel) && is_file(fs1, source.below(rel)) implies fs1.dom().contains(
        destination.below(rel),
    ) && fs1[destination.below(rel)] == fs1[source.below(rel)] by {
        lemma_apart_below(source, destination, rel);
        lemma_copy_frame(source, destination, entries, verbose, fs, source.below(rel));
        lemma_copy_copied(source, destination, entries, verbose, fs, rel);
    }
    assert forall|q: PathView| #[trigger] destination.starts_with(q) implies fs1.dom().contains(q)
        && fs1[q] == Node::Dir by {
        assert(is_dir(fs1, q));
    }
    assert(apply_op(fs1, FileOpView::CreateDirAll { path: destination }) =~= fs1);
    lemma_run_one(fs1, make);
    lemma_run_concat(fs1, seq![make], rest);
    lemma_entries_settled(source, destination, entries, verbose, fs1);
}

} // verus!
