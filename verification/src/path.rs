//! Lexical paths: a path is a flag that says whether it starts at the root,
//! and a sequence of normalised components.

use vstd::prelude::*;
use vstd::string::*;

verus! {

/// The separator between the components of a path.
pub open spec fn sep() -> char {
    '/'
}

/// The component that names the directory itself.
pub open spec fn dot() -> Seq<char> {
    seq!['.']
}

/// The component that names the parent directory.
pub open spec fn dotdot() -> Seq<char> {
    seq!['.', '.']
}

/// A piece of text holds no separator.
pub open spec fn no_sep(s: Seq<char>) -> bool {
    forall|i: int| 0 <= i < s.len() ==> s[i] != sep()
}

/// A plain name: not empty, without separator, and neither `.` nor `..`.
pub open spec fn is_plain(s: Seq<char>) -> bool {
    &&& s.len() > 0
    &&& no_sep(s)
    &&& s != dot()
    &&& s != dotdot()
}

/// The pieces of `s` between its separators, empty pieces included.
pub open spec fn split(s: Seq<char>) -> Seq<Seq<char>>
    decreases s.len(),
{
    if s.len() == 0 {
        seq![Seq::<char>::empty()]
    } else if s.last() == sep() {
        split(s.drop_last()).push(Seq::<char>::empty())
    } else {
        let init = split(s.drop_last());
        init.drop_last().push(init.last().push(s.last()))
    }
}

/// One piece taken onto normalised components: empty pieces and `.` vanish,
/// `..` removes the component before it (at the root it vanishes, and in
/// front of a relative path it stays), and any other piece is appended.
pub open spec fn push_norm(absolute: bool, acc: Seq<Seq<char>>, piece: Seq<char>) -> Seq<
    Seq<char>,
> {
    if piece.len() == 0 || piece == dot() {
        acc
    } else if piece == dotdot() {
        if acc.len() > 0 && acc.last() != dotdot() {
            acc.drop_last()
        } else if absolute {
            acc
        } else {
            acc.push(piece)
        }
    } else {
        acc.push(piece)
    }
}

/// The pieces of `raw` taken onto `acc` one after the other, from the left.
pub open spec fn extend(absolute: bool, acc: Seq<Seq<char>>, raw: Seq<Seq<char>>) -> Seq<
    Seq<char>,
>
    decreases raw.len(),
{
    if raw.len() == 0 {
        acc
    } else {
        push_norm(absolute, extend(absolute, acc, raw.drop_last()), raw.last())
    }
}

/// Components are normalised: each is a name without separator, none is empty
/// or `.`, and `..` stands only at the front of a relative path.
pub open spec fn wf_parts(absolute: bool, parts: Seq<Seq<char>>) -> bool {
    forall|i: int|
        0 <= i < parts.len() ==> {
            &&& (#[trigger] parts[i]).len() > 0
            &&& no_sep(parts[i])
            &&& parts[i] != dot()
            &&& (parts[i] == dotdot() ==> !absolute && (i == 0 || parts[i - 1] == dotdot()))
        }
}

/// The components joined by separators.
pub open spec fn join_parts(parts: Seq<Seq<char>>) -> Seq<char>
    decreases parts.len(),
{
    if parts.len() == 0 {
        Seq::<char>::empty()
    } else if parts.len() == 1 {
        parts[0]
    } else {
        join_parts(parts.drop_last()) + seq![sep()] + parts.last()
    }
}

/// What a path is: whether it starts at the root, and its components.
pub struct PathView {
    pub absolute: bool,
    pub parts: Seq<Seq<char>>,
}

impl PathView {
    /// The path is normalised.
    pub open spec fn wf(self) -> bool {
        wf_parts(self.absolute, self.parts)
    }

    /// `other` taken from `self`: an absolute `other` replaces `self`, a
    /// relative one is walked component by component.
    pub open spec fn join(self, other: PathView) -> PathView {
        if other.absolute {
            other
        } else {
            PathView {
                absolute: self.absolute,
                parts: extend(self.absolute, self.parts, other.parts),
            }
        }
    }

    /// The path with one more component, `name`, at its end.
    pub open spec fn child(self, name: Seq<char>) -> PathView {
        PathView { absolute: self.absolute, parts: self.parts.push(name) }
    }

    /// The path that `rel` leads to from `self`, component by component.
    pub open spec fn below(self, rel: Seq<Seq<char>>) -> PathView {
        PathView { absolute: self.absolute, parts: self.parts + rel }
    }

    /// `self` is `base` or lies below it.
    pub open spec fn starts_with(self, base: PathView) -> bool {
        self.absolute == base.absolute && base.parts.is_prefix_of(self.parts)
    }

    /// `self` lies below `base` and is not `base` itself.
    pub open spec fn is_strictly_under(self, base: PathView) -> bool {
        self.starts_with(base) && self.parts.len() > base.parts.len()
    }

    /// The relative path that leads from `base` to `self`.
    pub open spec fn strip_prefix(self, base: PathView) -> Option<PathView> {
        if self.starts_with(base) {
            Some(PathView { absolute: false, parts: self.parts.skip(base.parts.len() as int) })
        } else {
            None
        }
    }

    /// The directory that holds `self`, where `self` has a last component.
    pub open spec fn parent(self) -> Option<PathView> {
        if self.parts.len() > 0 {
            Some(PathView { absolute: self.absolute, parts: self.parts.drop_last() })
        } else {
            None
        }
    }

    /// The path as text. The root is `/`, and the empty relative path is `.`.
    pub open spec fn render(self) -> Seq<char> {
        if self.absolute {
            seq![sep()] + join_parts(self.parts)
        } else if self.parts.len() == 0 {
            dot()
        } else {
            join_parts(self.parts)
        }
    }
}

/// The path that a text denotes.
pub open spec fn parse_spec(text: Seq<char>) -> PathView {
    let absolute = text.len() > 0 && text[0] == sep();
    PathView { absolute, parts: extend(absolute, Seq::empty(), split(text)) }
}

/// The components that a vector of strings holds.
pub open spec fn parts_view(v: Seq<String>) -> Seq<Seq<char>> {
    v.map_values(|s: String| s@)
}

/// Every piece of `split(s)` is free of separators.
pub proof fn lemma_split_no_sep(s: Seq<char>)
    ensures
        split(s).len() > 0,
        forall|i: int| 0 <= i < split(s).len() ==> no_sep(#[trigger] split(s)[i]),
    decreases s.len(),
{
    if s.len() > 0 {
        lemma_split_no_sep(s.drop_last());
    }
}

/// Taking one separator-free piece keeps components normalised.
pub proof fn lemma_push_norm_wf(absolute: bool, acc: Seq<Seq<char>>, piece: Seq<char>)
    requires
        wf_parts(absolute, acc),
        no_sep(piece),
    ensures
        wf_parts(absolute, push_norm(absolute, acc, piece)),
{
    let r = push_norm(absolute, acc, piece);
    assert forall|i: int| 0 <= i < r.len() implies {
        &&& (#[trigger] r[i]).len() > 0
        &&& no_sep(r[i])
        &&& r[i] != dot()
        &&& (r[i] == dotdot() ==> !absolute && (i == 0 || r[i - 1] == dotdot()))
    } by {
        if i < acc.len() {
            assert(r[i] == acc[i]);
            if i > 0 {
                assert(r[i - 1] == acc[i - 1]);
            }
        } else {
            assert(r[i] == piece);
            if piece == dotdot() && i > 0 {
                assert(r[i - 1] == acc.last());
            }
        }
    }
}

/// Taking separator-free pieces keeps components normalised.
pub proof fn lemma_extend_wf(absolute: bool, acc: Seq<Seq<char>>, raw: Seq<Seq<char>>)
    requires
        wf_parts(absolute, acc),
        forall|i: int| 0 <= i < raw.len() ==> no_sep(#[trigger] raw[i]),
    ensures
        wf_parts(absolute, extend(absolute, acc, raw)),
    decreases raw.len(),
{
    if raw.len() > 0 {
        lemma_extend_wf(absolute, acc, raw.drop_last());
        lemma_push_norm_wf(absolute, extend(absolute, acc, raw.drop_last()), raw.last());
    }
}

/// Plain names are appended as they are.
pub proof fn lemma_extend_plain(absolute: bool, acc: Seq<Seq<char>>, raw: Seq<Seq<char>>)
    requires
        forall|i: int| 0 <= i < raw.len() ==> is_plain(#[trigger] raw[i]),
    ensures
        extend(absolute, acc, raw) == acc + raw,
    decreases raw.len(),
{
    if raw.len() > 0 {
        lemma_extend_plain(absolute, acc, raw.drop_last());
        assert(is_plain(raw.last()));
        assert(acc + raw =~= (acc + raw.drop_last()).push(raw.last()));
    } else {
        assert(acc + raw =~= acc);
    }
}

/// A plain name is a path of one component.
pub proof fn lemma_parse_plain(name: Seq<char>)
    requires
        is_plain(name),
    ensures
        parse_spec(name) == (PathView { absolute: false, parts: seq![name] }),
    decreases name.len(),
{
    lemma_split_plain(name);
    assert(split(name).drop_last() =~= Seq::<Seq<char>>::empty());
    assert(extend(false, Seq::empty(), split(name).drop_last()) == Seq::<Seq<char>>::empty());
    assert(split(name).last() == name);
    assert(Seq::<Seq<char>>::empty().push(name) =~= seq![name]);
    assert(name[0] != sep());
}

/// Text without a separator is one piece.
pub proof fn lemma_split_plain(s: Seq<char>)
    requires
        no_sep(s),
    ensures
        split(s) == seq![s],
    decreases s.len(),
{
    if s.len() == 0 {
        assert(s =~= Seq::<char>::empty());
    } else {
        lemma_split_plain(s.drop_last());
        let init = split(s.drop_last());
        assert(init.drop_last().push(init.last().push(s.last())) =~= seq![
            s.drop_last().push(s.last()),
        ]);
        assert(s.drop_last().push(s.last()) =~= s);
    }
}

/// Cutting a text that holds a separator gives the pieces in front of it,
/// then the pieces behind it.
pub proof fn lemma_split_concat(a: Seq<char>, b: Seq<char>)
    ensures
        split(a + seq![sep()] + b) == split(a) + split(b),
    decreases b.len(),
{
    let whole = a + seq![sep()] + b;
    lemma_split_no_sep(b);
    if b.len() == 0 {
        assert(whole.drop_last() =~= a);
        assert(split(a) + split(b) =~= split(a).push(Seq::<char>::empty()));
    } else {
        let shorter = b.drop_last();
        lemma_split_concat(a, shorter);
        lemma_split_no_sep(shorter);
        assert(whole.drop_last() =~= a + seq![sep()] + shorter);
        assert(whole.last() == b.last());
        let init = split(a) + split(shorter);
        if b.last() == sep() {
            assert(init.push(Seq::<char>::empty()) =~= split(a) + split(b));
        } else {
            assert(init.last() == split(shorter).last());
            assert(init.drop_last() =~= split(a) + split(shorter).drop_last());
            assert(init.drop_last().push(init.last().push(b.last())) =~= split(a) + split(b));
        }
    }
}

/// Cutting the joined components gives the components back.
pub proof fn lemma_split_join(parts: Seq<Seq<char>>)
    requires
        parts.len() > 0,
        forall|i: int| 0 <= i < parts.len() ==> no_sep(#[trigger] parts[i]),
    ensures
        split(join_parts(parts)) == parts,
    decreases parts.len(),
{
    if parts.len() == 1 {
        lemma_split_plain(parts[0]);
        assert(seq![parts[0]] =~= parts);
    } else {
        let init = parts.drop_last();
        assert forall|i: int| 0 <= i < init.len() implies no_sep(#[trigger] init[i]) by {
            assert(init[i] == parts[i]);
        }
        lemma_split_join(init);
        lemma_split_concat(join_parts(init), parts.last());
        lemma_split_plain(parts.last());
        assert(init + seq![parts.last()] =~= parts);
    }
}

/// Taking pieces in two runs is taking them in one.
pub proof fn lemma_extend_concat(
    absolute: bool,
    acc: Seq<Seq<char>>,
    a: Seq<Seq<char>>,
    b: Seq<Seq<char>>,
)
    ensures
        extend(absolute, acc, a + b) == extend(absolute, extend(absolute, acc, a), b),
    decreases b.len(),
{
    if b.len() == 0 {
        assert(a + b =~= a);
    } else {
        lemma_extend_concat(absolute, acc, a, b.drop_last());
        assert((a + b).drop_last() =~= a + b.drop_last());
        assert((a + b).last() == b.last());
    }
}

/// Normalised components are taken as they are.
pub proof fn lemma_extend_normalised(absolute: bool, parts: Seq<Seq<char>>)
    requires
        wf_parts(absolute, parts),
    ensures
        extend(absolute, Seq::empty(), parts) == parts,
    decreases parts.len(),
{
    if parts.len() > 0 {
        let init = parts.drop_last();
        assert forall|i: int| 0 <= i < init.len() implies {
            &&& (#[trigger] init[i]).len() > 0
            &&& no_sep(init[i])
            &&& init[i] != dot()
            &&& (init[i] == dotdot() ==> !absolute && (i == 0 || init[i - 1] == dotdot()))
        } by {
            assert(init[i] == parts[i]);
            if i > 0 {
                assert(init[i - 1] == parts[i - 1]);
            }
        }
        lemma_extend_normalised(absolute, init);
        let last = parts[parts.len() - 1];
        assert(last.len() > 0 && last != dot());
        if last == dotdot() && init.len() > 0 {
            assert(init.last() == parts[parts.len() - 2]);
        }
        assert(init.push(last) =~= parts);
    } else {
        assert(parts =~= Seq::<Seq<char>>::empty());
    }
}

/// Reading the text of a normalised path gives the path back.
pub proof fn law_parse_render(p: PathView)
    requires
        p.wf(),
    ensures
        parse_spec(p.render()) == p,
{
    let text = p.render();
    let none = Seq::<Seq<char>>::empty();
    let blank = Seq::<char>::empty();
    assert forall|i: int| 0 <= i < p.parts.len() implies no_sep(#[trigger] p.parts[i]) by {}
    if p.absolute {
        assert(text[0] == sep());
        assert(text =~= blank + seq![sep()] + join_parts(p.parts));
        lemma_split_concat(blank, join_parts(p.parts));
        assert(split(blank) =~= seq![blank]);
        assert(extend(true, none, seq![blank].drop_last()) == none);
        assert(extend(true, none, seq![blank]) == none);
        if p.parts.len() == 0 {
            lemma_extend_concat(true, none, seq![blank], seq![blank]);
            assert(p.parts =~= none);
        } else {
            lemma_split_join(p.parts);
            lemma_extend_concat(true, none, seq![blank], p.parts);
            lemma_extend_normalised(true, p.parts);
        }
    } else if p.parts.len() == 0 {
        lemma_split_plain(dot());
        assert(seq![dot()].drop_last() =~= none);
        assert(extend(false, none, seq![dot()].drop_last()) == none);
        assert(p.parts =~= none);
    } else {
        lemma_split_join(p.parts);
        lemma_extend_normalised(false, p.parts);
        lemma_join_head(p.parts);
        assert(p.parts[0].len() > 0);
        assert(p.parts[0][0] != sep());
    }
}

/// The joined components start with the first component.
pub proof fn lemma_join_head(parts: Seq<Seq<char>>)
    requires
        parts.len() > 0,
        parts[0].len() > 0,
    ensures
        join_parts(parts).len() > 0,
        join_parts(parts)[0] == parts[0][0],
    decreases parts.len(),
{
    if parts.len() > 1 {
        lemma_join_head(parts.drop_last());
    }
}

/// A lexical path, held as normalised components.
#[derive(Debug, PartialEq, Eq)]
pub struct FilePath {
    absolute: bool,
    parts: Vec<String>,
}

impl View for FilePath {
    type V = PathView;

    closed spec fn view(&self) -> PathView {
        PathView { absolute: self.absolute, parts: parts_view(self.parts@) }
    }
}

/// Whether `s` is the component `.`.
fn is_dot(s: &str) -> (r: bool)
    ensures
        r == (s@ == dot()),
{
    let r = s.unicode_len() == 1 && s.get_char(0) == '.';
    proof {
        if r {
            assert(s@ =~= dot());
        }
    }
    r
}

/// Whether `s` is the component `..`.
fn is_dotdot(s: &str) -> (r: bool)
    ensures
        r == (s@ == dotdot()),
{
    let r = s.unicode_len() == 2 && s.get_char(0) == '.' && s.get_char(1) == '.';
    proof {
        if r {
            assert(s@ =~= dotdot());
        }
    }
    r
}

/// Whether `name` is a plain name: not empty, without separator, and neither
/// `.` nor `..`.
pub fn is_plain_name(name: &str) -> (r: bool)
    ensures
        r == is_plain(name@),
{
    let n = name.unicode_len();
    if n == 0 || is_dot(name) || is_dotdot(name) {
        return false;
    }
    let mut i: usize = 0;
    while i < n
        invariant
            n == name@.len(),
            i <= n,
            forall|k: int| 0 <= k < i ==> name@[k] != sep(),
        decreases n - i,
    {
        if name.get_char(i) == '/' {
            return false;
        }
        i += 1;
    }
    true
}

/// Takes one piece onto normalised components.
fn push_part(parts: &mut Vec<String>, absolute: bool, piece: &str)
    requires
        wf_parts(absolute, parts_view(old(parts)@)),
        no_sep(piece@),
    ensures
        parts_view(final(parts)@) == push_norm(absolute, parts_view(old(parts)@), piece@),
        wf_parts(absolute, parts_view(final(parts)@)),
{
    proof {
        lemma_push_norm_wf(absolute, parts_view(parts@), piece@);
    }
    let ghost before = parts_view(parts@);
    if piece.unicode_len() == 0 || is_dot(piece) {
    } else if is_dotdot(piece) {
        let n = parts.len();
        if n > 0 && !is_dotdot(parts[n - 1].as_str()) {
            parts.pop();
            assert(parts_view(parts@) =~= before.drop_last());
        } else if absolute {
        } else {
            parts.push(String::from_str(piece));
            assert(parts_view(parts@) =~= before.push(piece@));
        }
    } else {
        parts.push(String::from_str(piece));
        assert(parts_view(parts@) =~= before.push(piece@));
    }
}

impl FilePath {
    /// Every path is normalised.
    #[verifier::type_invariant]
    pub open spec fn inv(&self) -> bool {
        self@.wf()
    }

    /// Reads a path from text: the text is cut at its separators and the
    /// pieces are normalised.
    pub fn parse(text: &str) -> (r: FilePath)
        ensures
            r@ == parse_spec(text@),
            r@.wf(),
    {
        let n = text.unicode_len();
        let absolute = n > 0 && text.get_char(0) == '/';
        let mut parts: Vec<String> = Vec::new();
        let mut start: usize = 0;
        let mut i: usize = 0;
        let ghost mut done: Seq<Seq<char>> = Seq::empty();
        proof {
            assert(text@.take(0) =~= Seq::<char>::empty());
            assert(text@.subrange(0, 0) =~= Seq::<char>::empty());
            assert(split(text@.take(0)) =~= done.push(text@.subrange(0, 0)));
            assert(parts_view(parts@) =~= Seq::<Seq<char>>::empty());
        }
        while i < n
            invariant
                n == text@.len(),
                start <= i <= n,
                split(text@.take(i as int)) == done.push(text@.subrange(start as int, i as int)),
                parts_view(parts@) == extend(absolute, Seq::empty(), done),
                wf_parts(absolute, parts_view(parts@)),
                no_sep(text@.subrange(start as int, i as int)),
            decreases n - i,
        {
            let c = text.get_char(i);
            let ghost seg = text@.subrange(start as int, i as int);
            proof {
                assert(text@.take(i + 1).drop_last() =~= text@.take(i as int));
                assert(text@.take(i + 1).last() == c);
                assert(done.push(seg).drop_last() =~= done);
                assert(done.push(seg).last() == seg);
            }
            if c == '/' {
                push_part(&mut parts, absolute, text.substring_char(start, i));
                proof {
                    done = done.push(seg);
                    assert(text@.subrange(i + 1, i + 1) =~= Seq::<char>::empty());
                }
                start = i + 1;
            } else {
                proof {
                    assert(seg.push(c) =~= text@.subrange(start as int, i + 1));
                }
            }
            i += 1;
        }
        proof {
            assert(text@.take(n as int) =~= text@);
            assert(done.push(text@.subrange(start as int, n as int)).drop_last() =~= done);
        }
        push_part(&mut parts, absolute, text.substring_char(start, n));
        FilePath { absolute, parts }
    }

    /// A copy of the path.
    pub fn duplicate(&self) -> (r: FilePath)
        ensures
            r@ == self@,
            r@.wf(),
    {
        proof {
            use_type_invariant(self);
        }
        let mut parts: Vec<String> = Vec::new();
        let mut i: usize = 0;
        while i < self.parts.len()
            invariant
                i <= self.parts.len(),
                parts@ == self.parts@.take(i as int),
            decreases self.parts.len() - i,
        {
            parts.push(self.parts[i].clone());
            proof {
                assert(parts@ =~= self.parts@.take(i + 1));
            }
            i += 1;
        }
        proof {
            assert(self.parts@.take(self.parts.len() as int) =~= self.parts@);
        }
        FilePath { absolute: self.absolute, parts }
    }

    /// Whether the path starts at the root.
    pub fn is_absolute(&self) -> (r: bool)
        ensures
            r == self@.absolute,
    {
        self.absolute
    }

    /// The number of components.
    pub fn len(&self) -> (r: usize)
        ensures
            r == self@.parts.len(),
    {
        self.parts.len()
    }

    /// `other` taken from this path: an absolute `other` replaces it, a
    /// relative one is walked component by component.
    pub fn join(&self, other: &FilePath) -> (r: FilePath)
        ensures
            r@ == self@.join(other@),
            r@.wf(),
    {
        proof {
            use_type_invariant(self);
            use_type_invariant(other);
        }
        if other.absolute {
            return other.duplicate();
        }
        let base = self.duplicate();
        let absolute = base.absolute;
        let mut parts = base.parts;
        let mut i: usize = 0;
        proof {
            assert(other.parts@.take(0) =~= Seq::<String>::empty());
            assert(parts_view(other.parts@.take(0)) =~= Seq::<Seq<char>>::empty());
        }
        while i < other.parts.len()
            invariant
                i <= other.parts.len(),
                wf_parts(false, parts_view(other.parts@)),
                wf_parts(absolute, parts_view(parts@)),
                parts_view(parts@) == extend(
                    absolute,
                    parts_view(self.parts@),
                    parts_view(other.parts@.take(i as int)),
                ),
            decreases other.parts.len() - i,
        {
            proof {
                let next = parts_view(other.parts@.take(i + 1));
                assert(next.drop_last() =~= parts_view(other.parts@.take(i as int)));
                assert(next.last() == other.parts@[i as int]@);
                assert(parts_view(other.parts@)[i as int] == other.parts@[i as int]@);
            }
            push_part(&mut parts, absolute, other.parts[i].as_str());
            i += 1;
        }
        proof {
            assert(other.parts@.take(other.parts.len() as int) =~= other.parts@);
        }
        FilePath { absolute, parts }
    }

    /// The path with `name` taken as one more step: the same as joining the
    /// path that `name` denotes.
    pub fn child(&self, name: &str) -> (r: FilePath)
        ensures
            r@ == self@.join(parse_spec(name@)),
            is_plain(name@) ==> r@ == self@.child(name@),
            r@.wf(),
    {
        let step = FilePath::parse(name);
        let r = self.join(&step);
        proof {
            if is_plain(name@) {
                lemma_parse_plain(name@);
                lemma_extend_plain(self@.absolute, self@.parts, seq![name@]);
                assert(self@.parts + seq![name@] =~= self@.parts.push(name@));
            }
        }
        r
    }

    /// Whether this path is `base` or lies below it.
    pub fn starts_with(&self, base: &FilePath) -> (r: bool)
        ensures
            r == self@.starts_with(base@),
    {
        if self.absolute != base.absolute || base.parts.len() > self.parts.len() {
            return false;
        }
        let mut i: usize = 0;
        while i < base.parts.len()
            invariant
                i <= base.parts.len() <= self.parts.len(),
                forall|k: int|
                    0 <= k < i ==> parts_view(base.parts@)[k] == parts_view(self.parts@)[k],
            decreases base.parts.len() - i,
        {
            if self.parts[i] != base.parts[i] {
                proof {
                    assert(parts_view(base.parts@)[i as int] != parts_view(self.parts@)[i as int]);
                }
                return false;
            }
            i += 1;
        }
        true
    }

    /// The relative path that leads from `base` to this path, where this path
    /// is `base` or lies below it.
    pub fn strip_prefix(&self, base: &FilePath) -> (r: Option<FilePath>)
        ensures
            r.is_some() == self@.starts_with(base@),
            match r {
                Some(rel) => Some(rel@) == self@.strip_prefix(base@) && rel@.wf(),
                None => self@.strip_prefix(base@).is_none(),
            },
    {
        proof {
            use_type_invariant(self);
        }
        if !self.starts_with(base) {
            return None;
        }
        let from = base.parts.len();
        let mut parts: Vec<String> = Vec::new();
        let mut i: usize = from;
        while i < self.parts.len()
            invariant
                from <= i <= self.parts.len(),
                parts@ == self.parts@.subrange(from as int, i as int),
            decreases self.parts.len() - i,
        {
            parts.push(self.parts[i].clone());
            proof {
                assert(parts@ =~= self.parts@.subrange(from as int, i + 1));
            }
            i += 1;
        }
        proof {
            assert(parts_view(parts@) =~= self@.parts.skip(from as int));
            assert(parts_view(base.parts@).len() == from);
        }
        Some(FilePath { absolute: false, parts })
    }

    /// The directory that holds this path, where it has a last component.
    pub fn parent(&self) -> (r: Option<FilePath>)
        ensures
            match r {
                Some(p) => Some(p@) == self@.parent() && p@.wf(),
                None => self@.parent().is_none(),
            },
    {
        proof {
            use_type_invariant(self);
        }
        if self.parts.len() == 0 {
            return None;
        }
        let copy = self.duplicate();
        let absolute = copy.absolute;
        let mut parts = copy.parts;
        parts.pop();
        proof {
            assert(parts_view(parts@) =~= self@.parts.drop_last());
        }
        Some(FilePath { absolute, parts })
    }

    /// The path as text. The root is `/`, and the empty relative path is `.`.
    pub fn display(&self) -> (r: String)
        ensures
            r@ == self@.render(),
    {
        let mut out = String::new();
        proof {
            reveal_strlit("/");
            reveal_strlit(".");
        }
        if self.absolute {
            out.append("/");
        } else if self.parts.len() == 0 {
            out.append(".");
            assert(out@ =~= dot());
            return out;
        }
        let ghost head: Seq<char> = out@;
        let mut i: usize = 0;
        proof {
            assert(parts_view(self.parts@).take(0) =~= Seq::<Seq<char>>::empty());
            assert(out@ =~= head + join_parts(parts_view(self.parts@).take(0)));
        }
        while i < self.parts.len()
            invariant
                i <= self.parts.len(),
                out@ == head + join_parts(parts_view(self.parts@).take(i as int)),
            decreases self.parts.len() - i,
        {
            let ghost views = parts_view(self.parts@);
            proof {
                reveal_strlit("/");
                assert(views.take(i + 1).drop_last() =~= views.take(i as int));
                assert(views.take(i + 1).last() == self.parts@[i as int]@);
            }
            if i > 0 {
                out.append("/");
            }
            out.append(self.parts[i].as_str());
            proof {
                if i == 0 {
                    assert(views.take(0) =~= Seq::<Seq<char>>::empty());
                    assert(views.take(1)[0] == self.parts@[0]@);
                    assert(out@ =~= head + join_parts(views.take(1)));
                } else {
                    assert(out@ =~= head + join_parts(views.take(i + 1)));
                }
            }
            i += 1;
        }
        proof {
            assert(parts_view(self.parts@).take(self.parts.len() as int) =~= parts_view(
                self.parts@,
            ));
            if self.absolute {
                assert(head =~= seq![sep()]);
            } else {
                assert(head =~= Seq::<char>::empty());
                assert(out@ =~= join_parts(self@.parts));
            }
        }
        out
    }
}

} // verus!
