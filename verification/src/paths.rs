//! File paths as lists of components, their order, and how they are shown.

use vstd::prelude::*;
use vstd::relations::*;

use crate::decoding::{self, decode};
use crate::text;

verus! {

/// One component of a path.
#[derive(Debug, PartialEq, Eq)]
pub enum PathPart {
    /// The root directory.
    Root,
    /// The current directory.
    Current,
    /// The parent directory.
    Parent,
    /// A file or directory with the given name.
    Named(Vec<u8>),
}

/// The mathematical form of a [`PathPart`].
pub enum PartView {
    Root,
    Current,
    Parent,
    Named(Seq<u8>),
}

impl View for PathPart {
    type V = PartView;

    open spec fn view(&self) -> PartView {
        match self {
            PathPart::Root => PartView::Root,
            PathPart::Current => PartView::Current,
            PathPart::Parent => PartView::Parent,
            PathPart::Named(name) => PartView::Named(name@),
        }
    }
}

/// A path, as the components it goes through.
#[derive(Debug, PartialEq, Eq)]
pub struct SourcePath {
    pub parts: Vec<PathPart>,
}

/// The mathematical form of a [`SourcePath`].
pub type PathView = Seq<PartView>;

impl View for SourcePath {
    type V = PathView;

    open spec fn view(&self) -> PathView {
        self.parts@.map_values(|p: PathPart| p@)
    }
}

/// The mathematical form of a list of paths.
pub open spec fn path_views(paths: Seq<SourcePath>) -> Seq<PathView> {
    paths.map_values(|p: SourcePath| p@)
}

/// Whether `a` comes before `b` in the lexicographic order that `less` gives.
pub open spec fn lex_before<T>(a: Seq<T>, b: Seq<T>, less: spec_fn(T, T) -> bool) -> bool
    decreases a.len(),
{
    if b.len() == 0 {
        false
    } else if a.len() == 0 {
        true
    } else {
        less(a[0], b[0]) || (a[0] == b[0] && lex_before(a.skip(1), b.skip(1), less))
    }
}

/// The order of bytes.
pub open spec fn byte_less() -> spec_fn(u8, u8) -> bool {
    |a: u8, b: u8| a < b
}

/// The place of a component among components of other sorts.
pub open spec fn rank(p: PartView) -> int {
    match p {
        PartView::Root => 0,
        PartView::Current => 1,
        PartView::Parent => 2,
        PartView::Named(_) => 3,
    }
}

/// The order of components: the root, the current and the parent directory
/// come before any name, and names are ordered by their bytes.
pub open spec fn part_less() -> spec_fn(PartView, PartView) -> bool {
    |a: PartView, b: PartView|
        rank(a) < rank(b) || match (a, b) {
            (PartView::Named(x), PartView::Named(y)) => lex_before(x, y, byte_less()),
            _ => false,
        }
}

/// Whether path `a` comes before path `b`: at the first component in which
/// they differ, or because `b` goes on where `a` ends.
pub open spec fn path_before(a: PathView, b: PathView) -> bool {
    lex_before(a, b, part_less())
}

/// The order of paths.
pub open spec fn path_order() -> spec_fn(PathView, PathView) -> bool {
    |a: PathView, b: PathView| a == b || path_before(a, b)
}

proof fn lex_before_irreflexive<T>(a: Seq<T>, less: spec_fn(T, T) -> bool)
    requires
        irreflexive(less),
    ensures
        !lex_before(a, a, less),
    decreases a.len(),
{
    if a.len() > 0 {
        lex_before_irreflexive(a.skip(1), less);
    }
}

proof fn lex_before_connected<T>(a: Seq<T>, b: Seq<T>, less: spec_fn(T, T) -> bool)
    requires
        connected(less),
    ensures
        a == b || lex_before(a, b, less) || lex_before(b, a, less),
    decreases a.len(),
{
    if a.len() > 0 && b.len() > 0 {
        if a[0] == b[0] {
            lex_before_connected(a.skip(1), b.skip(1), less);
            if a.skip(1) == b.skip(1) {
                assert(a == seq![a[0]] + a.skip(1));
                assert(b == seq![b[0]] + b.skip(1));
            }
        } else {
            assert(less(a[0], b[0]) || less(b[0], a[0]));
        }
    } else if a.len() == 0 && b.len() == 0 {
        assert(a =~= b);
    }
}

proof fn lex_before_transitive<T>(a: Seq<T>, b: Seq<T>, c: Seq<T>, less: spec_fn(T, T) -> bool)
    requires
        transitive(less),
        lex_before(a, b, less),
        lex_before(b, c, less),
    ensures
        lex_before(a, c, less),
    decreases a.len(),
{
    if a.len() > 0 {
        if a[0] == b[0] && b[0] == c[0] && !less(a[0], b[0]) && !less(b[0], c[0]) {
            lex_before_transitive(a.skip(1), b.skip(1), c.skip(1), less);
        } else if less(a[0], b[0]) && less(b[0], c[0]) {
            assert(less(a[0], c[0]));
        }
    }
}

proof fn part_less_is_strict()
    ensures
        irreflexive(part_less()),
        connected(part_less()),
        transitive(part_less()),
{
    let less = part_less();
    let bytes = byte_less();
    assert(irreflexive(bytes) && connected(bytes) && transitive(bytes));
    assert forall|a: PartView| !#[trigger] less(a, a) by {
        if let PartView::Named(x) = a {
            lex_before_irreflexive(x, bytes);
        }
    }
    assert forall|a: PartView, b: PartView| a != b implies #[trigger] less(a, b) || #[trigger] less(
        b,
        a,
    ) by {
        if let (PartView::Named(x), PartView::Named(y)) = (a, b) {
            lex_before_connected(x, y, bytes);
        }
    }
    assert forall|a: PartView, b: PartView, c: PartView| #[trigger]
        less(a, b) && #[trigger] less(b, c) implies less(a, c) by {
        if let (PartView::Named(x), PartView::Named(y)) = (a, b) {
            if let PartView::Named(z) = c {
                lex_before_transitive(x, y, z, bytes);
            }
        }
    }
}

/// The order of paths is total: any two paths are comparable, and none comes
/// both before and after another.
pub proof fn path_order_is_total()
    ensures
        total_ordering(path_order()),
        forall|a: PathView| !#[trigger] path_before(a, a),
{
    part_less_is_strict();
    let less = part_less();
    let leq = path_order();
    assert forall|a: PathView| !#[trigger] path_before(a, a) by {
        lex_before_irreflexive(a, less);
    }
    assert forall|a: PathView, b: PathView| #[trigger]
        leq(a, b) && #[trigger] leq(b, a) implies a == b by {
        if a != b {
            lex_before_transitive(a, b, a, less);
            lex_before_irreflexive(a, less);
        }
    }
    assert forall|a: PathView, b: PathView| #[trigger] leq(a, b) || #[trigger] leq(b, a) by {
        lex_before_connected(a, b, less);
    }
    assert forall|a: PathView, b: PathView, c: PathView| #[trigger]
        leq(a, b) && #[trigger] leq(b, c) implies leq(a, c) by {
        if a != b && b != c {
            lex_before_transitive(a, b, c, less);
        }
    }
}

fn bytes_before(a: &[u8], b: &[u8]) -> (r: bool)
    ensures
        r == lex_before(a@, b@, byte_less()),
{
    let mut i: usize = 0;
    assert(a@.skip(0) == a@ && b@.skip(0) == b@);
    while i < a.len() && i < b.len() && a[i] == b[i]
        invariant
            i <= a@.len(),
            i <= b@.len(),
            lex_before(a@, b@, byte_less()) == lex_before(
                a@.skip(i as int),
                b@.skip(i as int),
                byte_less(),
            ),
        decreases a@.len() - i,
    {
        assert(a@.skip(i as int).skip(1) == a@.skip(i + 1));
        assert(b@.skip(i as int).skip(1) == b@.skip(i + 1));
        i += 1;
    }
    i < b.len() && (i == a.len() || a[i] < b[i])
}

fn same_bytes(a: &[u8], b: &[u8]) -> (r: bool)
    ensures
        r == (a@ == b@),
{
    if a.len() != b.len() {
        return false;
    }
    for i in 0..a.len()
        invariant
            a@.len() == b@.len(),
            forall|j: int| 0 <= j < i ==> a@[j] == b@[j],
    {
        if a[i] != b[i] {
            return false;
        }
    }
    assert(a@ =~= b@);
    true
}

fn copy_bytes(a: &[u8]) -> (r: Vec<u8>)
    ensures
        r@ == a@,
{
    let mut r: Vec<u8> = Vec::new();
    for i in 0..a.len()
        invariant
            r@ == a@.take(i as int),
    {
        r.push(a[i]);
    }
    r
}

impl PathPart {
    fn sort_place(&self) -> (r: u8)
        ensures
            r == rank(self@),
    {
        match self {
            PathPart::Root => 0,
            PathPart::Current => 1,
            PathPart::Parent => 2,
            PathPart::Named(_) => 3,
        }
    }

    fn comes_before(&self, other: &PathPart) -> (r: bool)
        ensures
            r == part_less()(self@, other@),
    {
        match (self, other) {
            (PathPart::Named(x), PathPart::Named(y)) => bytes_before(x.as_slice(), y.as_slice()),
            _ => self.sort_place() < other.sort_place(),
        }
    }

    fn is_same(&self, other: &PathPart) -> (r: bool)
        ensures
            r == (self@ == other@),
    {
        match (self, other) {
            (PathPart::Named(x), PathPart::Named(y)) => same_bytes(x.as_slice(), y.as_slice()),
            _ => self.sort_place() == other.sort_place(),
        }
    }

    fn copied(&self) -> (r: PathPart)
        ensures
            r@ == self@,
    {
        match self {
            PathPart::Root => PathPart::Root,
            PathPart::Current => PathPart::Current,
            PathPart::Parent => PathPart::Parent,
            PathPart::Named(name) => PathPart::Named(copy_bytes(name.as_slice())),
        }
    }

    /// The component as it is shown.
    pub fn display(&self) -> (r: String)
        ensures
            r@ == part_text(self@),
    {
        match self {
            PathPart::Root => "/".to_owned(),
            PathPart::Current => ".".to_owned(),
            PathPart::Parent => "..".to_owned(),
            PathPart::Named(name) => decode(name.as_slice()),
        }
    }
}

/// A component as it is shown. A name that is not UTF-8 is shown as far as it
/// can be read.
pub open spec fn part_text(p: PartView) -> Seq<char> {
    match p {
        PartView::Root => "/"@,
        PartView::Current => "."@,
        PartView::Parent => ".."@,
        PartView::Named(name) => decoding::decoded(name),
    }
}

/// Components as they are shown together: with a slash between each two, but
/// none behind the first where that is the root.
pub open spec fn slashed(texts: Seq<Seq<char>>, rooted: bool) -> Seq<char>
    decreases texts.len(),
{
    if texts.len() == 0 {
        Seq::empty()
    } else if texts.len() == 1 || (texts.len() == 2 && rooted) {
        slashed(texts.drop_last(), rooted) + texts.last()
    } else {
        slashed(texts.drop_last(), rooted).push('/') + texts.last()
    }
}

/// Whether a path begins at the root directory.
pub open spec fn is_rooted(p: PathView) -> bool {
    p.len() > 0 && p[0] == PartView::Root
}

/// A path as it is shown.
pub open spec fn path_text(p: PathView) -> Seq<char> {
    slashed(p.map_values(|part: PartView| part_text(part)), is_rooted(p))
}

/// Components as they are shown together.
pub fn join_parts(texts: &[String], rooted: bool) -> (r: String)
    ensures
        r@ == slashed(text::views(texts@), rooted),
{
    let ghost all = text::views(texts@);
    let mut r = String::new();
    for i in 0..texts.len()
        invariant
            all == text::views(texts@),
            r@ == slashed(all.take(i as int), rooted),
    {
        assert(all.take(i + 1).drop_last() == all.take(i as int));
        assert(all.take(i + 1).last() == texts@[i as int]@);
        if i > 0 && !(i == 1 && rooted) {
            r.push('/');
        }
        r.append(texts[i].as_str());
        assert(r@ == slashed(all.take(i + 1), rooted));
    }
    assert(all.take(texts@.len() as int) == all);
    r
}

/// `p` as seen from `base`: what follows `base` where `p` begins with it, and
/// otherwise `p` itself.
pub open spec fn relative(p: PathView, base: PathView) -> PathView {
    if base.is_prefix_of(p) {
        p.skip(base.len() as int)
    } else {
        p
    }
}

impl SourcePath {
    /// Whether this path comes before `other`.
    pub fn comes_before(&self, other: &SourcePath) -> (r: bool)
        ensures
            r == path_before(self@, other@),
    {
        let a = &self.parts;
        let b = &other.parts;
        proof {
            part_less_is_strict();
        }
        let mut i: usize = 0;
        assert(self@.skip(0) == self@ && other@.skip(0) == other@);
        while i < a.len() && i < b.len() && a[i].is_same(&b[i])
            invariant
                a@ == self.parts@,
                b@ == other.parts@,
                i <= a@.len(),
                i <= b@.len(),
                irreflexive(part_less()),
                path_before(self@, other@) == path_before(
                    self@.skip(i as int),
                    other@.skip(i as int),
                ),
            decreases a@.len() - i,
        {
            assert(self@.skip(i as int).skip(1) == self@.skip(i + 1));
            assert(other@.skip(i as int).skip(1) == other@.skip(i + 1));
            assert(self@.skip(i as int)[0] == a@[i as int]@);
            assert(other@.skip(i as int)[0] == b@[i as int]@);
            assert(!part_less()(a@[i as int]@, a@[i as int]@));
            i += 1;
        }
        assert(i < a@.len() ==> self@.skip(i as int)[0] == a@[i as int]@);
        assert(i < b@.len() ==> other@.skip(i as int)[0] == b@[i as int]@);
        i < b.len() && (i == a.len() || a[i].comes_before(&b[i]))
    }

    /// Whether this path is `other`.
    pub fn is_same(&self, other: &SourcePath) -> (r: bool)
        ensures
            r == (self@ == other@),
    {
        if self.parts.len() != other.parts.len() {
            assert(self@.len() != other@.len());
            return false;
        }
        for i in 0..self.parts.len()
            invariant
                self.parts@.len() == other.parts@.len(),
                forall|j: int| 0 <= j < i ==> self@[j] == other@[j],
        {
            if !self.parts[i].is_same(&other.parts[i]) {
                assert(self@[i as int] != other@[i as int]);
                return false;
            }
        }
        assert(self@ =~= other@);
        true
    }

    /// The same path once more.
    pub fn copied(&self) -> (r: SourcePath)
        ensures
            r@ == self@,
    {
        self.part_range(0)
    }

    fn part_range(&self, from: usize) -> (r: SourcePath)
        requires
            from <= self@.len(),
        ensures
            r@ == self@.skip(from as int),
    {
        let mut parts: Vec<PathPart> = Vec::new();
        for i in from..self.parts.len()
            invariant
                from <= self.parts@.len(),
                parts@.len() == i - from,
                forall|j: int| 0 <= j < parts@.len() ==> (#[trigger] parts@[j])@ == self@[from + j],
        {
            parts.push(self.parts[i].copied());
        }
        let r = SourcePath { parts };
        assert(r@ =~= self@.skip(from as int));
        r
    }

    /// The path of `name` in the directory at this path.
    pub fn child(&self, name: &[u8]) -> (r: SourcePath)
        ensures
            r@ == self@.push(PartView::Named(name@)),
    {
        let mut r = self.copied();
        let ghost before = r@;
        r.parts.push(PathPart::Named(copy_bytes(name)));
        assert(r@ == before.push(PartView::Named(name@)));
        r
    }

    /// This path as seen from `base`.
    pub fn relative_to(&self, base: &SourcePath) -> (r: SourcePath)
        ensures
            r@ == relative(self@, base@),
    {
        let n = base.parts.len();
        if n > self.parts.len() {
            return self.copied();
        }
        for i in 0..n
            invariant
                n == base.parts@.len(),
                n <= self.parts@.len(),
                forall|j: int| 0 <= j < i ==> self@[j] == base@[j],
        {
            if !self.parts[i].is_same(&base.parts[i]) {
                assert(self@.subrange(0, n as int)[i as int] != base@[i as int]);
                return self.copied();
            }
        }
        assert(base@.is_prefix_of(self@));
        self.part_range(n)
    }

    /// The path as it is shown.
    pub fn display(&self) -> (r: String)
        ensures
            r@ == path_text(self@),
    {
        let ghost shown = self@.map_values(|part: PartView| part_text(part));
        let mut texts: Vec<String> = Vec::new();
        for i in 0..self.parts.len()
            invariant
                shown == self@.map_values(|part: PartView| part_text(part)),
                texts@.len() == i,
                forall|j: int| 0 <= j < i ==> (#[trigger] texts@[j])@ == shown[j],
        {
            texts.push(self.parts[i].display());
        }
        assert(text::views(texts@) =~= shown);
        assert(self.parts@.len() > 0 ==> self@[0] == self.parts@[0]@);
        let rooted = self.parts.len() > 0 && self.parts[0].is_same(&PathPart::Root);
        join_parts(texts.as_slice(), rooted)
    }
}

/// Whether `r` holds the paths of `all`, each as often as `all` does, in order.
pub open spec fn sorts(all: Seq<PathView>, r: Seq<PathView>) -> bool {
    &&& sorted_by(r, path_order())
    &&& r.to_multiset() == all.to_multiset()
}

fn insert_path(sorted: &mut Vec<SourcePath>, path: SourcePath)
    requires
        sorted_by(path_views(old(sorted)@), path_order()),
    ensures
        sorted_by(path_views(final(sorted)@), path_order()),
        path_views(final(sorted)@).to_multiset() == path_views(old(sorted)@).to_multiset().insert(
            path@,
        ),
{
    let ghost before = path_views(sorted@);
    let ghost p = path@;
    let ghost leq = path_order();
    proof {
        path_order_is_total();
    }
    let mut i: usize = sorted.len();
    while i > 0 && path.comes_before(&sorted[i - 1])
        invariant
            i <= sorted@.len(),
            p == path@,
            before == path_views(sorted@),
            leq == path_order(),
            forall|j: int| i <= j < before.len() ==> leq(p, #[trigger] before[j]),
        decreases i,
    {
        assert(before[i - 1] == sorted@[i - 1]@);
        i -= 1;
    }
    assert forall|j: int| 0 <= j < i implies leq(#[trigger] before[j], p) by {
        assert(before[i - 1] == sorted@[i - 1]@);
        assert(leq(before[i - 1], p) || leq(p, before[i - 1]));
        if j < i - 1 {
            assert(leq(before[j], before[i - 1]));
        }
    }
    sorted.insert(i, path);
    let ghost after = path_views(sorted@);
    assert(after == before.insert(i as int, p));
    assert(sorted_by(after, leq)) by {
        assert forall|j: int, k: int| 0 <= j < k < after.len() implies #[trigger] leq(
            after[j],
            after[k],
        ) by {
            if j < i && k < i {
                assert(leq(before[j], before[k]));
            } else if j < i && k > i {
                assert(leq(before[j], before[k - 1]));
            } else if j > i {
                assert(leq(before[j - 1], before[k - 1]));
            }
        }
    }
    proof {
        vstd::seq_lib::to_multiset_insert(before, i as int, p);
    }
}

/// Puts paths in order.
pub fn sort_paths(paths: Vec<SourcePath>) -> (r: Vec<SourcePath>)
    ensures
        sorts(path_views(paths@), path_views(r@)),
{
    let ghost all = path_views(paths@);
    let mut left = paths;
    let mut r: Vec<SourcePath> = Vec::new();
    proof {
        broadcast use vstd::multiset::group_multiset_axioms;

        assert(path_views(r@) == Seq::<PathView>::empty());
        vstd::seq_lib::to_multiset_len(path_views(r@));
        assert(path_views(r@).to_multiset() =~= vstd::multiset::Multiset::empty());
        assert(path_views(left@).to_multiset().add(path_views(r@).to_multiset())
            =~= all.to_multiset());
    }
    while left.len() > 0
        invariant
            path_views(left@).to_multiset().add(path_views(r@).to_multiset()) == all.to_multiset(),
            sorted_by(path_views(r@), path_order()),
        decreases left@.len(),
    {
        broadcast use vstd::multiset::group_multiset_axioms;

        let ghost rest = path_views(left@);
        let ghost done = path_views(r@).to_multiset();
        let path = left.pop().unwrap();
        assert(rest == path_views(left@).push(path@));
        proof {
            vstd::seq_lib::to_multiset_build(path_views(left@), path@);
        }
        insert_path(&mut r, path);
        assert(path_views(left@).to_multiset().add(done.insert(path@)) =~= path_views(
            left@,
        ).to_multiset().insert(path@).add(done));
    }
    proof {
        broadcast use vstd::multiset::group_multiset_axioms;

        assert(path_views(left@) == Seq::<PathView>::empty());
        vstd::seq_lib::to_multiset_len(path_views(left@));
        assert(path_views(left@).to_multiset() =~= vstd::multiset::Multiset::empty());
        assert(path_views(r@).to_multiset() =~= all.to_multiset());
    }
    r
}

/// There is one way to put paths in order.
pub proof fn sorting_is_unique(all: Seq<PathView>, a: Seq<PathView>, b: Seq<PathView>)
    requires
        sorts(all, a),
        sorts(all, b),
    ensures
        a == b,
{
    path_order_is_total();
    vstd::seq_lib::lemma_sorted_unique(a, b, path_order());
}

/// `s` with each path that equals the one before it taken out.
pub open spec fn without_repeats(s: Seq<PathView>) -> Seq<PathView>
    decreases s.len(),
{
    if s.len() < 2 {
        s
    } else if s[s.len() - 2] == s.last() {
        without_repeats(s.drop_last())
    } else {
        without_repeats(s.drop_last()).push(s.last())
    }
}

proof fn without_repeats_ends_alike(s: Seq<PathView>)
    requires
        s.len() > 0,
    ensures
        without_repeats(s).len() > 0,
        without_repeats(s).last() == s.last(),
    decreases s.len(),
{
    if s.len() >= 2 {
        without_repeats_ends_alike(s.drop_last());
    }
}

/// Takes each path out that equals the one before it.
pub fn remove_repeats(paths: Vec<SourcePath>) -> (r: Vec<SourcePath>)
    ensures
        path_views(r@) == without_repeats(path_views(paths@)),
{
    let ghost all = path_views(paths@);
    let mut r: Vec<SourcePath> = Vec::new();
    for i in 0..paths.len()
        invariant
            all == path_views(paths@),
            path_views(r@) == without_repeats(all.take(i as int)),
    {
        let ghost so_far = all.take(i + 1);
        let ghost before = path_views(r@);
        assert(so_far.drop_last() == all.take(i as int));
        assert(so_far.last() == paths@[i as int]@);
        if i == 0 || !paths[i - 1].is_same(&paths[i]) {
            assert(i > 0 ==> so_far[so_far.len() - 2] == paths@[i - 1]@);
            r.push(paths[i].copied());
            assert(path_views(r@) == before.push(so_far.last()));
            if i == 0 {
                assert(so_far == seq![so_far.last()]);
                assert(before == Seq::<PathView>::empty());
            }
        } else {
            assert(so_far[so_far.len() - 2] == paths@[i - 1]@);
        }
        assert(path_views(r@) == without_repeats(so_far));
    }
    assert(all.take(paths@.len() as int) == all);
    r
}

/// Taking the repeats out of sorted paths keeps every path, and leaves each
/// once and in order.
pub proof fn sorted_paths_stay_once(s: Seq<PathView>)
    requires
        sorted_by(s, path_order()),
    ensures
        forall|p: PathView| without_repeats(s).contains(p) <==> s.contains(p),
        forall|i: int, j: int|
            0 <= i < j < without_repeats(s).len() ==> path_before(
                #[trigger] without_repeats(s)[i],
                #[trigger] without_repeats(s)[j],
            ),
    decreases s.len(),
{
    let r = without_repeats(s);
    let leq = path_order();
    if s.len() >= 2 {
        let front = s.drop_last();
        let shorter = without_repeats(front);
        assert forall|i: int, j: int| 0 <= i < j < front.len() implies #[trigger] leq(
            front[i],
            front[j],
        ) by {
            assert(leq(s[i], s[j]));
        }
        sorted_paths_stay_once(front);
        without_repeats_ends_alike(front);
        assert(front.last() == s[s.len() - 2]);
        assert(leq(s[s.len() - 2], s[s.len() - 1]));
        assert forall|p: PathView| s.contains(p) implies front.contains(p) || p == s.last() by {
            let i = choose|i: int| 0 <= i < s.len() && s[i] == p;
            if i < s.len() - 1 {
                assert(front[i] == p);
            }
        }
        assert forall|p: PathView| front.contains(p) implies s.contains(p) by {
            let i = choose|i: int| 0 <= i < front.len() && front[i] == p;
            assert(s[i] == p);
        }
        assert(s.contains(s.last())) by {
            assert(s[s.len() - 1] == s.last());
        }
        assert(front.contains(front.last())) by {
            assert(front[front.len() - 1] == front.last());
        }
        if s[s.len() - 2] == s.last() {
            assert(r == shorter);
        } else {
            assert(r == shorter.push(s.last()));
            assert forall|p: PathView| r.contains(p) <==> s.contains(p) by {
                if r.contains(p) {
                    let i = choose|i: int| 0 <= i < r.len() && r[i] == p;
                    if i < shorter.len() {
                        assert(shorter[i] == p);
                    }
                }
                if s.contains(p) {
                    if front.contains(p) {
                        assert(shorter.contains(p));
                        let i = choose|i: int| 0 <= i < shorter.len() && shorter[i] == p;
                        assert(r[i] == p);
                    } else {
                        assert(r[r.len() - 1] == p);
                    }
                }
            }
            assert forall|i: int, j: int| 0 <= i < j < r.len() implies path_before(
                #[trigger] r[i],
                #[trigger] r[j],
            ) by {
                if j < shorter.len() {
                    assert(path_before(shorter[i], shorter[j]));
                } else {
                    let last = shorter.last();
                    assert(path_before(last, s.last()));
                    if i < shorter.len() - 1 {
                        assert(path_before(shorter[i], shorter[shorter.len() - 1]));
                        part_less_is_strict();
                        lex_before_transitive(shorter[i], last, s.last(), part_less());
                    }
                }
            }
        }
    }
}

/// Whether `a` and `b` agree in their first `k` elements and part there.
pub open spec fn part_at<T>(a: Seq<T>, b: Seq<T>, k: int) -> bool {
    &&& 0 <= k <= a.len()
    &&& k < b.len()
    &&& forall|i: int| 0 <= i < k ==> #[trigger] a[i] == b[i]
}

proof fn lex_before_at_first_difference<T>(a: Seq<T>, b: Seq<T>, less: spec_fn(T, T) -> bool)
    ensures
        lex_before(a, b, less) <==> exists|k: int| #[trigger]
            part_at(a, b, k) && (k == a.len() || less(a[k], b[k])),
    decreases a.len(),
{
    if b.len() == 0 {
    } else if a.len() == 0 {
        assert(part_at(a, b, 0));
    } else {
        let x = a.skip(1);
        let y = b.skip(1);
        lex_before_at_first_difference(x, y, less);
        if lex_before(a, b, less) {
            if less(a[0], b[0]) {
                assert(part_at(a, b, 0));
            } else {
                let k = choose|k: int| #[trigger]
                    part_at(x, y, k) && (k == x.len() || less(x[k], y[k]));
                assert(part_at(a, b, k + 1)) by {
                    assert forall|i: int| 0 <= i < k + 1 implies #[trigger] a[i] == b[i] by {
                        if i > 0 {
                            assert(x[i - 1] == y[i - 1]);
                        }
                    }
                }
            }
        }
        if exists|k: int| #[trigger] part_at(a, b, k) && (k == a.len() || less(a[k], b[k])) {
            let k = choose|k: int| #[trigger]
                part_at(a, b, k) && (k == a.len() || less(a[k], b[k]));
            if k > 0 {
                assert(a[0] == b[0]);
                assert(part_at(x, y, k - 1)) by {
                    assert forall|i: int| 0 <= i < k - 1 implies #[trigger] x[i] == y[i] by {
                        assert(a[i + 1] == b[i + 1]);
                    }
                }
            }
        }
    }
}

/// One component comes before another where it is the root and the other is
/// not; then the current directory before any other, then the parent directory
/// before any name; and a name before another that has the greater byte where
/// they first differ, or that goes on where the first ends.
pub proof fn components_are_ordered(x: PartView, y: PartView)
    ensures
        part_less()(x, y) <==> match (x, y) {
            (_, PartView::Root) => false,
            (PartView::Root, _) => true,
            (_, PartView::Current) => false,
            (PartView::Current, _) => true,
            (_, PartView::Parent) => false,
            (PartView::Parent, _) => true,
            (PartView::Named(a), PartView::Named(b)) => exists|k: int| #[trigger]
                part_at(a, b, k) && (k == a.len() || a[k] < b[k]),
        },
{
    if let (PartView::Named(a), PartView::Named(b)) = (x, y) {
        lex_before_at_first_difference(a, b, byte_less());
        if lex_before(a, b, byte_less()) {
            let k = choose|k: int| #[trigger]
                part_at(a, b, k) && (k == a.len() || byte_less()(a[k], b[k]));
            assert(part_at(a, b, k) && (k == a.len() || a[k] < b[k]));
        }
        if exists|k: int| #[trigger] part_at(a, b, k) && (k == a.len() || a[k] < b[k]) {
            let k = choose|k: int| #[trigger] part_at(a, b, k) && (k == a.len() || a[k] < b[k]);
            assert(part_at(a, b, k) && (k == a.len() || byte_less()(a[k], b[k])));
        }
    }
}

/// Paths are ordered by the first component in which they differ, and a path
/// comes before those that go on from it. Sorting puts no path behind one that
/// comes after it, and keeps each as often as it was there.
pub proof fn paths_are_ordered(a: PathView, b: PathView, all: Seq<PathView>, r: Seq<PathView>)
    ensures
        path_before(a, b) <==> exists|k: int| #[trigger]
            part_at(a, b, k) && (k == a.len() || part_less()(a[k], b[k])),
        sorts(all, r) <==> {
            &&& r.to_multiset() == all.to_multiset()
            &&& forall|i: int, j: int|
                0 <= i < j < r.len() ==> #[trigger] r[i] == #[trigger] r[j] || path_before(r[i], r[j])
        },
{
    lex_before_at_first_difference(a, b, part_less());
    let leq = path_order();
    if sorts(all, r) {
        assert forall|i: int, j: int| 0 <= i < j < r.len() implies #[trigger] r[i]
            == #[trigger] r[j] || path_before(r[i], r[j]) by {
            assert(leq(r[i], r[j]));
        }
    }
    if forall|i: int, j: int|
        0 <= i < j < r.len() ==> #[trigger] r[i] == #[trigger] r[j] || path_before(r[i], r[j]) {
        assert forall|i: int, j: int| 0 <= i < j < r.len() implies #[trigger] leq(r[i], r[j]) by {
            assert(r[i] == r[j] || path_before(r[i], r[j]));
        }
    }
}

/// A path below a directory is seen from there as what follows the directory,
/// whatever the directory is; any other path as itself.
pub proof fn seen_from_a_directory(base: PathView, rest: PathView, p: PathView)
    ensures
        relative(base + rest, base) == rest,
        relative(p, base) == p || base + relative(p, base) == p,
        !(exists|r: PathView| p == #[trigger] (base + r)) ==> relative(p, base) == p,
{
    let q = base + rest;
    assert(q.subrange(0, base.len() as int) =~= base);
    assert(base.is_prefix_of(q));
    assert(q.skip(base.len() as int) =~= rest);
    if base.is_prefix_of(p) {
        assert(base + p.skip(base.len() as int) =~= p) by {
            assert forall|i: int| 0 <= i < base.len() implies p[i] == base[i] by {
                assert(p.subrange(0, base.len() as int)[i] == base[i]);
            }
        }
    }
}

/// A path is shown component by component, with one slash between each two; the
/// root is a slash itself, so that none is put behind it. Each component is shown
/// as its name reads.
pub proof fn paths_are_shown_by_component(p: PathView, part: PartView, name: Seq<char>)
    ensures
        path_text(Seq::empty()) == Seq::<char>::empty(),
        path_text(seq![part]) == part_text(part),
        p.len() > 0 && p != seq![PartView::Root] ==> path_text(p.push(part)) == path_text(p)
            + seq!['/'] + part_text(part),
        path_text(seq![PartView::Root, part]) == seq!['/'] + part_text(part),
        part_text(PartView::Root) == seq!['/'],
        part_text(PartView::Current) == seq!['.'],
        part_text(PartView::Parent) == seq!['.', '.'],
        part_text(PartView::Named(vstd::utf8::encode_utf8(name))) == name,
        forall|bytes: Seq<u8>| #[trigger]
            part_text(PartView::Named(bytes)) == decoding::decoded(bytes),
{
    reveal_strlit("/");
    reveal_strlit(".");
    reveal_strlit("..");
    decoding::encoded_text_is_decoded(name);
    assert("/"@ =~= seq!['/']);
    assert("."@ =~= seq!['.']);
    assert(".."@ =~= seq!['.', '.']);
    let f = |x: PartView| part_text(x);
    assert(Seq::<PartView>::empty().map_values(f) =~= Seq::<Seq<char>>::empty());
    assert(seq![part].map_values(f) =~= seq![part_text(part)]);
    components_are_joined(Seq::empty(), part_text(part), is_rooted(seq![part]));
    assert(path_text(seq![part]) =~= part_text(part));
    if p.len() > 0 {
        let ts = p.map_values(f);
        assert(p.push(part).map_values(f) =~= ts.push(part_text(part)));
        assert(is_rooted(p.push(part)) == is_rooted(p));
        components_are_joined(ts, part_text(part), is_rooted(p));
        if p.len() == 1 && is_rooted(p) {
            assert(p =~= seq![PartView::Root]);
        }
        assert(p != seq![PartView::Root] ==> path_text(p.push(part)) =~= path_text(p) + seq!['/']
            + part_text(part));
    }
    let pair = seq![PartView::Root, part];
    assert(pair.map_values(f) =~= seq![part_text(PartView::Root)].push(part_text(part)));
    assert(is_rooted(pair));
    components_are_joined(seq![part_text(PartView::Root)], part_text(part), true);
    components_are_joined(Seq::empty(), part_text(PartView::Root), true);
    assert(Seq::<Seq<char>>::empty().push(part_text(PartView::Root)) =~= seq![
        part_text(PartView::Root),
    ]);
    assert(path_text(pair) =~= seq!['/'] + part_text(part));
}

/// Texts are joined with one slash between each two, but with none behind the
/// first of them where it is that of the root.
pub proof fn components_are_joined(texts: Seq<Seq<char>>, text: Seq<char>, rooted: bool)
    ensures
        slashed(Seq::empty(), rooted) == Seq::<char>::empty(),
        texts.len() == 0 ==> slashed(texts.push(text), rooted) == text,
        texts.len() > 0 ==> slashed(texts.push(text), rooted) == slashed(texts, rooted) + (
        if rooted && texts.len() == 1 {
            Seq::empty()
        } else {
            seq!['/']
        }) + text,
{
    assert(texts.push(text).drop_last() =~= texts);
    assert(texts.push(text).last() == text);
    if texts.len() == 0 {
        reveal_with_fuel(slashed, 2);
        assert(texts =~= Seq::<Seq<char>>::empty());
        assert(slashed(texts.push(text), rooted) =~= text);
    } else {
        assert(slashed(texts.push(text), rooted) =~= slashed(texts, rooted) + (if rooted
            && texts.len() == 1 {
            Seq::empty()
        } else {
            seq!['/']
        }) + text);
    }
}

/// Taking repeats out leaves no two equal neighbours, and leaves a list that
/// has none as it is. A path that stands twice in a row counts as one, wherever
/// it stands.
pub proof fn neighbours_differ(s: Seq<PathView>, p: PathView, rest: Seq<PathView>)
    ensures
        forall|i: int|
            0 < i < without_repeats(s).len() ==> #[trigger] without_repeats(s)[i]
                != without_repeats(s)[i - 1],
        (forall|i: int| 0 < i < s.len() ==> #[trigger] s[i] != s[i - 1]) ==> without_repeats(s)
            == s,
        without_repeats(s.push(p).push(p) + rest) == without_repeats(s.push(p) + rest),
{
    neighbours_differ_in(s);
    repeats_count_as_one(s, p, rest);
}

proof fn neighbours_differ_in(s: Seq<PathView>)
    ensures
        forall|i: int|
            0 < i < without_repeats(s).len() ==> #[trigger] without_repeats(s)[i]
                != without_repeats(s)[i - 1],
        (forall|i: int| 0 < i < s.len() ==> #[trigger] s[i] != s[i - 1]) ==> without_repeats(s)
            == s,
    decreases s.len(),
{
    if s.len() >= 2 {
        let front = s.drop_last();
        let r = without_repeats(s);
        neighbours_differ_in(front);
        without_repeats_ends_alike(front);
        assert(front.last() == s[s.len() - 2]);
        assert forall|i: int| 0 < i < r.len() implies #[trigger] r[i] != r[i - 1] by {
            let shorter = without_repeats(front);
            if i < shorter.len() {
                assert(r[i] == shorter[i]);
                assert(r[i - 1] == shorter[i - 1]);
            } else {
                assert(r[i - 1] == shorter.last());
            }
        }
        if forall|i: int| 0 < i < s.len() ==> #[trigger] s[i] != s[i - 1] {
            assert forall|i: int| 0 < i < front.len() implies #[trigger] front[i]
                != front[i - 1] by {
                assert(s[i] != s[i - 1]);
            }
            assert(s[s.len() - 1] != s[s.len() - 1 - 1]);
            assert(front.push(s.last()) =~= s);
        }
    }
}

proof fn repeats_count_as_one(s: Seq<PathView>, p: PathView, rest: Seq<PathView>)
    ensures
        without_repeats(s.push(p).push(p) + rest) == without_repeats(s.push(p) + rest),
    decreases rest.len(),
{
    let one = s.push(p);
    let two = one.push(p);
    if rest.len() == 0 {
        assert(two + rest =~= two);
        assert(one + rest =~= one);
        assert(two.drop_last() =~= one);
        assert(two[two.len() - 2] == p);
    } else {
        let front = rest.drop_last();
        repeats_count_as_one(s, p, front);
        assert((two + rest).drop_last() =~= two + front);
        assert((one + rest).drop_last() =~= one + front);
        assert((two + rest)[(two + rest).len() - 2] == (two + front).last());
        assert((one + rest)[(one + rest).len() - 2] == (one + front).last());
        assert((two + front).last() == (one + front).last());
        assert((two + rest).last() == rest.last());
        assert((one + rest).last() == rest.last());
    }
}

/// The mathematical form of a path has its components, one for one.
pub proof fn path_is_seen_whole(p: SourcePath, paths: Seq<SourcePath>, name: Vec<u8>)
    ensures
        p@.len() == p.parts@.len(),
        forall|i: int| 0 <= i < p.parts@.len() ==> #[trigger] p@[i] == p.parts@[i]@,
        path_views(paths).len() == paths.len(),
        forall|i: int| 0 <= i < paths.len() ==> #[trigger] path_views(paths)[i] == paths[i]@,
        PathPart::Root@ == PartView::Root,
        PathPart::Current@ == PartView::Current,
        PathPart::Parent@ == PartView::Parent,
        PathPart::Named(name)@ == PartView::Named(name@),
{
}

} // verus!
