//! Which files of a project are its Rust sources.

use vstd::prelude::*;

use crate::decoding::{self, decode};
use crate::paths::{self, remove_repeats, sort_paths, PartView, PathPart, PathView, SourcePath};

verus! {

/// What a directory holds under one name.
#[derive(Debug, PartialEq, Eq)]
pub enum Entry {
    /// Anything but a directory.
    File(Vec<u8>),
    /// A directory and what it holds; nothing where it cannot be read.
    Directory(Vec<u8>, Vec<Entry>),
}

/// Whether a file with this name has the extension `rs`. A name that only
/// consists of the extension has none.
pub open spec fn rust_name(name: Seq<u8>) -> bool {
    &&& name.len() > 3
    &&& name[name.len() - 3] == '.' as u8
    &&& name[name.len() - 2] == 'r' as u8
    &&& name[name.len() - 1] == 's' as u8
}

/// Whether a file with this name has the extension `rs`.
pub fn is_rust_name(name: &[u8]) -> (r: bool)
    ensures
        r == rust_name(name@),
{
    let n = name.len();
    n > 3 && name[n - 3] == '.' as u8 && name[n - 2] == 'r' as u8 && name[n - 1] == 's' as u8
}

/// The Rust files among `entries` of the directory at `dir` and below, in the
/// order in which the entries stand.
pub open spec fn rust_files(dir: PathView, entries: Seq<Entry>) -> Seq<PathView>
    decreases entries,
{
    if entries.len() == 0 {
        Seq::empty()
    } else {
        rust_files(dir, entries.drop_last()) + match entries.last() {
            Entry::File(name) => if rust_name(name@) {
                seq![dir.push(PartView::Named(name@))]
            } else {
                Seq::empty()
            },
            Entry::Directory(name, inner) => rust_files(
                dir.push(PartView::Named(name@)),
                inner@,
            ),
        }
    }
}

/// Appends to `out` the Rust files among `entries` of the directory at `dir`
/// and below.
pub fn collect_rs_files(dir: &SourcePath, entries: &Vec<Entry>, out: &mut Vec<SourcePath>)
    ensures
        paths::path_views(final(out)@) == paths::path_views(old(out)@) + rust_files(
            dir@,
            entries@,
        ),
    decreases entries,
{
    let ghost before = paths::path_views(out@);
    assert(before + rust_files(dir@, entries@.take(0)) == before);
    for i in 0..entries.len()
        invariant
            paths::path_views(out@) == before + rust_files(dir@, entries@.take(i as int)),
    {
        let ghost so_far = entries@.take(i + 1);
        let ghost listed = paths::path_views(out@);
        assert(so_far.drop_last() == entries@.take(i as int));
        assert(so_far.last() == entries@[i as int]);
        match &entries[i] {
            Entry::File(name) => {
                if is_rust_name(name.as_slice()) {
                    let path = dir.child(name.as_slice());
                    let ghost p = path@;
                    out.push(path);
                    assert(paths::path_views(out@) == listed.push(p));
                }
            },
            Entry::Directory(name, inner) => {
                let below = dir.child(name.as_slice());
                collect_rs_files(&below, inner, out);
            },
        }
        assert(paths::path_views(out@) == before + rust_files(dir@, so_far));
    }
    assert(entries@.take(entries@.len() as int) == entries@);
}

/// The path of the directory that holds the sources of the project at `base`.
pub open spec fn source_root(base: PathView) -> PathView {
    base.push(PartView::Named(seq!['s' as u8, 'r' as u8, 'c' as u8]))
}

/// Lists the Rust files of the project at `base`, in order. `src` is what its
/// source directory holds, if there is one.
pub fn list_source_files(base: &SourcePath, src: Option<&Vec<Entry>>) -> (r: Vec<SourcePath>)
    ensures
        match src {
            Some(entries) => paths::sorts(
                rust_files(source_root(base@), entries@),
                paths::path_views(r@),
            ),
            None => r@.len() == 0,
        },
{
    match src {
        Some(entries) => {
            let name: Vec<u8> = vec!['s' as u8, 'r' as u8, 'c' as u8];
            assert(name@ == seq!['s' as u8, 'r' as u8, 'c' as u8]);
            let root = base.child(name.as_slice());
            let mut files: Vec<SourcePath> = Vec::new();
            collect_rs_files(&root, entries, &mut files);
            assert(paths::path_views(files@) == rust_files(source_root(base@), entries@));
            sort_paths(files)
        },
        None => Vec::new(),
    }
}

/// What a path given by the user was found to be.
#[derive(Debug, PartialEq, Eq)]
pub enum Resolved {
    /// It leads nowhere, for the reason given.
    Nowhere(String),
    /// A directory at this path, and what it holds.
    Directory(SourcePath, Vec<Entry>),
    /// A file at this path.
    File(SourcePath),
}

/// A path given by the user, as it was written and as it was resolved.
#[derive(Debug, PartialEq, Eq)]
pub struct Request {
    pub given: Vec<u8>,
    pub resolved: Resolved,
}

/// Whether a file at this path has the extension `rs`.
pub open spec fn rust_path(p: PathView) -> bool {
    p.len() > 0 && match p.last() {
        PartView::Named(name) => rust_name(name),
        _ => false,
    }
}

/// Whether a file at this path has the extension `rs`.
pub fn is_rust_path(path: &SourcePath) -> (r: bool)
    ensures
        r == rust_path(path@),
{
    let n = path.parts.len();
    if n == 0 {
        return false;
    }
    assert(path@.last() == path.parts@[n - 1]@);
    match &path.parts[n - 1] {
        PathPart::Named(name) => is_rust_name(name.as_slice()),
        _ => false,
    }
}

/// Why a path that is shown as `shown` and was found to be `resolved` is
/// refused, if it is.
pub open spec fn objection(shown: Seq<char>, resolved: Resolved) -> Option<Seq<char>> {
    match resolved {
        Resolved::Nowhere(reason) => Some(shown + ": "@ + reason@),
        Resolved::Directory(_, _) => None,
        Resolved::File(path) => if rust_path(path@) {
            None
        } else {
            Some(shown + ": not a .rs file or directory"@)
        },
    }
}

/// Why a path given by the user is refused, if it is.
pub open spec fn refusal(request: Request) -> Option<Seq<char>> {
    objection(decoding::decoded(request.given@), request.resolved)
}

/// Why a path that is shown as `shown` and was found to be `resolved` is
/// refused, if it is.
pub fn refuse(shown: &str, resolved: &Resolved) -> (r: Option<String>)
    ensures
        objection(shown@, *resolved) == match r {
            Some(reason) => Some(reason@),
            None => None,
        },
{
    match resolved {
        Resolved::Nowhere(reason) => {
            let mut message = shown.to_owned();
            message.append(": ");
            message.append(reason.as_str());
            Some(message)
        },
        Resolved::Directory(_, _) => None,
        Resolved::File(path) => if is_rust_path(path) {
            None
        } else {
            Some(shown.to_owned().concat(": not a .rs file or directory"))
        },
    }
}

/// The first refusal among `requests`.
pub open spec fn first_refusal(requests: Seq<Request>) -> Option<Seq<char>>
    decreases requests.len(),
{
    if requests.len() == 0 {
        None
    } else if refusal(requests[0]) is Some {
        refusal(requests[0])
    } else {
        first_refusal(requests.skip(1))
    }
}

/// The Rust files that a path given by the user stands for.
pub open spec fn requested(request: Request) -> Seq<PathView> {
    match request.resolved {
        Resolved::Nowhere(_) => Seq::empty(),
        Resolved::Directory(path, entries) => rust_files(path@, entries@),
        Resolved::File(path) => seq![path@],
    }
}

/// The Rust files that the paths given by the user stand for, one path after
/// the other.
pub open spec fn all_requested(requests: Seq<Request>) -> Seq<PathView>
    decreases requests.len(),
{
    if requests.len() == 0 {
        Seq::empty()
    } else {
        all_requested(requests.drop_last()) + requested(requests.last())
    }
}

/// Whether `r` is what the files `all` come to once they are sorted and each
/// is kept once.
pub open spec fn sorts_once(all: Seq<PathView>, r: Seq<PathView>) -> bool {
    exists|sorted: Seq<PathView>| #[trigger]
        paths::sorts(all, sorted) && r == paths::without_repeats(sorted)
}

/// Lists the Rust files that the paths given by the user stand for, in order
/// and each once, or says why the first unusable path is refused.
pub fn filter_source_files(requests: &[Request]) -> (r: Result<Vec<SourcePath>, String>)
    ensures
        match r {
            Ok(files) => {
                &&& first_refusal(requests@) is None
                &&& sorts_once(all_requested(requests@), paths::path_views(files@))
            },
            Err(reason) => first_refusal(requests@) == Some(reason@),
        },
{
    let mut files: Vec<SourcePath> = Vec::new();
    assert(requests@.skip(0) == requests@);
    for i in 0..requests.len()
        invariant
            first_refusal(requests@) == first_refusal(requests@.skip(i as int)),
            paths::path_views(files@) == all_requested(requests@.take(i as int)),
    {
        let ghost listed = paths::path_views(files@);
        let request = &requests[i];
        assert(requests@.skip(i as int)[0] == *request);
        assert(requests@.skip(i as int).skip(1) == requests@.skip(i + 1));
        assert(requests@.take(i + 1).drop_last() == requests@.take(i as int));
        assert(requests@.take(i + 1).last() == *request);
        if let Some(reason) = refuse(decode(request.given.as_slice()).as_str(), &request.resolved) {
            return Err(reason);
        }
        match &request.resolved {
            Resolved::Nowhere(_) => {},
            Resolved::Directory(path, entries) => {
                collect_rs_files(path, entries, &mut files);
            },
            Resolved::File(path) => {
                files.push(path.copied());
                assert(paths::path_views(files@) == listed.push(path@));
                assert(listed.push(path@) == listed + seq![path@]);
            },
        }
    }
    assert(requests@.take(requests@.len() as int) == requests@);
    let sorted = sort_paths(files);
    let once = remove_repeats(sorted);
    assert(paths::sorts(all_requested(requests@), paths::path_views(sorted@)));
    Ok(once)
}

/// A path below a directory that goes through the given names.
pub open spec fn below(dir: PathView, names: Seq<Seq<u8>>) -> PathView {
    dir + names.map_values(|n: Seq<u8>| PartView::Named(n))
}

/// Whether there is a file under `entries` that one comes to through the given
/// names.
pub open spec fn holds_file(entries: Seq<Entry>, names: Seq<Seq<u8>>) -> bool
    decreases names.len(),
{
    exists|i: int|
        0 <= i < entries.len() && match #[trigger] entries[i] {
            Entry::File(name) => names.len() == 1 && names[0] == name@,
            Entry::Directory(name, inner) => {
                &&& names.len() > 1
                &&& names[0] == name@
                &&& holds_file(inner@, names.skip(1))
            },
        }
}

spec fn lists(dir: PathView, entry: Entry, p: PathView) -> bool {
    match entry {
        Entry::File(name) => rust_name(name@) && p == dir.push(PartView::Named(name@)),
        Entry::Directory(name, inner) => rust_files(
            dir.push(PartView::Named(name@)),
            inner@,
        ).contains(p),
    }
}

proof fn listed_by_some_entry(dir: PathView, entries: Seq<Entry>, p: PathView)
    ensures
        rust_files(dir, entries).contains(p) <==> exists|i: int|
            0 <= i < entries.len() && lists(dir, #[trigger] entries[i], p),
    decreases entries.len(),
{
    if entries.len() > 0 {
        let front = entries.drop_last();
        let last = entries.last();
        let a = rust_files(dir, front);
        let all = rust_files(dir, entries);
        let b = all.skip(a.len() as int);
        assert(all == a + b);
        listed_by_some_entry(dir, front, p);
        assert(lists(dir, last, p) <==> b.contains(p)) by {
            if let Entry::File(name) = last {
                if rust_name(name@) {
                    assert(b == seq![dir.push(PartView::Named(name@))]);
                    assert(b[0] == dir.push(PartView::Named(name@)));
                } else {
                    assert(b == Seq::<PathView>::empty());
                }
            } else if let Entry::Directory(name, inner) = last {
                assert(b == rust_files(dir.push(PartView::Named(name@)), inner@));
            }
        }
        assert(all.contains(p) <==> a.contains(p) || b.contains(p)) by {
            if all.contains(p) {
                let i = choose|i: int| 0 <= i < all.len() && all[i] == p;
                if i < a.len() {
                    assert(a[i] == p);
                } else {
                    assert(b[i - a.len()] == p);
                }
            }
            if a.contains(p) {
                let i = choose|i: int| 0 <= i < a.len() && a[i] == p;
                assert(all[i] == p);
            }
            if b.contains(p) {
                let i = choose|i: int| 0 <= i < b.len() && b[i] == p;
                assert(all[a.len() + i] == p);
            }
        }
        if a.contains(p) {
            let i = choose|i: int| 0 <= i < front.len() && lists(dir, #[trigger] front[i], p);
            assert(entries[i] == front[i]);
        }
        if b.contains(p) {
            assert(lists(dir, entries[entries.len() - 1], p));
        }
        if exists|i: int| 0 <= i < entries.len() && lists(dir, #[trigger] entries[i], p) {
            let i = choose|i: int| 0 <= i < entries.len() && lists(dir, #[trigger] entries[i], p);
            if i < front.len() {
                assert(front[i] == entries[i]);
            }
        }
    }
}

proof fn listed_below(dir: PathView, entries: Seq<Entry>, p: PathView)
    requires
        rust_files(dir, entries).contains(p),
    ensures
        dir.is_prefix_of(p),
        p.len() > dir.len(),
        forall|i: int| dir.len() <= i < p.len() ==> #[trigger] p[i] is Named,
    decreases entries,
{
    listed_by_some_entry(dir, entries, p);
    let i = choose|i: int| 0 <= i < entries.len() && lists(dir, #[trigger] entries[i], p);
    match entries[i] {
        Entry::File(name) => {
            assert(dir.is_prefix_of(p));
        },
        Entry::Directory(name, inner) => {
            let deeper = dir.push(PartView::Named(name@));
            listed_below(deeper, inner@, p);
            assert(p.subrange(0, dir.len() as int) =~= dir) by {
                assert(p.subrange(0, deeper.len() as int) == deeper);
                assert forall|j: int| 0 <= j < dir.len() implies p[j] == dir[j] by {
                    assert(p[j] == p.subrange(0, deeper.len() as int)[j]);
                }
            }
            assert forall|j: int| dir.len() <= j < p.len() implies #[trigger] p[j] is Named by {
                if j == dir.len() {
                    assert(p[j] == p.subrange(0, deeper.len() as int)[j]);
                }
            }
        },
    }
}

/// The Rust files listed below a directory are exactly the files that it
/// holds, however deep, under a name with the extension `rs`.
pub proof fn every_rust_file_is_listed(dir: PathView, entries: Seq<Entry>, names: Seq<Seq<u8>>)
    requires
        names.len() > 0,
    ensures
        rust_files(dir, entries).contains(below(dir, names)) <==> holds_file(entries, names)
            && rust_name(names.last()),
    decreases names.len(),
{
    let p = below(dir, names);
    listed_by_some_entry(dir, entries, p);
    assert(p[dir.len() as int] == PartView::Named(names[0]));
    assert forall|i: int| 0 <= i < entries.len() implies (lists(dir, #[trigger] entries[i], p)
        <==> rust_name(names.last()) && match entries[i] {
        Entry::File(name) => names.len() == 1 && names[0] == name@,
        Entry::Directory(name, inner) => {
            &&& names.len() > 1
            &&& names[0] == name@
            &&& holds_file(inner@, names.skip(1))
        },
    }) by {
        match entries[i] {
            Entry::File(name) => {
                let q = dir.push(PartView::Named(name@));
                if p == q {
                    assert(p.len() == q.len());
                    assert(q[dir.len() as int] == PartView::Named(name@));
                }
                if names.len() == 1 && names[0] == name@ {
                    assert(p =~= q);
                }
            },
            Entry::Directory(name, inner) => {
                let deeper = dir.push(PartView::Named(name@));
                if lists(dir, entries[i], p) {
                    listed_below(deeper, inner@, p);
                    assert(p[dir.len() as int] == p.subrange(0, deeper.len() as int)[
                    dir.len() as int]);
                    assert(names[0] == name@);
                    assert(names.len() > 1);
                }
                if names.len() > 1 && names[0] == name@ {
                    every_rust_file_is_listed(deeper, inner@, names.skip(1));
                    assert(below(deeper, names.skip(1)) =~= p);
                    assert(names.skip(1).last() == names.last());
                }
            },
        }
    }
    if holds_file(entries, names) && rust_name(names.last()) {
        let i = choose|i: int|
            0 <= i < entries.len() && match #[trigger] entries[i] {
                Entry::File(name) => names.len() == 1 && names[0] == name@,
                Entry::Directory(name, inner) => {
                    &&& names.len() > 1
                    &&& names[0] == name@
                    &&& holds_file(inner@, names.skip(1))
                },
            };
        assert(lists(dir, entries[i], p));
    }
    if rust_files(dir, entries).contains(p) {
        let i = choose|i: int| 0 <= i < entries.len() && lists(dir, #[trigger] entries[i], p);
        assert(holds_file(entries, names));
    }
}

/// Everything listed below a directory is a Rust file that lies below it.
pub proof fn only_rust_files_are_listed(dir: PathView, entries: Seq<Entry>, p: PathView)
    requires
        rust_files(dir, entries).contains(p),
    ensures
        rust_path(p),
        exists|names: Seq<Seq<u8>>|
            names.len() > 0 && p == #[trigger] below(dir, names) && holds_file(entries, names),
{
    listed_below(dir, entries, p);
    let names = Seq::new(
        (p.len() - dir.len()) as nat,
        |i: int| p[dir.len() + i]->Named_0,
    );
    assert(below(dir, names) =~= p) by {
        assert forall|j: int| 0 <= j < p.len() implies below(dir, names)[j] == p[j] by {
            if j < dir.len() {
                assert(p[j] == p.subrange(0, dir.len() as int)[j]);
            } else {
                assert(p[j] is Named);
                assert(names[j - dir.len()] == p[j]->Named_0);
            }
        }
    }
    every_rust_file_is_listed(dir, entries, names);
    assert(p.last() == PartView::Named(names.last()));
}

/// The name of an entry.
pub open spec fn entry_name(entry: Entry) -> Seq<u8> {
    match entry {
        Entry::File(name) => name@,
        Entry::Directory(name, _) => name@,
    }
}

/// Whether no directory holds two entries of one name, here and below.
pub open spec fn names_differ(entries: Seq<Entry>) -> bool
    decreases entries,
{
    &&& forall|i: int, j: int|
        0 <= i < j < entries.len() ==> entry_name(#[trigger] entries[i]) != entry_name(
            #[trigger] entries[j],
        )
    &&& forall|i: int|
        0 <= i < entries.len() ==> match #[trigger] entries[i] {
            Entry::File(_) => true,
            Entry::Directory(_, inner) => names_differ(inner@),
        }
}

proof fn listed_under_its_entry(dir: PathView, entry: Entry, p: PathView)
    requires
        lists(dir, entry, p),
    ensures
        p.len() > dir.len(),
        p[dir.len() as int] == PartView::Named(entry_name(entry)),
{
    if let Entry::Directory(name, inner) = entry {
        let deeper = dir.push(PartView::Named(name@));
        listed_below(deeper, inner@, p);
        assert(p[dir.len() as int] == p.subrange(0, deeper.len() as int)[dir.len() as int]);
    }
}

proof fn walk_lists_no_file_twice(dir: PathView, entries: Seq<Entry>)
    requires
        names_differ(entries),
    ensures
        rust_files(dir, entries).no_duplicates(),
    decreases entries,
{
    if entries.len() > 0 {
        let front = entries.drop_last();
        let last = entries[entries.len() - 1];
        let a = rust_files(dir, front);
        let all = rust_files(dir, entries);
        let b = all.skip(a.len() as int);
        assert(all == a + b);
        assert(names_differ(front)) by {
            assert forall|i: int, j: int| 0 <= i < j < front.len() implies entry_name(
                #[trigger] front[i],
            ) != entry_name(#[trigger] front[j]) by {
                assert(front[i] == entries[i] && front[j] == entries[j]);
            }
            assert forall|i: int| 0 <= i < front.len() implies match #[trigger] front[i] {
                Entry::File(_) => true,
                Entry::Directory(_, inner) => names_differ(inner@),
            } by {
                assert(front[i] == entries[i]);
            }
        }
        walk_lists_no_file_twice(dir, front);
        if let Entry::Directory(name, inner) = last {
            walk_lists_no_file_twice(dir.push(PartView::Named(name@)), inner@);
            assert(b == rust_files(dir.push(PartView::Named(name@)), inner@));
        }
        assert(b.no_duplicates());
        assert forall|i: int, j: int| 0 <= i < a.len() && 0 <= j < b.len() implies a[i] != b[j] by {
            let p = a[i];
            assert(a.contains(p));
            listed_by_some_entry(dir, front, p);
            let k = choose|k: int| 0 <= k < front.len() && lists(dir, #[trigger] front[k], p);
            listed_under_its_entry(dir, front[k], p);
            assert(front[k] == entries[k]);
            if p == b[j] {
                assert(b.contains(p));
                assert(lists(dir, last, p));
                listed_under_its_entry(dir, last, p);
            }
        }
    }
}

/// Where no directory holds two entries of one name, no file is listed twice,
/// neither in the order of the entries nor sorted.
pub proof fn no_file_is_listed_twice(dir: PathView, entries: Seq<Entry>, r: Seq<PathView>)
    requires
        names_differ(entries),
    ensures
        rust_files(dir, entries).no_duplicates(),
        paths::sorts(rust_files(dir, entries), r) ==> r.no_duplicates(),
{
    let all = rust_files(dir, entries);
    walk_lists_no_file_twice(dir, entries);
    if paths::sorts(all, r) {
        all.lemma_multiset_has_no_duplicates();
        r.lemma_multiset_has_no_duplicates_conv();
    }
}

/// Sorting neither adds nor drops a file.
pub proof fn sorting_keeps_files(all: Seq<PathView>, r: Seq<PathView>)
    requires
        paths::sorts(all, r),
    ensures
        forall|p: PathView| r.contains(p) <==> all.contains(p),
        r.len() == all.len(),
{
    vstd::seq_lib::to_multiset_len(all);
    vstd::seq_lib::to_multiset_len(r);
    assert forall|p: PathView| r.contains(p) <==> all.contains(p) by {
        vstd::seq_lib::to_multiset_contains(all, p);
        vstd::seq_lib::to_multiset_contains(r, p);
    }
}

/// The files that the user asks for are listed in order, each once, whatever
/// overlaps there are between the paths given.
pub proof fn requested_files_are_listed_once(all: Seq<PathView>, r: Seq<PathView>)
    requires
        sorts_once(all, r),
    ensures
        forall|p: PathView| r.contains(p) <==> all.contains(p),
        forall|i: int, j: int|
            0 <= i < j < r.len() ==> paths::path_before(#[trigger] r[i], #[trigger] r[j]),
        r.no_duplicates(),
{
    let sorted = choose|sorted: Seq<PathView>| #[trigger]
        paths::sorts(all, sorted) && r == paths::without_repeats(sorted);
    sorting_keeps_files(all, sorted);
    paths::sorted_paths_stay_once(sorted);
    paths::path_order_is_total();
    assert forall|i: int, j: int| 0 <= i < r.len() && 0 <= j < r.len() && i != j implies r[i]
        != r[j] by {
        if i < j {
            assert(paths::path_before(r[i], r[j]));
        } else {
            assert(paths::path_before(r[j], r[i]));
        }
    }
}

/// There is one way to sort files and keep each once.
pub proof fn sorting_once_is_unique(all: Seq<PathView>, a: Seq<PathView>, b: Seq<PathView>)
    requires
        sorts_once(all, a),
        sorts_once(all, b),
    ensures
        a == b,
{
    let x = choose|s: Seq<PathView>| #[trigger]
        paths::sorts(all, s) && a == paths::without_repeats(s);
    let y = choose|s: Seq<PathView>| #[trigger]
        paths::sorts(all, s) && b == paths::without_repeats(s);
    paths::sorting_is_unique(all, x, y);
}

/// A name has the extension exactly where it is a name that is not empty with a
/// dot, an `r` and an `s` behind it.
pub proof fn extension_is_rs(name: Seq<u8>)
    ensures
        rust_name(name) <==> exists|stem: Seq<u8>|
            stem.len() > 0 && name == (#[trigger] stem.push(46u8)).push(114u8).push(115u8),
        forall|p: PathView| #[trigger]
            rust_path(p.push(PartView::Named(name))) == rust_name(name),
{
    if rust_name(name) {
        let stem = name.take(name.len() - 3);
        assert(name =~= stem.push(46u8).push(114u8).push(115u8));
    }
    assert forall|p: PathView| #[trigger] rust_path(p.push(PartView::Named(name))) == rust_name(
        name,
    ) by {
        assert(p.push(PartView::Named(name)).last() == PartView::Named(name));
    }
}

/// The sources of a project lie in its directory `src`.
pub proof fn sources_lie_in_src(base: PathView)
    ensures
        source_root(base) == base + seq![PartView::Named(seq![115u8, 114u8, 99u8])],
{
    assert(source_root(base) =~= base + seq![PartView::Named(seq![115u8, 114u8, 99u8])]);
}

/// The files below a directory are listed entry by entry: those of two lists of
/// entries are those of the one and then those of the other, a file with the
/// extension is listed itself, any other file is not, and for a directory the
/// files below it are.
pub proof fn entries_are_walked_one_by_one(
    dir: PathView,
    a: Seq<Entry>,
    b: Seq<Entry>,
    name: Vec<u8>,
    inner: Vec<Entry>,
)
    ensures
        rust_files(dir, a + b) == rust_files(dir, a) + rust_files(dir, b),
        rust_files(dir, Seq::empty()) == Seq::<PathView>::empty(),
        rust_files(dir, seq![Entry::File(name)]) == if rust_name(name@) {
            seq![dir + seq![PartView::Named(name@)]]
        } else {
            Seq::empty()
        },
        rust_files(dir, seq![Entry::Directory(name, inner)]) == rust_files(
            dir + seq![PartView::Named(name@)],
            inner@,
        ),
    decreases b.len(),
{
    let none = Seq::<Entry>::empty();
    let below = dir.push(PartView::Named(name@));
    assert(dir + seq![PartView::Named(name@)] =~= below);
    let file = seq![Entry::File(name)];
    assert(file.drop_last() =~= none);
    assert(file.last() == Entry::File(name));
    assert(rust_files(dir, none) =~= Seq::<PathView>::empty());
    assert(rust_files(dir, file) =~= if rust_name(name@) {
        seq![below]
    } else {
        Seq::empty()
    });
    let held = seq![Entry::Directory(name, inner)];
    assert(held.drop_last() =~= none);
    assert(held.last() == Entry::Directory(name, inner));
    assert(rust_files(dir, held) =~= rust_files(below, inner@));
    if b.len() == 0 {
        assert(a + b =~= a);
        assert(rust_files(dir, b) =~= Seq::<PathView>::empty());
        assert(rust_files(dir, a + b) =~= rust_files(dir, a) + rust_files(dir, b));
    } else {
        entries_are_walked_one_by_one(dir, a, b.drop_last(), name, inner);
        assert((a + b).drop_last() =~= a + b.drop_last());
        assert((a + b).last() == b.last());
        assert(rust_files(dir, a + b) =~= rust_files(dir, a) + rust_files(dir, b));
    }
}

/// Whether the path `p` is asked for by a request: as the file that it was
/// resolved to, or as a Rust file below the directory that it was resolved to.
pub open spec fn asks_for(request: Request, p: PathView) -> bool {
    match request.resolved {
        Resolved::Nowhere(_) => false,
        Resolved::Directory(path, entries) => exists|names: Seq<Seq<u8>>|
            {
                &&& names.len() > 0
                &&& p == #[trigger] below(path@, names)
                &&& holds_file(entries@, names)
                &&& rust_name(names.last())
            },
        Resolved::File(path) => p == path@,
    }
}

/// Where the files that are asked for are listed, every file that a request was
/// resolved to is among them, and every Rust file that is held, however deep, by
/// a directory that a request was resolved to, and nothing else.
pub proof fn listed_files_are_those_asked_for(
    requests: Seq<Request>,
    r: Seq<PathView>,
    p: PathView,
)
    requires
        sorts_once(all_requested(requests), r),
    ensures
        r.contains(p) <==> exists|i: int|
            0 <= i < requests.len() && asks_for(#[trigger] requests[i], p),
{
    requested_files_are_listed_once(all_requested(requests), r);
    requests_are_gathered(requests, p);
}

proof fn request_is_met(request: Request, p: PathView)
    ensures
        requested(request).contains(p) <==> asks_for(request, p),
{
    match request.resolved {
        Resolved::Nowhere(_) => {
            assert(!requested(request).contains(p));
        },
        Resolved::Directory(path, entries) => {
            if requested(request).contains(p) {
                only_rust_files_are_listed(path@, entries@, p);
                let names = choose|names: Seq<Seq<u8>>|
                    names.len() > 0 && p == #[trigger] below(path@, names) && holds_file(
                        entries@,
                        names,
                    );
                every_rust_file_is_listed(path@, entries@, names);
            }
            if asks_for(request, p) {
                let names = choose|names: Seq<Seq<u8>>|
                    {
                        &&& names.len() > 0
                        &&& p == #[trigger] below(path@, names)
                        &&& holds_file(entries@, names)
                        &&& rust_name(names.last())
                    };
                every_rust_file_is_listed(path@, entries@, names);
            }
        },
        Resolved::File(path) => {
            assert(requested(request)[0] == path@);
        },
    }
}

proof fn requests_are_gathered(requests: Seq<Request>, p: PathView)
    ensures
        all_requested(requests).contains(p) <==> exists|i: int|
            0 <= i < requests.len() && asks_for(#[trigger] requests[i], p),
    decreases requests.len(),
{
    if requests.len() > 0 {
        let front = requests.drop_last();
        let last = requests[requests.len() - 1];
        let a = all_requested(front);
        let b = requested(last);
        let all = all_requested(requests);
        assert(all == a + b);
        requests_are_gathered(front, p);
        request_is_met(last, p);
        if all.contains(p) {
            let k = choose|k: int| 0 <= k < all.len() && all[k] == p;
            if k < a.len() {
                assert(a[k] == p);
                let i = choose|i: int| 0 <= i < front.len() && asks_for(#[trigger] front[i], p);
                assert(requests[i] == front[i]);
            } else {
                assert(b[k - a.len()] == p);
                assert(asks_for(requests[requests.len() - 1], p));
            }
        }
        if exists|i: int| 0 <= i < requests.len() && asks_for(#[trigger] requests[i], p) {
            let i = choose|i: int| 0 <= i < requests.len() && asks_for(#[trigger] requests[i], p);
            if i < front.len() {
                assert(front[i] == requests[i]);
                let k = choose|k: int| 0 <= k < a.len() && a[k] == p;
                assert(all[k] == p);
            } else {
                let k = choose|k: int| 0 <= k < b.len() && b[k] == p;
                assert(all[a.len() + k] == p);
            }
        }
    }
}

/// A directory is never refused, and a file only where its name does not end
/// with the extension; a path that leads nowhere always is. The refusal names
/// the path as it was given.
pub proof fn only_unusable_paths_are_refused(
    given: Vec<u8>,
    reason: String,
    path: SourcePath,
    entries: Vec<Entry>,
)
    ensures
        ({
            let shown = decoding::decoded(given@);
            &&& refusal(Request { given, resolved: Resolved::Nowhere(reason) }) == Some(
                shown + seq![':', ' '] + reason@,
            )
            &&& refusal(Request { given, resolved: Resolved::Directory(path, entries) }) is None
            &&& refusal(Request { given, resolved: Resolved::File(path) }) == if rust_path(path@) {
                None
            } else {
                Some(shown + ": not a .rs file or directory"@)
            }
        }),
        rust_path(path@) <==> path@.len() > 0 && path@.last() is Named && rust_name(
            path@.last()->Named_0,
        ),
{
    reveal_strlit(": ");
    assert(": "@ =~= seq![':', ' ']);
}

/// Of several unusable paths the first is named, and where there is none
/// nothing is refused.
pub proof fn first_unusable_path_is_named(requests: Seq<Request>)
    ensures
        match first_refusal(requests) {
            Some(reason) => exists|i: int|
                {
                    &&& 0 <= i < requests.len()
                    &&& refusal(#[trigger] requests[i]) == Some(reason)
                    &&& forall|j: int| 0 <= j < i ==> refusal(#[trigger] requests[j]) is None
                },
            None => forall|i: int|
                0 <= i < requests.len() ==> refusal(#[trigger] requests[i]) is None,
        },
    decreases requests.len(),
{
    if requests.len() > 0 {
        let rest = requests.skip(1);
        if refusal(requests[0]) is None {
            first_unusable_path_is_named(rest);
            if let Some(reason) = first_refusal(rest) {
                let i = choose|i: int|
                    {
                        &&& 0 <= i < rest.len()
                        &&& refusal(#[trigger] rest[i]) == Some(reason)
                        &&& forall|j: int| 0 <= j < i ==> refusal(#[trigger] rest[j]) is None
                    };
                assert(requests[i + 1] == rest[i]);
                assert forall|j: int| 0 <= j < i + 1 implies refusal(
                    #[trigger] requests[j],
                ) is None by {
                    if j > 0 {
                        assert(requests[j] == rest[j - 1]);
                    }
                }
            } else {
                assert forall|j: int| 0 <= j < requests.len() implies refusal(
                    #[trigger] requests[j],
                ) is None by {
                    if j > 0 {
                        assert(requests[j] == rest[j - 1]);
                    }
                }
            }
        } else {
            assert(refusal(requests[0]) is Some);
        }
    }
}

} // verus!
