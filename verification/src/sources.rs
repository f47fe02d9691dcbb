//! Showing source files with their line numbers.

use vstd::prelude::*;

use crate::numerals::{self, push_right_aligned};
use crate::paths::{self, PathView, SourcePath};
use crate::text::{self, lines_of};

verus! {

/// A source file and what it holds.
#[derive(Debug, PartialEq, Eq)]
pub struct SourceFile {
    pub path: SourcePath,
    pub contents: String,
}

/// A line as it is shown with its number.
pub open spec fn shown_line(number: nat, line: Seq<char>) -> Seq<char> {
    numerals::right_aligned(numerals::decimal(number), 4) + "| "@ + line
}

/// Lines as they are shown, one below the other, the first having number
/// `first`.
pub open spec fn shown_lines(ls: Seq<Seq<char>>, first: nat) -> Seq<char>
    decreases ls.len(),
{
    if ls.len() == 0 {
        Seq::empty()
    } else {
        shown_line(first, ls[0]).push('\n') + shown_lines(ls.skip(1), first + 1)
    }
}

/// A file as it is shown: its path as seen from `cwd`, its lines numbered from
/// one, and an empty line.
pub open spec fn shown_file(cwd: PathView, path: PathView, contents: Seq<char>) -> Seq<char> {
    "=== "@ + paths::path_text(paths::relative(path, cwd)) + " ===\n"@ + shown_lines(
        text::lines(contents),
        1,
    ).push('\n')
}

/// Files as they are shown, one after the other.
pub open spec fn shown_files(cwd: PathView, files: Seq<SourceFile>) -> Seq<char>
    decreases files.len(),
{
    if files.len() == 0 {
        Seq::empty()
    } else {
        shown_files(cwd, files.drop_last()) + shown_file(
            cwd,
            files.last().path@,
            files.last().contents@,
        )
    }
}

fn push_file(out: &mut String, cwd: &SourcePath, file: &SourceFile)
    ensures
        final(out)@ == old(out)@ + shown_file(cwd@, file.path@, file.contents@),
{
    let ghost before = out@;
    out.append("=== ");
    out.append(file.path.relative_to(cwd).display().as_str());
    out.append(" ===\n");
    let lines = lines_of(file.contents.as_str());
    let ghost all = text::lines(file.contents@);
    let ghost head = out@;
    assert(all.skip(0) == all);
    for i in 0..lines.len()
        invariant
            all == text::views(lines@),
            out@ + shown_lines(all.skip(i as int), (i + 1) as nat) == head + shown_lines(all, 1),
    {
        let ghost rest = all.skip(i as int);
        let ghost so_far = out@;
        assert(rest[0] == lines@[i as int]@);
        assert(rest.skip(1) == all.skip(i + 1));
        push_right_aligned(out, i + 1, 4);
        out.append("| ");
        out.append(lines[i].as_str());
        out.push('\n');
        assert(out@ == so_far + shown_line((i + 1) as nat, rest[0]).push('\n'));
        assert(out@ + shown_lines(rest.skip(1), (i + 2) as nat) == so_far + (shown_line(
            (i + 1) as nat,
            rest[0],
        ).push('\n') + shown_lines(rest.skip(1), (i + 2) as nat)));
    }
    assert(out@ == head + shown_lines(all, 1)) by {
        assert(all.skip(lines@.len() as int) == Seq::<Seq<char>>::empty());
        assert(out@ + Seq::<char>::empty() == out@);
    }
    out.push('\n');
    assert(out@ == before + shown_file(cwd@, file.path@, file.contents@));
}

/// Shows source files with their line numbers, as seen from `cwd`.
pub fn show_sources(cwd: &SourcePath, files: &[SourceFile]) -> (r: String)
    ensures
        r@ == shown_files(cwd@, files@),
{
    let mut r = String::new();
    for i in 0..files.len()
        invariant
            r@ == shown_files(cwd@, files@.take(i as int)),
    {
        assert(files@.take(i + 1).drop_last() == files@.take(i as int));
        push_file(&mut r, cwd, &files[i]);
    }
    assert(files@.take(files@.len() as int) == files@);
    r
}

proof fn numeral_has_no_feed(number: nat)
    ensures
        !(numerals::right_aligned(numerals::decimal(number), 4) + "| "@).contains('\n'),
        (numerals::right_aligned(numerals::decimal(number), 4) + "| "@).len() > 0,
        (numerals::right_aligned(numerals::decimal(number), 4) + "| "@).last() == ' ',
{
    reveal_strlit("| ");
    numerals::decimal_reads_back(number);
    let digits = numerals::decimal(number);
    let shown = numerals::right_aligned(digits, 4);
    let all = shown + "| "@;
    assert forall|i: int| 0 <= i < all.len() implies all[i] != '\n' by {
        if i < shown.len() {
            if digits.len() < 4 {
                if i >= 4 - digits.len() {
                    assert(shown[i] == digits[i - (4 - digits.len())]);
                }
            } else {
                assert(shown[i] == digits[i]);
            }
        }
    }
}

/// Reading the lines that are shown gives each line after its number and a
/// bar: line by line, in order, counted up from `first`.
pub proof fn shown_lines_read_back(ls: Seq<Seq<char>>, first: nat)
    requires
        forall|i: int| 0 <= i < ls.len() ==> !(#[trigger] ls[i]).contains('\n'),
        forall|i: int| 0 <= i < ls.len() && (#[trigger] ls[i]).len() > 0 ==> ls[i].last() != '\r',
    ensures
        text::lines(shown_lines(ls, first)) == Seq::new(
            ls.len(),
            |i: int| shown_line((first + i) as nat, ls[i]),
        ),
    decreases ls.len(),
{
    let read = Seq::new(ls.len(), |i: int| shown_line((first + i) as nat, ls[i]));
    if ls.len() == 0 {
        assert(text::lines(shown_lines(ls, first)) == read);
    } else {
        let rest = ls.skip(1);
        assert forall|i: int| 0 <= i < rest.len() implies !(#[trigger] rest[i]).contains(
            '\n',
        ) by {
            assert(rest[i] == ls[i + 1]);
        }
        assert forall|i: int| 0 <= i < rest.len() && (#[trigger] rest[i]).len() > 0 implies rest[i].last()
            != '\r' by {
            assert(rest[i] == ls[i + 1]);
        }
        shown_lines_read_back(rest, first + 1);
        let line = shown_line(first, ls[0]);
        let prefix = numerals::right_aligned(numerals::decimal(first), 4) + "| "@;
        numeral_has_no_feed(first);
        assert(line == prefix + ls[0]);
        assert(!ls[0].contains('\n'));
        assert forall|i: int| 0 <= i < line.len() implies line[i] != '\n' by {
            if i < prefix.len() {
                assert(prefix[i] == line[i]);
                assert(prefix.contains(prefix[i]));
            } else {
                assert(ls[0][i - prefix.len()] == line[i]);
                assert(ls[0].contains(ls[0][i - prefix.len()]));
            }
        }
        assert(line.last() != '\r') by {
            if ls[0].len() > 0 {
                assert(line.last() == ls[0].last());
            } else {
                assert(line.last() == prefix.last());
            }
        }
        let s = shown_lines(ls, first);
        let tail = shown_lines(rest, first + 1);
        text::line_length_before_feed(line, tail);
        assert(s.take(line.len() as int) == line);
        assert(s.skip(line.len() as int + 1) == tail);
        assert(text::lines(s) == seq![line] + text::lines(tail));
        assert(text::lines(s) =~= read) by {
            assert forall|i: int| 0 <= i < read.len() implies text::lines(s)[i] == read[i] by {
                if i > 0 {
                    assert(text::lines(s)[i] == text::lines(tail)[i - 1]);
                    assert(rest[i - 1] == ls[i]);
                }
            }
        }
    }
}

/// A line is shown whole, behind its number and a bar: the number takes up four
/// places at least, and the bar and a space follow it.
pub proof fn line_is_shown_whole(number: nat, line: Seq<char>)
    ensures
        ({
            let digits = numerals::decimal(number);
            let shown = shown_line(number, line);
            let n = if digits.len() < 4 {
                4int
            } else {
                digits.len() as int
            };
            &&& shown.len() == n + 2 + line.len()
            &&& shown.skip(n + 2) == line
            &&& shown[n] == '|' && shown[n + 1] == ' '
            &&& shown.subrange(n - digits.len(), n) == digits
            &&& forall|i: int| 0 <= i < n - digits.len() ==> #[trigger] shown[i] == ' '
        }),
{
    reveal_strlit("| ");
    let digits = numerals::decimal(number);
    let aligned = numerals::right_aligned(digits, 4);
    let shown = shown_line(number, line);
    let n = aligned.len() as int;
    numerals::spaces_are_put_in_front(digits, 4);
    assert(shown.skip(n + 2) =~= line);
    assert(shown.subrange(n - digits.len(), n) =~= aligned.skip(n - digits.len()));
    assert forall|i: int| 0 <= i < n - digits.len() implies #[trigger] shown[i] == ' ' by {
        assert(shown[i] == aligned[i]);
    }
}

/// Lines are shown one below the other, each with the number that follows the
/// one before it.
pub proof fn numbers_go_on(a: Seq<Seq<char>>, b: Seq<Seq<char>>, first: nat, line: Seq<char>)
    ensures
        shown_lines(a + b, first) == shown_lines(a, first) + shown_lines(b, first + a.len()),
        shown_lines(seq![line], first) == shown_line(first, line) + seq!['\n'],
        shown_lines(Seq::empty(), first) == Seq::<char>::empty(),
    decreases a.len(),
{
    reveal_with_fuel(shown_lines, 2);
    assert(seq![line].skip(1) =~= Seq::<Seq<char>>::empty());
    assert(shown_lines(seq![line], first) =~= shown_line(first, line) + seq!['\n']);
    if a.len() == 0 {
        assert(a + b =~= b);
        assert(shown_lines(a + b, first) =~= shown_lines(a, first) + shown_lines(
            b,
            first + a.len(),
        ));
    } else {
        numbers_go_on(a.skip(1), b, first + 1, line);
        assert((a + b).skip(1) =~= a.skip(1) + b);
        assert((a + b)[0] == a[0]);
        assert(shown_lines(a + b, first) =~= shown_lines(a, first) + shown_lines(
            b,
            first + a.len(),
        ));
    }
}

/// A file is shown with its path and then all of its lines, numbered from one;
/// the files are shown one after the other, none left out.
pub proof fn files_are_shown_whole(
    cwd: PathView,
    path: PathView,
    contents: Seq<char>,
    a: Seq<SourceFile>,
    b: Seq<SourceFile>,
)
    ensures
        shown_file(cwd, path, contents) == "=== "@ + paths::path_text(paths::relative(path, cwd))
            + " ===\n"@ + shown_lines(text::lines(contents), 1) + seq!['\n'],
        shown_files(cwd, a + b) == shown_files(cwd, a) + shown_files(cwd, b),
        a.len() == 1 ==> shown_files(cwd, a) == shown_file(cwd, a[0].path@, a[0].contents@),
        a.len() == 0 ==> shown_files(cwd, a) == Seq::<char>::empty(),
    decreases b.len(),
{
    reveal_with_fuel(shown_files, 2);
    assert(shown_file(cwd, path, contents) =~= "=== "@ + paths::path_text(
        paths::relative(path, cwd),
    ) + " ===\n"@ + shown_lines(text::lines(contents), 1) + seq!['\n']);
    if a.len() == 1 {
        assert(a.drop_last() =~= Seq::<SourceFile>::empty());
        assert(shown_files(cwd, a) =~= shown_file(cwd, a[0].path@, a[0].contents@));
    }
    if b.len() == 0 {
        assert(a + b =~= a);
        assert(shown_files(cwd, a + b) =~= shown_files(cwd, a) + shown_files(cwd, b));
    } else {
        files_are_shown_whole(cwd, path, contents, a, b.drop_last());
        assert((a + b).drop_last() =~= a + b.drop_last());
        assert(shown_files(cwd, a + b) =~= shown_files(cwd, a) + shown_files(cwd, b));
    }
}

} // verus!
