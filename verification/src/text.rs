//! Text as sequences of characters: trimming, splitting into lines, joining
//! and searching.

use vstd::prelude::*;

verus! {

/// `String::push` appends one character to the end of the string.
pub assume_specification[ String::push ](s: &mut String, c: char)
    ensures
        final(s)@ == old(s)@.push(c),
;

/// The characters with the Unicode property `White_Space`.
pub open spec fn white_space(c: char) -> bool {
    ||| '\u{9}' <= c <= '\u{d}'
    ||| c == '\u{20}'
    ||| c == '\u{85}'
    ||| c == '\u{a0}'
    ||| c == '\u{1680}'
    ||| '\u{2000}' <= c <= '\u{200a}'
    ||| c == '\u{2028}'
    ||| c == '\u{2029}'
    ||| c == '\u{202f}'
    ||| c == '\u{205f}'
    ||| c == '\u{3000}'
}

/// Whether `c` is white space.
pub fn is_white_space(c: char) -> (r: bool)
    ensures
        r == white_space(c),
{
    ('\u{9}' <= c && c <= '\u{d}') || c == '\u{20}' || c == '\u{85}' || c == '\u{a0}' || c
        == '\u{1680}' || ('\u{2000}' <= c && c <= '\u{200a}') || c == '\u{2028}' || c == '\u{2029}'
        || c == '\u{202f}' || c == '\u{205f}' || c == '\u{3000}'
}

/// `s` without the white space it begins with.
pub open spec fn trimmed_start(s: Seq<char>) -> Seq<char>
    decreases s.len(),
{
    if s.len() > 0 && white_space(s[0]) {
        trimmed_start(s.skip(1))
    } else {
        s
    }
}

/// `s` without the white space it ends with.
pub open spec fn trimmed_end(s: Seq<char>) -> Seq<char>
    decreases s.len(),
{
    if s.len() > 0 && white_space(s.last()) {
        trimmed_end(s.drop_last())
    } else {
        s
    }
}

/// `s` without the white space at either end.
pub open spec fn trimmed(s: Seq<char>) -> Seq<char> {
    trimmed_end(trimmed_start(s))
}

/// The characters of `s`.
pub fn chars_of(s: &str) -> (r: Vec<char>)
    ensures
        r@ == s@,
{
    let mut r: Vec<char> = Vec::new();
    for c in it: s.chars()
        invariant
            it.seq() == s@,
            r@ == s@.take(it.index()),
    {
        r.push(c);
        assert(s@.take(it.index() + 1) == s@.take(it.index()).push(c));
    }
    assert(s@.take(s@.len() as int) == s@);
    r
}

/// The text of `chars` between `from` and `to`.
pub fn string_of(chars: &[char], from: usize, to: usize) -> (r: String)
    requires
        from <= to <= chars@.len(),
    ensures
        r@ == chars@.subrange(from as int, to as int),
{
    let mut r = String::new();
    for i in from..to
        invariant
            from <= to <= chars@.len(),
            r@ == chars@.subrange(from as int, i as int),
    {
        r.push(chars[i]);
        assert(chars@.subrange(from as int, i + 1) == chars@.subrange(from as int, i as int).push(
            chars@[i as int],
        ));
    }
    r
}

/// Whether two texts are the same.
pub fn same_text(a: &str, b: &str) -> (r: bool)
    ensures
        r == (a@ == b@),
{
    let x = chars_of(a);
    let y = chars_of(b);
    if x.len() != y.len() {
        return false;
    }
    for i in 0..x.len()
        invariant
            x@.len() == y@.len(),
            x@ == a@,
            y@ == b@,
            forall|j: int| 0 <= j < i ==> x@[j] == y@[j],
    {
        if x[i] != y[i] {
            assert(a@[i as int] != b@[i as int]);
            return false;
        }
    }
    assert(a@ =~= b@);
    true
}

/// `s` without the white space at either end.
pub fn trim<'a>(s: &'a str) -> (r: &'a str)
    ensures
        r@ == trimmed(s@),
{
    let chars = chars_of(s);
    let len = chars.len();
    let mut from: usize = 0;
    assert(s@.skip(0) == s@);
    while from < len && is_white_space(chars[from])
        invariant
            from <= len,
            len == chars@.len(),
            chars@ == s@,
            trimmed_start(s@.skip(from as int)) == trimmed_start(s@),
        decreases len - from,
    {
        assert(s@.skip(from as int).skip(1) == s@.skip(from + 1));
        from += 1;
    }
    let ghost front = s@.skip(from as int);
    assert(trimmed_start(s@) == front);
    let mut to: usize = len;
    assert(s@.subrange(from as int, len as int) == front);
    while to > from && is_white_space(chars[to - 1])
        invariant
            from <= to <= len,
            len == chars@.len(),
            chars@ == s@,
            trimmed_end(s@.subrange(from as int, to as int)) == trimmed_end(front),
        decreases to,
    {
        let ghost cut = s@.subrange(from as int, to as int);
        assert(cut.last() == s@[to - 1]);
        assert(cut.drop_last() == s@.subrange(from as int, to - 1));
        to -= 1;
    }
    assert(s@.subrange(from as int, to as int).len() > 0 ==> s@.subrange(
        from as int,
        to as int,
    ).last() == s@[to - 1]);
    s.substring_char(from, to)
}

/// The number of characters before the first line feed of `s`, or the length
/// of `s` where it holds none.
pub open spec fn line_length(s: Seq<char>) -> nat
    decreases s.len(),
{
    if s.len() == 0 || s[0] == '\n' {
        0
    } else {
        1 + line_length(s.skip(1))
    }
}

/// `s` without one carriage return at its end.
pub open spec fn without_return(s: Seq<char>) -> Seq<char> {
    if s.len() > 0 && s.last() == '\r' {
        s.drop_last()
    } else {
        s
    }
}

/// The lines of `s`. A line ends with a line feed or with a carriage return
/// and a line feed, neither of which belongs to it; the last line may also end
/// where `s` does.
pub open spec fn lines(s: Seq<char>) -> Seq<Seq<char>>
    decreases s.len(),
{
    if s.len() == 0 {
        Seq::empty()
    } else if line_length(s) >= s.len() {
        seq![s]
    } else {
        seq![without_return(s.take(line_length(s) as int))] + lines(
            s.skip(line_length(s) as int + 1),
        )
    }
}

/// The contents of a list of strings.
pub open spec fn views(v: Seq<String>) -> Seq<Seq<char>> {
    v.map_values(|s: String| s@)
}

/// The contents of a list of string slices.
pub open spec fn str_views(v: Seq<&str>) -> Seq<Seq<char>> {
    v.map_values(|s: &str| s@)
}

/// The lines of `s`.
pub fn lines_of(s: &str) -> (r: Vec<String>)
    ensures
        views(r@) == lines(s@),
{
    let chars = chars_of(s);
    let len = chars.len();
    let mut r: Vec<String> = Vec::new();
    let mut start: usize = 0;
    assert(s@.skip(0) == s@);
    assert(views(r@) + lines(s@) == lines(s@));
    while start < len
        invariant
            start <= len,
            len == chars@.len(),
            chars@ == s@,
            views(r@) + lines(s@.skip(start as int)) == lines(s@),
        decreases len - start,
    {
        let ghost rest = s@.skip(start as int);
        let mut end: usize = start;
        while end < len && chars[end] != '\n'
            invariant
                start <= end <= len,
                len == chars@.len(),
                chars@ == s@,
                rest == s@.skip(start as int),
                line_length(rest) == end - start + line_length(s@.skip(end as int)),
            decreases len - end,
        {
            assert(s@.skip(end as int).skip(1) == s@.skip(end + 1));
            end += 1;
        }
        assert(line_length(rest) == end - start);
        let ghost before = views(r@);
        if end == len {
            let line = string_of(&chars, start, end);
            assert(line@ == rest);
            r.push(line);
            assert(views(r@) == before.push(rest));
            assert(s@.skip(len as int) == Seq::<char>::empty());
            assert(lines(rest) == seq![rest]);
            assert(views(r@) + Seq::<Seq<char>>::empty() == before + seq![rest]);
            start = len;
        } else {
            let stop: usize = if end > start && chars[end - 1] == '\r' {
                end - 1
            } else {
                end
            };
            let line = string_of(&chars, start, stop);
            assert(rest.take(end - start) == s@.subrange(start as int, end as int));
            assert(line@ == without_return(rest.take(end - start)));
            r.push(line);
            assert(views(r@) == before.push(line@));
            assert(rest.skip(end - start + 1) == s@.skip(end + 1));
            assert(before.push(line@) + lines(s@.skip(end + 1)) == before + (seq![line@] + lines(
                s@.skip(end + 1),
            )));
            start = end + 1;
        }
    }
    assert(s@.skip(len as int) == Seq::<char>::empty());
    assert(views(r@) + Seq::<Seq<char>>::empty() == views(r@));
    r
}

/// The lines of `ls` one after the other, with a line feed between each two.
pub open spec fn joined(ls: Seq<Seq<char>>) -> Seq<char>
    decreases ls.len(),
{
    if ls.len() == 0 {
        Seq::empty()
    } else if ls.len() == 1 {
        ls[0]
    } else {
        joined(ls.drop_last()).push('\n') + ls.last()
    }
}

/// The lines of `ls` one after the other, with a line feed between each two.
pub fn join_lines(ls: &[&str]) -> (r: String)
    ensures
        r@ == joined(str_views(ls@)),
{
    let ghost all = str_views(ls@);
    let mut r = String::new();
    for i in 0..ls.len()
        invariant
            all == str_views(ls@),
            r@ == joined(all.take(i as int)),
    {
        assert(all.take(i + 1).drop_last() == all.take(i as int));
        assert(all.take(i + 1).last() == ls@[i as int]@);
        if i > 0 {
            r.push('\n');
        }
        r.append(ls[i]);
        assert(r@ == joined(all.take(i + 1)));
    }
    assert(all.take(ls@.len() as int) == all);
    r
}

/// Whether `pat` stands in `s` at position `i`.
pub open spec fn occurs_at(s: Seq<char>, pat: Seq<char>, i: int) -> bool {
    &&& 0 <= i
    &&& i + pat.len() <= s.len()
    &&& s.subrange(i, i + pat.len()) == pat
}

/// Whether `pat` stands anywhere in `s`.
pub open spec fn occurs(s: Seq<char>, pat: Seq<char>) -> bool {
    exists|i: int| occurs_at(s, pat, i)
}

/// Whether `pat` stands in `s` at position `i`.
pub fn matches_at(s: &[char], pat: &[char], i: usize) -> (r: bool)
    ensures
        r == occurs_at(s@, pat@, i as int),
{
    let len = s.len();
    if i > len || pat.len() > len - i {
        return false;
    }
    for j in 0..pat.len()
        invariant
            len == s@.len(),
            i + pat@.len() <= len,
            forall|k: int| 0 <= k < j ==> s@[i + k] == pat@[k],
    {
        if s[i + j] != pat[j] {
            assert(s@.subrange(i as int, i + pat@.len())[j as int] != pat@[j as int]);
            return false;
        }
    }
    assert(s@.subrange(i as int, i + pat@.len()) =~= pat@);
    true
}

/// Whether `pat` stands anywhere in `s`.
pub fn contains(s: &str, pat: &str) -> (r: bool)
    ensures
        r == occurs(s@, pat@),
{
    let chars = chars_of(s);
    let wanted = chars_of(pat);
    let mut i: usize = 0;
    while i < chars.len()
        invariant
            i <= chars@.len(),
            chars@ == s@,
            wanted@ == pat@,
            forall|j: int| 0 <= j < i ==> !occurs_at(s@, pat@, j),
        decreases chars@.len() - i,
    {
        if matches_at(&chars, &wanted, i) {
            return true;
        }
        i += 1;
    }
    matches_at(&chars, &wanted, i)
}

/// The same list, borrowed.
pub fn as_strs<'a>(v: &'a [String]) -> (r: Vec<&'a str>)
    ensures
        str_views(r@) == views(v@),
{
    let mut r: Vec<&'a str> = Vec::new();
    for i in 0..v.len()
        invariant
            str_views(r@) == views(v@).take(i as int),
    {
        let ghost before = r@;
        r.push(v[i].as_str());
        assert(str_views(r@) == str_views(before).push(v@[i as int]@));
        assert(views(v@).take(i + 1) == views(v@).take(i as int).push(v@[i as int]@));
    }
    assert(views(v@).take(v@.len() as int) == views(v@));
    r
}

proof fn trimmed_start_is_suffix(s: Seq<char>)
    ensures
        trimmed_start(s).len() <= s.len(),
        trimmed_start(s) == s.skip(s.len() - trimmed_start(s).len()),
        forall|i: int| 0 <= i < s.len() - trimmed_start(s).len() ==> white_space(#[trigger] s[i]),
        trimmed_start(s).len() > 0 ==> !white_space(trimmed_start(s)[0]),
    decreases s.len(),
{
    if s.len() > 0 && white_space(s[0]) {
        trimmed_start_is_suffix(s.skip(1));
        let n = s.len() - trimmed_start(s).len();
        assert(s.skip(1).skip(n - 1) == s.skip(n));
        assert forall|i: int| 0 <= i < n implies white_space(#[trigger] s[i]) by {
            if i > 0 {
                assert(s[i] == s.skip(1)[i - 1]);
            }
        }
    } else {
        assert(s.skip(0) == s);
    }
}

proof fn trimmed_end_is_prefix(s: Seq<char>)
    ensures
        trimmed_end(s).len() <= s.len(),
        trimmed_end(s) == s.take(trimmed_end(s).len() as int),
        forall|i: int| trimmed_end(s).len() <= i < s.len() ==> white_space(#[trigger] s[i]),
        trimmed_end(s).len() > 0 ==> !white_space(trimmed_end(s).last()),
    decreases s.len(),
{
    if s.len() > 0 && white_space(s.last()) {
        trimmed_end_is_prefix(s.drop_last());
        let n = trimmed_end(s).len() as int;
        assert(s.drop_last().take(n) == s.take(n));
        assert forall|i: int| n <= i < s.len() implies white_space(#[trigger] s[i]) by {
            if i < s.len() - 1 {
                assert(s[i] == s.drop_last()[i]);
            }
        }
    } else {
        assert(s.take(s.len() as int) == s);
    }
}

/// Only white space is trimmed, all of it at either end: a text is white
/// space, its trimmed form and white space again, and the trimmed form neither
/// begins nor ends with white space.
pub proof fn trimmed_cuts_white_space(s: Seq<char>)
    ensures
        exists|from: int, to: int|
            {
                &&& 0 <= from <= to <= s.len()
                &&& trimmed(s) == #[trigger] s.subrange(from, to)
                &&& forall|i: int|
                    0 <= i < from || to <= i < s.len() ==> white_space(#[trigger] s[i])
            },
        trimmed(s).len() > 0 ==> !white_space(trimmed(s)[0]) && !white_space(trimmed(s).last()),
{
    let front = trimmed_start(s);
    trimmed_start_is_suffix(s);
    trimmed_end_is_prefix(front);
    let from = s.len() - front.len();
    let to = from + trimmed(s).len();
    assert(trimmed(s) == s.subrange(from, to));
    assert forall|i: int| 0 <= i < from || to <= i < s.len() implies white_space(
        #[trigger] s[i],
    ) by {
        if i >= to {
            assert(s[i] == front[i - from]);
        }
    }
}

/// Trimming a text a second time changes nothing.
pub proof fn trimmed_twice(s: Seq<char>)
    ensures
        trimmed(trimmed(s)) == trimmed(s),
{
    trimmed_cuts_white_space(s);
}

/// A text without a line feed is no longer than its first line.
pub proof fn line_length_of_one_line(s: Seq<char>)
    requires
        !s.contains('\n'),
    ensures
        line_length(s) == s.len(),
    decreases s.len(),
{
    if s.len() > 0 {
        assert(s[0] != '\n');
        assert forall|i: int| 0 <= i < s.skip(1).len() implies s.skip(1)[i] != '\n' by {
            assert(s.skip(1)[i] == s[i + 1]);
        }
        line_length_of_one_line(s.skip(1));
    }
}

/// A text begins with as many characters that are no line feeds as its first
/// line is long.
proof fn line_length_bounds(s: Seq<char>)
    ensures
        line_length(s) <= s.len(),
        line_length(s) < s.len() ==> s[line_length(s) as int] == '\n',
        forall|i: int| 0 <= i < line_length(s) ==> #[trigger] s[i] != '\n',
    decreases s.len(),
{
    if s.len() > 0 && s[0] != '\n' {
        line_length_bounds(s.skip(1));
        assert forall|i: int| 0 <= i < line_length(s) implies #[trigger] s[i] != '\n' by {
            if i > 0 {
                assert(s[i] == s.skip(1)[i - 1]);
            }
        }
    }
}

/// A line without a line feed is as long as what stands before the line feed
/// that ends it.
pub proof fn line_length_before_feed(line: Seq<char>, rest: Seq<char>)
    requires
        !line.contains('\n'),
    ensures
        line_length(line.push('\n') + rest) == line.len(),
    decreases line.len(),
{
    let s = line.push('\n') + rest;
    if line.len() > 0 {
        assert(line[0] != '\n');
        assert(s[0] == line[0]);
        assert forall|i: int| 0 <= i < line.skip(1).len() implies line.skip(1)[i] != '\n' by {
            assert(line.skip(1)[i] == line[i + 1]);
        }
        line_length_before_feed(line.skip(1), rest);
        assert(s.skip(1) == line.skip(1).push('\n') + rest);
    } else {
        assert(s[0] == '\n');
    }
}

proof fn joined_from_front(ls: Seq<Seq<char>>)
    requires
        ls.len() > 1,
    ensures
        joined(ls) == ls[0].push('\n') + joined(ls.skip(1)),
    decreases ls.len(),
{
    let rest = ls.skip(1);
    if ls.len() == 2 {
        assert(ls.drop_last().len() == 1);
        assert(joined(ls.drop_last()) == ls[0]);
        assert(joined(rest) == ls[1]);
    } else {
        joined_from_front(ls.drop_last());
        assert(ls.drop_last().skip(1) == rest.drop_last());
        assert(joined(rest) == joined(rest.drop_last()).push('\n') + rest.last());
        assert(joined(ls) =~= ls[0].push('\n') + joined(rest));
    }
}

/// Whether lines can be told apart again once they are joined: none holds a
/// line feed, none but the last ends with a carriage return, and the last is
/// not empty.
pub open spec fn separable(ls: Seq<Seq<char>>) -> bool {
    &&& forall|i: int| 0 <= i < ls.len() ==> !(#[trigger] ls[i]).contains('\n')
    &&& forall|i: int|
        0 <= i < ls.len() - 1 && (#[trigger] ls[i]).len() > 0 ==> ls[i].last() != '\r'
    &&& ls.len() > 0 ==> ls.last().len() > 0
}

/// Splitting joined lines gives the lines back.
pub proof fn joined_lines_split_again(ls: Seq<Seq<char>>)
    requires
        separable(ls),
    ensures
        lines(joined(ls)) == ls,
    decreases ls.len(),
{
    if ls.len() == 0 {
        assert(lines(joined(ls)) == ls);
    } else if ls.len() == 1 {
        assert(!ls[0].contains('\n'));
        line_length_of_one_line(ls[0]);
        assert(lines(joined(ls)) == ls);
    } else {
        let rest = ls.skip(1);
        assert(separable(rest)) by {
            assert forall|i: int| 0 <= i < rest.len() implies !(#[trigger] rest[i]).contains(
                '\n',
            ) by {
                assert(rest[i] == ls[i + 1]);
            }
            assert forall|i: int|
                0 <= i < rest.len() - 1 && (#[trigger] rest[i]).len() > 0 implies rest[i].last()
                != '\r' by {
                assert(rest[i] == ls[i + 1]);
            }
        }
        joined_lines_split_again(rest);
        joined_from_front(ls);
        let s = joined(ls);
        assert(!ls[0].contains('\n'));
        line_length_before_feed(ls[0], joined(rest));
        assert(s.take(ls[0].len() as int) == ls[0]);
        assert(s.skip(ls[0].len() as int + 1) == joined(rest));
        assert(seq![ls[0]] + rest == ls);
    }
}

/// No line holds a line feed.
pub proof fn lines_hold_no_feed(s: Seq<char>)
    ensures
        forall|i: int| 0 <= i < lines(s).len() ==> !(#[trigger] lines(s)[i]).contains('\n'),
    decreases s.len(),
{
    if s.len() > 0 {
        line_length_bounds(s);
        let n = line_length(s) as int;
        if n < s.len() {
            lines_hold_no_feed(s.skip(n + 1));
            let first = without_return(s.take(n));
            assert forall|i: int| 0 <= i < lines(s).len() implies !(#[trigger] lines(
                s,
            )[i]).contains('\n') by {
                if i == 0 {
                    assert(lines(s)[0] == first);
                    assert forall|j: int| 0 <= j < first.len() implies first[j] != '\n' by {
                        assert(first[j] == s[j]);
                    }
                } else {
                    assert(lines(s)[i] == lines(s.skip(n + 1))[i - 1]);
                }
            }
        }
    }
}

proof fn first_line_stays(s: Seq<char>, more: Seq<char>)
    requires
        line_length(s) < s.len(),
    ensures
        line_length(s + more) == line_length(s),
    decreases s.len(),
{
    if s[0] != '\n' {
        first_line_stays(s.skip(1), more);
        assert((s + more).skip(1) == s.skip(1) + more);
    }
    assert((s + more)[0] == s[0]);
}

/// A line put behind complete lines is the last of them.
pub proof fn line_is_appended(s: Seq<char>, line: Seq<char>)
    requires
        s.len() > 0 ==> s.last() == '\n',
        !line.contains('\n'),
        line.len() > 0 ==> line.last() != '\r',
    ensures
        lines(s + line.push('\n')) == lines(s).push(line),
    decreases s.len(),
{
    let more = line.push('\n');
    if s.len() == 0 {
        assert(s + more == line.push('\n') + Seq::<char>::empty());
        line_length_before_feed(line, Seq::empty());
        assert(more.take(line.len() as int) == line);
        assert(more.skip(line.len() as int + 1) == Seq::<char>::empty());
        assert(s + more == more);
        assert(more + Seq::<char>::empty() == more);
        assert(lines(Seq::<char>::empty()) == Seq::<Seq<char>>::empty());
        assert(lines(more) == seq![line] + Seq::<Seq<char>>::empty());
        assert(lines(s).push(line) == seq![line] + Seq::<Seq<char>>::empty());
    } else {
        line_length_bounds(s);
        let n = line_length(s) as int;
        if n >= s.len() {
            assert(s[s.len() - 1] == '\n');
        }
        first_line_stays(s, more);
        let rest = s.skip(n + 1);
        if rest.len() > 0 {
            assert(rest.last() == s.last());
        }
        line_is_appended(rest, line);
        assert((s + more).take(n) == s.take(n));
        assert((s + more).skip(n + 1) == rest + more);
        assert(lines(s + more) == seq![without_return(s.take(n))] + lines(rest).push(line));
        assert(lines(s + more) =~= lines(s).push(line));
    }
}

/// White space are the five control characters from the tab on, the next line
/// control, and the space separators and line separators of Unicode: the code
/// points listed here and no others. No letter, digit or sign of ASCII is one.
pub proof fn white_space_by_code_point(c: char)
    ensures
        white_space(c) <==> {
            let code = c as u32;
            ||| 9 <= code <= 13
            ||| code == 32 || code == 133 || code == 160 || code == 5760
            ||| 8192 <= code <= 8202
            ||| code == 8232 || code == 8233 || code == 8239 || code == 8287 || code == 12288
        },
        33 <= c as u32 <= 126 ==> !white_space(c),
{
}

/// Where a text begins and ends with characters that are no white space, white
/// space put around it is all that trimming takes away again. A text of nothing
/// but white space is trimmed to nothing.
pub proof fn padding_is_trimmed(before: Seq<char>, s: Seq<char>, after: Seq<char>)
    requires
        forall|i: int| 0 <= i < before.len() ==> white_space(#[trigger] before[i]),
        forall|i: int| 0 <= i < after.len() ==> white_space(#[trigger] after[i]),
        s.len() > 0 ==> !white_space(s[0]) && !white_space(s.last()),
    ensures
        trimmed(before + s + after) == s,
{
    let all = before + s + after;
    trimmed_cuts_white_space(all);
    let (from, to) = choose|from: int, to: int|
        {
            &&& 0 <= from <= to <= all.len()
            &&& trimmed(all) == #[trigger] all.subrange(from, to)
            &&& forall|i: int| 0 <= i < from || to <= i < all.len() ==> white_space(#[trigger] all[i])
        };
    let a = before.len() as int;
    let b = a + s.len();
    if s.len() > 0 {
        assert(all[a] == s[0]);
        assert(all[b - 1] == s.last());
        assert(from <= a);
        assert(b <= to);
        if from < a {
            assert(trimmed(all)[0] == all[from]);
            assert(all[from] == before[from]);
        }
        if to > b {
            assert(trimmed(all).last() == all[to - 1]);
            assert(all[to - 1] == after[to - 1 - b]);
        }
        assert(all.subrange(from, to) =~= s);
    } else {
        if from < to {
            assert(trimmed(all)[0] == all[from]);
            if from < a {
                assert(all[from] == before[from]);
            } else {
                assert(all[from] == after[from - a]);
            }
        }
        assert(trimmed(all) =~= s);
    }
}

/// Whether the text from `from` to `to` in `s` is `line` and what ends it: a
/// carriage return and a line feed, or a line feed alone behind a line that does
/// not end with a carriage return, or for the `last` line nothing at all.
pub open spec fn reads_line(s: Seq<char>, from: int, to: int, line: Seq<char>, last: bool) -> bool {
    let end = from + line.len();
    &&& 0 <= from <= end <= to <= s.len()
    &&& s.subrange(from, end) == line
    &&& !line.contains('\n')
    &&& {
        ||| to == end + 2 && s[end] == '\r' && s[end + 1] == '\n'
        ||| to == end + 1 && s[end] == '\n' && !(line.len() > 0 && line.last() == '\r')
        ||| last && to == end && to == s.len() && line.len() > 0
    }
}

/// The lines of a text and what ends them make up the whole text: the first
/// begins where the text does, each other where the one before it ends, and the
/// last ends with the text. Nothing lies between them and nothing is left out.
pub proof fn lines_make_up_the_text(s: Seq<char>)
    ensures
        exists|at: Seq<int>| #[trigger] lines_stand_at(s, at),
    decreases s.len(),
{
    if s.len() == 0 {
        let at = seq![0int];
        assert(lines_stand_at(s, at));
    } else {
        line_length_bounds(s);
        let n = line_length(s) as int;
        if n >= s.len() {
            let at = seq![0int, s.len() as int];
            assert(s.subrange(0, s.len() as int) == s);
            assert(!s.contains('\n'));
            assert(lines_stand_at(s, at));
        } else {
            let rest = s.skip(n + 1);
            lines_make_up_the_text(rest);
            let later = choose|at: Seq<int>| #[trigger] lines_stand_at(rest, at);
            let at = seq![0int] + later.map_values(|x: int| x + n + 1);
            let ls = lines(s);
            let line = without_return(s.take(n));
            assert(ls[0] == line);
            assert(at[1] == n + 1);
            assert(reads_line(s, 0, n + 1, line, ls.len() == 1)) by {
                assert(s.subrange(0, line.len() as int) =~= line);
                assert forall|j: int| 0 <= j < line.len() implies line[j] != '\n' by {
                    assert(line[j] == s[j]);
                }
                if n > 0 && s.take(n).last() == '\r' {
                    assert(s[n - 1] == '\r');
                }
            }
            assert forall|i: int| 0 <= i < ls.len() implies reads_line(
                s,
                at[i],
                at[i + 1],
                #[trigger] ls[i],
                i == ls.len() - 1,
            ) by {
                if i > 0 {
                    assert(ls[i] == lines(rest)[i - 1]);
                    let from = later[i - 1];
                    let end = from + ls[i].len();
                    assert(reads_line(rest, from, later[i], lines(rest)[i - 1], i == ls.len() - 1));
                    assert(at[i] == from + n + 1);
                    assert(at[i + 1] == later[i] + n + 1);
                    assert(s.subrange(at[i], at[i] + ls[i].len()) =~= rest.subrange(from, end));
                    if end < rest.len() {
                        assert(rest[end] == s[end + n + 1]);
                    }
                    if end + 1 < rest.len() {
                        assert(rest[end + 1] == s[end + 1 + n + 1]);
                    }
                }
            }
            assert(at[ls.len() as int] == s.len()) by {
                assert(at[ls.len() as int] == later[lines(rest).len() as int] + n + 1);
            }
            assert(lines_stand_at(s, at));
        }
    }
}

/// Whether the lines of `s` begin at the positions `at`, of which the last is
/// the end of `s`.
pub open spec fn lines_stand_at(s: Seq<char>, at: Seq<int>) -> bool {
    &&& at.len() == lines(s).len() + 1
    &&& at[0] == 0
    &&& at.last() == s.len()
    &&& forall|i: int|
        0 <= i < lines(s).len() ==> reads_line(
            s,
            at[i],
            at[i + 1],
            #[trigger] lines(s)[i],
            i == lines(s).len() - 1,
        )
}

/// Joining two lists of lines is joining each of them, with a line feed
/// between the two. One line is joined to itself, and no lines to nothing.
pub proof fn joined_in_parts(a: Seq<Seq<char>>, b: Seq<Seq<char>>, line: Seq<char>)
    requires
        a.len() > 0,
        b.len() > 0,
    ensures
        joined(a + b) == joined(a) + seq!['\n'] + joined(b),
        joined(seq![line]) == line,
        joined(Seq::<Seq<char>>::empty()) == Seq::<char>::empty(),
    decreases b.len(),
{
    if b.len() == 1 {
        assert((a + b).drop_last() == a);
        assert((a + b).last() == b[0]);
        assert(joined(a + b) =~= joined(a) + seq!['\n'] + joined(b));
    } else {
        let front = b.drop_last();
        joined_in_parts(a, front, line);
        assert((a + b).drop_last() == a + front);
        assert(joined(a + b) =~= joined(a) + seq!['\n'] + joined(b));
    }
}

/// A text is found in another exactly where the other is the text with
/// something before it and something behind it.
pub proof fn found_between(s: Seq<char>, pat: Seq<char>)
    ensures
        occurs(s, pat) <==> exists|before: Seq<char>, after: Seq<char>|
            s == #[trigger] (before + pat + after),
{
    if occurs(s, pat) {
        let i = choose|i: int| occurs_at(s, pat, i);
        assert(s =~= s.take(i) + pat + s.skip(i + pat.len())) by {
            assert forall|j: int| 0 <= j < pat.len() implies s[i + j] == pat[j] by {
                assert(s.subrange(i, i + pat.len())[j] == pat[j]);
            }
        }
    }
    if exists|before: Seq<char>, after: Seq<char>| s == #[trigger] (before + pat + after) {
        let (before, after) = choose|before: Seq<char>, after: Seq<char>|
            s == #[trigger] (before + pat + after);
        let i = before.len() as int;
        assert(s.subrange(i, i + pat.len()) =~= pat);
        assert(occurs_at(s, pat, i));
    }
}

/// A text is found at a position exactly where its characters stand there one
/// after the other.
pub proof fn found_by_characters(s: Seq<char>, pat: Seq<char>, i: int)
    ensures
        occurs_at(s, pat, i) <==> {
            &&& 0 <= i <= s.len() - pat.len()
            &&& forall|j: int| 0 <= j < pat.len() ==> #[trigger] pat[j] == s[i + j]
        },
{
    if 0 <= i <= s.len() - pat.len() {
        if occurs_at(s, pat, i) {
            assert forall|j: int| 0 <= j < pat.len() implies #[trigger] pat[j] == s[i + j] by {
                assert(s.subrange(i, i + pat.len())[j] == pat[j]);
            }
        } else if forall|j: int| 0 <= j < pat.len() ==> #[trigger] pat[j] == s[i + j] {
            assert(s.subrange(i, i + pat.len()) =~= pat);
        }
    }
}

/// The contents of a list of strings are those of each string, in order.
pub proof fn contents_are_kept(v: Seq<String>, w: Seq<&str>)
    ensures
        views(v).len() == v.len(),
        forall|i: int| 0 <= i < v.len() ==> #[trigger] views(v)[i] == v[i]@,
        str_views(w).len() == w.len(),
        forall|i: int| 0 <= i < w.len() ==> #[trigger] str_views(w)[i] == w[i]@,
{
}

} // verus!
