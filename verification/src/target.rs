//! Locating the line that a mutation names, and replacing it.

use vstd::prelude::*;

use crate::text::{self, chars_of, join_lines, same_text, trim};

verus! {

/// How many lines above and below the named line are searched.
pub const SEARCH_RADIUS: usize = 10;

/// `s` with every backslash before a `quote` taken out.
pub open spec fn unescaped(s: Seq<char>, quote: char) -> Seq<char>
    decreases s.len(),
{
    if s.len() == 0 {
        s
    } else if s.len() >= 2 && s[0] == '\\' && s[1] == quote {
        seq![quote] + unescaped(s.skip(2), quote)
    } else {
        seq![s[0]] + unescaped(s.skip(1), quote)
    }
}

/// `s` with every backslash before a `quote` taken out.
pub fn unescape(s: &str, quote: char) -> (r: String)
    ensures
        r@ == unescaped(s@, quote),
{
    let chars = chars_of(s);
    let len = chars.len();
    let mut r = String::new();
    let mut i: usize = 0;
    assert(s@.skip(0) == s@);
    while i < len
        invariant
            i <= len,
            len == chars@.len(),
            chars@ == s@,
            r@ + unescaped(s@.skip(i as int), quote) == unescaped(s@, quote),
        decreases len - i,
    {
        let ghost before = r@;
        let ghost rest = s@.skip(i as int);
        if len - i >= 2 && chars[i] == '\\' && chars[i + 1] == quote {
            r.push(quote);
            assert(rest.skip(2) == s@.skip(i + 2));
            assert(before.push(quote) + unescaped(rest.skip(2), quote) == before + (seq![quote]
                + unescaped(rest.skip(2), quote)));
            i += 2;
        } else {
            r.push(chars[i]);
            assert(rest.skip(1) == s@.skip(i + 1));
            assert(before.push(rest[0]) + unescaped(rest.skip(1), quote) == before + (seq![rest[0]]
                + unescaped(rest.skip(1), quote)));
            i += 1;
        }
    }
    assert(s@.skip(len as int) == Seq::<char>::empty());
    assert(r@ + Seq::<char>::empty() == r@);
    r
}

/// A line as it takes part in comparisons: without the white space around it
/// and without the backslashes that escape its quotes.
pub open spec fn normalized(line: Seq<char>) -> Seq<char> {
    unescaped(unescaped(text::trimmed(line), '"'), '\'')
}

/// A line as it takes part in comparisons.
pub fn normalize(line: &str) -> (r: String)
    ensures
        r@ == normalized(line@),
{
    let plain = unescape(trim(line), '"');
    unescape(plain.as_str(), '\'')
}

/// The first of the lines numbered `from` to `to` that reads `wanted` once
/// normalized.
pub open spec fn first_match(
    lines: Seq<Seq<char>>,
    wanted: Seq<char>,
    from: int,
    to: int,
) -> Option<int>
    decreases to - from + 1,
{
    if from > to {
        None
    } else if normalized(lines[from - 1]) == wanted {
        Some(from)
    } else {
        first_match(lines, wanted, from + 1, to)
    }
}

/// The first line number that is searched around line `number`.
pub open spec fn window_start(number: int) -> int {
    if number > SEARCH_RADIUS {
        number - SEARCH_RADIUS
    } else {
        1
    }
}

/// The last line number that is searched around line `number`, of `count`
/// lines.
pub open spec fn window_end(number: int, count: int) -> int {
    if number + SEARCH_RADIUS < count {
        number + SEARCH_RADIUS
    } else {
        count
    }
}

/// The number of the line that `expected` stands for: line `number` itself
/// where it reads so, and otherwise the first line near it that does. Lines
/// are numbered from one.
pub open spec fn target_line(
    lines: Seq<Seq<char>>,
    number: int,
    expected: Seq<char>,
) -> Option<int> {
    if number <= 0 || number > lines.len() {
        None
    } else if normalized(lines[number - 1]) == normalized(expected) {
        Some(number)
    } else {
        first_match(
            lines,
            normalized(expected),
            window_start(number),
            window_end(number, lines.len() as int),
        )
    }
}

/// The number of the line that `expected` stands for, searched from
/// `line_number` on.
pub fn find_target_line(lines: &[&str], line_number: usize, expected: &str) -> (r: Option<usize>)
    ensures
        target_line(text::str_views(lines@), line_number as int, expected@) == match r {
            Some(number) => Some(number as int),
            None => None,
        },
{
    let count = lines.len();
    if line_number == 0 || line_number > count {
        return None;
    }
    let ghost all = text::str_views(lines@);
    let wanted = normalize(expected);
    if same_text(normalize(lines[line_number - 1]).as_str(), wanted.as_str()) {
        return Some(line_number);
    }
    let start: usize = if line_number > SEARCH_RADIUS {
        line_number - SEARCH_RADIUS
    } else {
        1
    };
    let end: usize = if count - line_number > SEARCH_RADIUS {
        line_number + SEARCH_RADIUS
    } else {
        count
    };
    let mut i: usize = start;
    loop
        invariant
            1 <= i <= end <= count,
            count == lines@.len(),
            all == text::str_views(lines@),
            wanted@ == normalized(expected@),
            target_line(all, line_number as int, expected@) == first_match(
                all,
                wanted@,
                i as int,
                end as int,
            ),
        decreases end - i,
    {
        assert(all[i - 1] == lines@[i - 1]@);
        if same_text(normalize(lines[i - 1]).as_str(), wanted.as_str()) {
            return Some(i);
        }
        if i == end {
            assert(first_match(all, wanted@, i + 1, end as int) is None);
            return None;
        }
        i += 1;
    }
}

/// The text of `lines` with line `number` replaced by `replacement`.
pub open spec fn with_line(lines: Seq<Seq<char>>, number: int, replacement: Seq<char>) -> Seq<
    char,
> {
    text::joined(lines.update(number - 1, replacement))
}

/// The text of `lines` with line `number` replaced by `replacement`.
pub fn replace_line(lines: &[&str], number: usize, replacement: &str) -> (r: String)
    requires
        1 <= number <= lines@.len(),
    ensures
        r@ == with_line(text::str_views(lines@), number as int, replacement@),
{
    let mut changed: Vec<&str> = Vec::new();
    for i in 0..lines.len()
        invariant
            1 <= number <= lines@.len(),
            changed@ == lines@.update(number - 1, replacement).take(i as int),
    {
        if i == number - 1 {
            changed.push(replacement);
        } else {
            changed.push(lines[i]);
        }
    }
    assert(text::str_views(changed@) == text::str_views(lines@).update(number - 1, replacement@));
    join_lines(changed.as_slice())
}

proof fn first_match_reads_so(lines: Seq<Seq<char>>, wanted: Seq<char>, from: int, to: int)
    requires
        1 <= from,
        to <= lines.len(),
    ensures
        match first_match(lines, wanted, from, to) {
            Some(number) => {
                &&& from <= number <= to
                &&& normalized(lines[number - 1]) == wanted
                &&& forall|i: int| from <= i < number ==> normalized(#[trigger] lines[i - 1]) != wanted
            },
            None => forall|i: int|
                from <= i <= to ==> normalized(#[trigger] lines[i - 1]) != wanted,
        },
    decreases to - from + 1,
{
    if from <= to && normalized(lines[from - 1]) != wanted {
        first_match_reads_so(lines, wanted, from + 1, to);
    }
}

/// A line that is found reads as expected once both are normalized, and is no
/// further from the named line than the search goes. A line with the named
/// number that reads so is found before any other; of the others the first is
/// found. None is found only where no line near enough reads so, or where there
/// is no line with the named number.
pub proof fn target_line_reads_so(lines: Seq<Seq<char>>, number: int, expected: Seq<char>)
    ensures
        match target_line(lines, number, expected) {
            Some(found) => {
                &&& 1 <= number <= lines.len()
                &&& 1 <= found <= lines.len()
                &&& -SEARCH_RADIUS <= found - number <= SEARCH_RADIUS
                &&& normalized(lines[found - 1]) == normalized(expected)
                &&& normalized(lines[number - 1]) == normalized(expected) ==> found == number
                &&& found != number ==> forall|i: int|
                    1 <= i <= lines.len() && number - SEARCH_RADIUS <= i < found ==> normalized(
                        #[trigger] lines[i - 1],
                    ) != normalized(expected)
            },
            None => 1 <= number <= lines.len() ==> forall|i: int|
                1 <= i <= lines.len() && number - SEARCH_RADIUS <= i <= number + SEARCH_RADIUS
                    ==> normalized(#[trigger] lines[i - 1]) != normalized(expected),
        },
{
    if 0 < number <= lines.len() && normalized(lines[number - 1]) != normalized(expected) {
        first_match_reads_so(
            lines,
            normalized(expected),
            window_start(number),
            window_end(number, lines.len() as int),
        );
    }
}

/// White space around the expected line does not matter.
pub proof fn indentation_is_ignored(lines: Seq<Seq<char>>, number: int, expected: Seq<char>)
    ensures
        target_line(lines, number, text::trimmed(expected)) == target_line(lines, number, expected),
{
    text::trimmed_twice(expected);
}

/// Replacing a line of a text changes that line and no other. The replacement
/// is one line, and the line ends can be told from the lines afterwards: no
/// line but the last ends with a carriage return, and the last is not empty.
pub proof fn one_line_changes(original: Seq<char>, number: int, replacement: Seq<char>)
    requires
        1 <= number <= text::lines(original).len(),
        !replacement.contains('\n'),
        ({
            let changed = text::lines(original).update(number - 1, replacement);
            &&& forall|i: int|
                0 <= i < changed.len() - 1 && (#[trigger] changed[i]).len() > 0
                    ==> changed[i].last() != '\r'
            &&& changed.last().len() > 0
        }),
    ensures
        text::lines(with_line(text::lines(original), number, replacement)) == text::lines(
            original,
        ).update(number - 1, replacement),
{
    let changed = text::lines(original).update(number - 1, replacement);
    text::lines_hold_no_feed(original);
    assert forall|i: int| 0 <= i < changed.len() implies !(#[trigger] changed[i]).contains('\n') by {
        if i != number - 1 {
            assert(changed[i] == text::lines(original)[i]);
        }
    }
    text::joined_lines_split_again(changed);
}

/// A line named by its number and copied exactly is found where it stands.
pub proof fn exact_line_is_found(lines: Seq<Seq<char>>, number: int)
    requires
        1 <= number <= lines.len(),
    ensures
        target_line(lines, number, lines[number - 1]) == Some(number),
{
}

/// A text in which no backslash stands before the quote is its own unescaped
/// form. A text without backslashes is one of these.
pub proof fn plain_text_is_kept(s: Seq<char>, quote: char)
    requires
        forall|i: int| 0 <= i < s.len() - 1 && #[trigger] s[i] == '\\' ==> s[i + 1] != quote,
    ensures
        unescaped(s, quote) == s,
    decreases s.len(),
{
    if s.len() > 0 {
        let rest = s.skip(1);
        assert forall|i: int| 0 <= i < rest.len() - 1 && #[trigger] rest[i] == '\\' implies rest[i
            + 1] != quote by {
            assert(s[i + 1] == '\\');
        }
        plain_text_is_kept(rest, quote);
        assert(unescaped(s, quote) == seq![s[0]] + rest);
        assert(seq![s[0]] + rest =~= s);
    }
}

/// Of a backslash and the quote behind it only the quote is left, and what
/// stands on either side of them is unescaped for itself. Nothing else is taken
/// out of a text or put into it.
pub proof fn escape_is_taken_out(a: Seq<char>, b: Seq<char>, quote: char)
    ensures
        quote != '\\' ==> unescaped(a + seq!['\\', quote] + b, quote) == unescaped(a, quote)
            + seq![quote] + unescaped(b, quote),
        unescaped(seq!['\\', quote] + b, quote) == seq![quote] + unescaped(b, quote),
{
    let pair = seq!['\\', quote] + b;
    assert(pair[0] == '\\' && pair[1] == quote);
    assert(pair.skip(2) =~= b);
    if quote != '\\' {
        escape_is_taken_out_behind(a, b, quote);
    }
}

proof fn escape_is_taken_out_behind(a: Seq<char>, b: Seq<char>, quote: char)
    requires
        quote != '\\',
    ensures
        unescaped(a + seq!['\\', quote] + b, quote) == unescaped(a, quote) + seq![quote]
            + unescaped(b, quote),
    decreases a.len(),
{
    let s = a + seq!['\\', quote] + b;
    if a.len() == 0 {
        assert(s.skip(2) == b);
        assert(s[0] == '\\' && s[1] == quote);
        assert(unescaped(s, quote) =~= unescaped(a, quote) + seq![quote] + unescaped(b, quote));
    } else if a.len() >= 2 && a[0] == '\\' && a[1] == quote {
        escape_is_taken_out_behind(a.skip(2), b, quote);
        assert(s.skip(2) == a.skip(2) + seq!['\\', quote] + b);
        assert(s[0] == a[0] && s[1] == a[1]);
        assert(unescaped(s, quote) =~= unescaped(a, quote) + seq![quote] + unescaped(b, quote));
    } else {
        escape_is_taken_out_behind(a.skip(1), b, quote);
        assert(s.skip(1) == a.skip(1) + seq!['\\', quote] + b);
        assert(s[0] == a[0]);
        if a.len() == 1 {
            assert(s[1] == '\\');
        } else {
            assert(s[1] == a[1]);
        }
        assert(unescaped(s, quote) == seq![a[0]] + unescaped(s.skip(1), quote));
        assert(unescaped(s, quote) =~= unescaped(a, quote) + seq![quote] + unescaped(b, quote));
    }
}

/// What a text begins with once it is unescaped.
proof fn unescaped_begins(s: Seq<char>, quote: char)
    ensures
        s.len() == 0 <==> unescaped(s, quote).len() == 0,
        s.len() > 0 ==> unescaped(s, quote)[0] == if s.len() >= 2 && s[0] == '\\' && s[1] == quote {
            quote
        } else {
            s[0]
        },
{
}

/// It makes no difference which of two quotes is unescaped first.
proof fn unescaping_commutes(s: Seq<char>, p: char, q: char)
    requires
        p != q,
        p != '\\',
        q != '\\',
    ensures
        unescaped(unescaped(s, p), q) == unescaped(unescaped(s, q), p),
    decreases s.len(),
{
    reveal_with_fuel(unescaped, 3);
    if s.len() > 0 {
        let one = s.skip(1);
        unescaping_commutes(one, p, q);
        unescaped_begins(one, p);
        unescaped_begins(one, q);
        if s.len() >= 2 && s[0] == '\\' && (s[1] == p || s[1] == q) {
            let two = s.skip(2);
            unescaping_commutes(two, p, q);
            assert(one.skip(1) == two);
            let x = s[1];
            let y = if x == p {
                q
            } else {
                p
            };
            assert(unescaped(s, x) == seq![x] + unescaped(two, x));
            assert((seq![x] + unescaped(two, x)).skip(1) == unescaped(two, x));
            assert(unescaped(unescaped(s, x), y) == seq![x] + unescaped(unescaped(two, x), y));
            assert(unescaped(one, y) == seq![x] + unescaped(two, y));
            let t = unescaped(s, y);
            assert(t == seq!['\\'] + unescaped(one, y));
            assert(t[0] == '\\' && t[1] == x);
            assert(t.skip(2) == unescaped(two, y));
            assert(unescaped(t, x) == seq![x] + unescaped(unescaped(two, y), x));
        } else {
            let a = unescaped(one, p);
            let b = unescaped(one, q);
            assert(unescaped(s, p) == seq![s[0]] + a);
            assert(unescaped(s, q) == seq![s[0]] + b);
            assert((seq![s[0]] + a).skip(1) == a);
            assert((seq![s[0]] + b).skip(1) == b);
            if a.len() > 0 {
                assert((seq![s[0]] + a)[1] == a[0]);
            }
            if b.len() > 0 {
                assert((seq![s[0]] + b)[1] == b[0]);
            }
            assert(unescaped(seq![s[0]] + a, q) == seq![s[0]] + unescaped(a, q));
            assert(unescaped(seq![s[0]] + b, p) == seq![s[0]] + unescaped(b, p));
        }
    }
}

/// Lines are compared by what stands between the white space around them,
/// character by character: a line without backslashes is its trimmed text, so
/// that two such lines are the same line exactly where they are the same but
/// for the white space around them.
pub proof fn plain_lines_are_compared_whole(a: Seq<char>, b: Seq<char>)
    requires
        !a.contains('\\'),
        !b.contains('\\'),
    ensures
        normalized(a) == text::trimmed(a),
        normalized(a) == normalized(b) <==> text::trimmed(a) == text::trimmed(b),
{
    plain_line_is_trimmed(a);
    plain_line_is_trimmed(b);
}

proof fn plain_line_is_trimmed(a: Seq<char>)
    requires
        !a.contains('\\'),
    ensures
        normalized(a) == text::trimmed(a),
{
    let t = text::trimmed(a);
    text::trimmed_cuts_white_space(a);
    let (from, to) = choose|from: int, to: int|
        {
            &&& 0 <= from <= to <= a.len()
            &&& t == #[trigger] a.subrange(from, to)
            &&& forall|i: int|
                0 <= i < from || to <= i < a.len() ==> text::white_space(#[trigger] a[i])
        };
    assert forall|i: int| 0 <= i < t.len() implies #[trigger] t[i] != '\\' by {
        assert(t[i] == a[from + i]);
        assert(a.contains(a[from + i]));
    }
    plain_text_is_kept(t, '"');
    plain_text_is_kept(t, '\'');
}

/// Whatever a line holds, the white space around it is cut and both kinds of
/// quotes are unescaped, the single ones and then the double ones or the other
/// way round. White space put around a line changes nothing.
pub proof fn quotes_are_unescaped(line: Seq<char>, before: Seq<char>, after: Seq<char>)
    requires
        forall|i: int| 0 <= i < before.len() ==> text::white_space(#[trigger] before[i]),
        forall|i: int| 0 <= i < after.len() ==> text::white_space(#[trigger] after[i]),
    ensures
        normalized(line) == unescaped(unescaped(text::trimmed(line), '\''), '"'),
        normalized(before + line + after) == normalized(line),
{
    unescaping_commutes(text::trimmed(line), '"', '\'');
    let all = before + line + after;
    let t = text::trimmed(line);
    text::trimmed_cuts_white_space(line);
    let (from, to) = choose|from: int, to: int|
        {
            &&& 0 <= from <= to <= line.len()
            &&& t == #[trigger] line.subrange(from, to)
            &&& forall|i: int|
                0 <= i < from || to <= i < line.len() ==> text::white_space(#[trigger] line[i])
        };
    let front = before + line.take(from);
    let back = line.skip(to) + after;
    assert forall|i: int| 0 <= i < front.len() implies text::white_space(#[trigger] front[i]) by {
        if i >= before.len() {
            assert(front[i] == line[i - before.len()]);
        } else {
            assert(front[i] == before[i]);
        }
    }
    assert forall|i: int| 0 <= i < back.len() implies text::white_space(#[trigger] back[i]) by {
        if i < line.len() - to {
            assert(back[i] == line[to + i]);
        } else {
            assert(back[i] == after[i - (line.len() - to)]);
        }
    }
    assert(all =~= front + t + back);
    text::padding_is_trimmed(front, t, back);
}

/// A line is looked for up to ten lines above and below the number given, and
/// no further: a line further away is never found, one that is near enough and
/// reads as expected always lets some line be found, and where the expected text
/// holds no backslash a found line without backslashes reads exactly so, but for
/// the white space around it.
pub proof fn search_reaches_ten_lines(
    lines: Seq<Seq<char>>,
    number: int,
    expected: Seq<char>,
    near: int,
)
    ensures
        target_line(lines, number, expected) matches Some(found) ==> {
            &&& 1 <= number <= lines.len()
            &&& 1 <= found <= lines.len()
            &&& number - 10 <= found <= number + 10
            &&& !expected.contains('\\') && !lines[found - 1].contains('\\') ==> text::trimmed(
                lines[found - 1],
            ) == text::trimmed(expected)
        },
        ({
            &&& 1 <= number <= lines.len()
            &&& 1 <= near <= lines.len()
            &&& number - 10 <= near <= number + 10
            &&& normalized(lines[near - 1]) == normalized(expected)
        }) ==> {
            &&& target_line(lines, number, expected) is Some
            &&& target_line(lines, number, expected)->0 <= near || normalized(lines[number - 1])
                == normalized(expected)
        },
        1 <= number <= lines.len() && normalized(lines[number - 1]) == normalized(expected)
            ==> target_line(lines, number, expected) == Some(number),
{
    target_line_reads_so(lines, number, expected);
    if let Some(found) = target_line(lines, number, expected) {
        if !expected.contains('\\') && !lines[found - 1].contains('\\') {
            plain_lines_are_compared_whole(lines[found - 1], expected);
        }
    }
    if 1 <= near <= lines.len() {
        assert(lines[near - 1] == lines[near - 1]);
    }
}

/// Replacing a line leaves all text before it and all text behind it as it is:
/// the joined lines are the lines before, the line and the lines behind, and
/// only the line differs.
pub proof fn rest_of_the_text_stays(
    a: Seq<Seq<char>>,
    line: Seq<char>,
    b: Seq<Seq<char>>,
    replacement: Seq<char>,
)
    ensures
        ({
            let lines = a + seq![line] + b;
            let before = if a.len() == 0 {
                Seq::empty()
            } else {
                text::joined(a) + seq!['\n']
            };
            let behind = if b.len() == 0 {
                Seq::empty()
            } else {
                seq!['\n'] + text::joined(b)
            };
            &&& text::joined(lines) == before + line + behind
            &&& with_line(lines, a.len() as int + 1, replacement) == before + replacement + behind
        }),
{
    let lines = a + seq![line] + b;
    joined_around(a, line, b);
    joined_around(a, replacement, b);
    assert(lines.update(a.len() as int, replacement) =~= a + seq![replacement] + b);
}

proof fn joined_around(a: Seq<Seq<char>>, line: Seq<char>, b: Seq<Seq<char>>)
    ensures
        ({
            let before = if a.len() == 0 {
                Seq::empty()
            } else {
                text::joined(a) + seq!['\n']
            };
            let behind = if b.len() == 0 {
                Seq::empty()
            } else {
                seq!['\n'] + text::joined(b)
            };
            text::joined(a + seq![line] + b) == before + line + behind
        }),
{
    let one = seq![line];
    if b.len() == 0 {
        assert(a + one + b == a + one);
    } else {
        text::joined_in_parts(a + one, b, line);
    }
    if a.len() == 0 {
        assert(a + one == one);
        assert(text::joined(one) == line);
    } else {
        text::joined_in_parts(a, one, line);
    }
    let before = if a.len() == 0 {
        Seq::empty()
    } else {
        text::joined(a) + seq!['\n']
    };
    let behind = if b.len() == 0 {
        Seq::empty()
    } else {
        seq!['\n'] + text::joined(b)
    };
    assert(text::joined(a + one) =~= before + line);
    assert(text::joined(a + one + b) =~= before + line + behind);
}

} // verus!
