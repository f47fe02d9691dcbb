//! Writing new tests into the test module of a source file.

use vstd::prelude::*;

use crate::blocks::{self, find_block_end, skip_element};
use crate::text::{self, chars_of, is_white_space, matches_at, string_of};

verus! {

/// A test module: where its mark begins, and where the braces around what it
/// holds stand.
pub struct TestModule {
    pub mark: int,
    pub open: int,
    pub close: int,
}

/// Whether `c` can belong to a word.
pub open spec fn word_char(c: char) -> bool {
    ||| 'a' <= c <= 'z'
    ||| 'A' <= c <= 'Z'
    ||| '0' <= c <= '9'
    ||| c == '_'
    ||| '\u{80}' <= c
}

/// Whether the word `mod` stands at `i`.
pub open spec fn keyword_at(s: Seq<char>, i: int) -> bool {
    &&& i + 3 < s.len()
    &&& s[i] == 'm'
    &&& s[i + 1] == 'o'
    &&& s[i + 2] == 'd'
    &&& text::white_space(s[i + 3])
    &&& i > 0 ==> !word_char(s[i - 1])
}

/// The brace that opens the module whose header goes on at `i`, if it is the
/// header of a module: the word `mod` comes before any brace or semicolon.
/// `named` says whether it came before `i`.
pub open spec fn module_brace(s: Seq<char>, i: int, named: bool) -> Option<int>
    decreases s.len() - i,
{
    if !(0 <= i < s.len()) || s[i] == ';' || s[i] == '}' {
        None
    } else if s[i] == '{' {
        if named {
            Some(i)
        } else {
            None
        }
    } else {
        proof {
            blocks::elements_have_length(s, i);
        }
        module_brace(s, blocks::element_end(s, i), named || keyword_at(s, i))
    }
}

/// The test module whose mark stands at `i`, if there is one: a module with a
/// body, in which as many braces are closed as are opened.
pub open spec fn module_at(s: Seq<char>, i: int) -> Option<TestModule> {
    if s[i] == '#' && text::occurs_at(s, "#[cfg(test)]"@, i) {
        match module_brace(s, i + "#[cfg(test)]"@.len(), false) {
            Some(open) => match blocks::block_end(s, open + 1, 1) {
                Some(close) => Some(TestModule { mark: i, open, close }),
                None => None,
            },
            None => None,
        }
    } else {
        None
    }
}

proof fn brace_follows(s: Seq<char>, i: int, named: bool)
    ensures
        module_brace(s, i, named) matches Some(open) ==> i <= open < s.len() && s[open] == '{',
    decreases s.len() - i,
{
    if 0 <= i < s.len() && s[i] != ';' && s[i] != '}' && s[i] != '{' {
        blocks::elements_have_length(s, i);
        brace_follows(s, blocks::element_end(s, i), named || keyword_at(s, i));
    }
}

/// The mark, the opening brace and the closing brace of a test module follow
/// each other.
pub proof fn module_is_in_order(s: Seq<char>, i: int)
    requires
        0 <= i < s.len(),
    ensures
        module_at(s, i) matches Some(m) ==> {
            &&& m.mark == i
            &&& text::occurs_at(s, "#[cfg(test)]"@, m.mark)
            &&& m.mark + "#[cfg(test)]"@.len() <= m.open < m.close < s.len()
            &&& s[m.open] == '{'
            &&& s[m.close] == '}'
            &&& blocks::block_end(s, m.open + 1, 1) == Some(m.close)
        },
{
    if let Some(m) = module_at(s, i) {
        brace_follows(s, i + "#[cfg(test)]"@.len(), false);
        blocks::block_end_is_a_brace(s, m.open + 1, 1);
    }
}

/// The last test module of `s` from `i` on. One that stands inside another does
/// not count.
pub open spec fn last_module(s: Seq<char>, i: int) -> Option<TestModule>
    decreases s.len() - i,
{
    if !(0 <= i < s.len()) {
        None
    } else {
        match module_at(s, i) {
            Some(m) => {
                proof {
                    module_is_in_order(s, i);
                }
                match last_module(s, m.close + 1) {
                    Some(later) => Some(later),
                    None => Some(m),
                }
            },
            None => {
                proof {
                    blocks::elements_have_length(s, i);
                }
                last_module(s, blocks::element_end(s, i))
            },
        }
    }
}

/// Whether a source file has a test module to write into.
pub open spec fn has_test_module(source: Seq<char>) -> bool {
    last_module(source, 0) is Some
}

/// Where the new tests go: before the brace that closes the last test module,
/// and before the line feed where that brace begins a line.
pub open spec fn module_end(source: Seq<char>) -> int {
    let close = last_module(source, 0)->0.close;
    if source[close - 1] == '\n' {
        close - 1
    } else {
        close
    }
}

/// `source` with `tests` written at the end of its test module, on lines of
/// their own.
pub open spec fn with_tests(source: Seq<char>, tests: Seq<char>) -> Seq<char> {
    let end = module_end(source);
    let written = if source[end] == '\n' {
        tests
    } else {
        tests.push('\n')
    };
    source.take(end).push('\n') + written + source.skip(end)
}

fn is_word_char(c: char) -> (r: bool)
    ensures
        r == word_char(c),
{
    ('a' <= c && c <= 'z') || ('A' <= c && c <= 'Z') || ('0' <= c && c <= '9') || c == '_'
        || '\u{80}' <= c
}

fn is_keyword_at(s: &[char], i: usize) -> (r: bool)
    requires
        i < s@.len(),
    ensures
        r == keyword_at(s@, i as int),
{
    s.len() - i > 3 && s[i] == 'm' && s[i + 1] == 'o' && s[i + 2] == 'd' && is_white_space(s[i + 3])
        && (i == 0 || !is_word_char(s[i - 1]))
}

fn find_module_brace(s: &[char], from: usize) -> (r: Option<usize>)
    requires
        from <= s@.len(),
    ensures
        module_brace(s@, from as int, false) == match r {
            Some(i) => Some(i as int),
            None => None,
        },
{
    let mut i: usize = from;
    let mut named: bool = false;
    while i < s.len() && s[i] != ';' && s[i] != '}'
        invariant
            i <= s@.len(),
            module_brace(s@, i as int, named) == module_brace(s@, from as int, false),
        decreases s@.len() - i,
    {
        if s[i] == '{' {
            return if named {
                Some(i)
            } else {
                None
            };
        }
        let word = is_keyword_at(s, i);
        i = skip_element(s, i);
        named = named || word;
    }
    None
}

/// Where the test module ends whose mark stands at `i`.
fn find_module_at(s: &[char], i: usize) -> (r: Option<usize>)
    requires
        i < s@.len(),
    ensures
        match r {
            Some(close) => module_at(s@, i as int) is Some && module_at(s@, i as int)->0.close
                == close && i < close < s@.len(),
            None => module_at(s@, i as int) is None,
        },
{
    let mark = chars_of("#[cfg(test)]");
    if s[i] != '#' || !matches_at(s, &mark, i) {
        return None;
    }
    match find_module_brace(s, i + mark.len()) {
        Some(open) => {
            proof {
                brace_follows(s@, i + mark@.len(), false);
                module_is_in_order(s@, i as int);
            }
            find_block_end(s, open + 1)
        },
        None => None,
    }
}

/// Where the last test module ends.
fn find_last_module(s: &[char]) -> (r: Option<usize>)
    ensures
        match r {
            Some(close) => last_module(s@, 0) is Some && last_module(s@, 0)->0.close == close && 0
                < close < s@.len(),
            None => last_module(s@, 0) is None,
        },
{
    let mut found: Option<usize> = None;
    let ghost mut best: Option<TestModule> = None;
    let mut i: usize = 0;
    while i < s.len()
        invariant
            i <= s@.len(),
            match found {
                Some(close) => best is Some && best->0.close == close && 0 < close < s@.len(),
                None => best is None,
            },
            last_module(s@, 0) == match last_module(s@, i as int) {
                Some(m) => Some(m),
                None => best,
            },
        decreases s@.len() - i,
    {
        match find_module_at(s, i) {
            Some(close) => {
                proof {
                    best = module_at(s@, i as int);
                }
                found = Some(close);
                i = close + 1;
            },
            None => {
                i = skip_element(s, i);
            },
        }
    }
    found
}

/// Writes `new_tests` into the test module of `source`, where it has one.
pub fn insert_tests(source: &str, new_tests: &str) -> (r: Option<String>)
    ensures
        match r {
            Some(patched) => has_test_module(source@) && patched@ == with_tests(
                source@,
                new_tests@,
            ),
            None => !has_test_module(source@),
        },
{
    let chars = chars_of(source);
    match find_last_module(&chars) {
        Some(close) => {
            let end: usize = if chars[close - 1] == '\n' {
                close - 1
            } else {
                close
            };
            let mut patched = string_of(&chars, 0, end);
            patched.push('\n');
            patched.append(new_tests);
            if chars[end] != '\n' {
                patched.push('\n');
            }
            patched.append(string_of(&chars, end, chars.len()).as_str());
            assert(patched@ =~= with_tests(source@, new_tests@));
            Some(patched)
        },
        None => None,
    }
}

proof fn last_module_is_one(s: Seq<char>, i: int)
    ensures
        last_module(s, i) matches Some(m) ==> i <= m.mark < s.len() && module_at(s, m.mark) == Some(
            m,
        ),
    decreases s.len() - i,
{
    if 0 <= i < s.len() {
        match module_at(s, i) {
            Some(m) => {
                module_is_in_order(s, i);
                last_module_is_one(s, m.close + 1);
            },
            None => {
                blocks::elements_have_length(s, i);
                last_module_is_one(s, blocks::element_end(s, i));
            },
        }
    }
}

/// The new tests go into the test module: behind its mark and its opening
/// brace, and before the brace that closes it, with nothing in between but a
/// line feed.
pub proof fn tests_go_into_the_module(source: Seq<char>)
    requires
        has_test_module(source),
    ensures
        ({
            let m = last_module(source, 0)->0;
            let end = module_end(source);
            &&& text::occurs_at(source, "#[cfg(test)]"@, m.mark)
            &&& module_brace(source, m.mark + "#[cfg(test)]"@.len(), false) == Some(m.open)
            &&& blocks::block_end(source, m.open + 1, 1) == Some(m.close)
            &&& 0 <= m.mark < m.open < end <= m.close < source.len()
            &&& source[m.open] == '{'
            &&& source[m.close] == '}'
            &&& end == m.close || (end == m.close - 1 && source[end] == '\n')
        }),
{
    last_module_is_one(source, 0);
    module_is_in_order(source, last_module(source, 0)->0.mark);
}

/// Taking the new tests out again gives the source as it was: nothing of it is
/// lost or moved.
pub proof fn source_is_kept(source: Seq<char>, tests: Seq<char>)
    requires
        has_test_module(source),
    ensures
        ({
            let patched = with_tests(source, tests);
            let end = module_end(source);
            let rest = patched.len() - (source.len() - end);
            &&& patched.take(end) + patched.skip(rest) == source
            &&& patched.subrange(end + 1, end + 1 + tests.len()) == tests
            &&& patched[end] == '\n'
            &&& patched[end + 1 + tests.len()] == '\n'
            &&& rest == end + 1 + tests.len() + if source[end] == '\n' {
                0int
            } else {
                1int
            }
        }),
{
    tests_go_into_the_module(source);
    let patched = with_tests(source, tests);
    let end = module_end(source);
    let rest = patched.len() - (source.len() - end);
    assert(patched.take(end) + patched.skip(rest) =~= source);
    assert(patched.subrange(end + 1, end + 1 + tests.len()) =~= tests);
}

proof fn header_leads_to_brace(s: Seq<char>, i: int, named: bool)
    ensures
        module_brace(s, i, named) matches Some(open) ==> blocks::leads_to(s, i, open),
    decreases s.len() - i,
{
    if 0 <= i < s.len() && s[i] != ';' && s[i] != '}' && s[i] != '{' {
        let then = blocks::element_end(s, i);
        blocks::elements_have_length(s, i);
        brace_follows(s, then, named || keyword_at(s, i));
        header_leads_to_brace(s, then, named || keyword_at(s, i));
    }
}

proof fn mark_is_read(s: Seq<char>, i: int, j: int)
    requires
        text::occurs_at(s, "#[cfg(test)]"@, i),
        0 <= j <= 12,
    ensures
        "#[cfg(test)]"@.len() == 12,
        blocks::leads_to(s, i + j, i + 12),
    decreases 12 - j,
{
    reveal_strlit("#[cfg(test)]");
    let mark = "#[cfg(test)]"@;
    if j < 12 {
        assert(s[i + j] == s.subrange(i, i + 12)[j]);
        assert(j == 0 || j == 1 || j == 2 || j == 3 || j == 4 || j == 5 || j == 6 || j == 7 || j == 8
            || j == 9 || j == 10 || j == 11);
        assert(blocks::element_end(s, i + j) == i + j + 1);
        mark_is_read(s, i, j + 1);
    }
}

proof fn brace_is_read(s: Seq<char>, i: int)
    requires
        0 <= i < s.len(),
        s[i] == '{' || s[i] == '}',
    ensures
        blocks::leads_to(s, i, i + 1),
{
    reveal_with_fuel(blocks::leads_to, 2);
    assert(blocks::element_end(s, i) == i + 1);
}

/// The elements of a test module lead from its mark to its braces.
proof fn module_is_read(s: Seq<char>, i: int)
    requires
        0 <= i < s.len(),
    ensures
        module_at(s, i) matches Some(m) ==> {
            &&& blocks::leads_to(s, i, m.open)
            &&& blocks::leads_to(s, i, m.close)
            &&& blocks::leads_to(s, i, m.close + 1)
        },
{
    if let Some(m) = module_at(s, i) {
        module_is_in_order(s, i);
        mark_is_read(s, i, 0);
        header_leads_to_brace(s, i + 12, false);
        blocks::leads_through(s, i, i + 12, m.open);
        brace_is_read(s, m.open);
        blocks::leads_through(s, i, m.open, m.open + 1);
        blocks::block_leads_to_its_end(s, m.open + 1, 1);
        blocks::leads_through(s, i, m.open + 1, m.close);
        brace_is_read(s, m.close);
        blocks::leads_through(s, i, m.close, m.close + 1);
    }
}

proof fn last_module_is_reached(s: Seq<char>, i: int)
    ensures
        last_module(s, i) matches Some(m) ==> blocks::leads_to(s, i, m.mark),
    decreases s.len() - i,
{
    if 0 <= i < s.len() {
        blocks::elements_have_length(s, i);
        last_module_is_one(s, i);
        match module_at(s, i) {
            Some(m) => {
                module_is_in_order(s, i);
                module_is_read(s, i);
                last_module_is_one(s, m.close + 1);
                last_module_is_reached(s, m.close + 1);
                if let Some(later) = last_module(s, m.close + 1) {
                    blocks::leads_through(s, i, m.close + 1, later.mark);
                }
            },
            None => {
                last_module_is_one(s, blocks::element_end(s, i));
                last_module_is_reached(s, blocks::element_end(s, i));
            },
        }
    }
}

proof fn header_moves(s: Seq<char>, t: Seq<char>, a: int, k: int, i: int, named: bool)
    requires
        blocks::same_from(s, t, a, k),
        a < i,
    ensures
        module_brace(t, i + k, named) == match module_brace(s, i, named) {
            Some(open) => Some(open + k),
            None => None,
        },
    decreases s.len() - i,
{
    if i < s.len() {
        assert(s[i] == t[i + k]);
        if s[i] != ';' && s[i] != '}' && s[i] != '{' {
            assert(keyword_at(t, i + k) == keyword_at(s, i)) by {
                assert(s[i - 1] == t[i - 1 + k]);
                if i + 3 < s.len() {
                    assert(s[i + 1] == t[i + 1 + k]);
                    assert(s[i + 2] == t[i + 2 + k]);
                    assert(s[i + 3] == t[i + 3 + k]);
                }
            }
            blocks::elements_have_length(s, i);
            blocks::element_moves(s, t, a, k, i);
            header_moves(s, t, a, k, blocks::element_end(s, i), named || keyword_at(s, i));
        }
    }
}

proof fn module_moves(s: Seq<char>, t: Seq<char>, a: int, k: int, i: int)
    requires
        blocks::same_from(s, t, a, k),
        a <= i < s.len(),
    ensures
        module_at(t, i + k) == match module_at(s, i) {
            Some(m) => Some(TestModule { mark: m.mark + k, open: m.open + k, close: m.close + k }),
            None => None,
        },
{
    let mark = "#[cfg(test)]"@;
    reveal_strlit("#[cfg(test)]");
    assert(s[i] == t[i + k]);
    assert(text::occurs_at(t, mark, i + k) == text::occurs_at(s, mark, i)) by {
        if i + 12 <= s.len() {
            assert(t.subrange(i + k, i + k + 12) =~= s.subrange(i, i + 12)) by {
                let moved = t.subrange(i + k, i + k + 12);
                assert forall|j: int| 0 <= j < 12 implies #[trigger] moved[j] == s.subrange(
                    i,
                    i + 12,
                )[j] by {
                    assert(s[i + j] == t[i + j + k]);
                }
            }
        }
    }
    if text::occurs_at(s, mark, i) {
        header_moves(s, t, a, k, i + 12, false);
        brace_follows(s, i + 12, false);
        if let Some(open) = module_brace(s, i + 12, false) {
            blocks::block_end_moves(s, t, a, k, open + 1, 1);
        }
    }
}

proof fn no_module_moves(s: Seq<char>, t: Seq<char>, a: int, k: int, i: int)
    requires
        blocks::same_from(s, t, a, k),
        a <= i,
        last_module(s, i) is None,
    ensures
        last_module(t, i + k) is None,
    decreases s.len() - i,
{
    if i < s.len() {
        module_moves(s, t, a, k, i);
        blocks::elements_have_length(s, i);
        blocks::element_moves(s, t, a, k, i);
        no_module_moves(s, t, a, k, blocks::element_end(s, i));
    }
}

/// How many characters are written into a source: the tests, and the line feeds
/// around them that are not there yet.
spec fn growth(source: Seq<char>, tests: Seq<char>) -> int {
    with_tests(source, tests).len() - source.len()
}

proof fn patched_parts(source: Seq<char>, tests: Seq<char>)
    requires
        has_test_module(source),
    ensures
        ({
            let close = last_module(source, 0)->0.close;
            let patched = with_tests(source, tests);
            let k = growth(source, tests);
            let from = close + k - 1 - tests.len();
            &&& 0 < close < source.len()
            &&& source[close] == '}'
            &&& blocks::same_until(source, patched, close)
            &&& blocks::same_from(source, patched, close, k)
            &&& from == close || (from == close + 1 && patched[close] == '\n')
            &&& patched.subrange(from, from + tests.len() + 1) == tests.push('\n')
        }),
{
    tests_go_into_the_module(source);
    let close = last_module(source, 0)->0.close;
    let end = module_end(source);
    let patched = with_tests(source, tests);
    let k = growth(source, tests);
    let from = close + k - 1 - tests.len();
    assert forall|i: int| 0 <= i < close implies #[trigger] patched[i] == source[i] by {}
    assert forall|i: int| close <= i < source.len() implies source[i] == #[trigger] patched[i
        + k] by {}
    assert(patched.subrange(from, from + tests.len() + 1) =~= tests.push('\n'));
}

/// A block that goes on behind the new tests ends where it did, as far as the
/// text has not moved.
proof fn block_end_follows(source: Seq<char>, tests: Seq<char>, i: int, depth: nat)
    requires
        has_test_module(source),
        blocks::paired(tests),
        blocks::leads_to(source, i, last_module(source, 0)->0.close),
        0 <= i,
        depth > 0,
    ensures
        ({
            let close = last_module(source, 0)->0.close;
            blocks::block_end(with_tests(source, tests), i, depth) == match blocks::block_end(
                source,
                i,
                depth,
            ) {
                Some(end) => Some(
                    if end < close {
                        end
                    } else {
                        end + growth(source, tests)
                    },
                ),
                None => None,
            }
        }),
    decreases last_module(source, 0)->0.close - i,
{
    let close = last_module(source, 0)->0.close;
    let t = with_tests(source, tests);
    let k = growth(source, tests);
    patched_parts(source, tests);
    if i == close {
        let from = close + k - 1 - tests.len();
        let n = tests.len() as int;
        if from == close + 1 {
            assert(blocks::element_end(t, close) == close + 1);
        }
        assert(blocks::block_end(t, close, depth) == blocks::block_end(t, from, depth));
        blocks::paired_code_is_passed(tests, t, from, 0, 0, depth);
        assert(t[from + n] == '\n') by {
            assert(t[from + n] == t.subrange(from, from + n + 1)[n]);
        }
        assert(blocks::element_end(t, from + n) == from + n + 1);
        blocks::block_end_moves(source, t, close, k, close, depth);
        blocks::block_end_is_a_brace(source, close, depth);
    } else {
        assert(t[i] == source[i]);
        blocks::element_stays(source, t, close, i);
        if source[i] == '}' {
            if depth > 1 {
                block_end_follows(source, tests, i + 1, (depth - 1) as nat);
            }
        } else if source[i] == '{' {
            block_end_follows(source, tests, i + 1, depth + 1);
        } else {
            block_end_follows(source, tests, blocks::element_end(source, i), depth);
        }
    }
}

/// A header that comes before the opening brace of the module stays.
proof fn header_stays(s: Seq<char>, t: Seq<char>, p: int, open: int, i: int, named: bool)
    requires
        blocks::same_until(s, t, p),
        0 <= i <= open < p,
        s[open] == '{',
        blocks::leads_to(s, i, open),
    ensures
        module_brace(t, i, named) == module_brace(s, i, named),
        module_brace(s, i, named) matches Some(brace) ==> brace <= open && blocks::leads_to(
            s,
            brace,
            open,
        ),
    decreases open - i,
{
    assert(t[i] == s[i]);
    if i < open && s[i] != ';' && s[i] != '}' && s[i] != '{' {
        assert(t[open] == s[open]);
        assert(keyword_at(t, i) == keyword_at(s, i)) by {
            if i > 0 {
                assert(t[i - 1] == s[i - 1]);
            }
            if i + 1 < p {
                assert(t[i + 1] == s[i + 1]);
            }
            if i + 2 < p {
                assert(t[i + 2] == s[i + 2]);
            }
            if i + 3 < p {
                assert(t[i + 3] == s[i + 3]);
            }
        }
        blocks::element_stays(s, t, p, i);
        header_stays(
            s,
            t,
            p,
            open,
            blocks::element_end(s, i),
            named || keyword_at(s, i),
        );
    }
}

proof fn mark_stays(s: Seq<char>, t: Seq<char>, p: int, open: int, i: int)
    requires
        blocks::same_until(s, t, p),
        0 <= i <= open < p,
        s[open] == '{',
    ensures
        text::occurs_at(t, "#[cfg(test)]"@, i) == text::occurs_at(s, "#[cfg(test)]"@, i),
        text::occurs_at(s, "#[cfg(test)]"@, i) ==> i + 12 <= open,
        "#[cfg(test)]"@.len() == 12,
{
    reveal_strlit("#[cfg(test)]");
    let mark = "#[cfg(test)]"@;
    assert(t[open] == s[open]);
    if i + 12 <= open {
        assert(t.subrange(i, i + 12) =~= s.subrange(i, i + 12)) by {
            let there = t.subrange(i, i + 12);
            assert forall|j: int| 0 <= j < 12 implies #[trigger] there[j] == s.subrange(
                i,
                i + 12,
            )[j] by {
                assert(t[i + j] == s[i + j]);
            }
        }
    } else {
        let j = open - i;
        assert(mark[j] != '{') by {
            assert(j == 0 || j == 1 || j == 2 || j == 3 || j == 4 || j == 5 || j == 6 || j == 7
                || j == 8 || j == 9 || j == 10 || j == 11);
        }
        if text::occurs_at(s, mark, i) {
            assert(s.subrange(i, i + 12)[j] == mark[j]);
        }
        if text::occurs_at(t, mark, i) {
            assert(t.subrange(i, i + 12)[j] == mark[j]);
        }
    }
}

proof fn last_module_follows(source: Seq<char>, tests: Seq<char>, i: int)
    requires
        has_test_module(source),
        blocks::paired(tests),
        0 <= i,
        last_module(source, i) == last_module(source, 0),
    ensures
        ({
            let m = last_module(source, 0)->0;
            last_module(with_tests(source, tests), i) == Some(
                TestModule { close: m.close + growth(source, tests), ..m },
            )
        }),
    decreases source.len() - i,
{
    let m = last_module(source, 0)->0;
    let t = with_tests(source, tests);
    let k = growth(source, tests);
    patched_parts(source, tests);
    last_module_is_one(source, i);
    last_module_is_reached(source, i);
    module_is_in_order(source, m.mark);
    module_is_read(source, m.mark);
    blocks::leads_through(source, i, m.mark, m.open);
    blocks::leads_through(source, i, m.mark, m.close);
    mark_stays(source, t, m.close, m.open, i);
    assert(t[i] == source[i]);
    if text::occurs_at(source, "#[cfg(test)]"@, i) {
        mark_is_read(source, i, 0);
        blocks::leads_on(source, i, i + 12, m.open);
        header_stays(source, t, m.close, m.open, i + 12, false);
        brace_follows(source, i + 12, false);
        if let Some(open) = module_brace(source, i + 12, false) {
            header_leads_to_brace(source, i + 12, false);
            blocks::leads_through(source, i, i + 12, open);
            brace_is_read(source, open);
            blocks::leads_through(source, i, open, open + 1);
            blocks::leads_on(source, i, open + 1, m.close);
            block_end_follows(source, tests, open + 1, 1);
        }
    }
    match module_at(source, i) {
        Some(n) => {
            module_is_in_order(source, i);
            last_module_is_one(source, n.close + 1);
            if last_module(source, n.close + 1) is Some {
                last_module_follows(source, tests, n.close + 1);
            } else {
                no_module_moves(source, t, m.close, k, m.close + 1);
            }
        },
        None => {
            blocks::elements_have_length(source, i);
            last_module_is_one(source, blocks::element_end(source, i));
            blocks::element_stays(source, t, m.close, i);
            last_module_follows(source, tests, blocks::element_end(source, i));
        },
    }
}

/// Tests whose braces pair up stay inside the test module: in the patched
/// source it begins where it did, and ends behind them. Tests written later go
/// after them.
pub proof fn patched_source_can_be_patched(source: Seq<char>, tests: Seq<char>)
    requires
        has_test_module(source),
        blocks::paired(tests),
    ensures
        ({
            let patched = with_tests(source, tests);
            let before = last_module(source, 0)->0;
            let after = last_module(patched, 0)->0;
            &&& has_test_module(patched)
            &&& after.mark == before.mark
            &&& after.open == before.open
            &&& after.close == before.close + patched.len() - source.len()
            &&& after.open < module_end(source)
            &&& module_end(source) + 1 + tests.len() < after.close
            &&& module_end(patched) == module_end(source) + 1 + tests.len()
        }),
{
    tests_go_into_the_module(source);
    source_is_kept(source, tests);
    last_module_follows(source, tests, 0);
}

/// The word that makes a module stands at `i` where its three letters do, white
/// space behind them, and before them nothing that could belong to a word: no
/// ASCII letter, digit or underscore, and nothing beyond ASCII.
pub proof fn keyword_stands_alone(s: Seq<char>, i: int)
    requires
        0 <= i,
    ensures
        keyword_at(s, i) <==> {
            &&& i + 3 < s.len()
            &&& s.subrange(i, i + 3) == seq!['m', 'o', 'd']
            &&& text::white_space(s[i + 3])
            &&& i == 0 || ({
                let c = s[i - 1];
                !('0' <= c <= '9' || 'A' <= c <= 'Z' || c == '_' || 'a' <= c <= 'z' || c
                    >= '\u{80}')
            })
        },
{
    if i + 3 < s.len() {
        let word = s.subrange(i, i + 3);
        if word == seq!['m', 'o', 'd'] {
            assert(word[0] == 'm' && word[1] == 'o' && word[2] == 'd');
        }
        if s[i] == 'm' && s[i + 1] == 'o' && s[i + 2] == 'd' {
            assert(word =~= seq!['m', 'o', 'd']);
        }
    }
}

/// A mark is followed by a module with a body exactly where elements lead from
/// it to an opening brace, none of them a brace or a semicolon, and the word for
/// a module is one of the places on the way.
pub proof fn header_of_a_module(s: Seq<char>, i: int, open: int)
    requires
        0 <= i,
    ensures
        module_brace(s, i, false) == Some(open) <==> {
            &&& i <= open < s.len()
            &&& s[open] == '{'
            &&& blocks::leads_to(s, i, open)
            &&& forall|j: int|
                i <= j < open && #[trigger] blocks::leads_to(s, i, j) ==> s[j] != '{' && s[j] != '}'
                    && s[j] != ';'
            &&& exists|j: int|
                i <= j < open && #[trigger] blocks::leads_to(s, i, j) && keyword_at(s, j)
        },
{
    header_leads(s, i, open, false);
}

proof fn header_leads(s: Seq<char>, i: int, open: int, named: bool)
    requires
        0 <= i,
    ensures
        module_brace(s, i, named) == Some(open) <==> {
            &&& i <= open < s.len()
            &&& s[open] == '{'
            &&& blocks::leads_to(s, i, open)
            &&& forall|j: int|
                i <= j < open && #[trigger] blocks::leads_to(s, i, j) ==> s[j] != '{' && s[j] != '}'
                    && s[j] != ';'
            &&& named || exists|j: int|
                i <= j < open && #[trigger] blocks::leads_to(s, i, j) && keyword_at(s, j)
        },
    decreases s.len() - i,
{
    brace_follows(s, i, named);
    if i < s.len() {
        blocks::elements_have_length(s, i);
        let then = blocks::element_end(s, i);
        assert(blocks::leads_to(s, i, i));
        if s[i] == ';' || s[i] == '}' || s[i] == '{' {
            if i < open {
                assert(blocks::leads_to(s, i, i));
            }
        } else {
            let word = keyword_at(s, i);
            header_leads(s, then, open, named || word);
            if i < open {
                assert forall|j: int| then <= j <= open implies blocks::leads_to(s, i, j)
                    == #[trigger] blocks::leads_to(s, then, j) by {}
                assert forall|j: int| i < j < then implies !#[trigger] blocks::leads_to(
                    s,
                    i,
                    j,
                ) by {}
                if module_brace(s, i, named) == Some(open) {
                    assert forall|j: int|
                        i <= j < open && #[trigger] blocks::leads_to(s, i, j) implies s[j] != '{'
                        && s[j] != '}' && s[j] != ';' by {
                        if j > i {
                            assert(blocks::leads_to(s, then, j));
                        }
                    }
                    if !named && !word {
                        let j = choose|j: int|
                            then <= j < open && #[trigger] blocks::leads_to(s, then, j)
                                && keyword_at(s, j);
                        assert(blocks::leads_to(s, i, j));
                    }
                }
                if {
                    &&& open < s.len()
                    &&& s[open] == '{'
                    &&& blocks::leads_to(s, i, open)
                    &&& forall|j: int|
                        i <= j < open && #[trigger] blocks::leads_to(s, i, j) ==> s[j] != '{'
                            && s[j] != '}' && s[j] != ';'
                    &&& named || exists|j: int|
                        i <= j < open && #[trigger] blocks::leads_to(s, i, j) && keyword_at(s, j)
                } {
                    assert(then <= open);
                    assert forall|j: int|
                        then <= j < open && #[trigger] blocks::leads_to(s, then, j) implies s[j]
                        != '{' && s[j] != '}' && s[j] != ';' by {
                        assert(blocks::leads_to(s, i, j));
                    }
                    if !named && !word {
                        let j = choose|j: int|
                            i <= j < open && #[trigger] blocks::leads_to(s, i, j) && keyword_at(
                                s,
                                j,
                            );
                        assert(blocks::leads_to(s, then, j));
                    }
                }
            }
        }
    }
}

/// No test module stands behind the last one, and where there is none no place
/// in the code begins one. A source that does not hold the mark has none.
pub proof fn last_module_is_the_last(s: Seq<char>)
    ensures
        match last_module(s, 0) {
            Some(m) => {
                &&& module_at(s, m.mark) == Some(m)
                &&& blocks::leads_to(s, 0, m.mark)
                &&& forall|i: int|
                    m.close < i < s.len() && #[trigger] blocks::leads_to(s, 0, i) ==> module_at(
                        s,
                        i,
                    ) is None
            },
            None => forall|i: int|
                0 <= i < s.len() && #[trigger] blocks::leads_to(s, 0, i) ==> module_at(s, i) is None,
        },
        (forall|i: int| !#[trigger] text::occurs_at(s, "#[cfg(test)]"@, i)) ==> !has_test_module(s),
{
    last_module_is_one(s, 0);
    last_module_is_reached(s, 0);
    nothing_behind(s, 0);
    if last_module(s, 0) is Some {
        let m = last_module(s, 0)->0;
        module_is_in_order(s, m.mark);
        assert(text::occurs_at(s, "#[cfg(test)]"@, m.mark));
    }
}

proof fn nothing_behind(s: Seq<char>, from: int)
    requires
        0 <= from,
    ensures
        forall|i: int|
            from <= i < s.len() && #[trigger] blocks::leads_to(s, from, i) && (last_module(
                s,
                from,
            ) matches Some(m) ==> m.close < i) ==> module_at(s, i) is None,
    decreases s.len() - from,
{
    if from < s.len() {
        assert forall|i: int|
            from <= i < s.len() && #[trigger] blocks::leads_to(s, from, i) && (last_module(
                s,
                from,
            ) matches Some(m) ==> m.close < i) implies module_at(s, i) is None by {
            blocks::elements_have_length(s, from);
            match module_at(s, from) {
                Some(n) => {
                    module_is_in_order(s, from);
                    module_is_read(s, from);
                    last_module_is_one(s, n.close + 1);
                    if last_module(s, n.close + 1) is Some {
                        let later = last_module(s, n.close + 1)->0;
                        module_is_in_order(s, later.mark);
                    }
                    nothing_behind(s, n.close + 1);
                    assert(i > n.close);
                    blocks::leads_on(s, from, n.close + 1, i);
                    assert(blocks::leads_to(s, n.close + 1, i));
                },
                None => {
                    nothing_behind(s, blocks::element_end(s, from));
                    if i > from {
                        assert(blocks::leads_to(s, blocks::element_end(s, from), i));
                    }
                },
            }
        }
    }
}

/// A place that begins a test module is enough for there to be one, however the
/// elements before it read.
proof fn module_is_not_missed(s: Seq<char>, from: int, p: int)
    requires
        0 <= from <= p < s.len(),
        blocks::leads_to(s, from, p),
        module_at(s, p) is Some,
    ensures
        last_module(s, from) is Some,
    decreases p - from,
{
    if module_at(s, from) is None {
        blocks::elements_have_length(s, from);
        module_is_not_missed(s, blocks::element_end(s, from), p);
    }
}

/// A source that is a text, the mark of test code, a module with a name, code
/// whose braces pair up, and a closing brace, whatever comes behind.
pub open spec fn source_with_module(
    before: Seq<char>,
    name: Seq<char>,
    inner: Seq<char>,
    after: Seq<char>,
) -> Seq<char> {
    before + "#[cfg(test)]\nmod "@ + name + " {\n"@ + inner + "\n}"@ + after
}

/// Whether a text can be the name of a module.
pub open spec fn is_name(name: Seq<char>) -> bool {
    &&& name.len() > 0
    &&& forall|i: int| 0 <= i < name.len() ==> word_char(#[trigger] name[i])
}

proof fn module_stands_there(
    before: Seq<char>,
    name: Seq<char>,
    inner: Seq<char>,
    after: Seq<char>,
)
    requires
        is_name(name),
        blocks::paired(inner),
    ensures
        ({
            let source = source_with_module(before, name, inner, after);
            let p = before.len() as int;
            let open = p + 18 + name.len();
            module_at(source, p) == Some(
                TestModule { mark: p, open, close: open + 3 + inner.len() },
            )
        }),
{
    reveal_strlit("#[cfg(test)]\nmod ");
    reveal_strlit("#[cfg(test)]");
    reveal_strlit(" {\n");
    reveal_strlit("\n}");
    let s = source_with_module(before, name, inner, after);
    let p = before.len() as int;
    let n = name.len() as int;
    let open = p + 18 + n;
    let close = open + 3 + inner.len();
    assert forall|j: int| 0 <= j < 17 implies #[trigger] s[p + j] == "#[cfg(test)]\nmod "@[j] by {}
    assert(s[p] == '#');
    assert(s.subrange(p, p + 12) =~= "#[cfg(test)]"@) by {
        assert forall|j: int| 0 <= j < 12 implies #[trigger] s.subrange(p, p + 12)[j]
            == "#[cfg(test)]"@[j] by {
            assert(s[p + j] == "#[cfg(test)]\nmod "@[j]);
        }
    }
    assert(text::occurs_at(s, "#[cfg(test)]"@, p));
    assert forall|j: int| 0 <= j < n implies #[trigger] s[p + 17 + j] == name[j] by {}
    assert(s[open - 1] == ' ' && s[open] == '{' && s[open + 1] == '\n');
    assert(s[p + 12] == '\n' && s[p + 13] == 'm' && s[p + 14] == 'o' && s[p + 15] == 'd' && s[p
        + 16] == ' ');
    reveal_with_fuel(module_brace, 6);
    text::white_space_by_code_point(' ');
    assert(keyword_at(s, p + 13));
    blocks::elements_by_their_beginning(s, p + 12);
    blocks::elements_by_their_beginning(s, p + 13);
    blocks::elements_by_their_beginning(s, p + 14);
    blocks::elements_by_their_beginning(s, p + 15);
    blocks::elements_by_their_beginning(s, p + 16);
    assert(module_brace(s, p + 12, false) == module_brace(s, p + 17, true));
    name_is_passed(s, p + 17, n, 0);
    blocks::elements_by_their_beginning(s, open - 1);
    assert(module_brace(s, open - 1, true) == module_brace(s, open, true));
    assert(module_brace(s, p + 12, false) == Some(open));
    let b = open + 2;
    let code = inner.push('\n');
    assert(s.subrange(b, b + inner.len() + 1) =~= code) by {
        assert forall|j: int| 0 <= j < inner.len() implies s[b + j] == #[trigger] inner[j] by {}
        assert(s[b + inner.len()] == '\n');
    }
    assert(s[close] == '}');
    blocks::elements_by_their_beginning(s, open + 1);
    assert(blocks::block_end(s, open + 1, 1) == blocks::block_end(s, b, 1));
    blocks::paired_code_is_passed(inner, s, b, 0, 0, 1);
    assert(s[b + inner.len()] == '\n');
    blocks::elements_by_their_beginning(s, b + inner.len());
    assert(blocks::block_end(s, b + inner.len(), 1) == blocks::block_end(s, close, 1));
}

proof fn name_is_passed(s: Seq<char>, from: int, n: int, i: int)
    requires
        0 <= from,
        0 <= i <= n,
        from + n < s.len(),
        forall|j: int| from <= j < from + n ==> word_char(#[trigger] s[j]),
        s[from + n] == ' ',
    ensures
        module_brace(s, from + i, true) == module_brace(s, from + n, true),
    decreases n - i,
{
    if i < n {
        let c = s[from + i];
        assert(word_char(c));
        blocks::elements_by_their_beginning(s, from + i);
        if i + 1 < n {
            assert(word_char(s[from + i + 1]));
        }
        assert(s[from + i + 1] != '#' && s[from + i + 1] != '"');
        assert(blocks::signs(s, from + i + 1) == 0);
        name_is_passed(s, from, n, i + 1);
    }
}

/// A source has a test module where the mark of test code, a module with a name
/// and a body whose braces pair up follow each other, whatever stands before the
/// mark and behind the module, as long as the mark stands in the code and not in
/// a comment or a literal.
pub proof fn test_module_is_found(
    before: Seq<char>,
    name: Seq<char>,
    inner: Seq<char>,
    after: Seq<char>,
)
    requires
        is_name(name),
        blocks::paired(inner),
        blocks::leads_to(
            source_with_module(before, name, inner, after),
            0,
            before.len() as int,
        ),
    ensures
        has_test_module(source_with_module(before, name, inner, after)),
{
    let s = source_with_module(before, name, inner, after);
    module_stands_there(before, name, inner, after);
    reveal_strlit("#[cfg(test)]\nmod ");
    module_is_not_missed(s, 0, before.len() as int);
}

/// New tests are written as the last lines of the test module, before the brace
/// that closes it, and nothing else of the source changes: neither what stands
/// before the module nor what follows it. The mark stands nowhere but at the
/// module, or inside of it.
pub proof fn tests_become_the_last_of_the_module(
    before: Seq<char>,
    name: Seq<char>,
    inner: Seq<char>,
    after: Seq<char>,
    tests: Seq<char>,
)
    requires
        is_name(name),
        blocks::paired(inner),
        ({
            let source = source_with_module(before, name, inner, after);
            let p = before.len() as int;
            &&& blocks::leads_to(source, 0, p)
            &&& forall|i: int|
                i < p || i >= source.len() - after.len() ==> !#[trigger] text::occurs_at(
                    source,
                    "#[cfg(test)]"@,
                    i,
                )
        }),
    ensures
        has_test_module(source_with_module(before, name, inner, after)),
        with_tests(source_with_module(before, name, inner, after), tests) == source_with_module(
            before,
            name,
            inner + seq!['\n'] + tests,
            after,
        ),
{
    let s = source_with_module(before, name, inner, after);
    let p = before.len() as int;
    module_stands_there(before, name, inner, after);
    reveal_strlit("#[cfg(test)]\nmod ");
    reveal_strlit(" {\n");
    reveal_strlit("\n}");
    let m = module_at(s, p)->0;
    assert(m.close + 1 == s.len() - after.len());
    module_is_met(s, 0, p);
    last_module_is_one(s, m.close + 1);
    if last_module(s, m.close + 1) is Some {
        let later = last_module(s, m.close + 1)->0;
        module_is_in_order(s, later.mark);
        assert(text::occurs_at(s, "#[cfg(test)]"@, later.mark));
    }
    assert(last_module(s, p) == Some(m));
    assert(s[m.close - 1] == '\n');
    assert(module_end(s) == m.close - 1);
    let patched = source_with_module(before, name, inner + seq!['\n'] + tests, after);
    assert(with_tests(s, tests) =~= patched);
}

proof fn module_is_met(s: Seq<char>, from: int, p: int)
    requires
        0 <= from <= p < s.len(),
        blocks::leads_to(s, from, p),
        forall|i: int| i < p ==> !#[trigger] text::occurs_at(s, "#[cfg(test)]"@, i),
    ensures
        last_module(s, from) == last_module(s, p),
    decreases p - from,
{
    if from < p {
        assert(!text::occurs_at(s, "#[cfg(test)]"@, from));
        assert(module_at(s, from) is None);
        blocks::elements_have_length(s, from);
        module_is_met(s, blocks::element_end(s, from), p);
    }
}

/// There is a test module exactly where some place in the code begins one, and a
/// place does so exactly where the mark stands there, a module with a body
/// follows it, and the body is closed.
pub proof fn any_test_module_counts(s: Seq<char>, m: TestModule)
    ensures
        has_test_module(s) <==> exists|i: int|
            0 <= i < s.len() && #[trigger] blocks::leads_to(s, 0, i) && module_at(s, i) is Some,
        0 <= m.mark < s.len() ==> (module_at(s, m.mark) == Some(m) <==> {
            &&& text::occurs_at(s, "#[cfg(test)]"@, m.mark)
            &&& module_brace(s, m.mark + 12, false) == Some(m.open)
            &&& blocks::block_end(s, m.open + 1, 1) == Some(m.close)
        }),
{
    reveal_strlit("#[cfg(test)]");
    last_module_is_the_last(s);
    if exists|i: int|
        0 <= i < s.len() && #[trigger] blocks::leads_to(s, 0, i) && module_at(s, i) is Some {
        let i = choose|i: int|
            0 <= i < s.len() && #[trigger] blocks::leads_to(s, 0, i) && module_at(s, i) is Some;
        module_is_not_missed(s, 0, i);
    }
    if last_module(s, 0) is Some {
        last_module_is_one(s, 0);
        assert(blocks::leads_to(s, 0, last_module(s, 0)->0.mark));
    }
    if text::occurs_at(s, "#[cfg(test)]"@, m.mark) {
        assert(s.subrange(m.mark, m.mark + 12)[0] == '#');
    }
}

} // verus!
