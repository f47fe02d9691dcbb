//! The elements that Rust code is made of, as far as it takes to pair its
//! braces: comments and literals, in which a brace means nothing, and single
//! characters.

use vstd::prelude::*;

verus! {

/// Whether `a` and `b` stand in `s` one after the other, from `i` on.
pub open spec fn pair_at(s: Seq<char>, i: int, a: char, b: char) -> bool {
    i + 1 < s.len() && s[i] == a && s[i + 1] == b
}

/// Where the line comment ends whose text goes on at `i`: before the next line
/// feed, or with `s`.
pub open spec fn line_comment_end(s: Seq<char>, i: int) -> int
    decreases s.len() - i,
{
    if i >= s.len() {
        s.len() as int
    } else if s[i] == '\n' {
        i
    } else {
        line_comment_end(s, i + 1)
    }
}

/// Where the block comment ends whose text goes on at `i`, inside of `depth`
/// comments that are still open: behind the mark that closes the last of them,
/// or with `s`.
pub open spec fn block_comment_end(s: Seq<char>, i: int, depth: nat) -> int
    decreases s.len() - i,
{
    if i >= s.len() {
        s.len() as int
    } else if depth == 0 {
        i
    } else if pair_at(s, i, '*', '/') {
        block_comment_end(s, i + 2, (depth - 1) as nat)
    } else if pair_at(s, i, '/', '*') {
        block_comment_end(s, i + 2, depth + 1)
    } else {
        block_comment_end(s, i + 1, depth)
    }
}

/// Where the literal ends whose text goes on at `i`: behind the next `quote`
/// that no backslash stands before, or with `s`.
pub open spec fn quoted_end(s: Seq<char>, i: int, quote: char) -> int
    decreases s.len() - i,
{
    if i >= s.len() {
        s.len() as int
    } else if s[i] == quote {
        i + 1
    } else if s[i] == '\\' && i + 1 < s.len() {
        quoted_end(s, i + 2, quote)
    } else {
        quoted_end(s, i + 1, quote)
    }
}

/// How many number signs stand in `s` from `i` on.
pub open spec fn signs(s: Seq<char>, i: int) -> nat
    decreases s.len() - i,
{
    if 0 <= i < s.len() && s[i] == '#' {
        1 + signs(s, i + 1)
    } else {
        0
    }
}

/// Where the raw string ends whose text goes on at `i`: behind the next quote
/// that `n` number signs follow, or with `s`.
pub open spec fn raw_end(s: Seq<char>, i: int, n: nat) -> int
    decreases s.len() - i,
{
    if i >= s.len() {
        s.len() as int
    } else if s[i] == '"' && signs(s, i + 1) >= n {
        i + 1 + n
    } else {
        raw_end(s, i + 1, n)
    }
}

/// Whether a character literal begins at `i`, and not a lifetime.
pub open spec fn begins_char(s: Seq<char>, i: int) -> bool {
    &&& i + 2 < s.len()
    &&& s[i] == '\''
    &&& s[i + 1] == '\\' || (s[i + 1] != '\n' && s[i + 1] != '\'' && s[i + 2] == '\'')
}

/// Whether the mark of a raw string stands at `i`: an `r`, number signs and a
/// quote.
pub open spec fn begins_raw(s: Seq<char>, i: int) -> bool {
    &&& s[i] == 'r'
    &&& i + 1 + signs(s, i + 1) < s.len()
    &&& s[i + 1 + signs(s, i + 1)] == '"'
}

/// Where the element ends that begins at `i`: a comment, a literal, or a single
/// character.
pub open spec fn element_end(s: Seq<char>, i: int) -> int {
    if pair_at(s, i, '/', '/') {
        line_comment_end(s, i + 2)
    } else if pair_at(s, i, '/', '*') {
        block_comment_end(s, i + 2, 1)
    } else if s[i] == '"' {
        quoted_end(s, i + 1, '"')
    } else if begins_char(s, i) {
        quoted_end(s, i + 1, '\'')
    } else if begins_raw(s, i) {
        raw_end(s, i + 2 + signs(s, i + 1), signs(s, i + 1))
    } else {
        i + 1
    }
}

proof fn line_comment_bounds(s: Seq<char>, i: int)
    requires
        0 <= i <= s.len(),
    ensures
        i <= line_comment_end(s, i) <= s.len(),
    decreases s.len() - i,
{
    if i < s.len() && s[i] != '\n' {
        line_comment_bounds(s, i + 1);
    }
}

proof fn block_comment_bounds(s: Seq<char>, i: int, depth: nat)
    requires
        0 <= i <= s.len(),
    ensures
        i <= block_comment_end(s, i, depth) <= s.len(),
    decreases s.len() - i,
{
    if i < s.len() && depth > 0 {
        if pair_at(s, i, '*', '/') {
            block_comment_bounds(s, i + 2, (depth - 1) as nat);
        } else if pair_at(s, i, '/', '*') {
            block_comment_bounds(s, i + 2, depth + 1);
        } else {
            block_comment_bounds(s, i + 1, depth);
        }
    }
}

proof fn quoted_bounds(s: Seq<char>, i: int, quote: char)
    requires
        0 <= i <= s.len(),
    ensures
        i <= quoted_end(s, i, quote) <= s.len(),
        i < s.len() ==> i < quoted_end(s, i, quote),
    decreases s.len() - i,
{
    if i < s.len() && s[i] != quote {
        if s[i] == '\\' && i + 1 < s.len() {
            quoted_bounds(s, i + 2, quote);
        } else {
            quoted_bounds(s, i + 1, quote);
        }
    }
}

proof fn signs_bounds(s: Seq<char>, i: int)
    requires
        0 <= i <= s.len(),
    ensures
        i + signs(s, i) <= s.len(),
    decreases s.len() - i,
{
    if i < s.len() && s[i] == '#' {
        signs_bounds(s, i + 1);
    }
}

proof fn raw_bounds(s: Seq<char>, i: int, n: nat)
    requires
        0 <= i <= s.len(),
    ensures
        i <= raw_end(s, i, n) <= s.len(),
        raw_end(s, i, n) < s.len() ==> i + 1 + n <= raw_end(s, i, n),
    decreases s.len() - i,
{
    if i < s.len() {
        signs_bounds(s, i + 1);
        if !(s[i] == '"' && signs(s, i + 1) >= n) {
            raw_bounds(s, i + 1, n);
        }
    }
}

/// Every element has a length, and none reaches beyond the text.
pub proof fn elements_have_length(s: Seq<char>, i: int)
    requires
        0 <= i < s.len(),
    ensures
        i < element_end(s, i) <= s.len(),
{
    if pair_at(s, i, '/', '/') {
        line_comment_bounds(s, i + 2);
    } else if pair_at(s, i, '/', '*') {
        block_comment_bounds(s, i + 2, 1);
    } else if s[i] == '"' {
        quoted_bounds(s, i + 1, '"');
    } else if begins_char(s, i) {
        quoted_bounds(s, i + 1, '\'');
    } else if begins_raw(s, i) {
        raw_bounds(s, i + 2 + signs(s, i + 1), signs(s, i + 1));
    }
}

fn skip_line_comment(s: &[char], from: usize) -> (r: usize)
    requires
        from <= s@.len(),
    ensures
        r == line_comment_end(s@, from as int),
{
    let mut i: usize = from;
    while i < s.len() && s[i] != '\n'
        invariant
            i <= s@.len(),
            line_comment_end(s@, i as int) == line_comment_end(s@, from as int),
        decreases s@.len() - i,
    {
        i += 1;
    }
    i
}

fn is_pair_at(s: &[char], i: usize, a: char, b: char) -> (r: bool)
    requires
        i < s@.len(),
    ensures
        r == pair_at(s@, i as int, a, b),
{
    s.len() - i > 1 && s[i] == a && s[i + 1] == b
}

fn skip_block_comment(s: &[char], from: usize) -> (r: usize)
    requires
        from <= s@.len(),
    ensures
        r == block_comment_end(s@, from as int, 1),
{
    let mut i: usize = from;
    let mut depth: usize = 1;
    while i < s.len() && depth > 0
        invariant
            from <= i <= s@.len(),
            depth <= i - from + 1,
            block_comment_end(s@, i as int, depth as nat) == block_comment_end(
                s@,
                from as int,
                1,
            ),
        decreases s@.len() - i,
    {
        if is_pair_at(s, i, '*', '/') {
            depth -= 1;
            i += 2;
        } else if is_pair_at(s, i, '/', '*') {
            depth += 1;
            i += 2;
        } else {
            i += 1;
        }
    }
    i
}

fn skip_quoted(s: &[char], from: usize, quote: char) -> (r: usize)
    requires
        from <= s@.len(),
    ensures
        r == quoted_end(s@, from as int, quote),
{
    let mut i: usize = from;
    while i < s.len()
        invariant
            i <= s@.len(),
            quoted_end(s@, i as int, quote) == quoted_end(s@, from as int, quote),
        decreases s@.len() - i,
    {
        if s[i] == quote {
            return i + 1;
        }
        if s[i] == '\\' && s.len() - i > 1 {
            i += 2;
        } else {
            i += 1;
        }
    }
    i
}

fn count_signs(s: &[char], from: usize) -> (r: usize)
    requires
        from <= s@.len(),
    ensures
        r == signs(s@, from as int),
        from + r <= s@.len(),
{
    let mut n: usize = 0;
    while n < s.len() - from && s[from + n] == '#'
        invariant
            from + n <= s@.len(),
            signs(s@, from as int) == n + signs(s@, from + n),
        decreases s@.len() - n,
    {
        n += 1;
    }
    n
}

fn skip_raw(s: &[char], from: usize, n: usize) -> (r: usize)
    requires
        from <= s@.len(),
    ensures
        r == raw_end(s@, from as int, n as nat),
{
    let mut i: usize = from;
    while i < s.len()
        invariant
            i <= s@.len(),
            raw_end(s@, i as int, n as nat) == raw_end(s@, from as int, n as nat),
        decreases s@.len() - i,
    {
        if s[i] == '"' && count_signs(s, i + 1) >= n {
            return i + 1 + n;
        }
        i += 1;
    }
    i
}

/// Where the element ends that begins at `i`: a comment, a literal, or a single
/// character.
pub fn skip_element(s: &[char], i: usize) -> (r: usize)
    requires
        i < s@.len(),
    ensures
        r == element_end(s@, i as int),
        i < r <= s@.len(),
{
    proof {
        elements_have_length(s@, i as int);
    }
    let c = s[i];
    if is_pair_at(s, i, '/', '/') {
        return skip_line_comment(s, i + 2);
    }
    if is_pair_at(s, i, '/', '*') {
        return skip_block_comment(s, i + 2);
    }
    if c == '"' {
        return skip_quoted(s, i + 1, '"');
    }
    if c == '\'' && s.len() - i > 2 && (s[i + 1] == '\\' || (s[i + 1] != '\n' && s[i + 1] != '\''
        && s[i + 2] == '\'')) {
        return skip_quoted(s, i + 1, '\'');
    }
    if c == 'r' {
        let n = count_signs(s, i + 1);
        if n < s.len() - i - 1 && s[i + 1 + n] == '"' {
            return skip_raw(s, i + 2 + n, n);
        }
    }
    i + 1
}

/// Where the block is closed that the text at `i` belongs to, inside of `depth`
/// open braces of which the block's is the first.
pub open spec fn block_end(s: Seq<char>, i: int, depth: nat) -> Option<int>
    decreases s.len() - i,
{
    if !(0 <= i < s.len()) {
        None
    } else if s[i] == '}' {
        if depth <= 1 {
            Some(i)
        } else {
            block_end(s, i + 1, (depth - 1) as nat)
        }
    } else if s[i] == '{' {
        block_end(s, i + 1, depth + 1)
    } else {
        proof {
            elements_have_length(s, i);
        }
        block_end(s, element_end(s, i), depth)
    }
}

/// Where the block is closed whose brace stands before `from`.
pub fn find_block_end(s: &[char], from: usize) -> (r: Option<usize>)
    requires
        0 < from <= s@.len(),
    ensures
        block_end(s@, from as int, 1) == match r {
            Some(i) => Some(i as int),
            None => None,
        },
{
    let mut i: usize = from;
    let mut depth: usize = 1;
    while i < s.len()
        invariant
            0 < from <= i <= s@.len(),
            1 <= depth <= i - from + 1,
            block_end(s@, i as int, depth as nat) == block_end(s@, from as int, 1),
        decreases s@.len() - i,
    {
        if s[i] == '}' {
            if depth == 1 {
                return Some(i);
            }
            depth -= 1;
            i += 1;
        } else if s[i] == '{' {
            depth += 1;
            i += 1;
        } else {
            i = skip_element(s, i);
        }
    }
    None
}

/// A block is closed by a brace that stands behind its beginning.
pub proof fn block_end_is_a_brace(s: Seq<char>, i: int, depth: nat)
    ensures
        block_end(s, i, depth) matches Some(end) ==> i <= end < s.len() && s[end] == '}',
    decreases s.len() - i,
{
    if 0 <= i < s.len() {
        elements_have_length(s, i);
        if s[i] == '}' {
            if depth > 1 {
                block_end_is_a_brace(s, i + 1, (depth - 1) as nat);
            }
        } else if s[i] == '{' {
            block_end_is_a_brace(s, i + 1, depth + 1);
        } else {
            block_end_is_a_brace(s, element_end(s, i), depth);
        }
    }
}

/// Whether the elements of `s` from `i` on lead to `p`: an element ends there.
pub open spec fn leads_to(s: Seq<char>, i: int, p: int) -> bool
    decreases p - i,
{
    if 0 <= i < element_end(s, i) <= p {
        leads_to(s, element_end(s, i), p)
    } else {
        i == p
    }
}

/// Where elements lead to one place and then to another, they lead from the
/// first to the second.
pub proof fn leads_on(s: Seq<char>, i: int, p: int, q: int)
    requires
        leads_to(s, i, p),
        leads_to(s, i, q),
        p <= q,
    ensures
        leads_to(s, p, q),
    decreases p - i,
{
    if i < p {
        leads_on(s, element_end(s, i), p, q);
    }
}

/// Where elements lead to a place and from there to another, they lead to the
/// other.
pub proof fn leads_through(s: Seq<char>, i: int, p: int, q: int)
    requires
        leads_to(s, i, p),
        leads_to(s, p, q),
        p <= q,
    ensures
        leads_to(s, i, q),
    decreases p - i,
{
    if i < p {
        leads_through(s, element_end(s, i), p, q);
    }
}

/// The elements of a block lead to the brace that closes it.
pub proof fn block_leads_to_its_end(s: Seq<char>, i: int, depth: nat)
    ensures
        block_end(s, i, depth) matches Some(end) ==> leads_to(s, i, end),
    decreases s.len() - i,
{
    if 0 <= i < s.len() {
        elements_have_length(s, i);
        block_end_is_a_brace(s, i, depth);
        if s[i] == '}' {
            if depth > 1 {
                block_end_is_a_brace(s, i + 1, (depth - 1) as nat);
                block_leads_to_its_end(s, i + 1, (depth - 1) as nat);
            }
        } else if s[i] == '{' {
            block_end_is_a_brace(s, i + 1, depth + 1);
            block_leads_to_its_end(s, i + 1, depth + 1);
        } else {
            block_end_is_a_brace(s, element_end(s, i), depth);
            block_leads_to_its_end(s, element_end(s, i), depth);
        }
    }
}

/// Whether `t` begins like `s` up to `p`, and goes on there in a way that no
/// element before `p` is drawn into: with a line feed, or where `s` has a brace
/// behind one.
pub open spec fn same_until(s: Seq<char>, t: Seq<char>, p: int) -> bool {
    &&& 0 <= p < s.len()
    &&& p < t.len()
    &&& forall|i: int| 0 <= i < p ==> #[trigger] t[i] == s[i]
    &&& t[p] == '\n' || (s[p] == '}' && p > 0 && s[p - 1] == '\n')
}

proof fn line_comment_stays(s: Seq<char>, t: Seq<char>, p: int, i: int)
    requires
        same_until(s, t, p),
        0 <= i <= p,
        line_comment_end(s, i) <= p,
    ensures
        line_comment_end(t, i) == line_comment_end(s, i),
    decreases p - i,
{
    if s[i] != '\n' {
        line_comment_bounds(s, i + 1);
        line_comment_stays(s, t, p, i + 1);
    }
}

proof fn block_comment_stays(s: Seq<char>, t: Seq<char>, p: int, i: int, depth: nat)
    requires
        same_until(s, t, p),
        0 <= i <= p,
        block_comment_end(s, i, depth) <= p,
    ensures
        block_comment_end(t, i, depth) == block_comment_end(s, i, depth),
    decreases p - i,
{
    if depth > 0 {
        if pair_at(s, i, '*', '/') {
            block_comment_bounds(s, i + 2, (depth - 1) as nat);
            block_comment_stays(s, t, p, i + 2, (depth - 1) as nat);
        } else if pair_at(s, i, '/', '*') {
            block_comment_bounds(s, i + 2, depth + 1);
            block_comment_stays(s, t, p, i + 2, depth + 1);
        } else {
            block_comment_bounds(s, i + 1, depth);
            block_comment_stays(s, t, p, i + 1, depth);
        }
    }
}

proof fn quoted_stays(s: Seq<char>, t: Seq<char>, p: int, i: int, quote: char)
    requires
        same_until(s, t, p),
        0 <= i <= p,
        quoted_end(s, i, quote) <= p,
    ensures
        quoted_end(t, i, quote) == quoted_end(s, i, quote),
    decreases p - i,
{
    quoted_bounds(s, i, quote);
    if s[i] != quote {
        if s[i] == '\\' {
            quoted_bounds(s, i + 2, quote);
            quoted_stays(s, t, p, i + 2, quote);
        } else {
            quoted_stays(s, t, p, i + 1, quote);
        }
    }
}

/// As many number signs stand in a row as there are characters of that kind one
/// after the other.
pub proof fn signs_are_there(s: Seq<char>, i: int, n: nat)
    requires
        0 <= i <= s.len(),
    ensures
        signs(s, i) >= n <==> i + n <= s.len() && forall|k: int|
            i <= k < i + n ==> #[trigger] s[k] == '#',
    decreases n,
{
    if n > 0 && i < s.len() {
        signs_are_there(s, i + 1, (n - 1) as nat);
        if signs(s, i) >= n {
            assert forall|k: int| i <= k < i + n implies #[trigger] s[k] == '#' by {}
        }
        if i + n <= s.len() && forall|k: int| i <= k < i + n ==> #[trigger] s[k] == '#' {
            assert(s[i] == '#');
        }
    }
}

proof fn signs_stay(s: Seq<char>, t: Seq<char>, p: int, i: int)
    requires
        0 <= i,
        p <= s.len(),
        p <= t.len(),
        forall|k: int| 0 <= k < p ==> #[trigger] t[k] == s[k],
        i + signs(s, i) < p,
    ensures
        signs(t, i) == signs(s, i),
    decreases p - i,
{
    assert(t[i] == s[i]);
    if s[i] == '#' {
        signs_stay(s, t, p, i + 1);
    }
}

proof fn raw_stays(s: Seq<char>, t: Seq<char>, p: int, i: int, n: nat)
    requires
        same_until(s, t, p),
        0 <= i <= p,
        raw_end(s, i, n) <= p,
    ensures
        raw_end(t, i, n) == raw_end(s, i, n),
    decreases p - i,
{
    raw_bounds(s, i, n);
    assert(t[i] == s[i]);
    signs_are_there(s, i + 1, n);
    signs_are_there(t, i + 1, n);
    assert(signs(s, i + 1) >= n <==> signs(t, i + 1) >= n) by {
        assert(i + 1 + n <= p);
        if signs(t, i + 1) >= n {
            assert forall|k: int| i + 1 <= k < i + 1 + n implies #[trigger] s[k] == '#' by {
                assert(t[k] == '#');
            }
        }
    }
    if !(s[i] == '"' && signs(s, i + 1) >= n) {
        raw_stays(s, t, p, i + 1, n);
    }
}

/// An element that ends before texts part is the same in both.
pub proof fn element_stays(s: Seq<char>, t: Seq<char>, p: int, i: int)
    requires
        same_until(s, t, p),
        0 <= i < p,
        element_end(s, i) <= p,
    ensures
        element_end(t, i) == element_end(s, i),
{
    assert(t[i] == s[i]);
    if i + 1 < p {
        assert(t[i + 1] == s[i + 1]);
    }
    if i + 2 < p {
        assert(t[i + 2] == s[i + 2]);
    }
    if pair_at(s, i, '/', '/') {
        line_comment_bounds(s, i + 2);
        line_comment_stays(s, t, p, i + 2);
    } else if pair_at(s, i, '/', '*') {
        block_comment_bounds(s, i + 2, 1);
        block_comment_stays(s, t, p, i + 2, 1);
    } else if s[i] == '"' {
        quoted_stays(s, t, p, i + 1, '"');
    } else if begins_char(s, i) {
        char_is_long(s, i);
        quoted_stays(s, t, p, i + 1, '\'');
    } else {
        assert(!begins_char(t, i));
        if s[i] == 'r' {
            raw_mark_stays(s, t, p, i);
        }
    }
}

proof fn char_is_long(s: Seq<char>, i: int)
    requires
        0 <= i,
        begins_char(s, i),
    ensures
        quoted_end(s, i + 1, '\'') >= i + 3,
{
    reveal_with_fuel(quoted_end, 3);
    if s[i + 1] == '\\' {
        quoted_bounds(s, i + 3, '\'');
    }
}

proof fn raw_mark_stays(s: Seq<char>, t: Seq<char>, p: int, i: int)
    requires
        same_until(s, t, p),
        0 <= i < p,
        s[i] == 'r',
        begins_raw(s, i) ==> raw_end(s, i + 2 + signs(s, i + 1), signs(s, i + 1)) <= p,
    ensures
        begins_raw(t, i) == begins_raw(s, i),
        begins_raw(s, i) ==> signs(t, i + 1) == signs(s, i + 1) && raw_end(
            t,
            i + 2 + signs(s, i + 1),
            signs(s, i + 1),
        ) == raw_end(s, i + 2 + signs(s, i + 1), signs(s, i + 1)),
{
    assert(t[i] == s[i]);
    if begins_raw(s, i) {
        let n = signs(s, i + 1);
        raw_bounds(s, i + 2 + n, n);
        signs_stay(s, t, p, i + 1);
        assert(t[i + 1 + n] == s[i + 1 + n]);
        raw_stays(s, t, p, i + 2 + n, n);
    }
    if begins_raw(t, i) {
        let n = signs(t, i + 1);
        signs_are_there(t, i + 1, n);
        if i + 1 + n > p {
            assert(t[p] == '#');
        }
        if i + 1 + n == p {
            assert(t[p] == '"');
        }
        assert(i + 1 + n < p) by {
            if i + 1 + n >= p {
                assert(p > 0 && s[p - 1] == '\n');
                assert(t[p - 1] == '\n');
                assert(i < p - 1);
            }
        }
        assert forall|k: int| 0 <= k < p implies #[trigger] s[k] == t[k] by {}
        signs_stay(t, s, p, i + 1);
        assert(t[i + 1 + n] == s[i + 1 + n]);
    }
}

/// Whether `t` reads, `k` characters further on, like `s` from `a` on.
pub open spec fn same_from(s: Seq<char>, t: Seq<char>, a: int, k: int) -> bool {
    &&& 0 <= a
    &&& 0 <= k
    &&& t.len() == s.len() + k
    &&& forall|i: int| a <= i < s.len() ==> s[i] == #[trigger] t[i + k]
}

proof fn line_comment_moves(s: Seq<char>, t: Seq<char>, a: int, k: int, i: int)
    requires
        same_from(s, t, a, k),
        a <= i,
    ensures
        line_comment_end(t, i + k) == line_comment_end(s, i) + k,
    decreases s.len() - i,
{
    if i < s.len() {
        assert(s[i] == t[i + k]);
        if s[i] != '\n' {
            line_comment_moves(s, t, a, k, i + 1);
        }
    }
}

proof fn block_comment_moves(s: Seq<char>, t: Seq<char>, a: int, k: int, i: int, depth: nat)
    requires
        same_from(s, t, a, k),
        a <= i,
    ensures
        block_comment_end(t, i + k, depth) == block_comment_end(s, i, depth) + k,
    decreases s.len() - i,
{
    if i < s.len() && depth > 0 {
        assert(s[i] == t[i + k]);
        if i + 1 < s.len() {
            assert(s[i + 1] == t[i + 1 + k]);
        }
        if pair_at(s, i, '*', '/') {
            block_comment_moves(s, t, a, k, i + 2, (depth - 1) as nat);
        } else if pair_at(s, i, '/', '*') {
            block_comment_moves(s, t, a, k, i + 2, depth + 1);
        } else {
            block_comment_moves(s, t, a, k, i + 1, depth);
        }
    }
}

proof fn quoted_moves(s: Seq<char>, t: Seq<char>, a: int, k: int, i: int, quote: char)
    requires
        same_from(s, t, a, k),
        a <= i,
    ensures
        quoted_end(t, i + k, quote) == quoted_end(s, i, quote) + k,
    decreases s.len() - i,
{
    if i < s.len() {
        assert(s[i] == t[i + k]);
        if s[i] != quote {
            if s[i] == '\\' && i + 1 < s.len() {
                quoted_moves(s, t, a, k, i + 2, quote);
            } else {
                quoted_moves(s, t, a, k, i + 1, quote);
            }
        }
    }
}

proof fn signs_move(s: Seq<char>, t: Seq<char>, a: int, k: int, i: int)
    requires
        same_from(s, t, a, k),
        a <= i,
    ensures
        signs(t, i + k) == signs(s, i),
    decreases s.len() - i,
{
    if i < s.len() {
        assert(s[i] == t[i + k]);
        signs_move(s, t, a, k, i + 1);
    }
}

proof fn raw_moves(s: Seq<char>, t: Seq<char>, a: int, k: int, i: int, n: nat)
    requires
        same_from(s, t, a, k),
        a <= i,
    ensures
        raw_end(t, i + k, n) == raw_end(s, i, n) + k,
    decreases s.len() - i,
{
    if i < s.len() {
        assert(s[i] == t[i + k]);
        signs_move(s, t, a, k, i + 1);
        raw_moves(s, t, a, k, i + 1, n);
    }
}

/// An element moves with the text that it begins.
pub proof fn element_moves(s: Seq<char>, t: Seq<char>, a: int, k: int, i: int)
    requires
        same_from(s, t, a, k),
        a <= i < s.len(),
    ensures
        element_end(t, i + k) == element_end(s, i) + k,
{
    assert(s[i] == t[i + k]);
    if i + 1 < s.len() {
        assert(s[i + 1] == t[i + 1 + k]);
    }
    if i + 2 < s.len() {
        assert(s[i + 2] == t[i + 2 + k]);
    }
    if s[i] == '/' {
        line_comment_moves(s, t, a, k, i + 2);
        block_comment_moves(s, t, a, k, i + 2, 1);
    } else if s[i] == '"' {
        quoted_moves(s, t, a, k, i + 1, '"');
    } else if s[i] == '\'' {
        quoted_moves(s, t, a, k, i + 1, '\'');
    } else if s[i] == 'r' {
        signs_move(s, t, a, k, i + 1);
        let n = signs(s, i + 1);
        if i + 1 + n < s.len() {
            assert(s[i + 1 + n] == t[i + 1 + n + k]);
        }
        raw_moves(s, t, a, k, i + 2 + n, n);
    }
}

/// The end of a block moves with the text.
pub proof fn block_end_moves(s: Seq<char>, t: Seq<char>, a: int, k: int, i: int, depth: nat)
    requires
        same_from(s, t, a, k),
        a <= i,
    ensures
        block_end(t, i + k, depth) == match block_end(s, i, depth) {
            Some(end) => Some(end + k),
            None => None,
        },
    decreases s.len() - i,
{
    if i < s.len() {
        assert(s[i] == t[i + k]);
        if s[i] == '}' {
            if depth > 1 {
                block_end_moves(s, t, a, k, i + 1, (depth - 1) as nat);
            }
        } else if s[i] == '{' {
            block_end_moves(s, t, a, k, i + 1, depth + 1);
        } else {
            elements_have_length(s, i);
            element_moves(s, t, a, k, i);
            block_end_moves(s, t, a, k, element_end(s, i), depth);
        }
    }
}

/// How many braces are open at `p` where `depth` of them are at `i`. None where
/// more are closed than were open, or where no element ends at `p`.
pub open spec fn depth_at(s: Seq<char>, i: int, p: int, depth: nat) -> Option<nat>
    decreases p - i,
{
    if i == p {
        Some(depth)
    } else if !(0 <= i < element_end(s, i) <= p) {
        None
    } else if s[i] == '}' {
        if depth == 0 {
            None
        } else {
            depth_at(s, element_end(s, i), p, (depth - 1) as nat)
        }
    } else if s[i] == '{' {
        depth_at(s, element_end(s, i), p, depth + 1)
    } else {
        depth_at(s, element_end(s, i), p, depth)
    }
}

/// Whether the braces of `code` pair up, and every comment and literal in it
/// ends within it, a line comment at the latest with its last line.
pub open spec fn paired(code: Seq<char>) -> bool {
    depth_at(code.push('\n'), 0, code.len() as int, 0) == Some(0nat)
}

/// Code whose braces pair up, on lines of its own, closes no block.
pub proof fn paired_code_is_passed(
    code: Seq<char>,
    t: Seq<char>,
    b: int,
    i: int,
    depth: nat,
    outer: nat,
)
    requires
        0 <= b,
        b + code.len() < t.len(),
        t.subrange(b, b + code.len() + 1) == code.push('\n'),
        0 <= i <= code.len(),
        outer > 0,
        depth_at(code.push('\n'), i, code.len() as int, depth) == Some(0nat),
    ensures
        block_end(t, b + i, depth + outer) == block_end(t, b + code.len(), outer),
    decreases code.len() - i,
{
    let s = code.push('\n');
    let u = t.skip(b);
    let n = code.len() as int;
    if i < n {
        assert forall|k: int| 0 <= k <= n implies #[trigger] u[k] == s[k] by {
            assert(u[k] == t.subrange(b, b + n + 1)[k]);
        }
        assert(same_until(s, u, n)) by {
            assert(u[n] == s[n]);
        }
        element_stays(s, u, n, i);
        assert(same_from(u, t, 0, b));
        element_moves(u, t, 0, b, i);
        assert(t[b + i] == u[i]);
        assert(element_end(t, b + i) == b + element_end(s, i));
        if s[i] == '}' {
            paired_code_is_passed(code, t, b, i + 1, (depth - 1) as nat, outer);
        } else if s[i] == '{' {
            paired_code_is_passed(code, t, b, i + 1, depth + 1, outer);
        } else {
            paired_code_is_passed(code, t, b, element_end(s, i), depth, outer);
        }
    }
}

/// A line comment holds no line feed, and goes on until there is one.
pub proof fn line_comment_ends_with_its_line(s: Seq<char>, i: int)
    requires
        0 <= i <= s.len(),
    ensures
        i <= line_comment_end(s, i) <= s.len(),
        forall|j: int| i <= j < line_comment_end(s, i) ==> #[trigger] s[j] != '\n',
        line_comment_end(s, i) < s.len() ==> s[line_comment_end(s, i)] == '\n',
    decreases s.len() - i,
{
    if i < s.len() && s[i] != '\n' {
        line_comment_ends_with_its_line(s, i + 1);
    }
}

/// A block comment ends behind the mark that closes it. Every mark that opens a
/// comment inside of it needs one more to close it, and no other character
/// matters.
pub proof fn comment_marks_pair(s: Seq<char>, i: int, depth: nat)
    requires
        0 <= i < s.len(),
        depth > 0,
    ensures
        i + 1 < s.len() && s[i] == '*' && s[i + 1] == '/' && depth > 1 ==> block_comment_end(
            s,
            i,
            depth,
        ) == block_comment_end(s, i + 2, (depth - 1) as nat),
        i + 1 < s.len() && s[i] == '*' && s[i + 1] == '/' ==> block_comment_end(s, i, 1) == i + 2,
        i + 1 < s.len() && s[i] == '/' && s[i + 1] == '*' ==> block_comment_end(s, i, depth)
            == block_comment_end(s, i + 2, depth + 1),
        s[i] != '*' && s[i] != '/' ==> block_comment_end(s, i, depth) == block_comment_end(
            s,
            i + 1,
            depth,
        ),
        i + 1 < s.len() && s[i] == '*' && s[i + 1] != '/' ==> block_comment_end(s, i, depth)
            == block_comment_end(s, i + 1, depth),
        i + 1 < s.len() && s[i] == '/' && s[i + 1] != '*' ==> block_comment_end(s, i, depth)
            == block_comment_end(s, i + 1, depth),
        i + 1 == s.len() ==> block_comment_end(s, i, depth) == s.len(),
{
    reveal_with_fuel(block_comment_end, 2);
}

/// A literal ends behind the first quote in it, where it holds no backslash; and
/// no character that a backslash stands before ends it.
pub proof fn literal_ends_with_its_quote(s: Seq<char>, i: int, quote: char, k: int)
    requires
        0 <= i <= s.len(),
        quote != '\\',
    ensures
        ({
            &&& i <= k < s.len()
            &&& s[k] == quote
            &&& forall|j: int| i <= j < k ==> #[trigger] s[j] != quote && s[j] != '\\'
        }) ==> quoted_end(s, i, quote) == k + 1,
        (forall|j: int| i <= j < s.len() ==> #[trigger] s[j] != quote && s[j] != '\\')
            ==> quoted_end(s, i, quote) == s.len(),
        ({
            &&& i <= k < s.len() - 1
            &&& s[k] == '\\'
            &&& forall|j: int| i <= j < k ==> #[trigger] s[j] != quote && s[j] != '\\'
        }) ==> quoted_end(s, i, quote) == quoted_end(s, k + 2, quote),
    decreases s.len() - i,
{
    if i < s.len() && s[i] != quote && s[i] != '\\' {
        literal_ends_with_its_quote(s, i + 1, quote, k);
    } else if i < s.len() {
        assert(s[i] == quote || s[i] == '\\');
    }
}

/// A raw string ends behind the first quote that as many number signs follow as
/// it began with, and takes all other quotes for its own.
pub proof fn raw_string_ends_with_its_signs(s: Seq<char>, i: int, n: nat)
    requires
        0 <= i <= s.len(),
    ensures
        ({
            let end = raw_end(s, i, n);
            let k = end - 1 - n;
            ||| {
                &&& i <= k
                &&& end <= s.len()
                &&& s[k] == '"' && signs(s, k + 1) >= n
                &&& forall|j: int|
                    i <= j < k ==> !(#[trigger] s[j] == '"' && signs(s, j + 1) >= n)
            }
            ||| {
                &&& end == s.len()
                &&& forall|j: int|
                    i <= j < s.len() ==> !(#[trigger] s[j] == '"' && signs(s, j + 1) >= n)
            }
        }),
    decreases s.len() - i,
{
    if i < s.len() {
        signs_bounds(s, i + 1);
        if !(s[i] == '"' && signs(s, i + 1) >= n) {
            raw_string_ends_with_its_signs(s, i + 1, n);
        }
    }
}

/// What begins at a place is told by its first characters: two slashes begin a
/// line comment, a slash and a star a block comment, a double quote a string, an
/// `r` with number signs and a double quote behind it a raw string, and a single
/// quote a character where a backslash follows it or where a second single quote
/// closes it behind one character. Everything else stands for itself alone; in
/// particular a brace does.
pub proof fn elements_by_their_beginning(s: Seq<char>, i: int)
    requires
        0 <= i < s.len(),
    ensures
        ({
            let c = s[i];
            let next = if i + 1 < s.len() {
                s[i + 1]
            } else {
                ' '
            };
            let third = if i + 2 < s.len() {
                s[i + 2]
            } else {
                ' '
            };
            let n = signs(s, i + 1);
            let end = element_end(s, i);
            &&& c == '/' && next == '/' ==> end == line_comment_end(s, i + 2)
            &&& c == '/' && next == '*' ==> end == block_comment_end(s, i + 2, 1)
            &&& c == '/' && next != '/' && next != '*' ==> end == i + 1
            &&& c == '"' ==> end == quoted_end(s, i + 1, '"')
            &&& c == '\'' && next == '\\' && i + 2 < s.len() ==> end == quoted_end(s, i + 1, '\'')
            &&& c == '\'' && next != '\\' && next != '\'' && next != '\n' && third == '\'' ==> end
                == i + 3
            &&& c == '\'' && next != '\\' && third != '\'' ==> end == i + 1
            &&& c == '\'' && (next == '\'' || next == '\n') ==> end == i + 1
            &&& c == '\'' && i + 2 >= s.len() ==> end == i + 1
            &&& c == 'r' && i + 1 + n < s.len() && s[i + 1 + n] == '"' ==> end == raw_end(
                s,
                i + 2 + n,
                n,
            )
            &&& c == 'r' && !(i + 1 + n < s.len() && s[i + 1 + n] == '"') ==> end == i + 1
            &&& c != '/' && c != '"' && c != '\'' && c != 'r' ==> end == i + 1
        }),
{
    reveal_with_fuel(quoted_end, 3);
}

/// A block ends at the first brace that closes more than was opened since: up to
/// there as many braces are closed as are opened, outside comments and literals,
/// and never more.
pub proof fn block_ends_where_braces_pair(s: Seq<char>, i: int, depth: nat, end: int)
    requires
        0 <= i,
    ensures
        block_end(s, i, depth + 1) == Some(end) <==> {
            &&& i <= end < s.len()
            &&& s[end] == '}'
            &&& depth_at(s, i, end, depth) == Some(0nat)
        },
    decreases s.len() - i,
{
    if i < s.len() {
        elements_have_length(s, i);
        elements_by_their_beginning(s, i);
        block_end_is_a_brace(s, i, depth + 1);
        if s[i] == '}' {
            if depth > 0 {
                block_ends_where_braces_pair(s, i + 1, (depth - 1) as nat, end);
            }
        } else if s[i] == '{' {
            block_ends_where_braces_pair(s, i + 1, depth + 1, end);
        } else {
            block_ends_where_braces_pair(s, element_end(s, i), depth, end);
        }
    } else {
        block_end_is_a_brace(s, i, depth + 1);
    }
}

} // verus!
