//! Text between the code fences of a Markdown reply.

use vstd::prelude::*;

use crate::text::{self, as_strs, chars_of, lines_of, matches_at, trim};

verus! {

/// What follows the first line feed of `s`, or `s` where it holds none.
pub open spec fn after_first_line(s: Seq<char>) -> Seq<char> {
    if text::line_length(s) < s.len() {
        s.skip(text::line_length(s) as int + 1)
    } else {
        s
    }
}

/// `s` without one fence at its end.
pub open spec fn without_closing_fence(s: Seq<char>) -> Seq<char> {
    if "```"@.is_suffix_of(s) {
        s.take(s.len() - "```"@.len())
    } else {
        s
    }
}

/// What a reply says once the fences around it are taken off: for a reply that
/// begins with a fence, what stands between the fence's line and the closing
/// fence; for any other, the whole of it. White space at either end is cut.
pub open spec fn unfenced(s: Seq<char>) -> Seq<char> {
    if "```"@.is_prefix_of(text::trimmed(s)) {
        text::trimmed(
            without_closing_fence(after_first_line(text::trimmed(s).skip("```"@.len() as int))),
        )
    } else {
        text::trimmed(s)
    }
}

/// Strips the code fences from a reply that is wrapped in them.
pub fn strip_code_fences<'a>(text: &'a str) -> (r: &'a str)
    ensures
        r@ == unfenced(text@),
{
    let body = trim(text);
    let chars = chars_of(body);
    let fence = chars_of("```");
    let len = chars.len();
    let width = fence.len();
    if !matches_at(&chars, &fence, 0) {
        return body;
    }
    let ghost rest = body@.skip(width as int);
    assert(rest.skip(0) == rest);
    let mut end: usize = width;
    while end < len && chars[end] != '\n'
        invariant
            width <= end <= len,
            len == chars@.len(),
            chars@ == body@,
            rest == body@.skip(width as int),
            text::line_length(rest) == end - width + text::line_length(rest.skip(end - width)),
        decreases len - end,
    {
        assert(rest.skip(end - width).skip(1) == rest.skip(end - width + 1));
        assert(rest.skip(end - width)[0] == chars@[end as int]);
        end += 1;
    }
    assert(end < len ==> rest.skip(end - width)[0] == chars@[end as int]);
    assert(text::line_length(rest) == end - width);
    let from: usize = if end < len {
        end + 1
    } else {
        width
    };
    let ghost inner = after_first_line(rest);
    assert(inner == body@.subrange(from as int, len as int));
    let to: usize = if len - from >= width && matches_at(&chars, &fence, len - width) {
        len - width
    } else {
        len
    };
    proof {
        if len - from >= width {
            assert(inner.subrange(inner.len() - width, inner.len() as int) == body@.subrange(
                len - width,
                len as int,
            ));
        }
        assert(without_closing_fence(inner) == body@.subrange(from as int, to as int));
    }
    trim(body.substring_char(from, to))
}

/// Whether a line is a fence. Outside a block of code it opens one, whatever
/// language it names; inside it closes the block.
pub open spec fn is_fence(line: Seq<char>) -> bool {
    "```"@.is_prefix_of(text::trimmed(line))
}

/// The lines of `ls` that stand inside blocks of code. `inside` says whether
/// the first of them does.
pub open spec fn block_lines(ls: Seq<Seq<char>>, inside: bool) -> Seq<Seq<char>>
    decreases ls.len(),
{
    if ls.len() == 0 {
        Seq::empty()
    } else if is_fence(ls[0]) {
        block_lines(ls.skip(1), !inside)
    } else if inside {
        seq![ls[0]] + block_lines(ls.skip(1), true)
    } else {
        block_lines(ls.skip(1), false)
    }
}

/// `ls` without the empty lines it begins with.
pub open spec fn from_first_filled(ls: Seq<Seq<char>>) -> Seq<Seq<char>>
    decreases ls.len(),
{
    if ls.len() > 0 && ls[0].len() == 0 {
        from_first_filled(ls.skip(1))
    } else {
        ls
    }
}

/// The code in `s`: the lines inside its blocks, from the first that is not
/// empty on.
pub open spec fn extracted(s: Seq<char>) -> Seq<char> {
    text::joined(from_first_filled(block_lines(text::lines(s), false)))
}

fn is_fence_line(line: &str) -> (r: bool)
    ensures
        r == is_fence(line@),
{
    matches_at(&chars_of(trim(line)), &chars_of("```"), 0)
}

proof fn joined_push(ls: Seq<Seq<char>>, line: Seq<char>)
    ensures
        text::joined(ls.push(line)) == if ls.len() == 0 {
            line
        } else {
            text::joined(ls).push('\n') + line
        },
{
    assert(ls.push(line).drop_last() == ls);
}

proof fn from_first_filled_push(ls: Seq<Seq<char>>, line: Seq<char>)
    ensures
        from_first_filled(ls.push(line)) == if from_first_filled(ls).len() == 0 && line.len() == 0 {
            Seq::empty()
        } else {
            from_first_filled(ls).push(line)
        },
    decreases ls.len(),
{
    reveal_with_fuel(from_first_filled, 2);
    if ls.len() == 0 {
        assert(ls.push(line).skip(1) == ls);
    } else if ls[0].len() == 0 {
        from_first_filled_push(ls.skip(1), line);
        assert(ls.push(line).skip(1) == ls.skip(1).push(line));
    }
}

proof fn filled_is_not_blank(ls: Seq<Seq<char>>)
    ensures
        from_first_filled(ls).len() > 0 ==> from_first_filled(ls)[0].len() > 0,
    decreases ls.len(),
{
    if ls.len() > 0 && ls[0].len() == 0 {
        filled_is_not_blank(ls.skip(1));
    }
}

proof fn joined_blank(ls: Seq<Seq<char>>)
    requires
        ls.len() > 0 ==> ls[0].len() > 0,
    ensures
        text::joined(ls).len() == 0 <==> ls.len() == 0,
    decreases ls.len(),
{
    if ls.len() > 1 {
        joined_blank(ls.drop_last());
    }
}

/// Extracts the code from the fenced blocks of a reply.
pub fn extract_code_block(text: &str) -> (r: String)
    ensures
        r@ == extracted(text@),
{
    let owned = lines_of(text);
    let lines = as_strs(owned.as_slice());
    let ghost all = text::lines(text@);
    let ghost mut kept: Seq<Seq<char>> = Seq::empty();
    let mut in_block: bool = false;
    let mut code = String::new();
    assert(all.skip(0) == all);
    assert(kept + block_lines(all, false) == block_lines(all, false));
    for i in 0..lines.len()
        invariant
            all == text::str_views(lines@),
            kept + block_lines(all.skip(i as int), in_block) == block_lines(all, false),
            code@ == text::joined(from_first_filled(kept)),
    {
        let line = lines[i];
        let ghost rest = all.skip(i as int);
        assert(rest[0] == line@);
        assert(rest.skip(1) == all.skip(i + 1));
        if is_fence_line(line) {
            in_block = !in_block;
        } else if in_block {
            proof {
                from_first_filled_push(kept, line@);
                joined_push(from_first_filled(kept), line@);
                filled_is_not_blank(kept);
                joined_blank(from_first_filled(kept));
                assert(kept.push(line@) + block_lines(rest.skip(1), true) == kept + (seq![line@]
                    + block_lines(rest.skip(1), true)));
            }
            if !code.as_str().is_empty() {
                code.push('\n');
            }
            code.append(line);
            proof {
                kept = kept.push(line@);
                assert(Seq::<char>::empty() + line@ == line@);
            }
        }
    }
    assert(kept + block_lines(all.skip(lines@.len() as int), in_block) == kept);
    code
}

proof fn trimmed_keeps(s: Seq<char>)
    requires
        s.len() > 0,
        !text::white_space(s[0]),
        !text::white_space(s.last()),
    ensures
        text::trimmed(s) == s,
{
}

/// White space around a reply does not matter.
pub proof fn white_space_around_is_ignored(s: Seq<char>)
    ensures
        unfenced(text::trimmed(s)) == unfenced(s),
{
    text::trimmed_twice(s);
}

/// Stripping the fences that were put around a text gives the text back,
/// trimmed, whatever language the opening fence names.
pub proof fn fences_come_off(language: Seq<char>, body: Seq<char>)
    requires
        !language.contains('\n'),
    ensures
        unfenced("```"@ + language.push('\n') + body + "```"@) == text::trimmed(body),
{
    reveal_strlit("```");
    let fence = "```"@;
    let s = fence + language.push('\n') + body + fence;
    assert(s[0] == '`');
    assert(s.last() == '`');
    trimmed_keeps(s);
    assert(fence.is_prefix_of(s));
    let rest = s.skip(fence.len() as int);
    assert(rest == language.push('\n') + (body + fence));
    text::line_length_before_feed(language, body + fence);
    assert(after_first_line(rest) == body + fence);
    assert(fence.is_suffix_of(body + fence));
    assert(without_closing_fence(body + fence) == body);
}

/// No line of code is itself a fence.
pub proof fn code_holds_no_fence(ls: Seq<Seq<char>>, inside: bool)
    ensures
        forall|i: int|
            0 <= i < block_lines(ls, inside).len() ==> !is_fence(
                #[trigger] block_lines(ls, inside)[i],
            ),
    decreases ls.len(),
{
    if ls.len() > 0 {
        let rest = ls.skip(1);
        if !is_fence(ls[0]) && inside {
            code_holds_no_fence(rest, true);
            assert forall|i: int| 0 <= i < block_lines(ls, inside).len() implies !is_fence(
                #[trigger] block_lines(ls, inside)[i],
            ) by {
                if i == 0 {
                    assert(block_lines(ls, inside)[0] == ls[0]);
                } else {
                    assert(block_lines(ls, inside)[i] == block_lines(rest, true)[i - 1]);
                }
            }
        } else {
            let within = is_fence(ls[0]) && !inside;
            code_holds_no_fence(rest, within);
            assert(block_lines(ls, inside) == block_lines(rest, within));
        }
    }
}

/// Lines before the first fence hold no code.
proof fn prose_is_skipped(prose: Seq<Seq<char>>, rest: Seq<Seq<char>>)
    requires
        forall|i: int| 0 <= i < prose.len() ==> !is_fence(#[trigger] prose[i]),
    ensures
        block_lines(prose + rest, false) == block_lines(rest, false),
    decreases prose.len(),
{
    if prose.len() == 0 {
        assert(prose + rest == rest);
    } else {
        assert(!is_fence(prose[0]));
        assert((prose + rest)[0] == prose[0]);
        assert((prose + rest).skip(1) == prose.skip(1) + rest);
        assert forall|i: int| 0 <= i < prose.skip(1).len() implies !is_fence(
            #[trigger] prose.skip(1)[i],
        ) by {
            assert(prose.skip(1)[i] == prose[i + 1]);
        }
        prose_is_skipped(prose.skip(1), rest);
    }
}

proof fn body_is_taken(body: Seq<Seq<char>>, rest: Seq<Seq<char>>)
    requires
        forall|i: int| 0 <= i < body.len() ==> !is_fence(#[trigger] body[i]),
    ensures
        block_lines(body + rest, true) == body + block_lines(rest, true),
    decreases body.len(),
{
    if body.len() == 0 {
        assert(body + rest == rest);
        assert(body + block_lines(rest, true) == block_lines(rest, true));
    } else {
        assert(!is_fence(body[0]));
        assert((body + rest)[0] == body[0]);
        assert((body + rest).skip(1) == body.skip(1) + rest);
        assert forall|i: int| 0 <= i < body.skip(1).len() implies !is_fence(
            #[trigger] body.skip(1)[i],
        ) by {
            assert(body.skip(1)[i] == body[i + 1]);
        }
        body_is_taken(body.skip(1), rest);
        assert(seq![body[0]] + (body.skip(1) + block_lines(rest, true)) == body + block_lines(
            rest,
            true,
        ));
    }
}

/// The code of a reply is what stands between its first fence and the next,
/// whatever language the first names, followed by the code of what comes after.
pub proof fn block_is_extracted(
    prose: Seq<Seq<char>>,
    opening: Seq<char>,
    body: Seq<Seq<char>>,
    closing: Seq<char>,
    rest: Seq<Seq<char>>,
)
    requires
        forall|i: int| 0 <= i < prose.len() ==> !is_fence(#[trigger] prose[i]),
        is_fence(opening),
        forall|i: int| 0 <= i < body.len() ==> !is_fence(#[trigger] body[i]),
        is_fence(closing),
    ensures
        block_lines(prose + seq![opening] + body + seq![closing] + rest, false) == body
            + block_lines(rest, false),
{
    let after = seq![closing] + rest;
    let block = seq![opening] + (body + after);
    assert(prose + seq![opening] + body + seq![closing] + rest == prose + block);
    prose_is_skipped(prose, block);
    assert(block.skip(1) == body + after);
    body_is_taken(body, after);
    assert(after.skip(1) == rest);
}

/// A reply in which no line is a fence holds no code.
pub proof fn no_block_no_code(s: Seq<char>)
    requires
        forall|i: int| 0 <= i < text::lines(s).len() ==> !is_fence(#[trigger] text::lines(s)[i]),
    ensures
        extracted(s) == Seq::<char>::empty(),
{
    prose_is_skipped(text::lines(s), Seq::empty());
    assert(text::lines(s) + Seq::empty() == text::lines(s));
}

/// Whether three backticks stand in `line` from `i` on, with nothing but white
/// space before them.
pub open spec fn backticks_at(line: Seq<char>, i: int) -> bool {
    &&& 0 <= i < line.len() - 2
    &&& line[i] == '`' && line[i + 1] == '`' && line[i + 2] == '`'
    &&& forall|j: int| 0 <= j < i ==> text::white_space(#[trigger] line[j])
}

/// A line is a fence exactly where the first characters in it that are no white
/// space are three backticks. A line that begins with anything else is never a
/// fence, whatever it goes on with.
pub proof fn fence_by_characters(line: Seq<char>)
    ensures
        is_fence(line) <==> exists|i: int| backticks_at(line, i),
        forall|i: int|
            0 <= i < line.len() && #[trigger] line[i] != '`' && !text::white_space(line[i]) && (
            forall|j: int| 0 <= j < i ==> text::white_space(#[trigger] line[j])) ==> !is_fence(line),
        (forall|i: int| 0 <= i < line.len() ==> #[trigger] line[i] != '`') ==> !is_fence(line),
{
    reveal_strlit("```");
    let t = text::trimmed(line);
    text::trimmed_cuts_white_space(line);
    let (from, to) = choose|from: int, to: int|
        {
            &&& 0 <= from <= to <= line.len()
            &&& t == #[trigger] line.subrange(from, to)
            &&& forall|i: int|
                0 <= i < from || to <= i < line.len() ==> text::white_space(#[trigger] line[i])
        };
    text::white_space_by_code_point('`');
    assert("```"@.is_prefix_of(t) <==> t.len() >= 3 && t[0] == '`' && t[1] == '`' && t[2] == '`') by {
        if "```"@.is_prefix_of(t) {
            assert(t.subrange(0, 3)[0] == '`');
            assert(t.subrange(0, 3)[1] == '`');
            assert(t.subrange(0, 3)[2] == '`');
        } else if t.len() >= 3 && t[0] == '`' && t[1] == '`' && t[2] == '`' {
            assert(t.subrange(0, 3) =~= "```"@);
        }
    }
    if is_fence(line) {
        assert(t[0] == line[from] && t[1] == line[from + 1] && t[2] == line[from + 2]);
        assert(backticks_at(line, from));
    }
    if exists|i: int| backticks_at(line, i) {
        let i = choose|i: int| backticks_at(line, i);
        assert(from <= i);
        if from < i {
            if t.len() > 0 {
                assert(t[0] == line[from]);
            }
        }
        assert(from == i);
        assert(i + 2 < to);
        assert(t[0] == line[i] && t[1] == line[i + 1] && t[2] == line[i + 2]);
    }
    assert forall|i: int|
        0 <= i < line.len() && #[trigger] line[i] != '`' && !text::white_space(line[i]) && (forall|
            j: int,
        |
            0 <= j < i ==> text::white_space(#[trigger] line[j])) implies !is_fence(line) by {
        if is_fence(line) {
            let k = choose|k: int| backticks_at(line, k);
            assert(line[k] == '`');
            assert(line[i] != '`');
        }
    }
}

/// A block that no fence closes goes on to the end of the reply; lines of which
/// none is a fence are code inside a block, and no code outside of one.
pub proof fn unclosed_block_is_taken(
    prose: Seq<Seq<char>>,
    opening: Seq<char>,
    body: Seq<Seq<char>>,
)
    requires
        forall|i: int| 0 <= i < prose.len() ==> !is_fence(#[trigger] prose[i]),
        is_fence(opening),
        forall|i: int| 0 <= i < body.len() ==> !is_fence(#[trigger] body[i]),
    ensures
        block_lines(prose + seq![opening] + body, false) == body,
        block_lines(prose, false) == Seq::<Seq<char>>::empty(),
        block_lines(body, true) == body,
{
    let none = Seq::<Seq<char>>::empty();
    let block = seq![opening] + body;
    assert(prose + seq![opening] + body == prose + block);
    prose_is_skipped(prose, block);
    assert(block.skip(1) == body);
    body_is_taken(body, none);
    assert(body + none == body);
    prose_is_skipped(prose, none);
    assert(prose + none == prose);
}

proof fn blanks_are_dropped(blanks: Seq<Seq<char>>, code: Seq<Seq<char>>)
    requires
        forall|i: int| 0 <= i < blanks.len() ==> (#[trigger] blanks[i]).len() == 0,
        code.len() > 0 ==> code[0].len() > 0,
    ensures
        from_first_filled(blanks + code) == code,
    decreases blanks.len(),
{
    let all = blanks + code;
    if blanks.len() == 0 {
        assert(all == code);
    } else {
        assert(all[0] == blanks[0]);
        assert(all.skip(1) == blanks.skip(1) + code);
        assert forall|i: int| 0 <= i < blanks.skip(1).len() implies (
        #[trigger] blanks.skip(1)[i]).len() == 0 by {
            assert(blanks.skip(1)[i] == blanks[i + 1]);
        }
        blanks_are_dropped(blanks.skip(1), code);
    }
}

/// The lines of a block are extracted as they stand, every one of them, from
/// the first that is not empty to the line before the fence: the code of a reply
/// with one block is those lines, joined.
pub proof fn lines_of_a_block_are_kept(
    s: Seq<char>,
    prose: Seq<Seq<char>>,
    opening: Seq<char>,
    blanks: Seq<Seq<char>>,
    code: Seq<Seq<char>>,
    closing: Seq<char>,
    rest: Seq<Seq<char>>,
)
    requires
        text::lines(s) == prose + seq![opening] + (blanks + code) + seq![closing] + rest,
        forall|i: int| 0 <= i < prose.len() ==> !is_fence(#[trigger] prose[i]),
        is_fence(opening),
        forall|i: int| 0 <= i < blanks.len() ==> (#[trigger] blanks[i]).len() == 0,
        forall|i: int| 0 <= i < code.len() ==> !is_fence(#[trigger] code[i]),
        code.len() > 0 ==> code[0].len() > 0,
        is_fence(closing),
        forall|i: int| 0 <= i < rest.len() ==> !is_fence(#[trigger] rest[i]),
    ensures
        extracted(s) == text::joined(code),
{
    let body = blanks + code;
    assert forall|i: int| 0 <= i < body.len() implies !is_fence(#[trigger] body[i]) by {
        if i < blanks.len() {
            assert(body[i] == blanks[i]);
            fence_by_characters(blanks[i]);
        } else {
            assert(body[i] == code[i - blanks.len()]);
        }
    }
    block_is_extracted(prose, opening, body, closing, rest);
    unclosed_block_is_taken(rest, opening, Seq::empty());
    assert(body + block_lines(rest, false) == body);
    blanks_are_dropped(blanks, code);
}

/// The code of a reply with any number of blocks is the code lines of all of
/// them joined, without the empty ones at the beginning.
pub proof fn blocks_are_joined(s: Seq<char>, blanks: Seq<Seq<char>>, code: Seq<Seq<char>>)
    requires
        block_lines(text::lines(s), false) == blanks + code,
        forall|i: int| 0 <= i < blanks.len() ==> (#[trigger] blanks[i]).len() == 0,
        code.len() > 0 ==> code[0].len() > 0,
    ensures
        extracted(s) == text::joined(code),
{
    blanks_are_dropped(blanks, code);
}

/// A reply that does not begin with a fence is only trimmed.
pub proof fn bare_reply_is_trimmed(s: Seq<char>)
    requires
        !exists|i: int| backticks_at(s, i),
    ensures
        unfenced(s) == text::trimmed(s),
{
    fence_by_characters(s);
}

/// A reply that begins with a fence and ends without one loses the line of the
/// fence and nothing else, whatever that line names.
pub proof fn open_fence_comes_off(language: Seq<char>, body: Seq<char>)
    requires
        !language.contains('\n'),
        body.len() > 0,
        !text::white_space(body.last()),
        !(body.len() >= 3 && body.skip(body.len() - 3) == seq!['`', '`', '`']),
    ensures
        unfenced(seq!['`', '`', '`'] + language + seq!['\n'] + body) == text::trimmed(body),
{
    reveal_strlit("```");
    let fence = "```"@;
    assert(fence =~= seq!['`', '`', '`']);
    text::white_space_by_code_point('`');
    let s = fence + language + seq!['\n'] + body;
    assert(s[0] == '`');
    assert(s.last() == body.last());
    trimmed_keeps(s);
    assert(fence.is_prefix_of(s)) by {
        assert(s.subrange(0, 3) =~= fence);
    }
    let rest = s.skip(3);
    assert(rest =~= language.push('\n') + body);
    text::line_length_before_feed(language, body);
    assert(after_first_line(rest) =~= body);
    assert(!fence.is_suffix_of(body)) by {
        if fence.is_suffix_of(body) {
            assert(body.skip(body.len() - 3) =~= body.subrange(body.len() - 3, body.len() as int));
        }
    }
}

/// Where the line of the fence is all there is, the backticks come off it, at
/// its beginning and at its end.
pub proof fn fences_of_one_line_come_off(line: Seq<char>)
    requires
        !line.contains('\n'),
    ensures
        unfenced(seq!['`', '`', '`'] + line + seq!['`', '`', '`']) == text::trimmed(line),
        ({
            &&& line.len() > 0 ==> !text::white_space(line.last())
            &&& !(line.len() >= 3 && line.skip(line.len() - 3) == seq!['`', '`', '`'])
        }) ==> unfenced(seq!['`', '`', '`'] + line) == text::trimmed(line),
{
    reveal_strlit("```");
    let fence = "```"@;
    assert(fence =~= seq!['`', '`', '`']);
    text::white_space_by_code_point('`');
    if (line.len() > 0 ==> !text::white_space(line.last())) && !(line.len() >= 3 && line.skip(
        line.len() - 3,
    ) == fence) {
        one_line_reply(line);
        assert(!fence.is_suffix_of(line)) by {
            if fence.is_suffix_of(line) {
                assert(line.skip(line.len() - 3) =~= line.subrange(
                    line.len() - 3,
                    line.len() as int,
                ));
            }
        }
    }
    let inner = line + fence;
    assert(inner.last() == '`');
    assert forall|i: int| 0 <= i < inner.len() implies inner[i] != '\n' by {
        if i < line.len() {
            assert(inner[i] == line[i]);
            assert(line.contains(line[i]));
        }
    }
    one_line_reply(inner);
    assert(fence + line + fence =~= fence + inner);
    assert(fence.is_suffix_of(inner)) by {
        assert(inner.subrange(inner.len() - 3, inner.len() as int) =~= fence);
    }
    assert(without_closing_fence(inner) =~= line);
}

proof fn one_line_reply(rest: Seq<char>)
    requires
        !rest.contains('\n'),
        rest.len() > 0 ==> !text::white_space(rest.last()),
    ensures
        unfenced("```"@ + rest) == text::trimmed(without_closing_fence(rest)),
{
    reveal_strlit("```");
    let fence = "```"@;
    text::white_space_by_code_point('`');
    let s = fence + rest;
    assert(s[0] == '`');
    if rest.len() > 0 {
        assert(s.last() == rest.last());
    } else {
        assert(s.last() == '`');
    }
    trimmed_keeps(s);
    assert(fence.is_prefix_of(s)) by {
        assert(s.subrange(0, 3) =~= fence);
    }
    assert(s.skip(3) =~= rest);
    text::line_length_of_one_line(rest);
}

} // verus!
