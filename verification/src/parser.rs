//! The page parser: the page is read line by line; a line that holds block
//! syntax becomes that block, any other line has its inline markup rendered,
//! and the rendered lines are joined by `<br>`.
use crate::inline::binary::ascii_bytes;
use crate::inline::inline_elements;
use crate::parser_options::ParserOptions;
use crate::plugins::accordion::{accordion_arg_list, accordion_block_html, any_open, first_level};
use crate::plugins::calendar::calendar_block;
use crate::plugins::comment::comment::comment_block;
use crate::plugins::comment::rtcomment::rtcomment_block;
use crate::plugins::ls::ls_block;
use crate::plugins::marquee::marquee_block;
use crate::plugins::page_include::include_block;
use crate::plugins::variable::{const_block, let_block, variable_inline, Table};
use crate::inline::parse_inline_elements;
use crate::plugins::accordion::{checked_render_accordion_parts, parse_accordion_args};
use crate::plugins::calendar::checked_parse_calendar_block;
use crate::plugins::comment::comment::checked_parse_comment_block;
use crate::plugins::comment::rtcomment::parse_rtcomment_block;
use crate::plugins::ls::parse_ls_block;
use crate::plugins::marquee::checked_parse_marquee_block;
use crate::plugins::page_include::parse_include_block;
use crate::plugins::variable::{
    checked_parse_variable_inline, parse_const_block, parse_let_block, VariableContext,
};
use crate::text::{
    chars_of, contains_str, contains_sub, copy_range, count_char, count_elem, eq_str, find_elem,
    all_ascii, ascii_lower, join, lemma_join_cons, lemma_find_elem_range, lemma_trim_sub, lemma_inner_lines_shorter, lines, lines_of, lowered, opt_view,
    push_chars, push_str, split_on, starts_with, starts_with_str, string_from_chars, to_lowercase,
    trim, trim_chars, views,
};
use vstd::prelude::*;

verus! {

/// The raw bytes of each line: the bytes split at `\n`, each piece without
/// a trailing `\r`.
pub open spec fn byte_lines(bytes: Seq<u8>) -> Seq<Seq<u8>> {
    split_on(bytes, 10u8).map_values(|l: Seq<u8>| strip_cr_bytes(l))
}

/// The bytes of line `i`, or none past the last byte line.
pub open spec fn line_bytes(blines: Seq<Seq<u8>>, i: int) -> Seq<u8> {
    if 0 <= i < blines.len() {
        blines[i]
    } else {
        Seq::empty()
    }
}

/// The alignment that a line's `CENTER:`, `LEFT:` or `RIGHT:` prefix asks
/// for (when enabled), and the line without it.
pub open spec fn strip_align(line: Seq<char>, o: ParserOptions) -> (Seq<char>, Seq<char>) {
    if o.center && starts_with(line, "CENTER:"@) {
        ("center"@, line.skip(7))
    } else if o.left && starts_with(line, "LEFT:"@) {
        ("left"@, line.skip(5))
    } else if o.right && starts_with(line, "RIGHT:"@) {
        ("right"@, line.skip(6))
    } else {
        (Seq::empty(), line)
    }
}

/// The running count of `{` less `}` after line `l`, kept in an `i32`:
/// `None` where that arithmetic overflows.
pub open spec fn brace_step(acc: i32, l: Seq<char>) -> Option<i32> {
    let opens = count_elem(l, '{') as i32;
    let closes = count_elem(l, '}') as i32;
    let s1 = acc + opens;
    if s1 < i32::MIN || s1 > i32::MAX {
        None
    } else {
        let s2 = s1 - closes;
        if s2 < i32::MIN || s2 > i32::MAX {
            None
        } else {
            Some(s2 as i32)
        }
    }
}

/// The line that closes the accordion block opened at line `start`, the
/// count being `acc` before line `j`: the first line after `start` where the
/// count of `{` less `}` from `start` on drops to zero or below. `Some(None)`
/// if no line does, `None` where the count overflows.
pub open spec fn accordion_end(lines: Seq<Seq<char>>, start: int, j: int, acc: i32) -> Option<
    Option<int>,
>
    decreases lines.len() - j,
{
    if j < 0 || j >= lines.len() {
        Some(None)
    } else {
        match brace_step(acc, lines[j]) {
            None => None,
            Some(acc2) => if acc2 <= 0 && j > start {
                Some(Some(j))
            } else {
                accordion_end(lines, start, j + 1, acc2)
            },
        }
    }
}

/// What a line's block syntax makes of it.
pub enum LineAction {
    /// A block: it stands alone, followed by a line feed.
    Block(Seq<char>),
    /// A rendered line: its variables are expanded, it is aligned, and a
    /// `<br>` follows it unless it is the last line.
    Text(Seq<char>),
}

/// The outcome of one line's block syntax, with the constants and the
/// variables after it; `None` where the line cannot be parsed.
#[verifier::opaque]
pub open spec fn line_action(
    pl: Seq<char>,
    lower: Seq<char>,
    lb: Seq<u8>,
    w: Seq<char>,
    p: Seq<char>,
    o: ParserOptions,
    consts: Table,
    lets: Table,
) -> Option<(LineAction, Table, Table)> {
    let inline = LineAction::Text(inline_elements(pl, lb, o));
    if o.include_block && starts_with(lower, "#include"@) {
        match include_block(pl) {
            Some(h) => Some((LineAction::Block(h), consts, lets)),
            None => Some((inline, consts, lets)),
        }
    } else if o.ls && (starts_with(lower, "#ls"@) || starts_with(lower, "#ls2"@)) {
        match ls_block(pl, w) {
            Some(h) => Some((LineAction::Block(h), consts, lets)),
            None => Some((inline, consts, lets)),
        }
    } else if o.const_block && starts_with(lower, "#const"@) {
        let (r, c2) = const_block(pl, consts);
        match r {
            Some(h) => Some((LineAction::Block(h), c2, lets)),
            None => Some((inline, c2, lets)),
        }
    } else if o.let_block && starts_with(lower, "#let"@) {
        let (r, l2) = let_block(pl, lets);
        match r {
            Some(h) => Some((LineAction::Block(h), consts, l2)),
            None => Some((inline, consts, l2)),
        }
    } else if o.hr && lower == "#hr"@ {
        Some((LineAction::Text("<hr>"@), consts, lets))
    } else if o.br_block && lower == "#br"@ {
        Some((LineAction::Text("<br>"@), consts, lets))
    } else if o.calendar && starts_with(lower, "#calendar"@) {
        match calendar_block(pl) {
            None => None,
            Some(Some(h)) => Some((LineAction::Block(h), consts, lets)),
            Some(None) => Some((inline, consts, lets)),
        }
    } else if o.comment && starts_with(lower, "#comment"@) {
        match comment_block(pl, w, p) {
            None => None,
            Some(Some(h)) => Some((LineAction::Block(h), consts, lets)),
            Some(None) => Some((inline, consts, lets)),
        }
    } else if o.rtcomment && starts_with(lower, "#rtcomment"@) {
        match rtcomment_block(pl, w, p) {
            Some(h) => Some((LineAction::Text(h), consts, lets)),
            None => Some((inline, consts, lets)),
        }
    } else if o.marquee && starts_with(lower, "#marquee"@) {
        match marquee_block(pl, o) {
            None => None,
            Some(Some(h)) => Some((LineAction::Text(h), consts, lets)),
            Some(None) => Some((inline, consts, lets)),
        }
    } else {
        Some((inline, consts, lets))
    }
}

/// A rendered line wrapped in its alignment, if it has one.
pub open spec fn aligned(align: Seq<char>, line: Seq<char>) -> Seq<char> {
    if align.len() > 0 {
        "<div style=\"text-align: "@ + align + ";\">"@ + line + "</div>"@
    } else {
        line
    }
}

/// An accordion block opens on a line.
pub open spec fn opens_accordion(o: ParserOptions, lower: Seq<char>, pl: Seq<char>) -> bool {
    o.accordion && starts_with(lower, "#accordion"@) && contains_sub(pl, "{{"@)
}

/// What line `i` of the page puts out (with the block that it opens, if
/// it opens an accordion block), and the constants and the variables after
/// it; `None` where the line cannot be parsed.
pub open spec fn line_head(
    input: Seq<char>,
    bytes: Seq<u8>,
    w: Seq<char>,
    p: Seq<char>,
    o: ParserOptions,
    i: int,
    consts: Table,
    lets: Table,
) -> Option<(Seq<char>, Table, Table)>
    decreases input.len(), lines_of(input).len() - i,
{
    let lines = lines_of(input);
    if i < 0 || i >= lines.len() {
        None
    } else {
        let line = lines[i];
        let (align, pl0) = strip_align(line, o);
        let lower = lowered(trim(pl0));
        let opens = opens_accordion(o, lower, pl0);
        let end = if opens {
            accordion_end(lines, i, i, 0)
        } else {
            Some(None)
        };
        match end {
            None => None,
            Some(Some(j)) => {
                let args = accordion_arg_list(line);
                let content = lines.subrange(i + 1, j);
                proof {
                    assert(j > i && j < lines.len()) by {
                        lemma_accordion_end_range(lines, i, i, 0);
                    }
                    assert(line.len() >= 2) by {
                        lemma_contains_len(pl0, "{{"@);
                        reveal_strlit("{{");
                        lemma_strip_align_len(line, o);
                    }
                    lemma_inner_lines_shorter(input, i, j);
                }
                match accordion_block_html(args[0], first_level(args), any_open(args), content, w, p, o) {
                    None => None,
                    Some(h) => Some((h + seq!['\n'], consts, lets)),
                }
            },
            Some(None) => {
                let pl = if opens {
                    line
                } else {
                    pl0
                };
                let lb = line_bytes(byte_lines(bytes), i);
                match line_action(pl, lower, lb, w, p, o, consts, lets) {
                    None => None,
                    Some((LineAction::Block(h), c2, l2)) => Some((h + seq!['\n'], c2, l2)),
                    Some((LineAction::Text(t), c2, l2)) => match variable_inline(t, c2, l2) {
                        None => None,
                        Some(t2) => Some(
                            (
                                aligned(align, t2) + (if i < lines.len() - 1 {
                                    "<br>"@
                                } else {
                                    Seq::empty()
                                }),
                                c2,
                                l2,
                            ),
                        ),
                    },
                }
            },
        }
    }
}

/// Whether line `i` opens an accordion block that some later line closes:
/// the closing line, or `None`.
pub open spec fn accordion_close(input: Seq<char>, o: ParserOptions, i: int) -> Option<int> {
    let lines = lines_of(input);
    let (align, pl0) = strip_align(lines[i], o);
    if opens_accordion(o, lowered(trim(pl0)), pl0) {
        match accordion_end(lines, i, i, 0) {
            Some(Some(j)) => Some(j),
            _ => None,
        }
    } else {
        None
    }
}

/// The line read after line `i`: the line after the accordion block that
/// line `i` opens, or the next line.
pub open spec fn next_line(input: Seq<char>, o: ParserOptions, i: int) -> int {
    match accordion_close(input, o, i) {
        Some(j) => j + 1,
        None => i + 1,
    }
}

pub proof fn lemma_next_line(input: Seq<char>, o: ParserOptions, i: int)
    requires
        0 <= i < lines_of(input).len(),
    ensures
        i < next_line(input, o, i) <= lines_of(input).len(),
{
    lemma_accordion_end_range(lines_of(input), i, i, 0);
}

/// The output of the page from line `i` on, with the constants and the
/// variables defined so far; `None` where a line cannot be parsed.
pub open spec fn parse_from(
    input: Seq<char>,
    bytes: Seq<u8>,
    w: Seq<char>,
    p: Seq<char>,
    o: ParserOptions,
    i: int,
    consts: Table,
    lets: Table,
) -> Option<Seq<char>>
    decreases input.len(), lines_of(input).len() + 1 - i,
{
    if i < 0 || i >= lines_of(input).len() {
        Some(Seq::empty())
    } else {
        match line_head(input, bytes, w, p, o, i, consts, lets) {
            None => None,
            Some((emitted, c2, l2)) => {
                let ni = next_line(input, o, i);
                proof {
                    lemma_next_line(input, o, i);
                }
                match parse_from(input, bytes, w, p, o, ni, c2, l2) {
                    Some(rest) => Some(emitted + rest),
                    None => None,
                }
            },
        }
    }
}

/// What `parse` gives for the page `input` (whose raw bytes are `bytes`);
/// `None` for a page that cannot be parsed: a `#comment`, `#calendar2(` or
/// `#marquee(` line whose slicing would fall inside a character, a match
/// without its capture group, or a brace count that overflows an `i32`.
pub open spec fn parse_spec(
    input: Seq<char>,
    bytes: Seq<u8>,
    w: Seq<char>,
    p: Seq<char>,
    o: ParserOptions,
) -> Option<Seq<char>>
    decreases input.len(), lines_of(input).len() + 2,
{
    parse_from(input, bytes, w, p, o, 0, Seq::empty(), Seq::empty())
}

pub proof fn lemma_accordion_end_range(lines: Seq<Seq<char>>, start: int, j: int, acc: i32)
    requires
        0 <= start <= j,
    ensures
        accordion_end(lines, start, j, acc) matches Some(Some(e)) ==> start < e < lines.len() && j
            <= e,
    decreases lines.len() - j,
{
    if j < lines.len() {
        match brace_step(acc, lines[j]) {
            None => {},
            Some(acc2) => {
                if !(acc2 <= 0 && j > start) {
                    lemma_accordion_end_range(lines, start, j + 1, acc2);
                }
            },
        }
    }
}

pub proof fn lemma_contains_len(s: Seq<char>, p: Seq<char>)
    requires
        contains_sub(s, p),
    ensures
        p.len() <= s.len(),
{
    crate::text::lemma_find_from_range(s, p, 0);
}

pub proof fn lemma_strip_align_len(line: Seq<char>, o: ParserOptions)
    ensures
        strip_align(line, o).1.len() <= line.len(),
{
    reveal_strlit("CENTER:");
    reveal_strlit("LEFT:");
    reveal_strlit("RIGHT:");
}


/// The contents of each `Vec<u8>` of a sequence.
pub open spec fn bviews(v: Seq<Vec<u8>>) -> Seq<Seq<u8>> {
    v.map_values(|x: Vec<u8>| x@)
}

/// A line's bytes without a trailing carriage return.
pub open spec fn strip_cr_bytes(l: Seq<u8>) -> Seq<u8> {
    if l.len() > 0 && l.last() == 13u8 {
        l.drop_last()
    } else {
        l
    }
}

proof fn lemma_byte_lines_step(bytes: Seq<u8>, start: int, k: int)
    requires
        0 <= start <= bytes.len(),
        crate::text::find_elem(bytes.skip(start), 10u8) == Some(k),
    ensures
        split_on(bytes.skip(start), 10u8) == seq![bytes.skip(start).take(k)] + split_on(
            bytes.skip(start + k + 1),
            10u8,
        ),
{
    lemma_find_elem_range(bytes.skip(start), 10u8, 0);
    assert(bytes.skip(start).skip(k + 1) =~= bytes.skip(start + k + 1));
}

/// The raw bytes of each line (`byte_lines`).
fn byte_lines_exec(bytes: &[u8]) -> (r: Vec<Vec<u8>>)
    ensures
        bviews(r@) == byte_lines(bytes@),
{
    let mut r: Vec<Vec<u8>> = Vec::new();
    let mut start: usize = 0;
    let ghost pieces = split_on(bytes@, 10u8);
    assert(bytes@.skip(0) =~= bytes@);
    loop
        invariant
            0 <= start <= bytes@.len(),
            pieces == split_on(bytes@, 10u8),
            bviews(r@) + split_on(bytes@.skip(start as int), 10u8).map_values(
                |l: Seq<u8>| strip_cr_bytes(l),
            ) == pieces.map_values(|l: Seq<u8>| strip_cr_bytes(l)),
        decreases bytes@.len() - start,
    {
        let mut k: usize = start;
        while k < bytes.len() && bytes[k] != 10u8
            invariant
                start <= k <= bytes@.len(),
                forall|j: int| start <= j < k ==> bytes@[j] != 10u8,
            decreases bytes@.len() - k,
        {
            k = k + 1;
        }
        let ghost rest = bytes@.skip(start as int);
        let end: usize = if k > start && bytes[k - 1] == 13u8 {
            k - 1
        } else {
            k
        };
        let piece = vstd::slice::slice_to_vec(&bytes[start..end]);
        proof {
            assert(piece@ =~= strip_cr_bytes(rest.take(k - start)));
        }
        if k < bytes.len() {
            proof {
                crate::text::lemma_find_elem_from(rest, 10u8, 0, Some(k - start));
                lemma_byte_lines_step(bytes@, start as int, k - start);
                let tail = split_on(bytes@.skip(k + 1), 10u8);
                assert((seq![rest.take(k - start)] + tail).map_values(|l: Seq<u8>| strip_cr_bytes(l))
                    =~= seq![strip_cr_bytes(rest.take(k - start))] + tail.map_values(
                    |l: Seq<u8>| strip_cr_bytes(l),
                ));
            }
            let ghost dv = r@;
            r.push(piece);
            assert(bviews(r@) =~= bviews(dv).push(piece@));
            start = k + 1;
        } else {
            proof {
                crate::text::lemma_find_elem_from(rest, 10u8, 0, None);
                assert(rest.take(k - start) =~= rest);
                assert(split_on(rest, 10u8) == seq![rest]);
                assert(seq![rest].map_values(|l: Seq<u8>| strip_cr_bytes(l)) =~= seq![strip_cr_bytes(rest)]);
            }
            let ghost dv = r@;
            r.push(piece);
            assert(bviews(r@) =~= bviews(dv).push(piece@));
            return r;
        }
    }
}

/// The alignment prefix of a line and the line without it.
fn strip_align_exec(line: &[char], o: &ParserOptions) -> (r: (Vec<char>, Vec<char>))
    ensures
        (r.0@, r.1@) == strip_align(line@, *o),
{
    proof {
        reveal_strlit("CENTER:");
        reveal_strlit("LEFT:");
        reveal_strlit("RIGHT:");
    }
    if o.center && starts_with_str(line, "CENTER:") {
        let rest = copy_range(line, 7, line.len());
        assert(rest@ =~= line@.skip(7));
        (chars_of("center"), rest)
    } else if o.left && starts_with_str(line, "LEFT:") {
        let rest = copy_range(line, 5, line.len());
        assert(rest@ =~= line@.skip(5));
        (chars_of("left"), rest)
    } else if o.right && starts_with_str(line, "RIGHT:") {
        let rest = copy_range(line, 6, line.len());
        assert(rest@ =~= line@.skip(6));
        (chars_of("right"), rest)
    } else {
        let whole = copy_range(line, 0, line.len());
        assert(whole@ =~= line@);
        (Vec::new(), whole)
    }
}

/// One step of the running count of braces.
fn brace_step_exec(acc: i32, l: &[char]) -> (r: Option<i32>)
    ensures
        r == brace_step(acc, l@),
{
    let opens = #[verifier::truncate] (count_char(l, '{') as i32);
    let closes = #[verifier::truncate] (count_char(l, '}') as i32);
    let s1: i64 = acc as i64 + opens as i64;
    if s1 < -2147483648i64 || s1 > 2147483647i64 {
        return None;
    }
    let s2: i64 = s1 - closes as i64;
    if s2 < -2147483648i64 || s2 > 2147483647i64 {
        return None;
    }
    Some(s2 as i32)
}

/// The line that closes the accordion block opened at line `start`.
fn accordion_end_exec(lines: &Vec<Vec<char>>, start: usize) -> (r: Option<Option<usize>>)
    requires
        start < lines@.len(),
    ensures
        match r {
            None => accordion_end(views(lines@), start as int, start as int, 0) is None,
            Some(None) => accordion_end(views(lines@), start as int, start as int, 0) == Some(
                None::<int>,
            ),
            Some(Some(j)) => accordion_end(views(lines@), start as int, start as int, 0) == Some(
                Some(j as int),
            ),
        },
{
    let ghost ls = views(lines@);
    let ghost full = accordion_end(ls, start as int, start as int, 0);
    let mut j: usize = start;
    let mut acc: i32 = 0;
    while j < lines.len()
        invariant
            ls == views(lines@),
            start <= j <= lines@.len(),
            full == accordion_end(ls, start as int, start as int, 0),
            full == accordion_end(ls, start as int, j as int, acc),
        decreases lines@.len() - j,
    {
        assert(ls[j as int] == lines@[j as int]@);
        match brace_step_exec(acc, &lines[j]) {
            None => return None,
            Some(acc2) => {
                if acc2 <= 0 && j > start {
                    return Some(Some(j));
                }
                acc = acc2;
            },
        }
        j = j + 1;
    }
    Some(None)
}

/// What a line's block syntax makes of it, in exec form.
enum LineOut {
    Block(Vec<char>),
    Text(Vec<char>),
}

/// The rendered inline markup of a line.
fn inline_exec(pl: &[char], lb: &[u8], o: &ParserOptions) -> (r: Vec<char>)
    ensures
        r@ == inline_elements(pl@, lb@, *o),
{
    let s = string_from_chars(pl);
    let out = parse_inline_elements(s.as_str(), lb, o);
    chars_of(out.as_str())
}

/// The block syntax of one line (`line_action`).
fn line_action_exec(
    pl: &[char],
    lower: &[char],
    lb: &[u8],
    w: &str,
    p: &str,
    o: &ParserOptions,
    ctx: &mut VariableContext,
) -> (r: Option<LineOut>)
    ensures
        match r {
            None => line_action(pl@, lower@, lb@, w@, p@, *o, old(ctx).consts(), old(ctx).lets()) is None,
            Some(LineOut::Block(v)) => line_action(pl@, lower@, lb@, w@, p@, *o, old(ctx).consts(), old(ctx).lets())
                == Some((LineAction::Block(v@), final(ctx).consts(), final(ctx).lets())),
            Some(LineOut::Text(v)) => line_action(pl@, lower@, lb@, w@, p@, *o, old(ctx).consts(), old(ctx).lets())
                == Some((LineAction::Text(v@), final(ctx).consts(), final(ctx).lets())),
        },
        old(ctx).wf() ==> final(ctx).wf(),
{
    reveal(line_action);
    let ps = string_from_chars(pl);
    let line = ps.as_str();
    if o.include_block && starts_with_str(lower, "#include") {
        match parse_include_block(line, o) {
            Some(h) => Some(LineOut::Block(chars_of(h.as_str()))),
            None => Some(LineOut::Text(inline_exec(pl, lb, o))),
        }
    } else if o.ls && (starts_with_str(lower, "#ls") || starts_with_str(lower, "#ls2")) {
        match parse_ls_block(line, w) {
            Some(h) => Some(LineOut::Block(chars_of(h.as_str()))),
            None => Some(LineOut::Text(inline_exec(pl, lb, o))),
        }
    } else if o.const_block && starts_with_str(lower, "#const") {
        match parse_const_block(line, ctx) {
            Some(h) => Some(LineOut::Block(chars_of(h.as_str()))),
            None => Some(LineOut::Text(inline_exec(pl, lb, o))),
        }
    } else if o.let_block && starts_with_str(lower, "#let") {
        match parse_let_block(line, ctx) {
            Some(h) => Some(LineOut::Block(chars_of(h.as_str()))),
            None => Some(LineOut::Text(inline_exec(pl, lb, o))),
        }
    } else if o.hr && eq_str(lower, "#hr") {
        Some(LineOut::Text(chars_of("<hr>")))
    } else if o.br_block && eq_str(lower, "#br") {
        Some(LineOut::Text(chars_of("<br>")))
    } else if o.calendar && starts_with_str(lower, "#calendar") {
        match checked_parse_calendar_block(line) {
            None => None,
            Some(Some(h)) => Some(LineOut::Block(chars_of(h.as_str()))),
            Some(None) => Some(LineOut::Text(inline_exec(pl, lb, o))),
        }
    } else if o.comment && starts_with_str(lower, "#comment") {
        match checked_parse_comment_block(line, w, p) {
            None => None,
            Some(Some(h)) => Some(LineOut::Block(chars_of(h.as_str()))),
            Some(None) => Some(LineOut::Text(inline_exec(pl, lb, o))),
        }
    } else if o.rtcomment && starts_with_str(lower, "#rtcomment") {
        match parse_rtcomment_block(line, w, p) {
            Some(h) => Some(LineOut::Text(chars_of(h.as_str()))),
            None => Some(LineOut::Text(inline_exec(pl, lb, o))),
        }
    } else if o.marquee && starts_with_str(lower, "#marquee") {
        match checked_parse_marquee_block(line, o) {
            None => None,
            Some(Some(h)) => Some(LineOut::Text(chars_of(h.as_str()))),
            Some(None) => Some(LineOut::Text(inline_exec(pl, lb, o))),
        }
    } else {
        Some(LineOut::Text(inline_exec(pl, lb, o)))
    }
}


/// What line `i` puts out (`line_head`) and the line to read after it.
fn line_head_exec(
    input: &[char],
    bytes: &[u8],
    ls: &Vec<Vec<char>>,
    bls: &Vec<Vec<u8>>,
    i: usize,
    w: &str,
    p: &str,
    o: &ParserOptions,
    ctx: &mut VariableContext,
) -> (r: Option<(Vec<char>, usize)>)
    requires
        views(ls@) == lines_of(input@),
        bviews(bls@) == byte_lines(bytes@),
        i < ls@.len(),
    ensures
        match r {
            None => line_head(input@, bytes@, w@, p@, *o, i as int, old(ctx).consts(), old(ctx).lets()) is None,
            Some((e, ni)) => {
                &&& line_head(input@, bytes@, w@, p@, *o, i as int, old(ctx).consts(), old(ctx).lets())
                    == Some((e@, final(ctx).consts(), final(ctx).lets()))
                &&& ni == next_line(input@, *o, i as int)
            },
        },
    decreases input@.len(), lines_of(input@).len() + 1,
{
    let ghost lv = views(ls@);
    let n: usize = ls.len();
    assert(i < n);
    let line = &ls[i];
    assert(line@ == lv[i as int]);
    let (align, pl0) = strip_align_exec(line, o);
    let lower = to_lowercase(&trim_chars(&pl0));
    let opens = o.accordion && starts_with_str(&lower, "#accordion") && contains_str(&pl0, "{{");
    let end: Option<Option<usize>> = if opens {
        accordion_end_exec(ls, i)
    } else {
        Some(None)
    };
    match end {
        None => None,
        Some(Some(j)) => {
            proof {
                lemma_accordion_end_range(lv, i as int, i as int, 0);
                lemma_contains_len(pl0@, "{{"@);
                reveal_strlit("{{");
                lemma_strip_align_len(line@, *o);
                lemma_inner_lines_shorter(input@, i as int, j as int);
                assert(views(ls@.subrange(i + 1, j as int)) =~= lv.subrange(i + 1, j as int));
            }
            let line_str = string_from_chars(line);
            let args = parse_accordion_args(line_str.as_str());
            let title = chars_of(args.title.as_str());
            let level = chars_of(args.level.as_str());
            let h = match checked_render_accordion_parts(
                &title,
                &level,
                args.is_open,
                &ls[i + 1..j],
                w,
                p,
                o,
            ) {
                Some(h) => h,
                None => return None,
            };
            let mut out = h;
            out.push('\n');
            assert(j < n);
            Some((out, j + 1))
        },
        Some(None) => {
            let pl: Vec<char> = if opens {
                copy_range(line, 0, line.len())
            } else {
                pl0
            };
            assert(line@.subrange(0, line@.len() as int) =~= line@);
            let lb: Vec<u8> = if i < bls.len() {
                assert(bviews(bls@)[i as int] == bls@[i as int]@);
                vstd::slice::slice_to_vec(bls[i].as_slice())
            } else {
                Vec::new()
            };
            match line_action_exec(&pl, &lower, &lb, w, p, o, ctx) {
                None => None,
                Some(LineOut::Block(h)) => {
                    let mut out = h;
                    out.push('\n');
                    Some((out, i + 1))
                },
                Some(LineOut::Text(t)) => {
                    let ts = string_from_chars(&t);
                    let t2 = match checked_parse_variable_inline(ts.as_str(), ctx) {
                        Some(t2) => chars_of(t2.as_str()),
                        None => return None,
                    };
                    let mut out: Vec<char> = Vec::new();
                    if align.len() > 0 {
                        push_str(&mut out, "<div style=\"text-align: ");
                        push_chars(&mut out, &align);
                        push_str(&mut out, ";\">");
                        push_chars(&mut out, &t2);
                        push_str(&mut out, "</div>");
                    } else {
                        push_chars(&mut out, &t2);
                    }
                    if i < ls.len() - 1 {
                        push_str(&mut out, "<br>");
                    }
                    Some((out, i + 1))
                },
            }
        },
    }
}

/// The page's output (`parse_spec`), or `None` where it cannot be parsed.
pub(crate) fn try_parse_impl(input: &[char], bytes: &[u8], w: &str, p: &str, o: &ParserOptions) -> (r: Option<Vec<char>>)
    ensures
        match r {
            Some(v) => parse_spec(input@, bytes@, w@, p@, *o) == Some(v@),
            None => parse_spec(input@, bytes@, w@, p@, *o) is None,
        },
    decreases input@.len(), lines_of(input@).len() + 2,
{
    let ls = lines(input);
    let bls = byte_lines_exec(bytes);
    let ghost full = parse_spec(input@, bytes@, w@, p@, *o);
    let mut ctx = VariableContext::new();
    let mut out: Vec<char> = Vec::new();
    let mut i: usize = 0;
    while i < ls.len()
        invariant
            views(ls@) == lines_of(input@),
            bviews(bls@) == byte_lines(bytes@),
            0 <= i <= ls@.len(),
            full == parse_spec(input@, bytes@, w@, p@, *o),
            full == match parse_from(input@, bytes@, w@, p@, *o, i as int, ctx.consts(), ctx.lets()) {
                Some(rest) => Some(out@ + rest),
                None => None,
            },
        decreases ls@.len() - i,
    {
        let ghost c0 = ctx.consts();
        let ghost l0 = ctx.lets();
        match line_head_exec(input, bytes, &ls, &bls, i, w, p, o, &mut ctx) {
            None => return None,
            Some((e, ni)) => {
                proof {
                    lemma_next_line(input@, *o, i as int);
                }
                let ghost old_out = out@;
                push_chars(&mut out, &e);
                proof {
                    match parse_from(input@, bytes@, w@, p@, *o, ni as int, ctx.consts(), ctx.lets()) {
                        Some(rest) => {
                            assert(old_out + (e@ + rest) =~= out@ + rest);
                        },
                        None => {},
                    }
                }
                i = ni;
            },
        }
    }
    assert(out@ + Seq::<char>::empty() =~= out@);
    Some(out)
}

/// Parses a page, or gives `None` on the pages that cannot be parsed
/// (a slicing of a `#comment`, `#calendar2(` or `#marquee(` line off a
/// character boundary, a missing capture group, an overflowing brace count).
pub fn try_parse(input: &str, bytes: &[u8], wiki_slug: &str, page_slug: &str, options: &ParserOptions) -> (r: Option<String>)
    ensures
        opt_view(r) == parse_spec(input@, bytes@, wiki_slug@, page_slug@, *options),
{
    let chars = chars_of(input);
    match try_parse_impl(&chars, bytes, wiki_slug, page_slug, options) {
        Some(v) => Some(string_from_chars(&v)),
        None => None,
    }
}

/// Parses a page: each line with block syntax becomes that block followed
/// by a line feed; every other line has its inline markup (read from its
/// text, or from `bytes` in binary mode) rendered, its constants and
/// variables expanded and its alignment applied, and is followed by `<br>`
/// unless it is the last line.
pub fn parse(input: &str, bytes: &[u8], wiki_slug: &str, page_slug: &str, options: &ParserOptions) -> (r: String)
    requires
        parse_spec(input@, bytes@, wiki_slug@, page_slug@, *options) is Some,
    ensures
        r@ == parse_spec(input@, bytes@, wiki_slug@, page_slug@, *options).unwrap(),
{
    match try_parse(input, bytes, wiki_slug, page_slug, options) {
        Some(r) => r,
        None => String::new(),
    }
}


/// Every piece of block syntax and every alignment prefix is switched off.
pub open spec fn blocks_off(o: ParserOptions) -> bool {
    &&& !o.center && !o.left && !o.right
    &&& !o.hr && !o.br_block && !o.accordion && !o.calendar && !o.comment && !o.rtcomment
    &&& !o.marquee && !o.include_block && !o.ls && !o.const_block && !o.let_block
}

/// A line that opens no block and has no alignment prefix: it starts with
/// none of `CENTER:`, `LEFT:`, `RIGHT:`, and its trimmed, lowercased form does
/// not start with `#`.
pub open spec fn plain_line(line: Seq<char>) -> bool {
    &&& !starts_with(line, "CENTER:"@)
    &&& !starts_with(line, "LEFT:"@)
    &&& !starts_with(line, "RIGHT:"@)
    &&& !starts_with(lowered(trim(line)), "#"@)
}

/// Line `k` of the page, rendered: its inline markup, then its variable uses.
pub open spec fn rendered_line(input: Seq<char>, bytes: Seq<u8>, o: ParserOptions, k: int) -> Option<
    Seq<char>,
> {
    variable_inline(
        inline_elements(lines_of(input)[k], line_bytes(byte_lines(bytes), k), o),
        Seq::empty(),
        Seq::empty(),
    )
}

proof fn lemma_hash_prefix(s: Seq<char>, q: Seq<char>)
    requires
        starts_with(s, q),
        q.len() >= 1,
        q[0] == '#',
    ensures
        starts_with(s, "#"@),
{
    reveal_strlit("#");
    assert("#"@ =~= seq!['#']);
    assert(s[0] == s.take(q.len() as int)[0]);
    assert(s.take(1) =~= seq!['#']);
}

proof fn lemma_hash_free_action(
    line: Seq<char>,
    lb: Seq<u8>,
    w: Seq<char>,
    p: Seq<char>,
    o: ParserOptions,
    consts: Table,
    lets: Table,
)
    requires
        !starts_with(lowered(trim(line)), "#"@),
    ensures
        !opens_accordion(o, lowered(trim(line)), line),
        line_action(line, lowered(trim(line)), lb, w, p, o, consts, lets) == Some(
            (LineAction::Text(inline_elements(line, lb, o)), consts, lets),
        ),
{
    reveal(line_action);
    let lower = lowered(trim(line));
    reveal_strlit("#accordion");
    reveal_strlit("#include");
    reveal_strlit("#ls");
    reveal_strlit("#ls2");
    reveal_strlit("#const");
    reveal_strlit("#let");
    reveal_strlit("#hr");
    reveal_strlit("#br");
    reveal_strlit("#calendar");
    reveal_strlit("#comment");
    reveal_strlit("#rtcomment");
    reveal_strlit("#marquee");
    if starts_with(lower, "#accordion"@) {
        lemma_hash_prefix(lower, "#accordion"@);
    }
    if starts_with(lower, "#include"@) {
        lemma_hash_prefix(lower, "#include"@);
    }
    if starts_with(lower, "#ls"@) {
        lemma_hash_prefix(lower, "#ls"@);
    }
    if starts_with(lower, "#ls2"@) {
        lemma_hash_prefix(lower, "#ls2"@);
    }
    if starts_with(lower, "#const"@) {
        lemma_hash_prefix(lower, "#const"@);
    }
    if starts_with(lower, "#let"@) {
        lemma_hash_prefix(lower, "#let"@);
    }
    if lower == "#hr"@ {
        assert(lower.take(3) =~= lower);
        lemma_hash_prefix(lower, "#hr"@);
    }
    if lower == "#br"@ {
        assert(lower.take(3) =~= lower);
        lemma_hash_prefix(lower, "#br"@);
    }
    if starts_with(lower, "#calendar"@) {
        lemma_hash_prefix(lower, "#calendar"@);
    }
    if starts_with(lower, "#comment"@) {
        lemma_hash_prefix(lower, "#comment"@);
    }
    if starts_with(lower, "#rtcomment"@) {
        lemma_hash_prefix(lower, "#rtcomment"@);
    }
    if starts_with(lower, "#marquee"@) {
        lemma_hash_prefix(lower, "#marquee"@);
    }
}

proof fn lemma_plain_line_action(
    line: Seq<char>,
    lb: Seq<u8>,
    w: Seq<char>,
    p: Seq<char>,
    o: ParserOptions,
)
    requires
        plain_line(line),
    ensures
        strip_align(line, o) == (Seq::<char>::empty(), line),
        !opens_accordion(o, lowered(trim(line)), line),
        line_action(line, lowered(trim(line)), lb, w, p, o, Seq::empty(), Seq::empty()) == Some(
            (
                LineAction::Text(inline_elements(line, lb, o)),
                Seq::<(Seq<char>, Seq<char>)>::empty(),
                Seq::<(Seq<char>, Seq<char>)>::empty(),
            ),
        ),
{
    lemma_hash_free_action(line, lb, w, p, o, Seq::empty(), Seq::empty());
}

proof fn lemma_blocks_off_line_action(
    line: Seq<char>,
    lb: Seq<u8>,
    w: Seq<char>,
    p: Seq<char>,
    o: ParserOptions,
)
    requires
        blocks_off(o),
    ensures
        strip_align(line, o) == (Seq::<char>::empty(), line),
        !opens_accordion(o, lowered(trim(line)), line),
        line_action(line, lowered(trim(line)), lb, w, p, o, Seq::empty(), Seq::empty()) == Some(
            (
                LineAction::Text(inline_elements(line, lb, o)),
                Seq::<(Seq<char>, Seq<char>)>::empty(),
                Seq::<(Seq<char>, Seq<char>)>::empty(),
            ),
        ),
{
    reveal(line_action);
}

proof fn lemma_parse_from_plain(
    input: Seq<char>,
    bytes: Seq<u8>,
    w: Seq<char>,
    p: Seq<char>,
    o: ParserOptions,
    rendered: Seq<Seq<char>>,
    i: int,
)
    requires
        rendered.len() == lines_of(input).len(),
        forall|k: int|
            0 <= k < rendered.len() ==> blocks_off(o) || plain_line(#[trigger] lines_of(input)[k]),
        forall|k: int|
            0 <= k < rendered.len() ==> rendered_line(input, bytes, o, k) == Some(#[trigger] rendered[k]),
        0 <= i <= rendered.len(),
    ensures
        parse_from(input, bytes, w, p, o, i, Seq::empty(), Seq::empty()) == Some(
            join(rendered.skip(i), "<br>"@),
        ),
    decreases rendered.len() - i,
{
    let n = rendered.len() as int;
    if i < n {
        lemma_parse_from_plain(input, bytes, w, p, o, rendered, i + 1);
        let line = lines_of(input)[i];
        let lb = line_bytes(byte_lines(bytes), i);
        if blocks_off(o) {
            lemma_blocks_off_line_action(line, lb, w, p, o);
        } else {
            lemma_plain_line_action(line, lb, w, p, o);
        }
        assert(rendered_line(input, bytes, o, i) == Some(rendered[i]));
        let br: Seq<char> = if i < n - 1 { "<br>"@ } else { Seq::empty() };
        assert(aligned(Seq::empty(), rendered[i]) == rendered[i]);
        assert(line_head(input, bytes, w, p, o, i, Seq::empty(), Seq::empty()) == Some(
            (rendered[i] + br, Seq::<(Seq<char>, Seq<char>)>::empty(), Seq::<(Seq<char>, Seq<char>)>::empty()),
        ));
        assert(next_line(input, o, i) == i + 1);
        if i < n - 1 {
            assert(rendered.skip(i) =~= seq![rendered[i]] + rendered.skip(i + 1));
            lemma_join_cons(rendered[i], rendered.skip(i + 1), "<br>"@);
        } else {
            assert(rendered.skip(i) =~= seq![rendered[i]]);
            assert(rendered.skip(i + 1) =~= Seq::<Seq<char>>::empty());
        }
    } else {
        assert(rendered.skip(i) =~= Seq::<Seq<char>>::empty());
    }
}

/// A page whose lines open no block and carry no alignment prefix is
/// rendered line by line, under any options: each line's inline markup and
/// variable uses are expanded, and the lines are joined by `<br>`.
pub proof fn law_plain_page_line_by_line(
    input: Seq<char>,
    bytes: Seq<u8>,
    w: Seq<char>,
    p: Seq<char>,
    o: ParserOptions,
    rendered: Seq<Seq<char>>,
)
    requires
        rendered.len() == lines_of(input).len(),
        forall|k: int| 0 <= k < rendered.len() ==> plain_line(#[trigger] lines_of(input)[k]),
        forall|k: int|
            0 <= k < rendered.len() ==> rendered_line(input, bytes, o, k) == Some(#[trigger] rendered[k]),
    ensures
        parse_spec(input, bytes, w, p, o) == Some(join(rendered, "<br>"@)),
{
    lemma_parse_from_plain(input, bytes, w, p, o, rendered, 0);
    assert(rendered.skip(0) =~= rendered);
}

/// An ASCII line whose trimmed form does not start with `#` and that starts
/// with no alignment prefix opens no block.
pub proof fn law_ascii_plain_line(line: Seq<char>)
    requires
        all_ascii(line),
        !starts_with(trim(line), "#"@),
        !starts_with(line, "CENTER:"@),
        !starts_with(line, "LEFT:"@),
        !starts_with(line, "RIGHT:"@),
    ensures
        plain_line(line),
{
    reveal_strlit("#");
    let t = trim(line);
    lemma_trim_sub(line);
    assert("#"@ =~= seq!['#']);
    if starts_with(lowered(t), "#"@) {
        assert(lowered(t).take(1)[0] == lowered(t)[0]);
        assert(lowered(t)[0] == '#');
        assert(t.len() > 0);
        assert((t[0] as u32) < 128);
        assert(lowered(t)[0] == ascii_lower(t[0]));
        assert(t[0] == '#');
        assert(t.take(1) =~= "#"@);
    }
}

/// An ASCII page none of whose lines starts with an alignment prefix, or,
/// trimmed, with `#`, is rendered line by line under any options.
pub proof fn law_ascii_page_line_by_line(
    input: Seq<char>,
    bytes: Seq<u8>,
    w: Seq<char>,
    p: Seq<char>,
    o: ParserOptions,
    rendered: Seq<Seq<char>>,
)
    requires
        rendered.len() == lines_of(input).len(),
        forall|k: int|
            0 <= k < rendered.len() ==> {
                let l = #[trigger] lines_of(input)[k];
                &&& all_ascii(l)
                &&& !starts_with(trim(l), "#"@)
                &&& !starts_with(l, "CENTER:"@)
                &&& !starts_with(l, "LEFT:"@)
                &&& !starts_with(l, "RIGHT:"@)
            },
        forall|k: int|
            0 <= k < rendered.len() ==> rendered_line(input, bytes, o, k) == Some(#[trigger] rendered[k]),
    ensures
        parse_spec(input, bytes, w, p, o) == Some(join(rendered, "<br>"@)),
{
    assert forall|k: int| 0 <= k < rendered.len() implies plain_line(#[trigger] lines_of(input)[k]) by {
        law_ascii_plain_line(lines_of(input)[k]);
    }
    law_plain_page_line_by_line(input, bytes, w, p, o, rendered);
}

/// With every piece of block syntax switched off, a page is rendered line by
/// line: each line's inline markup and variable uses are expanded, and the
/// lines are joined by `<br>`.
pub proof fn law_blocks_off_line_by_line(
    input: Seq<char>,
    bytes: Seq<u8>,
    w: Seq<char>,
    p: Seq<char>,
    o: ParserOptions,
    rendered: Seq<Seq<char>>,
)
    requires
        blocks_off(o),
        rendered.len() == lines_of(input).len(),
        forall|k: int|
            0 <= k < rendered.len() ==> rendered_line(input, bytes, o, k) == Some(#[trigger] rendered[k]),
    ensures
        parse_spec(input, bytes, w, p, o) == Some(join(rendered, "<br>"@)),
{
    lemma_parse_from_plain(input, bytes, w, p, o, rendered, 0);
    assert(rendered.skip(0) =~= rendered);
}

/// An empty page gives an empty output.
pub proof fn law_empty_page(bytes: Seq<u8>, w: Seq<char>, p: Seq<char>, o: ParserOptions)
    ensures
        parse_spec(Seq::empty(), bytes, w, p, o) == Some(Seq::<char>::empty()),
{
    assert(lines_of(Seq::<char>::empty()).len() == 0);
}


/// An alignment prefix, when its option is set, is taken off the line and
/// names the alignment: `CENTER:` gives `center`, `LEFT:` gives `left`,
/// `RIGHT:` gives `right`; a line with no enabled prefix is kept whole.
pub proof fn law_alignment_prefix(line: Seq<char>, o: ParserOptions)
    ensures
        o.center && starts_with(line, "CENTER:"@) ==> strip_align(line, o) == ("center"@, line.skip(7)),
        o.left && starts_with(line, "LEFT:"@) ==> strip_align(line, o) == ("left"@, line.skip(5)),
        o.right && starts_with(line, "RIGHT:"@) ==> strip_align(line, o) == ("right"@, line.skip(6)),
        !(o.center && starts_with(line, "CENTER:"@)) && !(o.left && starts_with(line, "LEFT:"@)) && !(
        o.right && starts_with(line, "RIGHT:"@)) ==> strip_align(line, o) == (Seq::<char>::empty(), line),
{
    reveal_strlit("CENTER:");
    reveal_strlit("LEFT:");
    reveal_strlit("RIGHT:");
    if starts_with(line, "CENTER:"@) {
        assert(line[0] == line.take(7)[0]);
        assert(line[0] == 'C');
        if starts_with(line, "LEFT:"@) {
            assert(line[0] == line.take(5)[0]);
        }
        if starts_with(line, "RIGHT:"@) {
            assert(line[0] == line.take(6)[0]);
        }
    }
    if starts_with(line, "LEFT:"@) && starts_with(line, "RIGHT:"@) {
        assert(line[0] == line.take(5)[0]);
        assert(line[0] == line.take(6)[0]);
    }
}

/// A line with an alignment prefix, whose rest opens no block, is put out as
/// its rest (inline markup, then variable uses) wrapped in a `div` whose
/// `text-align` is the alignment, with `<br>` after it unless it is the
/// last line.
pub proof fn law_aligned_line(
    input: Seq<char>,
    bytes: Seq<u8>,
    w: Seq<char>,
    p: Seq<char>,
    o: ParserOptions,
    i: int,
    consts: Table,
    lets: Table,
    out: Seq<char>,
)
    requires
        0 <= i < lines_of(input).len(),
        strip_align(lines_of(input)[i], o).0.len() > 0,
        !starts_with(lowered(trim(strip_align(lines_of(input)[i], o).1)), "#"@),
        variable_inline(
            inline_elements(strip_align(lines_of(input)[i], o).1, line_bytes(byte_lines(bytes), i), o),
            consts,
            lets,
        ) == Some(out),
    ensures
        line_head(input, bytes, w, p, o, i, consts, lets) == Some(
            (
                "<div style=\"text-align: "@ + strip_align(lines_of(input)[i], o).0 + ";\">"@ + out
                    + "</div>"@ + (if i < lines_of(input).len() - 1 {
                    "<br>"@
                } else {
                    Seq::<char>::empty()
                }),
                consts,
                lets,
            ),
        ),
{
    let (align, rest) = strip_align(lines_of(input)[i], o);
    lemma_hash_free_action(rest, line_bytes(byte_lines(bytes), i), w, p, o, consts, lets);
}

/// A line that reads `#hr` (trimmed, in any case) becomes `<hr>`, and one
/// that reads `#br` becomes `<br>`, when their options are set.
pub proof fn law_hr_br_lines(
    pl: Seq<char>,
    lower: Seq<char>,
    lb: Seq<u8>,
    w: Seq<char>,
    p: Seq<char>,
    o: ParserOptions,
    consts: Table,
    lets: Table,
)
    ensures
        o.hr && lower == "#hr"@ ==> line_action(pl, lower, lb, w, p, o, consts, lets) == Some(
            (LineAction::Text("<hr>"@), consts, lets),
        ),
        o.br_block && lower == "#br"@ ==> line_action(pl, lower, lb, w, p, o, consts, lets) == Some(
            (LineAction::Text("<br>"@), consts, lets),
        ),
{
    reveal(line_action);
    reveal_strlit("#hr");
    reveal_strlit("#br");
    reveal_strlit("#include");
    reveal_strlit("#ls");
    reveal_strlit("#ls2");
    reveal_strlit("#const");
    reveal_strlit("#let");
    if lower == "#br"@ {
        assert(lower[1] == 'b');
        assert("#hr"@[1] == 'h');
    }
    if lower == "#hr"@ || lower == "#br"@ {
        assert(lower.len() == 3);
        assert(!starts_with(lower, "#include"@));
        assert(!starts_with(lower, "#ls2"@));
        assert(!starts_with(lower, "#const"@));
        assert(!starts_with(lower, "#let"@));
        if starts_with(lower, "#ls"@) {
            assert(lower.take(3)[1] == lower[1]);
        }
    }
}

} // verus!
