//! `#marquee(text, slide, loop, background, color, size)`: scrolling text.
use crate::inline::{inline_elements, parse_inline_elements};
use crate::numeric::all_digits;
use crate::parser_options::ParserOptions;
use crate::text::{
    byte_len, char_index_at, char_index_of_byte, chars_of, copy_range, eq_str, find_char,
    find_elem, find_str, find_sub, is_digit, lemma_find_elem_range, lemma_find_from_range,
    all_ascii, ascii_lowered, lemma_ascii_offsets, lemma_lowered_prefix, lowered, opt_view, starts_with, prefix_byte_len, push_chars, push_str, split_trim, split_trimmed,
    string_from_chars, to_lowercase, views,
};
use vstd::prelude::*;
use vstd::utf8::encode_utf8;

verus! {

/// The `i`-th argument, or the empty text.
pub open spec fn arg(args: Seq<Seq<char>>, i: int) -> Seq<char> {
    if 0 <= i < args.len() {
        args[i]
    } else {
        Seq::empty()
    }
}

/// The animation for the `slide` argument.
pub open spec fn animation_base(slide: Seq<char>) -> Seq<char> {
    if slide == "slide"@ {
        "scroll-once"@
    } else if slide == "alternate"@ {
        "scroll-alternate"@
    } else {
        "scroll-default"@
    }
}

pub open spec fn duration(slide: Seq<char>) -> Seq<char> {
    if slide == "slide"@ {
        "5s"@
    } else if slide == "alternate"@ {
        "7s"@
    } else {
        "15s"@
    }
}

pub open spec fn timing_function(slide: Seq<char>) -> Seq<char> {
    if slide == "slide"@ || slide == "alternate"@ {
        "ease-in-out"@
    } else {
        "linear"@
    }
}

pub open spec fn direction(slide: Seq<char>) -> Seq<char> {
    if slide == "alternate"@ {
        "alternate"@
    } else {
        "normal"@
    }
}

pub open spec fn fill_mode(slide: Seq<char>) -> Seq<char> {
    if slide == "slide"@ {
        "forwards"@
    } else {
        "none"@
    }
}

/// The `loop` argument if it is a number, else `infinite`.
pub open spec fn iteration_count(loop_val: Seq<char>) -> Seq<char> {
    if loop_val.len() > 0 && all_digits(loop_val) {
        loop_val
    } else {
        "infinite"@
    }
}

/// `value`, or `default` when `value` is empty.
pub open spec fn or_default(value: Seq<char>, default: Seq<char>) -> Seq<char> {
    if value.len() > 0 {
        value
    } else {
        default
    }
}

/// The iteration count is a number of one or more digits, or `infinite`.
pub proof fn law_iteration_count(loop_val: Seq<char>)
    ensures
        iteration_count(loop_val) == "infinite"@ || (iteration_count(loop_val).len() > 0
            && all_digits(iteration_count(loop_val))),
{
}

/// The font size: the `size` argument in pixels, or `inherit`.
pub open spec fn font_size(size: Seq<char>) -> Seq<char> {
    if size.len() > 0 {
        size + "px"@
    } else {
        "inherit"@
    }
}

/// The outer element, with the colours and the font size.
pub open spec fn marquee_outer_open(args: Seq<Seq<char>>) -> Seq<char> {
    "<div style=\"overflow: hidden; white-space: nowrap; background-color: "@ + or_default(
        arg(args, 3),
        "transparent"@,
    ) + "; color: "@ + or_default(arg(args, 4), "inherit"@) + "; font-size: "@ + font_size(
        arg(args, 5),
    ) + ";\">"@
}

/// The inner element, with the animation.
pub open spec fn marquee_inner_open(slide: Seq<char>, loop_val: Seq<char>) -> Seq<char> {
    let base = animation_base(slide);
    "<div data-animation-base=\""@ + base + "\" style=\"animation-name: "@ + base + "-xl"@
        + "; animation-duration: "@ + duration(slide) + "; animation-timing-function: "@
        + timing_function(slide) + "; animation-iteration-count: "@ + iteration_count(loop_val)
        + "; animation-direction: "@ + direction(slide) + "; animation-fill-mode: "@ + fill_mode(
        slide,
    ) + "; display: inline-block;\">"@
}

/// The scrolling text's HTML for the trimmed arguments `args`.
pub open spec fn marquee_html(args: Seq<Seq<char>>, options: ParserOptions) -> Seq<char> {
    let text = arg(args, 0);
    marquee_outer_open(args) + marquee_inner_open(arg(args, 1), arg(args, 2)) + inline_elements(
        text,
        encode_utf8(text),
        options,
    ) + "</div></div>"@
}

/// What `#marquee(` gives for `line`. The arguments are read from `line`
/// at the byte offset where `#marquee(` ends in the lowercased line; `None`
/// stands for the lines where that offset does not fall between two
/// characters of `line` (or exceeds `usize`), where slicing `line` would
/// fail. Otherwise `Some` of the optional HTML, which is `None`
/// when there is no `#marquee(` or no closing `)`.
pub open spec fn marquee_block(line: Seq<char>, options: ParserOptions) -> Option<Option<Seq<char>>> {
    let lower = lowered(line);
    match find_sub(lower, "#marquee("@) {
        None => Some(None),
        Some(k) => {
            let b = byte_len(lower.take(k)) + 9;
            if b > usize::MAX {
                None
            } else {
                match char_index_at(line, b as int) {
                    None => None,
                    Some(j) => {
                        let rest = line.skip(j);
                        match find_elem(rest, ')') {
                            None => Some(None),
                            Some(q) => Some(Some(marquee_html(split_trimmed(rest.take(q), ','), options))),
                        }
                    },
                }
            }
        },
    }
}

/// The `i`-th argument, or the empty text.
fn arg_exec(args: &Vec<Vec<char>>, i: usize) -> (r: Vec<char>)
    ensures
        r@ == arg(views(args@), i as int),
{
    if i < args.len() {
        let a = &args[i];
        assert(views(args@)[i as int] == a@);
        assert(a@.subrange(0, a@.len() as int) =~= a@);
        copy_range(a, 0, a.len())
    } else {
        Vec::new()
    }
}

fn all_ascii_digits(s: &[char]) -> (b: bool)
    ensures
        b == all_digits(s@),
{
    let mut i: usize = 0;
    while i < s.len()
        invariant
            0 <= i <= s@.len(),
            forall|j: int| 0 <= j < i ==> is_digit(#[trigger] s@[j]),
        decreases s@.len() - i,
    {
        if !('0' <= s[i] && s[i] <= '9') {
            assert(!is_digit(s@[i as int]));
            return false;
        }
        i = i + 1;
    }
    true
}

fn push_or_default(out: &mut Vec<char>, value: &[char], default: &str)
    ensures
        final(out)@ == old(out)@ + or_default(value@, default@),
{
    if value.len() > 0 {
        push_chars(out, value);
    } else {
        push_str(out, default);
    }
}

fn outer_open(args: &Vec<Vec<char>>) -> (r: Vec<char>)
    ensures
        r@ == marquee_outer_open(views(args@)),
{
    let bg = arg_exec(args, 3);
    let color = arg_exec(args, 4);
    let size = arg_exec(args, 5);
    let mut out: Vec<char> = Vec::new();
    push_str(&mut out, "<div style=\"overflow: hidden; white-space: nowrap; background-color: ");
    push_or_default(&mut out, &bg, "transparent");
    push_str(&mut out, "; color: ");
    push_or_default(&mut out, &color, "inherit");
    push_str(&mut out, "; font-size: ");
    if size.len() > 0 {
        push_chars(&mut out, &size);
        push_str(&mut out, "px");
    } else {
        push_str(&mut out, "inherit");
    }
    push_str(&mut out, ";\">");
    out
}

fn base_of(is_slide: bool, is_alternate: bool, slide: &[char]) -> (r: &'static str)
    requires
        is_slide == (slide@ == "slide"@),
        is_alternate == (slide@ == "alternate"@),
    ensures
        r@ == animation_base(slide@),
{
    if is_slide {
        "scroll-once"
    } else if is_alternate {
        "scroll-alternate"
    } else {
        "scroll-default"
    }
}

fn inner_open(slide: &[char], loop_val: &[char]) -> (r: Vec<char>)
    ensures
        r@ == marquee_inner_open(slide@, loop_val@),
{
    let is_slide = eq_str(slide, "slide");
    let is_alternate = eq_str(slide, "alternate");
    let base = base_of(is_slide, is_alternate, slide);
    let mut out: Vec<char> = Vec::new();
    push_str(&mut out, "<div data-animation-base=\"");
    push_str(&mut out, base);
    push_str(&mut out, "\" style=\"animation-name: ");
    push_str(&mut out, base);
    push_str(&mut out, "-xl");
    push_str(&mut out, "; animation-duration: ");
    push_str(&mut out, if is_slide { "5s" } else if is_alternate { "7s" } else { "15s" });
    push_str(&mut out, "; animation-timing-function: ");
    push_str(&mut out, if is_slide || is_alternate { "ease-in-out" } else { "linear" });
    push_str(&mut out, "; animation-iteration-count: ");
    if loop_val.len() > 0 && all_ascii_digits(loop_val) {
        push_chars(&mut out, loop_val);
    } else {
        push_str(&mut out, "infinite");
    }
    push_str(&mut out, "; animation-direction: ");
    push_str(&mut out, if is_alternate { "alternate" } else { "normal" });
    push_str(&mut out, "; animation-fill-mode: ");
    push_str(&mut out, if is_slide { "forwards" } else { "none" });
    push_str(&mut out, "; display: inline-block;\">");
    out
}

fn marquee_html_exec(args: &Vec<Vec<char>>, options: &ParserOptions) -> (r: Vec<char>)
    ensures
        r@ == marquee_html(views(args@), *options),
{
    let text = arg_exec(args, 0);
    let slide = arg_exec(args, 1);
    let loop_val = arg_exec(args, 2);
    let text_str = string_from_chars(&text);
    let processed = parse_inline_elements(text_str.as_str(), text_str.as_str().as_bytes(), options);
    let processed_chars = chars_of(processed.as_str());
    let mut out = outer_open(args);
    let inner = inner_open(&slide, &loop_val);
    push_chars(&mut out, &inner);
    push_chars(&mut out, &processed_chars);
    push_str(&mut out, "</div></div>");
    out
}

/// `#marquee(` on `line`, or `None` (outer) where slicing `line` would
/// fall inside a character.
pub fn checked_parse_marquee_block(line: &str, options: &ParserOptions) -> (r: Option<
    Option<String>,
>)
    ensures
        match r {
            Some(o) => marquee_block(line@, *options) == Some(opt_view(o)),
            None => marquee_block(line@, *options) is None,
        },
{
    let chars = chars_of(line);
    let lower = to_lowercase(&chars);
    let k = match find_str(&lower, "#marquee(") {
        Some(k) => k,
        None => return Some(None),
    };
    proof {
        lemma_find_from_range(lower@, "#marquee("@, 0);
    }
    let n = prefix_byte_len(&lower, k);
    if n > usize::MAX - 9 {
        return None;
    }
    let j = match char_index_of_byte(&chars, n + 9) {
        Some(j) => j,
        None => return None,
    };
    proof {
        let j2 = choose|j2: int| 0 <= j2 <= chars@.len() && byte_len(chars@.take(j2)) == n + 9;
        assert(0 <= j2 <= chars@.len());
    }
    let rest = copy_range(&chars, j, chars.len());
    assert(rest@ =~= chars@.skip(j as int));
    let q = match find_char(&rest, ')') {
        Some(q) => q,
        None => return Some(None),
    };
    proof {
        lemma_find_elem_range(rest@, ')', 0);
    }
    let inside = copy_range(&rest, 0, q);
    let args = split_trim(&inside, ',');
    let out = marquee_html_exec(&args, options);
    Some(Some(string_from_chars(&out)))
}

/// `#marquee(`: the scrolling text's HTML, or `None` if the line has no
/// `#marquee(` or no closing `)`.
pub fn parse_marquee_block(line: &str, options: &ParserOptions) -> (r: Option<String>)
    requires
        marquee_block(line@, *options) is Some,
    ensures
        opt_view(r) == marquee_block(line@, *options).unwrap(),
{
    match checked_parse_marquee_block(line, options) {
        Some(o) => o,
        None => None,
    }
}


/// The scrolling text is the first argument with its inline markup
/// rendered, closing the two elements: the HTML ends with it and
/// `</div></div>`, and opens with the outer element's style.
pub proof fn law_marquee_text(args: Seq<Seq<char>>, options: ParserOptions)
    ensures
        ({
            let h = marquee_html(args, options);
            let text = if args.len() > 0 { args[0] } else { Seq::<char>::empty() };
            let tail = inline_elements(text, encode_utf8(text), options) + "</div></div>"@;
            &&& tail.len() <= h.len()
            &&& h.skip(h.len() - tail.len()) == tail
            &&& starts_with(h, "<div style=\"overflow: hidden; white-space: nowrap; background-color: "@)
        }),
{
    let h = marquee_html(args, options);
    let text = arg(args, 0);
    let tail = inline_elements(text, encode_utf8(text), options) + "</div></div>"@;
    let head = marquee_outer_open(args) + marquee_inner_open(arg(args, 1), arg(args, 2));
    assert(h =~= head + tail);
    assert(h.skip(h.len() - tail.len()) =~= tail);
    let open = "<div style=\"overflow: hidden; white-space: nowrap; background-color: "@;
    assert(h.take(open.len() as int) =~= open);
}


/// The animation follows the `slide` argument: `slide` scrolls once in 5s,
/// easing, and stays at its end; `alternate` scrolls back and forth in 7s,
/// easing; anything else scrolls on linearly in 15s. The loop count is the
/// `loop` argument when it is a number, else `infinite`.
pub proof fn law_marquee_animation(slide: Seq<char>, loop_val: Seq<char>)
    ensures
        slide == "slide"@ ==> marquee_inner_open(slide, loop_val) == "<div data-animation-base=\"scroll-once\" style=\"animation-name: scroll-once-xl; animation-duration: 5s; animation-timing-function: ease-in-out; animation-iteration-count: "@ + iteration_count(loop_val)
            + "; animation-direction: normal; animation-fill-mode: forwards; display: inline-block;\">"@,
        slide == "alternate"@ ==> marquee_inner_open(slide, loop_val) == "<div data-animation-base=\"scroll-alternate\" style=\"animation-name: scroll-alternate-xl; animation-duration: 7s; animation-timing-function: ease-in-out; animation-iteration-count: "@ + iteration_count(loop_val)
            + "; animation-direction: alternate; animation-fill-mode: none; display: inline-block;\">"@,
        slide != "slide"@ && slide != "alternate"@ ==> marquee_inner_open(slide, loop_val) == "<div data-animation-base=\"scroll-default\" style=\"animation-name: scroll-default-xl; animation-duration: 15s; animation-timing-function: linear; animation-iteration-count: "@ + iteration_count(loop_val)
            + "; animation-direction: normal; animation-fill-mode: none; display: inline-block;\">"@,
{
    reveal_strlit("; animation-direction: alternate; animation-fill-mode: none; display: inline-block;\">");
    reveal_strlit("; animation-direction: normal; animation-fill-mode: forwards; display: inline-block;\">");
    reveal_strlit("; animation-direction: normal; animation-fill-mode: none; display: inline-block;\">");
    reveal_strlit("<div data-animation-base=\"scroll-alternate\" style=\"animation-name: scroll-alternate-xl; animation-duration: 7s; animation-timing-function: ease-in-out; animation-iteration-count: ");
    reveal_strlit("<div data-animation-base=\"scroll-default\" style=\"animation-name: scroll-default-xl; animation-duration: 15s; animation-timing-function: linear; animation-iteration-count: ");
    reveal_strlit("<div data-animation-base=\"scroll-once\" style=\"animation-name: scroll-once-xl; animation-duration: 5s; animation-timing-function: ease-in-out; animation-iteration-count: ");
    reveal_strlit("<div data-animation-base=\"");
    reveal_strlit("\" style=\"animation-name: ");
    reveal_strlit("-xl");
    reveal_strlit("; animation-duration: ");
    reveal_strlit("; animation-timing-function: ");
    reveal_strlit("; animation-iteration-count: ");
    reveal_strlit("; animation-direction: ");
    reveal_strlit("; animation-fill-mode: ");
    reveal_strlit("; display: inline-block;\">");
    reveal_strlit("scroll-once");
    reveal_strlit("scroll-alternate");
    reveal_strlit("scroll-default");
    reveal_strlit("5s");
    reveal_strlit("7s");
    reveal_strlit("15s");
    reveal_strlit("ease-in-out");
    reveal_strlit("linear");
    reveal_strlit("normal");
    reveal_strlit("alternate");
    reveal_strlit("forwards");
    reveal_strlit("none");
    reveal_strlit("slide");
    if slide == "slide"@ {
        assert(marquee_inner_open(slide, loop_val) =~= "<div data-animation-base=\"scroll-once\" style=\"animation-name: scroll-once-xl; animation-duration: 5s; animation-timing-function: ease-in-out; animation-iteration-count: "@ + iteration_count(loop_val) + "; animation-direction: normal; animation-fill-mode: forwards; display: inline-block;\">"@);
    }
    if slide == "alternate"@ {
        assert(marquee_inner_open(slide, loop_val) =~= "<div data-animation-base=\"scroll-alternate\" style=\"animation-name: scroll-alternate-xl; animation-duration: 7s; animation-timing-function: ease-in-out; animation-iteration-count: "@ + iteration_count(loop_val) + "; animation-direction: alternate; animation-fill-mode: none; display: inline-block;\">"@);
    }
    if slide != "slide"@ && slide != "alternate"@ {
        assert(marquee_inner_open(slide, loop_val) =~= "<div data-animation-base=\"scroll-default\" style=\"animation-name: scroll-default-xl; animation-duration: 15s; animation-timing-function: linear; animation-iteration-count: "@ + iteration_count(loop_val) + "; animation-direction: normal; animation-fill-mode: none; display: inline-block;\">"@);
    }
}

/// The outer element's colours and font size follow the arguments: the
/// fourth is the background (else `transparent`), the fifth the colour
/// (else `inherit`), the sixth the size in pixels (else `inherit`).
pub proof fn law_marquee_style(args: Seq<Seq<char>>)
    ensures
        ({
            let a = |i: int| if 0 <= i < args.len() { args[i] } else { Seq::<char>::empty() };
            let bg = if a(3).len() > 0 { a(3) } else { "transparent"@ };
            let color = if a(4).len() > 0 { a(4) } else { "inherit"@ };
            let size = if a(5).len() > 0 { a(5) + "px"@ } else { "inherit"@ };
            marquee_outer_open(args) == "<div style=\"overflow: hidden; white-space: nowrap; background-color: "@
                + bg + "; color: "@ + color + "; font-size: "@ + size + ";\">"@
        }),
{
}

/// An ASCII line that begins with `#marquee(` in any case reads its
/// arguments, split at `,` and trimmed, up to the first `)`; without a `)`
/// it gives no block.
pub proof fn law_marquee_arguments(line: Seq<char>, options: ParserOptions)
    requires
        all_ascii(line),
        line.len() >= 9,
        ascii_lowered(line.take(9)) == "#marquee("@,
    ensures
        ({
            let rest = line.skip(9);
            marquee_block(line, options) == match find_elem(rest, ')') {
                Some(q) => Some(Some(marquee_html(split_trimmed(rest.take(q), ','), options))),
                None => Some(None::<Seq<char>>),
            }
        }),
{
    reveal_strlit("#marquee(");
    lemma_lowered_prefix(line, "#marquee("@);
    lemma_ascii_offsets(lowered(line), 0);
    lemma_ascii_offsets(line, 9);
    assert(lowered(line).take(0) =~= Seq::<char>::empty());
}

} // verus!
