//! `#accordion(title, level, open){{ ... }}`: a block that folds its lines
//! under a heading.
use crate::text::{
    chars_of, contains_sub, copy_range, eq_ignore_ascii_case, eq_ignore_ascii_case_exec, eq_str,
    find_str, find_sub, lemma_find_from_range, lemma_rfind_none, lemma_rfind_range, rfind_char, rfind_elem,
    split_trim, split_trimmed, starts_with, starts_with_str, string_from_chars, trim, trim_chars,
    views, contains_str, opt_view,
};
use crate::inline::{inline_elements, parse_inline_elements};
use crate::parser::{parse_spec, try_parse_impl};
use crate::parser_options::ParserOptions;
use crate::text::{ascii_lower, join, join_chars, push_chars, push_str, utf8_bytes};
use vstd::prelude::*;
use vstd::utf8::encode_utf8;

verus! {

/// The icon of an open block.
pub const OPEN_ICON: &'static str = "M384 32H64C28.7 32 0 60.7 0 96v320c0 35.3 28.7 64 64 64h320c35.3 0 64-28.7 64-64V96c0-35.3-28.7-64-64-64zM320 272H128c-13.3 0-24-10.7-24-24s10.7-24 24-24h192c13.3 0 24 10.7 24 24s-10.7 24-24 24z";

/// The icon of a closed block.
pub const CLOSED_ICON: &'static str = "M64 32C28.7 32 0 60.7 0 96L0 416c0 35.3 28.7 64 64 64l320 0c35.3 0 64-28.7 64-64l0-320c0-35.3-28.7-64-64-64L64 32zM200 344l0-64-64 0c-13.3 0-24-10.7-24-24s10.7-24 24-24l64 0 0-64c0-13.3 10.7-24 24-24s24 10.7 24 24l0 64 64 0c13.3 0 24 10.7 24 24s-10.7 24-24 24l-64 0 0 64c0 13.3-10.7 24-24 24s-24-10.7-24-24z";

/// The heading tag for a level mark.
pub open spec fn heading_tag(level: Seq<char>) -> Seq<char> {
    if level == "***"@ {
        "h4"@
    } else if level == "**"@ {
        "h3"@
    } else {
        "h2"@
    }
}

/// The block's HTML around its parsed title and parsed content.
pub open spec fn accordion_frame(tag: Seq<char>, icon: Seq<char>, title: Seq<char>, display: Seq<char>, content: Seq<char>) -> Seq<char> {
    "<div class=\"accordion-container\">\n<"@ + tag
        + " class=\"accordion-header\">\n    <svg aria-hidden=\"true\" focusable=\"false\" role=\"img\" xmlns=\"http://www.w3.org/2000/svg\" viewBox=\"0 0 448 512\" style=\"width: 1em; height: 1em;\">\n        <path fill=\"currentColor\" d=\""@
        + icon + "\" />\n    </svg>\n    "@ + title + "\n</"@ + tag
        + ">\n<div class=\"accordion-content\" style=\"display: "@ + display + ";\">\n"@ + content
        + "\n</div>\n</div>"@
}

/// The block's HTML: the title's inline markup under a heading of the
/// block's level, then the content lines, joined by line feeds and parsed as
/// a page of their own (with constants and variables of their own). `None`
/// where the content cannot be parsed.
pub open spec fn accordion_block_html(
    title: Seq<char>,
    level: Seq<char>,
    is_open: bool,
    content: Seq<Seq<char>>,
    wiki_slug: Seq<char>,
    page_slug: Seq<char>,
    options: ParserOptions,
) -> Option<Seq<char>>
    decreases join(content, seq!['\n']).len() + 1, 0int,
{
    let inner = join(content, seq!['\n']);
    match parse_spec(inner, encode_utf8(inner), wiki_slug, page_slug, options) {
        None => None,
        Some(parsed) => Some(
            accordion_frame(
                heading_tag(level),
                if is_open {
                    OPEN_ICON@
                } else {
                    CLOSED_ICON@
                },
                inline_elements(title, encode_utf8(title), options),
                if is_open {
                    "block"@
                } else {
                    "none"@
                },
                parsed,
            ),
        ),
    }
}

/// The arguments of an `#accordion` line.
pub struct AccordionArgs {
    pub title: String,
    /// `*`, `**` or `***`: the heading's level.
    pub level: String,
    pub is_open: bool,
}

/// The text after `#accordion`, trimmed.
pub open spec fn after_prefix(line: Seq<char>) -> Seq<char> {
    match find_sub(line, "#accordion"@) {
        Some(pos) => trim(line.skip(pos + 10)),
        None => trim(line),
    }
}

/// The parameters: what stands before `{{`, trimmed.
pub open spec fn accordion_params(line: Seq<char>) -> Seq<char> {
    let after = after_prefix(line);
    trim(
        match find_sub(after, "{{"@) {
            Some(i) => after.take(i),
            None => after,
        },
    )
}

/// The argument list: inside the brackets if the parameters open with `(`
/// and hold a `)` (up to the last `)`), else the parameters themselves.
pub open spec fn accordion_raw_args(line: Seq<char>) -> Seq<char> {
    let p = accordion_params(line);
    if starts_with(p, "("@) && contains_sub(p, seq![')']) {
        p.subrange(1, rfind_elem(p, ')').unwrap())
    } else {
        p
    }
}

/// A heading level mark.
pub open spec fn is_level(a: Seq<char>) -> bool {
    a == "*"@ || a == "**"@ || a == "***"@
}

/// The first heading level mark among `args`, or `*`.
pub open spec fn first_level(args: Seq<Seq<char>>) -> Seq<char>
    decreases args.len(),
{
    if args.len() == 0 {
        "*"@
    } else if is_level(args[0]) {
        args[0]
    } else {
        first_level(args.drop_first())
    }
}

/// The comma-separated, trimmed arguments.
pub open spec fn accordion_arg_list(line: Seq<char>) -> Seq<Seq<char>> {
    split_trimmed(accordion_raw_args(line), ',')
}

/// Whether some argument is `open`, in any case.
pub open spec fn any_open(args: Seq<Seq<char>>) -> bool {
    exists|i: int| 0 <= i < args.len() && eq_ignore_ascii_case(#[trigger] args[i], "open"@)
}

/// The heading level read from any arguments is one of `*`, `**`, `***`.
pub proof fn law_level_is_mark(args: Seq<Seq<char>>)
    ensures
        is_level(first_level(args)),
    decreases args.len(),
{
    if args.len() > 0 && !is_level(args[0]) {
        law_level_is_mark(args.drop_first());
    }
}

proof fn lemma_first_level_suffix(args: Seq<Seq<char>>, i: int)
    requires
        0 <= i <= args.len(),
        forall|j: int| 0 <= j < i ==> !is_level(#[trigger] args[j]),
    ensures
        first_level(args) == first_level(args.skip(i)),
    decreases i,
{
    if i > 0 {
        assert(!is_level(args[0]));
        assert forall|j: int| 0 <= j < i - 1 implies !is_level(#[trigger] args.drop_first()[j]) by {
            assert(args.drop_first()[j] == args[j + 1]);
        }
        lemma_first_level_suffix(args.drop_first(), i - 1);
        assert(args.drop_first().skip(i - 1) =~= args.skip(i));
    } else {
        assert(args.skip(0) =~= args);
    }
}

fn is_level_exec(a: &[char]) -> (b: bool)
    ensures
        b == is_level(a@),
{
    eq_str(a, "*") || eq_str(a, "**") || eq_str(a, "***")
}

/// Reads the title, the heading level and the `open` flag of an
/// `#accordion` line.
pub fn parse_accordion_args(line: &str) -> (r: AccordionArgs)
    ensures
        r.title@ == accordion_arg_list(line@)[0],
        r.level@ == first_level(accordion_arg_list(line@)),
        is_level(r.level@),
        r.is_open == any_open(accordion_arg_list(line@)),
{
    proof {
        law_level_is_mark(accordion_arg_list(line@));
    }
    let chars = chars_of(line);
    let after: Vec<char> = match find_str(&chars, "#accordion") {
        Some(pos) => {
            proof {
                reveal_strlit("#accordion");
                lemma_find_from_range(chars@, "#accordion"@, 0);
            }
            assert(pos + 10 <= chars.len());
            let rest = copy_range(&chars, pos + 10, chars.len());
            assert(rest@ =~= chars@.skip(pos + 10));
            trim_chars(&rest)
        },
        None => trim_chars(&chars),
    };
    let params0: Vec<char> = match find_str(&after, "{{") {
        Some(i) => {
            proof {
                lemma_find_from_range(after@, "{{"@, 0);
            }
            copy_range(&after, 0, i)
        },
        None => copy_range(&after, 0, after.len()),
    };
    assert(after@.subrange(0, after@.len() as int) =~= after@);
    let params = trim_chars(&params0);
    let raw: Vec<char> = if starts_with_str(&params, "(") && contains_str(&params, ")") {
        proof {
            reveal_strlit("(");
            reveal_strlit(")");
            assert(")"@ =~= seq![')']);
            assert("("@ =~= seq!['(']);
            assert(params@.take(1)[0] == params@[0]);
            lemma_find_from_range(params@, seq![')'], 0);
        }
        let end: usize = match rfind_char(&params, ')') {
            Some(e) => e,
            None => {
                proof {
                    lemma_rfind_none(params@, ')');
                    let k = find_sub(params@, seq![')']).unwrap();
                    assert(params@.subrange(k, k + 1)[0] == params@[k]);
                }
                0
            },
        };
        proof {
            lemma_rfind_range(params@, ')');
            if end == 0 {
                assert(params@[0] == ')');
            }
        }
        copy_range(&params, 1, end)
    } else {
        proof {
            reveal_strlit(")");
            assert(")"@ =~= seq![')']);
        }
        copy_range(&params, 0, params.len())
    };
    assert(params@.subrange(0, params@.len() as int) =~= params@);
    let args = split_trim(&raw, ',');
    let ghost av = views(args@);
    assert(av == accordion_arg_list(line@));
    let title = string_from_chars(&args[0]);
    let mut i: usize = 0;
    while i < args.len() && !is_level_exec(&args[i])
        invariant
            av == views(args@),
            0 <= i <= args@.len(),
            forall|j: int| 0 <= j < i ==> !is_level(#[trigger] av[j]),
        decreases args@.len() - i,
    {
        assert(av[i as int] == args@[i as int]@);
        i = i + 1;
    }
    proof {
        lemma_first_level_suffix(av, i as int);
    }
    let level: Vec<char> = if i < args.len() {
        assert(av[i as int] == args@[i as int]@);
        assert(av.skip(i as int)[0] == av[i as int]);
        assert(args@[i as int]@.subrange(0, args@[i as int]@.len() as int) =~= args@[i as int]@);
        copy_range(&args[i], 0, args[i].len())
    } else {
        assert(av.skip(i as int) =~= Seq::<Seq<char>>::empty());
        chars_of("*")
    };
    let open_word = chars_of("open");
    let mut is_open = false;
    let mut j: usize = 0;
    while j < args.len()
        invariant
            av == views(args@),
            open_word@ == "open"@,
            0 <= j <= args@.len(),
            is_open == exists|k: int| 0 <= k < j && eq_ignore_ascii_case(#[trigger] av[k], "open"@),
        decreases args@.len() - j,
    {
        assert(av[j as int] == args@[j as int]@);
        if eq_ignore_ascii_case_exec(&args[j], &open_word) {
            is_open = true;
        }
        j = j + 1;
    }
    AccordionArgs { title, level: string_from_chars(&level), is_open }
}


/// The block's HTML (`accordion_block_html`) for its title, level mark, open
/// flag and content lines; `None` where the content cannot be parsed.
pub fn checked_render_accordion_parts(
    title: &[char],
    level: &[char],
    is_open: bool,
    content: &[Vec<char>],
    wiki_slug: &str,
    page_slug: &str,
    options: &ParserOptions,
) -> (r: Option<Vec<char>>)
    ensures
        match r {
            Some(v) => accordion_block_html(title@, level@, is_open, views(content@), wiki_slug@, page_slug@, *options)
                == Some(v@),
            None => accordion_block_html(title@, level@, is_open, views(content@), wiki_slug@, page_slug@, *options) is None,
        },
    decreases join(views(content@), seq!['\n']).len() + 1, 0int,
{
    let nl = chars_of("\n");
    proof {
        reveal_strlit("\n");
        assert(nl@ =~= seq!['\n']);
    }
    let inner = join_chars(content, &nl);
    let inner_bytes = utf8_bytes(&inner);
    let parsed = match try_parse_impl(&inner, &inner_bytes, wiki_slug, page_slug, options) {
        Some(v) => v,
        None => return None,
    };
    let tag = if eq_str(level, "***") {
        "h4"
    } else if eq_str(level, "**") {
        "h3"
    } else {
        "h2"
    };
    let title_str = string_from_chars(title);
    let title_html = parse_inline_elements(title_str.as_str(), title_str.as_str().as_bytes(), options);
    let mut out: Vec<char> = Vec::new();
    push_str(&mut out, "<div class=\"accordion-container\">\n<");
    push_str(&mut out, tag);
    push_str(
        &mut out,
        " class=\"accordion-header\">\n    <svg aria-hidden=\"true\" focusable=\"false\" role=\"img\" xmlns=\"http://www.w3.org/2000/svg\" viewBox=\"0 0 448 512\" style=\"width: 1em; height: 1em;\">\n        <path fill=\"currentColor\" d=\"",
    );
    push_str(&mut out, if is_open { OPEN_ICON } else { CLOSED_ICON });
    push_str(&mut out, "\" />\n    </svg>\n    ");
    push_str(&mut out, title_html.as_str());
    push_str(&mut out, "\n</");
    push_str(&mut out, tag);
    push_str(&mut out, ">\n<div class=\"accordion-content\" style=\"display: ");
    push_str(&mut out, if is_open { "block" } else { "none" });
    push_str(&mut out, ";\">\n");
    push_chars(&mut out, &parsed);
    push_str(&mut out, "\n</div>\n</div>");
    Some(out)
}

/// The texts of the lines.
pub open spec fn str_views(lines: Seq<&str>) -> Seq<Seq<char>> {
    lines.map_values(|l: &str| l@)
}

/// The lines as character vectors.
fn lines_as_chars(lines: &[&str]) -> (r: Vec<Vec<char>>)
    ensures
        views(r@) == str_views(lines@),
{
    let mut r: Vec<Vec<char>> = Vec::new();
    let mut i: usize = 0;
    while i < lines.len()
        invariant
            0 <= i <= lines@.len(),
            views(r@) == str_views(lines@).take(i as int),
        decreases lines@.len() - i,
    {
        let v = chars_of(lines[i]);
        let ghost dv = r@;
        r.push(v);
        assert(views(r@) =~= views(dv).push(v@));
        assert(str_views(lines@).take(i + 1) =~= str_views(lines@).take(i as int).push(lines@[i as int]@));
        i = i + 1;
    }
    assert(str_views(lines@).take(lines@.len() as int) =~= str_views(lines@));
    r
}

/// The block's HTML for `args` and the content lines, or `None` where the
/// content cannot be parsed.
pub fn checked_render_accordion_block(
    args: &AccordionArgs,
    content_lines: &[&str],
    wiki_slug: &str,
    page_slug: &str,
    options: &ParserOptions,
) -> (r: Option<String>)
    ensures
        opt_view(r) == accordion_block_html(args.title@, args.level@, args.is_open, str_views(content_lines@), wiki_slug@, page_slug@, *options),
{
    let content = lines_as_chars(content_lines);
    let title = chars_of(args.title.as_str());
    let level = chars_of(args.level.as_str());
    match checked_render_accordion_parts(&title, &level, args.is_open, &content, wiki_slug, page_slug, options) {
        Some(v) => Some(string_from_chars(&v)),
        None => None,
    }
}

/// Renders an accordion block: the title's inline markup under a heading of
/// the block's level (`h2` for `*`, `h3` for `**`, `h4` for `***`), and the
/// content lines parsed as a page of their own, shown or hidden as the
/// block's `open` flag says.
pub fn render_accordion_block(
    args: &AccordionArgs,
    content_lines: &[&str],
    wiki_slug: &str,
    page_slug: &str,
    options: &ParserOptions,
) -> (r: String)
    requires
        accordion_block_html(args.title@, args.level@, args.is_open, str_views(content_lines@), wiki_slug@, page_slug@, *options) is Some,
    ensures
        r@ == accordion_block_html(args.title@, args.level@, args.is_open, str_views(content_lines@), wiki_slug@, page_slug@, *options).unwrap(),
{
    match checked_render_accordion_block(args, content_lines, wiki_slug, page_slug, options) {
        Some(r) => r,
        None => String::new(),
    }
}


/// The opening of an accordion block, up to its heading's contents.
pub open spec fn accordion_open(tag: Seq<char>) -> Seq<char> {
    "<div class=\"accordion-container\">\n<"@ + tag + " class=\"accordion-header\">\n"@
}

/// The end of an accordion block, from its title on.
pub open spec fn accordion_close(tag: Seq<char>, title: Seq<char>, display: Seq<char>, content: Seq<char>) -> Seq<char> {
    "    "@ + title + "\n</"@ + tag + ">\n<div class=\"accordion-content\" style=\"display: "@ + display
        + ";\">\n"@ + content + "\n</div>\n</div>"@
}

/// An accordion block whose content parses opens its container with a
/// heading of the block's level (`h4` for `***`, `h3` for `**`, else `h2`)
/// and ends with its parsed title, the parsed content and the container's
/// close, shown (`block`) or hidden (`none`) as the block's flag says.
pub proof fn law_accordion_render(
    title: Seq<char>,
    level: Seq<char>,
    is_open: bool,
    content: Seq<Seq<char>>,
    wiki_slug: Seq<char>,
    page_slug: Seq<char>,
    options: ParserOptions,
    parsed: Seq<char>,
)
    requires
        parse_spec(join(content, seq!['\n']), encode_utf8(join(content, seq!['\n'])), wiki_slug, page_slug, options)
            == Some(parsed),
    ensures
        accordion_block_html(title, level, is_open, content, wiki_slug, page_slug, options) is Some,
        ({
            let r = accordion_block_html(title, level, is_open, content, wiki_slug, page_slug, options).unwrap();
            let tag: Seq<char> = if level == "***"@ {
                "h4"@
            } else if level == "**"@ {
                "h3"@
            } else {
                "h2"@
            };
            let shown: Seq<char> = if is_open { "block"@ } else { "none"@ };
            let tail = accordion_close(tag, inline_elements(title, encode_utf8(title), options), shown, parsed);
            &&& starts_with(r, accordion_open(tag))
            &&& tail.len() <= r.len()
            &&& r.skip(r.len() - tail.len()) == tail
        }),
{
    let r = accordion_block_html(title, level, is_open, content, wiki_slug, page_slug, options).unwrap();
    let tag = heading_tag(level);
    let shown: Seq<char> = if is_open { "block"@ } else { "none"@ };
    let icon: Seq<char> = if is_open { OPEN_ICON@ } else { CLOSED_ICON@ };
    let t = inline_elements(title, encode_utf8(title), options);
    let tail = accordion_close(tag, t, shown, parsed);
    let head = accordion_open(tag);
    assert(r == accordion_frame(tag, icon, t, shown, parsed));
    lemma_frame_parts(tag, icon, t, shown, parsed);
    assert(r.take(head.len() as int) =~= head);
    assert(r.skip(r.len() - tail.len()) =~= tail);
}

/// The part of the frame between the heading's opening and its title.
spec fn frame_middle(icon: Seq<char>) -> Seq<char> {
    "    <svg aria-hidden=\"true\" focusable=\"false\" role=\"img\" xmlns=\"http://www.w3.org/2000/svg\" viewBox=\"0 0 448 512\" style=\"width: 1em; height: 1em;\">\n        <path fill=\"currentColor\" d=\""@ + icon + "\" />\n    </svg>\n"@
}

proof fn lemma_frame_parts(tag: Seq<char>, icon: Seq<char>, title: Seq<char>, display: Seq<char>, content: Seq<char>)
    ensures
        accordion_frame(tag, icon, title, display, content) == accordion_open(tag) + frame_middle(icon)
            + accordion_close(tag, title, display, content),
{
    reveal_strlit(" class=\"accordion-header\">\n    <svg aria-hidden=\"true\" focusable=\"false\" role=\"img\" xmlns=\"http://www.w3.org/2000/svg\" viewBox=\"0 0 448 512\" style=\"width: 1em; height: 1em;\">\n        <path fill=\"currentColor\" d=\"");
    reveal_strlit(" class=\"accordion-header\">\n");
    reveal_strlit("    <svg aria-hidden=\"true\" focusable=\"false\" role=\"img\" xmlns=\"http://www.w3.org/2000/svg\" viewBox=\"0 0 448 512\" style=\"width: 1em; height: 1em;\">\n        <path fill=\"currentColor\" d=\"");
    reveal_strlit("\" />\n    </svg>\n    ");
    reveal_strlit("\" />\n    </svg>\n");
    reveal_strlit("    ");
    assert(" class=\"accordion-header\">\n    <svg aria-hidden=\"true\" focusable=\"false\" role=\"img\" xmlns=\"http://www.w3.org/2000/svg\" viewBox=\"0 0 448 512\" style=\"width: 1em; height: 1em;\">\n        <path fill=\"currentColor\" d=\""@ =~= " class=\"accordion-header\">\n"@ + "    <svg aria-hidden=\"true\" focusable=\"false\" role=\"img\" xmlns=\"http://www.w3.org/2000/svg\" viewBox=\"0 0 448 512\" style=\"width: 1em; height: 1em;\">\n        <path fill=\"currentColor\" d=\""@);
    assert("\" />\n    </svg>\n    "@ =~= "\" />\n    </svg>\n"@ + "    "@);
    assert(accordion_frame(tag, icon, title, display, content) =~= accordion_open(tag) + frame_middle(icon)
        + accordion_close(tag, title, display, content));
}

/// The heading level is the first argument that is `*`, `**` or `***`, or
/// `*` when none is; the block is open when some argument is `open` in any
/// ASCII case.
pub proof fn law_accordion_args(args: Seq<Seq<char>>)
    ensures
        (forall|i: int| 0 <= i < args.len() ==> !(#[trigger] args[i] == "*"@ || args[i] == "**"@ || args[i] == "***"@))
            ==> first_level(args) == "*"@,
        forall|i: int|
            0 <= i < args.len() && (args[i] == "*"@ || args[i] == "**"@ || args[i] == "***"@) && (forall|j: int|
                0 <= j < i ==> !(#[trigger] args[j] == "*"@ || args[j] == "**"@ || args[j] == "***"@))
                ==> first_level(args) == #[trigger] args[i],
        any_open(args) <==> exists|i: int|
            0 <= i < args.len() && (#[trigger] args[i]).len() == 4 && ascii_lower(args[i][0]) == 'o'
                && ascii_lower(args[i][1]) == 'p' && ascii_lower(args[i][2]) == 'e' && ascii_lower(args[i][3])
                == 'n',
    decreases args.len(),
{
    reveal_strlit("open");
    assert("open"@ =~= seq!['o', 'p', 'e', 'n']);
    if args.len() > 0 {
        law_accordion_args(args.drop_first());
        assert forall|i: int|
            0 <= i < args.len() && (args[i] == "*"@ || args[i] == "**"@ || args[i] == "***"@) && (forall|j: int|
                0 <= j < i ==> !(#[trigger] args[j] == "*"@ || args[j] == "**"@ || args[j] == "***"@))
                implies first_level(args) == #[trigger] args[i] by {
            if i > 0 {
                assert(!(args[0] == "*"@ || args[0] == "**"@ || args[0] == "***"@));
                assert(args.drop_first()[i - 1] == args[i]);
                assert forall|j: int| 0 <= j < i - 1 implies !(#[trigger] args.drop_first()[j] == "*"@
                    || args.drop_first()[j] == "**"@ || args.drop_first()[j] == "***"@) by {
                    assert(args.drop_first()[j] == args[j + 1]);
                }
            }
        }
        if forall|i: int| 0 <= i < args.len() ==> !(#[trigger] args[i] == "*"@ || args[i] == "**"@ || args[i] == "***"@) {
            assert forall|i: int| 0 <= i < args.drop_first().len() implies !(#[trigger] args.drop_first()[i] == "*"@
                || args.drop_first()[i] == "**"@ || args.drop_first()[i] == "***"@) by {
                assert(args.drop_first()[i] == args[i + 1]);
            }
            assert(!(args[0] == "*"@ || args[0] == "**"@ || args[0] == "***"@));
        }
    }
}

} // verus!
