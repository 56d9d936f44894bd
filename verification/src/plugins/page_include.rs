//! `#include(page|stylesheet, from-to, title)`: a placeholder that the page
//! named in the brackets is shown in.
use crate::numeric::{parse_u32, parse_u32_spec};
use crate::parser_options::ParserOptions;
use crate::text::{
    chars_of, copy_range, eq_str, find_char, find_elem, lemma_find_elem_range, lowered, opt_view,
    push_chars, push_str, rfind_char, rfind_elem, split_char, split_on, split_trim,
    split_trimmed, starts_with, starts_with_str, string_from_chars, to_lowercase, trim, trim_chars,
    views,
};
use vstd::prelude::*;

verus! {

/// A line range `from-to`: two numbers, each of which `u32` can hold.
pub open spec fn valid_line_range(range: Seq<char>) -> bool {
    let parts = split_on(range, '-');
    parts.len() == 2 && parse_u32_spec(trim(parts[0])) is Some && parse_u32_spec(trim(parts[1])) is Some
}

/// The message for a line range that is not valid.
pub open spec fn invalid_range_html() -> Seq<char> {
    "<div style=\"color: red;\">読み込み失敗: 無効な行範囲です</div>"@
}

/// The placeholder's HTML.
pub open spec fn include_html(page: Seq<char>, stylesheet: Seq<char>, range: Seq<char>, show_title: Seq<char>) -> Seq<char> {
    "<div class=\"wiki-include-page\" data-page=\""@ + page + "\" data-stylesheet=\""@ + stylesheet
        + "\" data-range=\""@ + range + "\" data-show-title=\""@ + show_title + "\"></div>"@
}

/// Whether the page's title is shown, as the third argument asks.
pub open spec fn show_title(flag: Seq<char>) -> Seq<char> {
    if flag == "notitle"@ || flag == "none"@ {
        "false"@
    } else if flag == "title"@ {
        "true"@
    } else {
        "default"@
    }
}

/// The placeholder for the trimmed arguments `args` (at least one).
pub open spec fn include_from_args(args: Seq<Seq<char>>) -> Option<Seq<char>> {
    let first = args[0];
    if first.len() == 0 {
        None
    } else {
        let page = match find_elem(first, '|') {
            Some(b) => trim(first.take(b)),
            None => first,
        };
        let stylesheet = match find_elem(first, '|') {
            Some(b) => trim(first.skip(b + 1)),
            None => Seq::empty(),
        };
        let range = if args.len() > 1 {
            args[1]
        } else {
            Seq::empty()
        };
        if range.len() > 0 && !valid_line_range(range) {
            Some(invalid_range_html())
        } else {
            let flag = lowered(
                if args.len() > 2 {
                    args[2]
                } else {
                    Seq::empty()
                },
            );
            Some(include_html(page, stylesheet, range, show_title(flag)))
        }
    }
}

/// What `#include` gives for `line`: `None` unless the trimmed line begins
/// with `#include` (in any case) and holds a `(` before its last `)`.
pub open spec fn include_block(line: Seq<char>) -> Option<Seq<char>> {
    let t = trim(line);
    if !starts_with(lowered(t), "#include"@) {
        None
    } else {
        match find_elem(t, '(') {
            Some(s) => match rfind_elem(t, ')') {
                Some(e) => if s >= e {
                    None
                } else {
                    include_from_args(split_trimmed(t.subrange(s + 1, e), ','))
                },
                None => None,
            },
            None => None,
        }
    }
}

/// `from-to` with both ends numbers that fit in a `u32`.
fn is_valid_line_range(range: &[char]) -> (b: bool)
    ensures
        b == valid_line_range(range@),
{
    let parts = split_char(range, '-');
    if parts.len() != 2 {
        return false;
    }
    assert(views(parts@)[0] == parts@[0]@);
    assert(views(parts@)[1] == parts@[1]@);
    let a = trim_chars(&parts[0]);
    let b = trim_chars(&parts[1]);
    parse_u32(&a).is_some() && parse_u32(&b).is_some()
}

/// `#include`: the placeholder for the page named in the brackets, or the
/// message for an invalid line range; `None` if `line` is no `#include`
/// line or names no page.
pub fn parse_include_block(line: &str, _options: &ParserOptions) -> (r: Option<String>)
    ensures
        opt_view(r) == include_block(line@),
{
    let chars = chars_of(line);
    let t = trim_chars(&chars);
    let lower = to_lowercase(&t);
    if !starts_with_str(&lower, "#include") {
        return None;
    }
    let s = match find_char(&t, '(') {
        Some(s) => s,
        None => return None,
    };
    let e = match rfind_char(&t, ')') {
        Some(e) => e,
        None => return None,
    };
    if s >= e {
        return None;
    }
    proof {
        crate::text::lemma_rfind_range(t@, ')');
    }
    let inner = copy_range(&t, s + 1, e);
    let args = split_trim(&inner, ',');
    let ghost av = views(args@);
    let first = &args[0];
    assert(first@ == av[0]);
    if first.len() == 0 {
        return None;
    }
    let (page, stylesheet) = match find_char(first, '|') {
        Some(b) => {
            proof {
                lemma_find_elem_range(first@, '|', 0);
            }
            let head = copy_range(first, 0, b);
            let tail = copy_range(first, b + 1, first.len());
            assert(tail@ =~= first@.skip(b + 1));
            (trim_chars(&head), trim_chars(&tail))
        },
        None => (copy_range(first, 0, first.len()), Vec::new()),
    };
    assert(first@.subrange(0, first@.len() as int) =~= first@);
    let range: Vec<char> = if args.len() > 1 {
        assert(args@[1]@ == av[1]);
        copy_range(&args[1], 0, args[1].len())
    } else {
        Vec::new()
    };
    assert(range@ =~= (if av.len() > 1 { av[1] } else { Seq::<char>::empty() }));
    if range.len() > 0 && !is_valid_line_range(&range) {
        return Some(string_from_chars(&chars_of("<div style=\"color: red;\">読み込み失敗: 無効な行範囲です</div>")));
    }
    let flag_src: Vec<char> = if args.len() > 2 {
        assert(args@[2]@ == av[2]);
        copy_range(&args[2], 0, args[2].len())
    } else {
        Vec::new()
    };
    let flag = to_lowercase(&flag_src);
    let show: Vec<char> = if eq_str(&flag, "notitle") || eq_str(&flag, "none") {
        chars_of("false")
    } else if eq_str(&flag, "title") {
        chars_of("true")
    } else {
        chars_of("default")
    };
    let mut out: Vec<char> = Vec::new();
    push_str(&mut out, "<div class=\"wiki-include-page\" data-page=\"");
    push_chars(&mut out, &page);
    push_str(&mut out, "\" data-stylesheet=\"");
    push_chars(&mut out, &stylesheet);
    push_str(&mut out, "\" data-range=\"");
    push_chars(&mut out, &range);
    push_str(&mut out, "\" data-show-title=\"");
    push_chars(&mut out, &show);
    push_str(&mut out, "\"></div>");
    proof {
        assert(range@ =~= (if av.len() > 1 { av[1] } else { Seq::<char>::empty() }));
        assert(flag_src@ =~= (if av.len() > 2 { av[2] } else { Seq::<char>::empty() }));
    }
    Some(string_from_chars(&out))
}


/// `#include(page|stylesheet, range, flag)`: the placeholder names the
/// trimmed page and stylesheet (split at the first `|`), the range, and
/// whether the title is shown: `false` for `notitle` or `none`, `true` for
/// `title` (in any case), `default` otherwise. A non-empty range that is not
/// two `u32` numbers joined by one `-` gives the error message instead, and
/// an empty first argument gives nothing.
pub proof fn law_include_args(args: Seq<Seq<char>>)
    requires
        args.len() >= 1,
    ensures
        ({
            let first = args[0];
            let range = if args.len() > 1 { args[1] } else { Seq::<char>::empty() };
            let flag = lowered(if args.len() > 2 { args[2] } else { Seq::<char>::empty() });
            let parts = split_on(range, '-');
            let range_ok = parts.len() == 2 && parse_u32_spec(trim(parts[0])) is Some
                && parse_u32_spec(trim(parts[1])) is Some;
            let shown: Seq<char> = if flag == "notitle"@ || flag == "none"@ {
                "false"@
            } else if flag == "title"@ {
                "true"@
            } else {
                "default"@
            };
            let (page, stylesheet) = match find_elem(first, '|') {
                Some(b) => (trim(first.take(b)), trim(first.skip(b + 1))),
                None => (first, Seq::<char>::empty()),
            };
            &&& first.len() == 0 ==> include_from_args(args) is None
            &&& first.len() > 0 && range.len() > 0 && !range_ok ==> include_from_args(args) == Some(
                "<div style=\"color: red;\">読み込み失敗: 無効な行範囲です</div>"@,
            )
            &&& first.len() > 0 && (range.len() == 0 || range_ok) ==> include_from_args(args) == Some(
                "<div class=\"wiki-include-page\" data-page=\""@ + page + "\" data-stylesheet=\""@
                    + stylesheet + "\" data-range=\""@ + range + "\" data-show-title=\""@ + shown
                    + "\"></div>"@,
            )
        }),
{
}

} // verus!
