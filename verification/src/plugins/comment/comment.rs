//! `#comment` and `#comment(below)`: a comment form for the page.
use crate::text::{
    chars_of, copy_range, eq_str, find_char, find_elem, lowered, opt_view, push_chars, push_str,
    starts_with, starts_with_str, string_from_chars, to_lowercase, trim, trim_chars,
};
use vstd::prelude::*;

verus! {

/// Where the form stands relative to the comments: the argument in the
/// brackets of the lowercased line, `(s, e)` being the first `(` and `)`.
pub open spec fn comment_position(lower: Seq<char>, s: int, e: int) -> Seq<char> {
    if trim(lower.subrange(s + 1, e)) == "below"@ {
        "below"@
    } else {
        "above"@
    }
}

/// The form's HTML.
pub open spec fn comment_form(wiki_slug: Seq<char>, page_slug: Seq<char>, position: Seq<char>) -> Seq<
    char,
> {
    "<div class=\"commentform-container\"><form class=\"wiki-comment-form\" data-wiki-slug=\""@
        + wiki_slug + "\" data-page-slug=\""@ + page_slug + "\" data-position=\""@ + position
        + COMMENT_FORM_TAIL@
}

/// The fixed end of the comment form, after its position attribute.
pub const COMMENT_FORM_TAIL: &'static str = "\" style=\"margin: 1em 0;\"><div style=\"margin-bottom: 8px;\"><label>名前: <input type=\"text\" name=\"name\" style=\"margin-left: 8px;\" /></label></div><div style=\"margin-bottom: 8px;\"><label style=\"display: block;\">コメント:</label><textarea name=\"body\" required style=\"width: 100%; min-height: 60px;\"></textarea></div><button type=\"submit\" class=\"comment-submit\"><span>コメント送信</span></button></form></div>";

/// What `#comment` gives for `line`, with `None` for the lines on which
/// the bracket argument cannot be sliced (a `)` before the first `(`); otherwise `Some` of the optional form.
pub open spec fn comment_block(line: Seq<char>, wiki_slug: Seq<char>, page_slug: Seq<char>) -> Option<
    Option<Seq<char>>,
> {
    let lower = lowered(line);
    if !starts_with(lower, "#comment"@) {
        Some(None)
    } else {
        match find_elem(lower, '(') {
            Some(s) => match find_elem(lower, ')') {
                Some(e) => if e < s + 1 {
                    None
                } else {
                    Some(Some(comment_form(wiki_slug, page_slug, comment_position(lower, s, e))))
                },
                None => Some(Some(comment_form(wiki_slug, page_slug, "above"@))),
            },
            None => Some(Some(comment_form(wiki_slug, page_slug, "above"@))),
        }
    }
}

fn push_comment_form(out: &mut Vec<char>, wiki_slug: &str, page_slug: &str, position: &[char])
    ensures
        final(out)@ == old(out)@ + comment_form(wiki_slug@, page_slug@, position@),
{
    push_str(
        out,
        "<div class=\"commentform-container\"><form class=\"wiki-comment-form\" data-wiki-slug=\"",
    );
    push_str(out, wiki_slug);
    push_str(out, "\" data-page-slug=\"");
    push_str(out, page_slug);
    push_str(out, "\" data-position=\"");
    push_chars(out, position);
    push_str(out, COMMENT_FORM_TAIL);
}

/// `#comment` on `line`, or `None` (outer) where the bracket argument
/// cannot be sliced.
pub fn checked_parse_comment_block(line: &str, wiki_slug: &str, page_slug: &str) -> (r: Option<
    Option<String>,
>)
    ensures
        match r {
            Some(o) => comment_block(line@, wiki_slug@, page_slug@) == Some(opt_view(o)),
            None => comment_block(line@, wiki_slug@, page_slug@) is None,
        },
{
    let chars = chars_of(line);
    let lower = to_lowercase(&chars);
    if !starts_with_str(&lower, "#comment") {
        return Some(None);
    }
    let position: Vec<char> = match find_char(&lower, '(') {
        Some(s) => match find_char(&lower, ')') {
            Some(e) => {
                if e <= s {
                    return None;
                }
                proof {
                    crate::text::lemma_find_elem_range(lower@, ')', 0);
                }
                let arg = trim_chars(&copy_range(&lower, s + 1, e));
                if eq_str(&arg, "below") {
                    chars_of("below")
                } else {
                    chars_of("above")
                }
            },
            None => chars_of("above"),
        },
        None => chars_of("above"),
    };
    let mut out: Vec<char> = Vec::new();
    push_comment_form(&mut out, wiki_slug, page_slug, &position);
    Some(Some(string_from_chars(&out)))
}

/// `#comment`: the comment form, where position is `below` if the bracket
/// argument says so and `above` otherwise; `None` if `line` is no
/// `#comment` line.
pub fn parse_comment_block(line: &str, wiki_slug: &str, page_slug: &str) -> (r: Option<String>)
    requires
        comment_block(line@, wiki_slug@, page_slug@) is Some,
    ensures
        opt_view(r) == comment_block(line@, wiki_slug@, page_slug@).unwrap(),
{
    match checked_parse_comment_block(line, wiki_slug, page_slug) {
        Some(o) => o,
        None => None,
    }
}


/// A `#comment` line (in any case) gives the form for its page, placed
/// `below` the comments when its first bracket holds `below` (in any case,
/// trimmed) and `above` them otherwise, with or without a bracket.
pub proof fn law_comment_position(line: Seq<char>, wiki_slug: Seq<char>, page_slug: Seq<char>)
    requires
        starts_with(lowered(line), "#comment"@),
        comment_block(line, wiki_slug, page_slug) is Some,
    ensures
        ({
            let lower = lowered(line);
            let position: Seq<char> = match (find_elem(lower, '('), find_elem(lower, ')')) {
                (Some(s), Some(e)) => if trim(lower.subrange(s + 1, e)) == "below"@ {
                    "below"@
                } else {
                    "above"@
                },
                _ => "above"@,
            };
            comment_block(line, wiki_slug, page_slug) == Some(Some(
                "<div class=\"commentform-container\"><form class=\"wiki-comment-form\" data-wiki-slug=\""@
                    + wiki_slug + "\" data-page-slug=\""@ + page_slug + "\" data-position=\""@ + position
                    + COMMENT_FORM_TAIL@,
            ))
        }),
{
}

/// A line whose lowercased form does not start with `#comment` gives no form.
pub proof fn law_not_comment(line: Seq<char>, wiki_slug: Seq<char>, page_slug: Seq<char>)
    requires
        !starts_with(lowered(line), "#comment"@),
    ensures
        comment_block(line, wiki_slug, page_slug) == Some(None::<Seq<char>>),
{
}

} // verus!
