//! `#rtcomment`: a placeholder where the page's comments are shown.
use crate::text::{
    chars_of, eq_str, lowered, opt_view, push_str, string_from_chars, to_lowercase, trim,
    trim_chars,
};
use vstd::prelude::*;

verus! {

/// A comment as it is sent to the comment service.
pub struct CommentInput {
    pub name: String,
    pub body: String,
    pub wiki_slug: String,
    pub page_slug: String,
    pub user_id: Option<String>,
}

/// The placeholder's HTML.
pub open spec fn rtcomment_html(wiki_slug: Seq<char>, page_slug: Seq<char>) -> Seq<char> {
    "<div class=\"wiki-rtcomment\" data-wiki-slug=\""@ + wiki_slug + "\" data-page-slug=\""@
        + page_slug + "\"></div>"@
}

/// What `#rtcomment` gives: the placeholder if the trimmed, lowercased line
/// is `#rtcomment` or `#rtcomment()`.
pub open spec fn rtcomment_block(line: Seq<char>, wiki_slug: Seq<char>, page_slug: Seq<char>) -> Option<
    Seq<char>,
> {
    let lower = lowered(trim(line));
    if lower == "#rtcomment"@ || lower == "#rtcomment()"@ {
        Some(rtcomment_html(wiki_slug, page_slug))
    } else {
        None
    }
}

/// `#rtcomment`: the placeholder, or `None` if `line` is no `#rtcomment` line.
pub fn parse_rtcomment_block(line: &str, wiki_slug: &str, page_slug: &str) -> (r: Option<String>)
    ensures
        opt_view(r) == rtcomment_block(line@, wiki_slug@, page_slug@),
{
    let chars = chars_of(line);
    let trimmed = trim_chars(&chars);
    let lower = to_lowercase(&trimmed);
    if eq_str(&lower, "#rtcomment") || eq_str(&lower, "#rtcomment()") {
        let mut out: Vec<char> = Vec::new();
        push_str(&mut out, "<div class=\"wiki-rtcomment\" data-wiki-slug=\"");
        push_str(&mut out, wiki_slug);
        push_str(&mut out, "\" data-page-slug=\"");
        push_str(&mut out, page_slug);
        push_str(&mut out, "\"></div>");
        Some(string_from_chars(&out))
    } else {
        None
    }
}


/// A line that, trimmed and lowercased, is `#rtcomment` or `#rtcomment()`
/// gives the placeholder for its page; every other line gives none.
pub proof fn law_rtcomment(line: Seq<char>, wiki_slug: Seq<char>, page_slug: Seq<char>)
    ensures
        rtcomment_block(line, wiki_slug, page_slug) is Some <==> (lowered(trim(line)) == "#rtcomment"@
            || lowered(trim(line)) == "#rtcomment()"@),
        rtcomment_block(line, wiki_slug, page_slug) is Some ==> rtcomment_block(line, wiki_slug, page_slug)
            == Some("<div class=\"wiki-rtcomment\" data-wiki-slug=\""@ + wiki_slug
            + "\" data-page-slug=\""@ + page_slug + "\"></div>"@),
{
}

} // verus!
