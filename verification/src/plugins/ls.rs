//! `#ls(prefix)` and `#ls2(pattern[options], label)`: placeholders where a
//! list of pages is shown.
use crate::matching::{caps_ok, captures, group_chars, group_text, regex_captures, Group};
use crate::text::{
    chars_of, lowered, opt_view, push_chars, push_str, starts_with, starts_with_str,
    string_from_chars, to_lowercase, trim, trim_chars,
};
use vstd::prelude::*;

verus! {

/// The pattern of `#ls2(...)`.
pub const LS2_PATTERN: &'static str = r"(?i)^#ls2\(\s*([^\[\],]+)(?:\[\s*([^\]]+)\s*\])?(?:,\s*\{\s*([^}]+)\s*\})?(?:,\s*([^)]+))?\)";

/// The pattern of `#ls` and `#ls(...)`.
pub const LS_PATTERN: &'static str = r"(?i)^#ls(?:\(([^)]+)\))?";

/// A group's text trimmed, or the empty text for a group that did not take
/// part in the match.
pub open spec fn opt_trim(o: Option<Seq<char>>) -> Seq<char> {
    match o {
        Some(t) => trim(t),
        None => Seq::empty(),
    }
}

/// The `#ls2` placeholder.
pub open spec fn ls2_html(wiki_slug: Seq<char>, pattern: Seq<char>, options: Seq<char>, label: Seq<char>) -> Seq<char> {
    "<div class=\"wiki-pagelist2\" data-wiki-slug=\""@ + wiki_slug + "\" data-pattern=\""@ + pattern
        + "\" data-options=\""@ + options + "\" data-label=\""@ + label + "\"></div>"@
}

/// The `#ls` placeholder.
pub open spec fn ls_html(wiki_slug: Seq<char>, prefix: Seq<char>) -> Seq<char> {
    "<div class=\"wiki-pagelist\" data-wiki-slug=\""@ + wiki_slug + "\" data-prefix=\""@ + prefix
        + "\"></div>"@
}

/// The `#ls2` placeholder for a match of `LS2_PATTERN` in `h`: the pattern
/// is group 1, the options group 2 (`[...]`) or else group 3 (`{...}`), the
/// label group 4, each trimmed.
pub open spec fn ls2_from_captures(h: Seq<char>, caps: Seq<Group>, wiki_slug: Seq<char>) -> Seq<char> {
    let options = match group_text(h, caps, 2) {
        Some(t) => Some(t),
        None => group_text(h, caps, 3),
    };
    ls2_html(
        wiki_slug,
        opt_trim(group_text(h, caps, 1)),
        opt_trim(options),
        opt_trim(group_text(h, caps, 4)),
    )
}

/// The `#ls` placeholder for a match of `LS_PATTERN` in `h`: the prefix is
/// group 1, trimmed.
pub open spec fn ls_from_captures(h: Seq<char>, caps: Seq<Group>, wiki_slug: Seq<char>) -> Seq<char> {
    ls_html(wiki_slug, opt_trim(group_text(h, caps, 1)))
}

/// What `#ls` gives for `line`: on the trimmed line, `#ls2(...)` if its
/// lowercased form begins with `#ls2` and the pattern matches, else `#ls`
/// if it begins with `#ls` and that pattern matches; `None` otherwise, and
/// also if the `#ls2` pattern does not compile.
pub open spec fn ls_block(line: Seq<char>, wiki_slug: Seq<char>) -> Option<Seq<char>> {
    let t = trim(line);
    let lower = lowered(t);
    let first = if starts_with(lower, "#ls2"@) {
        regex_captures(LS2_PATTERN@, t)
    } else {
        Some(None)
    };
    match first {
        None => None,
        Some(Some(c)) => Some(ls2_from_captures(t, c, wiki_slug)),
        Some(None) => if starts_with(lower, "#ls"@) {
            match regex_captures(LS_PATTERN@, t) {
                Some(Some(c)) => Some(ls_from_captures(t, c, wiki_slug)),
                _ => None,
            }
        } else {
            None
        },
    }
}

/// A group's text trimmed, or the empty text.
fn opt_trim_exec(o: Option<Vec<char>>) -> (r: Vec<char>)
    ensures
        r@ == opt_trim(opt_seq(o)),
{
    match o {
        Some(t) => trim_chars(&t),
        None => Vec::new(),
    }
}

/// The contents of an optional character vector.
pub open spec fn opt_seq(o: Option<Vec<char>>) -> Option<Seq<char>> {
    match o {
        Some(v) => Some(v@),
        None => None,
    }
}

/// The `#ls2` placeholder for a match of `LS2_PATTERN` in `h`.
pub fn render_ls2_captures(h: &[char], caps: &Vec<Group>, wiki_slug: &str) -> (r: Vec<char>)
    requires
        caps_ok(h@, caps@),
    ensures
        r@ == ls2_from_captures(h@, caps@, wiki_slug@),
{
    let pattern = opt_trim_exec(group_chars(h, caps, 1));
    let options = match group_chars(h, caps, 2) {
        Some(t) => trim_chars(&t),
        None => opt_trim_exec(group_chars(h, caps, 3)),
    };
    let label = opt_trim_exec(group_chars(h, caps, 4));
    let mut out: Vec<char> = Vec::new();
    push_str(&mut out, "<div class=\"wiki-pagelist2\" data-wiki-slug=\"");
    push_str(&mut out, wiki_slug);
    push_str(&mut out, "\" data-pattern=\"");
    push_chars(&mut out, &pattern);
    push_str(&mut out, "\" data-options=\"");
    push_chars(&mut out, &options);
    push_str(&mut out, "\" data-label=\"");
    push_chars(&mut out, &label);
    push_str(&mut out, "\"></div>");
    out
}

/// The `#ls` placeholder for a match of `LS_PATTERN` in `h`.
pub fn render_ls_captures(h: &[char], caps: &Vec<Group>, wiki_slug: &str) -> (r: Vec<char>)
    requires
        caps_ok(h@, caps@),
    ensures
        r@ == ls_from_captures(h@, caps@, wiki_slug@),
{
    let prefix = opt_trim_exec(group_chars(h, caps, 1));
    let mut out: Vec<char> = Vec::new();
    push_str(&mut out, "<div class=\"wiki-pagelist\" data-wiki-slug=\"");
    push_str(&mut out, wiki_slug);
    push_str(&mut out, "\" data-prefix=\"");
    push_chars(&mut out, &prefix);
    push_str(&mut out, "\"></div>");
    out
}

/// `#ls` and `#ls2`: the list placeholder, or `None` if `line` is neither.
pub fn parse_ls_block(line: &str, wiki_slug: &str) -> (r: Option<String>)
    ensures
        opt_view(r) == ls_block(line@, wiki_slug@),
{
    let chars = chars_of(line);
    let t = trim_chars(&chars);
    let lower = to_lowercase(&t);
    if starts_with_str(&lower, "#ls2") {
        match captures(LS2_PATTERN, &t) {
            None => return None,
            Some(Some(c)) => {
                let out = render_ls2_captures(&t, &c, wiki_slug);
                return Some(string_from_chars(&out));
            },
            Some(None) => {},
        }
    }
    if starts_with_str(&lower, "#ls") {
        match captures(LS_PATTERN, &t) {
            Some(Some(c)) => {
                let out = render_ls_captures(&t, &c, wiki_slug);
                return Some(string_from_chars(&out));
            },
            _ => {},
        }
    }
    None
}


/// The `#ls2` placeholder's options are the trimmed `[...]` group when it
/// took part, else the trimmed `{...}` group, else empty; its pattern and
/// label are the trimmed groups 1 and 4.
pub proof fn law_ls2_options(h: Seq<char>, caps: Seq<Group>, wiki_slug: Seq<char>)
    ensures
        ({
            let options = match group_text(h, caps, 2) {
                Some(t) => trim(t),
                None => match group_text(h, caps, 3) {
                    Some(t) => trim(t),
                    None => Seq::<char>::empty(),
                },
            };
            let pattern = match group_text(h, caps, 1) {
                Some(t) => trim(t),
                None => Seq::<char>::empty(),
            };
            let label = match group_text(h, caps, 4) {
                Some(t) => trim(t),
                None => Seq::<char>::empty(),
            };
            ls2_from_captures(h, caps, wiki_slug) == "<div class=\"wiki-pagelist2\" data-wiki-slug=\""@
                + wiki_slug + "\" data-pattern=\""@ + pattern + "\" data-options=\""@ + options
                + "\" data-label=\""@ + label + "\"></div>"@
        }),
{
}

/// The `#ls` placeholder's prefix is the trimmed group 1, or empty.
pub proof fn law_ls_prefix(h: Seq<char>, caps: Seq<Group>, wiki_slug: Seq<char>)
    ensures
        ls_from_captures(h, caps, wiki_slug) == "<div class=\"wiki-pagelist\" data-wiki-slug=\""@
            + wiki_slug + "\" data-prefix=\""@ + (match group_text(h, caps, 1) {
            Some(t) => trim(t),
            None => Seq::<char>::empty(),
        }) + "\"></div>"@,
{
}

} // verus!
