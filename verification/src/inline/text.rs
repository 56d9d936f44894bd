//! Inline markup in text mode: `''bold''`, `[[page]]`, `[[title>target]]`
//! (or `[[title:target]]`) and `&br;`.
use crate::parser_options::ParserOptions;
use crate::text::{
    chars_of, contains_sub, copy_range, find_chars, find_from, find_sub, lemma_find_from,
    lemma_find_from_range, occurs_at, push_chars, push_str, replace_all, replace_chars,
    starts_with, starts_with_str, string_from_chars, trim, trim_chars,
};
use vstd::prelude::*;

verus! {

/// The first index at or after `k` of `>` or `:`, where a link's title ends.
pub open spec fn find_link_sep_from(s: Seq<char>, k: int) -> Option<int>
    decreases s.len() - k,
{
    if k < 0 || k >= s.len() {
        None
    } else if s[k] == '>' || s[k] == ':' {
        Some(k)
    } else {
        find_link_sep_from(s, k + 1)
    }
}

/// A link target that leaves the wiki.
pub open spec fn is_external(target: Seq<char>) -> bool {
    starts_with(target, "http://"@) || starts_with(target, "https://"@)
}

/// The anchor for a link whose title and target are given.
pub open spec fn anchor(href: Seq<char>, target: Seq<char>, title: Seq<char>) -> Seq<char> {
    "<a href=\""@ + href + "\" data-wiki-link=\""@ + target + "\" class=\"wiki-link\">"@ + title
        + "</a>"@
}

/// The HTML for the inside of a `[[...]]` link.
#[verifier::opaque]
pub open spec fn link_html(content: Seq<char>) -> Seq<char> {
    match find_link_sep_from(content, 0) {
        Some(pos) => {
            let title = trim(content.take(pos));
            let target = trim(content.skip(pos + 1));
            let href = if is_external(target) {
                target
            } else {
                "#"@
            };
            anchor(href, target, title)
        },
        None => {
            let page = trim(content);
            anchor("#"@, page, page)
        },
    }
}

/// Inline markup read from the left: a `''` opens bold text that the next
/// `''` closes, a `[[` opens a link that the next `]]` closes; an opener
/// without its closer leaves the rest of the text as it is.
pub open spec fn inline_scan(s: Seq<char>) -> Seq<char>
    decreases s.len(),
{
    if s.len() == 0 {
        Seq::empty()
    } else if s.len() >= 2 && s[0] == '\'' && s[1] == '\'' {
        let rest = s.skip(2);
        match find_sub(rest, seq!['\'', '\'']) {
            Some(k) => {
                proof {
                    lemma_find_from_range(rest, seq!['\'', '\''], 0);
                }
                "<strong>"@ + rest.take(k) + "</strong>"@ + inline_scan(rest.skip(k + 2))
            },
            None => seq!['\'', '\''] + rest,
        }
    } else if s.len() >= 2 && s[0] == '[' && s[1] == '[' {
        let rest = s.skip(2);
        match find_sub(rest, seq![']', ']']) {
            Some(k) => {
                proof {
                    lemma_find_from_range(rest, seq![']', ']'], 0);
                }
                link_html(rest.take(k)) + inline_scan(rest.skip(k + 2))
            },
            None => seq!['[', '['] + rest,
        }
    } else {
        seq![s[0]] + inline_scan(s.drop_first())
    }
}

/// What `parse_text_inline` gives for `text`: `&br;` becomes `<br>` when
/// `br_inline` is set, then bold text and links are rendered.
pub open spec fn text_inline(text: Seq<char>, br_inline: bool) -> Seq<char> {
    let s = if br_inline {
        replace_all(text, "&br;"@, "<br>"@)
    } else {
        text
    };
    inline_scan(s)
}

proof fn lemma_find_link_sep(s: Seq<char>, k: int, r: Option<int>)
    requires
        0 <= k <= s.len(),
        forall|j: int|
            k <= j < s.len() && (r matches Some(x) ==> j < x) ==> s[j] != '>' && s[j] != ':',
        r matches Some(x) ==> k <= x < s.len() && (s[x] == '>' || s[x] == ':'),
    ensures
        find_link_sep_from(s, k) == r,
    decreases s.len() - k,
{
    if k < s.len() && s[k] != '>' && s[k] != ':' {
        lemma_find_link_sep(s, k + 1, r);
    }
}

/// The index of the first `>` or `:` in `s`.
fn find_link_sep(s: &[char]) -> (r: Option<usize>)
    ensures
        r matches Some(k) ==> find_link_sep_from(s@, 0) == Some(k as int) && k < s@.len(),
        r is None ==> find_link_sep_from(s@, 0) is None,
{
    let mut k: usize = 0;
    while k < s.len()
        invariant
            0 <= k <= s@.len(),
            forall|j: int| 0 <= j < k ==> s@[j] != '>' && s@[j] != ':',
        decreases s@.len() - k,
    {
        if s[k] == '>' || s[k] == ':' {
            proof {
                lemma_find_link_sep(s@, 0, Some(k as int));
            }
            return Some(k);
        }
        k = k + 1;
    }
    proof {
        lemma_find_link_sep(s@, 0, None);
    }
    None
}

/// Appends the anchor for a link.
fn push_anchor(out: &mut Vec<char>, href: &[char], target: &[char], title: &[char])
    ensures
        final(out)@ == old(out)@ + anchor(href@, target@, title@),
{
    push_str(out, "<a href=\"");
    push_chars(out, href);
    push_str(out, "\" data-wiki-link=\"");
    push_chars(out, target);
    push_str(out, "\" class=\"wiki-link\">");
    push_chars(out, title);
    push_str(out, "</a>");
}

/// Appends the HTML for the inside of a `[[...]]` link.
fn push_link(out: &mut Vec<char>, content: &[char])
    ensures
        final(out)@ == old(out)@ + link_html(content@),
{
    reveal(link_html);
    match find_link_sep(content) {
        Some(pos) => {
            assert(pos < content.len());
            let head = copy_range(content, 0, pos);
            let tail = copy_range(content, pos + 1, content.len());
            assert(tail@ =~= content@.skip(pos + 1));
            let title = trim_chars(&head);
            let target = trim_chars(&tail);
            if starts_with_str(&target, "http://") || starts_with_str(&target, "https://") {
                push_anchor(out, &target, &target, &title);
            } else {
                let hash = chars_of("#");
                push_anchor(out, &hash, &target, &title);
            }
        },
        None => {
            let page = trim_chars(content);
            let hash = chars_of("#");
            push_anchor(out, &hash, &page, &page);
        },
    }
}

/// Renders bold text and links (`inline_scan`) of `s`.
fn scan(s: &[char]) -> (r: Vec<char>)
    ensures
        r@ == inline_scan(s@),
{
    let mut out: Vec<char> = Vec::new();
    let mut i: usize = 0;
    let quotes = chars_of("''");
    let closers = chars_of("]]");
    proof {
        reveal_strlit("''");
        reveal_strlit("]]");
        assert(quotes@ =~= seq!['\'', '\'']);
        assert(closers@ =~= seq![']', ']']);
        assert(s@.skip(0) =~= s@);
    }
    while i < s.len()
        invariant
            0 <= i <= s@.len(),
            quotes@ == seq!['\'', '\''],
            closers@ == seq![']', ']'],
            out@ + inline_scan(s@.skip(i as int)) == inline_scan(s@),
        decreases s@.len() - i,
    {
        let ghost t = s@.skip(i as int);
        if i + 1 < s.len() && s[i] == '\'' && s[i + 1] == '\'' {
            let rest = &s[i + 2..s.len()];
            assert(rest@ =~= t.skip(2));
            match find_chars(rest, &quotes) {
                Some(k) => {
                    proof {
                        lemma_find_from_range(rest@, quotes@, 0);
                    }
                    push_str(&mut out, "<strong>");
                    let body = copy_range(rest, 0, k);
                    push_chars(&mut out, &body);
                    push_str(&mut out, "</strong>");
                    proof {
                        assert(rest@.skip(k + 2) =~= s@.skip(i + 2 + k + 2));
                    }
                    i = i + 2 + k + 2;
                },
                None => {
                    push_str(&mut out, "''");
                    push_chars(&mut out, rest);
                    proof {
                        reveal_strlit("''");
                        assert(s@.skip(s@.len() as int) =~= Seq::<char>::empty());
                    }
                    i = s.len();
                },
            }
        } else if i + 1 < s.len() && s[i] == '[' && s[i + 1] == '[' {
            let rest = &s[i + 2..s.len()];
            assert(rest@ =~= t.skip(2));
            match find_chars(rest, &closers) {
                Some(k) => {
                    proof {
                        lemma_find_from_range(rest@, closers@, 0);
                    }
                    let body = copy_range(rest, 0, k);
                    push_link(&mut out, &body);
                    proof {
                        assert(rest@.skip(k + 2) =~= s@.skip(i + 2 + k + 2));
                    }
                    i = i + 2 + k + 2;
                },
                None => {
                    push_str(&mut out, "[[");
                    push_chars(&mut out, rest);
                    proof {
                        reveal_strlit("[[");
                        assert(s@.skip(s@.len() as int) =~= Seq::<char>::empty());
                    }
                    i = s.len();
                },
            }
        } else {
            out.push(s[i]);
            proof {
                assert(t.drop_first() =~= s@.skip(i + 1));
            }
            i = i + 1;
        }
    }
    assert(out@ + inline_scan(s@.skip(i as int)) =~= out@);
    out
}

/// Renders the inline markup of one line in text mode.
pub fn parse_text_inline(text: &str, options: &ParserOptions) -> (r: String)
    ensures
        r@ == text_inline(text@, options.br_inline),
{
    let mut chars = chars_of(text);
    if options.br_inline {
        let from = chars_of("&br;");
        let to = chars_of("<br>");
        proof {
            reveal_strlit("&br;");
        }
        chars = replace_chars(&chars, &from, &to);
    }
    let out = scan(&chars);
    string_from_chars(&out)
}


proof fn lemma_find_from_none<T>(s: Seq<T>, p: Seq<T>, k: int)
    requires
        find_from(s, p, k) is None,
        0 <= k,
    ensures
        forall|j: int| k <= j ==> !occurs_at(s, p, j),
    decreases s.len() + 1 - k,
{
    if k + p.len() <= s.len() {
        lemma_find_from_none(s, p, k + 1);
    }
}

proof fn lemma_inline_scan_plain(s: Seq<char>)
    requires
        forall|j: int| 0 <= j ==> !occurs_at(s, seq!['\'', '\''], j),
        forall|j: int| 0 <= j ==> !occurs_at(s, seq!['[', '['], j),
    ensures
        inline_scan(s) == s,
    decreases s.len(),
{
    if s.len() > 0 {
        if s.len() >= 2 && s[0] == '\'' && s[1] == '\'' {
            assert(s.subrange(0, 2) =~= seq!['\'', '\'']);
            assert(occurs_at(s, seq!['\'', '\''], 0));
        }
        if s.len() >= 2 && s[0] == '[' && s[1] == '[' {
            assert(s.subrange(0, 2) =~= seq!['[', '[']);
            assert(occurs_at(s, seq!['[', '['], 0));
        }
        let t = s.drop_first();
        assert forall|j: int| 0 <= j implies !occurs_at(t, seq!['\'', '\''], j) by {
            assert(!occurs_at(s, seq!['\'', '\''], j + 1));
            if occurs_at(t, seq!['\'', '\''], j) {
                assert(s.subrange(j + 1, j + 3) =~= t.subrange(j, j + 2));
            }
        }
        assert forall|j: int| 0 <= j implies !occurs_at(t, seq!['[', '['], j) by {
            assert(!occurs_at(s, seq!['[', '['], j + 1));
            if occurs_at(t, seq!['[', '['], j) {
                assert(s.subrange(j + 1, j + 3) =~= t.subrange(j, j + 2));
            }
        }
        lemma_inline_scan_plain(t);
        assert(seq![s[0]] + t =~= s);
    }
}

/// Text without `''`, without `[[` and (when `&br;` is read) without
/// `&br;` is rendered unchanged.
pub proof fn law_plain_text_unchanged(text: Seq<char>, br_inline: bool)
    requires
        !contains_sub(text, "''"@),
        !contains_sub(text, "[["@),
        br_inline ==> !contains_sub(text, "&br;"@),
    ensures
        text_inline(text, br_inline) == text,
{
    reveal_strlit("''");
    reveal_strlit("[[");
    assert("''"@ =~= seq!['\'', '\'']);
    assert("[["@ =~= seq!['[', '[']);
    if br_inline {
        assert(replace_all(text, "&br;"@, "<br>"@) == text) by {
            reveal_strlit("&br;");
        }
    }
    lemma_find_from_none(text, seq!['\'', '\''], 0);
    lemma_find_from_none(text, seq!['[', '['], 0);
    lemma_inline_scan_plain(text);
}

/// A `''` that a later `''` closes makes the text between them bold.
pub proof fn law_bold(inner: Seq<char>, after: Seq<char>)
    requires
        !contains_sub(inner, seq!['\'', '\'']),
        inner.len() == 0 || inner.last() != '\'',
    ensures
        inline_scan(seq!['\'', '\''] + inner + seq!['\'', '\''] + after) == "<strong>"@ + inner
            + "</strong>"@ + inline_scan(after),
{
    let s = seq!['\'', '\''] + inner + seq!['\'', '\''] + after;
    let rest = s.skip(2);
    assert(rest =~= inner + seq!['\'', '\''] + after);
    lemma_find_from_none(inner, seq!['\'', '\''], 0);
    assert forall|j: int| 0 <= j < inner.len() implies !occurs_at(rest, seq!['\'', '\''], j) by {
        if occurs_at(rest, seq!['\'', '\''], j) {
            if j + 2 <= inner.len() {
                assert(rest.subrange(j, j + 2) =~= inner.subrange(j, j + 2));
                assert(occurs_at(inner, seq!['\'', '\''], j));
            } else {
                assert(j == inner.len() - 1);
                assert(rest[j] == inner.last());
            }
        }
    }
    assert(occurs_at(rest, seq!['\'', '\''], inner.len() as int)) by {
        assert(rest.subrange(inner.len() as int, (inner.len() + 2) as int) =~= seq!['\'', '\'']);
    }
    lemma_find_from(rest, seq!['\'', '\''], 0, Some(inner.len() as int));
    assert(rest.take(inner.len() as int) =~= inner);
    assert(rest.skip((inner.len() + 2) as int) =~= after);
}

/// A `[[` that a later `]]` closes makes a link of the text between them.
pub proof fn law_link(inner: Seq<char>, after: Seq<char>)
    requires
        !contains_sub(inner, seq![']', ']']),
        inner.len() == 0 || inner.last() != ']',
    ensures
        inline_scan(seq!['[', '['] + inner + seq![']', ']'] + after) == link_html(inner)
            + inline_scan(after),
{
    let s = seq!['[', '['] + inner + seq![']', ']'] + after;
    let rest = s.skip(2);
    assert(rest =~= inner + seq![']', ']'] + after);
    assert(s.subrange(0, 2) =~= seq!['[', '[']);
    assert(!(s[0] == '\'' && s[1] == '\''));
    lemma_find_from_none(inner, seq![']', ']'], 0);
    assert forall|j: int| 0 <= j < inner.len() implies !occurs_at(rest, seq![']', ']'], j) by {
        if occurs_at(rest, seq![']', ']'], j) {
            if j + 2 <= inner.len() {
                assert(rest.subrange(j, j + 2) =~= inner.subrange(j, j + 2));
                assert(occurs_at(inner, seq![']', ']'], j));
            } else {
                assert(j == inner.len() - 1);
                assert(rest[j] == inner.last());
            }
        }
    }
    assert(occurs_at(rest, seq![']', ']'], inner.len() as int)) by {
        assert(rest.subrange(inner.len() as int, (inner.len() + 2) as int) =~= seq![']', ']']);
    }
    lemma_find_from(rest, seq![']', ']'], 0, Some(inner.len() as int));
    assert(rest.take(inner.len() as int) =~= inner);
    assert(rest.skip((inner.len() + 2) as int) =~= after);
}

/// A link with no `>` or `:` inside points at the page it names, trimmed.
pub proof fn law_page_link(inner: Seq<char>)
    requires
        forall|i: int| 0 <= i < inner.len() ==> inner[i] != '>' && inner[i] != ':',
    ensures
        link_html(inner) == anchor("#"@, trim(inner), trim(inner)),
{
    reveal(link_html);
    lemma_link_sep_none(inner, 0);
}

proof fn lemma_link_sep_none(s: Seq<char>, k: int)
    requires
        0 <= k,
        forall|i: int| 0 <= i < s.len() ==> s[i] != '>' && s[i] != ':',
    ensures
        find_link_sep_from(s, k) is None,
    decreases s.len() - k,
{
    if k < s.len() {
        lemma_link_sep_none(s, k + 1);
    }
}


proof fn lemma_link_sep_at(s: Seq<char>, k: int, pos: int)
    requires
        0 <= k <= pos < s.len(),
        s[pos] == '>' || s[pos] == ':',
        forall|i: int| k <= i < pos ==> s[i] != '>' && s[i] != ':',
    ensures
        find_link_sep_from(s, k) == Some(pos),
    decreases pos - k,
{
    if k < pos {
        lemma_link_sep_at(s, k + 1, pos);
    }
}

/// A link `[[title>target]]` (or `[[title:target]]`, the title holding no
/// `>` or `:`) becomes an anchor whose text is the trimmed title and whose
/// `data-wiki-link` is the trimmed target; its `href` is the target itself
/// when the target starts with `http://` or `https://`, and `#` otherwise.
pub proof fn law_titled_link(title: Seq<char>, sep: char, target: Seq<char>, after: Seq<char>)
    requires
        sep == '>' || sep == ':',
        forall|i: int| 0 <= i < title.len() ==> title[i] != '>' && title[i] != ':',
        !contains_sub(title + seq![sep] + target, seq![']', ']']),
        target.len() == 0 || target.last() != ']',
    ensures
        ({
            let t = trim(target);
            let href = if starts_with(t, "http://"@) || starts_with(t, "https://"@) {
                t
            } else {
                "#"@
            };
            inline_scan(seq!['[', '['] + (title + seq![sep] + target) + seq![']', ']'] + after)
                == "<a href=\""@ + href + "\" data-wiki-link=\""@ + t + "\" class=\"wiki-link\">"@
                + trim(title) + "</a>"@ + inline_scan(after)
        }),
{
    let inner = title + seq![sep] + target;
    assert(inner.len() == 0 || inner.last() != ']') by {
        if target.len() == 0 {
            assert(inner.last() == sep);
        } else {
            assert(inner.last() == target.last());
        }
    }
    law_link(inner, after);
    reveal(link_html);
    lemma_link_sep_at(inner, 0, title.len() as int);
    assert(inner.take(title.len() as int) =~= title);
    assert(inner.skip((title.len() + 1) as int) =~= target);
}

/// A link `[[page]]` with no `>` or `:` inside points at `#` and names the
/// trimmed page both as its target and as its text.
pub proof fn law_page_link_anchor(page: Seq<char>, after: Seq<char>)
    requires
        forall|i: int| 0 <= i < page.len() ==> page[i] != '>' && page[i] != ':',
        !contains_sub(page, seq![']', ']']),
        page.len() == 0 || page.last() != ']',
    ensures
        inline_scan(seq!['[', '['] + page + seq![']', ']'] + after) == "<a href=\"#\" data-wiki-link=\""@
            + trim(page) + "\" class=\"wiki-link\">"@ + trim(page) + "</a>"@ + inline_scan(after),
{
    law_link(page, after);
    law_page_link(page);
    reveal_strlit("<a href=\"");
    reveal_strlit("#");
    reveal_strlit("\" data-wiki-link=\"");
    reveal_strlit("<a href=\"#\" data-wiki-link=\"");
    assert("<a href=\"#\" data-wiki-link=\""@ =~= "<a href=\""@ + "#"@ + "\" data-wiki-link=\""@);
    assert(anchor("#"@, trim(page), trim(page)) =~= "<a href=\"#\" data-wiki-link=\""@ + trim(page)
        + "\" class=\"wiki-link\">"@ + trim(page) + "</a>"@);
}

/// `&br;` becomes `<br>` before the inline markup is read when line breaks
/// are read, and is left as it is otherwise.
pub proof fn law_br_entity(a: Seq<char>, b: Seq<char>)
    requires
        forall|i: int| 0 <= i < a.len() ==> a[i] != '&',
        forall|i: int| 0 <= i < b.len() ==> b[i] != '&',
    ensures
        text_inline(a + "&br;"@ + b, true) == inline_scan(a + "<br>"@ + b),
        text_inline(a + "&br;"@ + b, false) == inline_scan(a + "&br;"@ + b),
{
    reveal_strlit("&br;");
    let p = "&br;"@;
    let s = a + p + b;
    assert(p[0] == '&');
    assert forall|j: int| 0 <= j && j < a.len() implies !occurs_at(s, p, j) by {
        if occurs_at(s, p, j) {
            assert(s.subrange(j, j + 4)[0] == s[j]);
            assert(s[j] == a[j]);
        }
    }
    assert(s.subrange(a.len() as int, (a.len() + 4) as int) =~= p);
    lemma_find_from(s, p, 0, Some(a.len() as int));
    assert forall|j: int| 0 <= j implies !occurs_at(b, p, j) by {
        if occurs_at(b, p, j) {
            assert(b.subrange(j, j + 4)[0] == b[j]);
        }
    }
    lemma_find_from(b, p, 0, None);
    assert(s.take(a.len() as int) =~= a);
    assert(s.skip((a.len() + 4) as int) =~= b);
    assert(p.len() == 4);
    assert(find_sub(s, p) == Some(a.len() as int));
    assert(find_sub(b, p) is None);
    assert(replace_all(b, p, "<br>"@) == b);
    assert(replace_all(s, p, "<br>"@) == s.take(a.len() as int) + "<br>"@ + replace_all(
        s.skip((a.len() + p.len()) as int),
        p,
        "<br>"@,
    ));
    assert(replace_all(s, p, "<br>"@) == a + "<br>"@ + b);
}

} // verus!
