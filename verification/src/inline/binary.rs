//! Inline markup in binary mode, where control bytes stand for the markup:
//! `0x01` is a line break, `0x02 ... 0x02` bold text, and
//! `0x03 title 0x04 target 0x03` (or `0x03 page 0x03`) a link.
use super::{trim_ascii_ws, trim_bytes};
use crate::parser_options::ParserOptions;
use crate::text::{
    chars_of, find_elem, find_elem_from, lemma_find_elem_from, lemma_find_elem_none,
    lemma_find_elem_range, starts_with,
};
use vstd::prelude::*;
use vstd::slice::slice_to_vec;
use vstd::utf8::{decode_utf8, valid_utf8};

verus! {

/// The low byte of each character: the bytes of an ASCII literal.
pub open spec fn ascii_bytes(s: Seq<char>) -> Seq<u8> {
    s.map_values(|c: char| (c as u32) as u8)
}

/// A name for `String::from_utf8_lossy`: the bytes decoded as UTF-8, with
/// each invalid sequence replaced by U+FFFD.
pub uninterp spec fn utf8_lossy(b: Seq<u8>) -> Seq<char>;

/// `String::from_utf8_lossy(..).into_owned()`. Its result is named
/// `utf8_lossy`; the one fact stated beside the name is the documented one
/// that valid UTF-8 is decoded as it is.
#[verifier::external_body]
pub(crate) fn from_utf8_lossy(b: &[u8]) -> (s: String)
    ensures
        s@ == utf8_lossy(b@),
        valid_utf8(b@) ==> s@ == decode_utf8(b@),
{
    String::from_utf8_lossy(b).into_owned()
}

/// A link target that leaves the wiki, read from bytes.
pub open spec fn is_external_bytes(target: Seq<u8>) -> bool {
    starts_with(target, ascii_bytes("http://"@)) || starts_with(target, ascii_bytes("https://"@))
}

/// The anchor for a link, as bytes.
pub open spec fn anchor_bytes(href: Seq<u8>, target: Seq<u8>, title: Seq<u8>) -> Seq<u8> {
    ascii_bytes("<a href=\""@) + href + ascii_bytes("\" data-wiki-link=\""@) + target
        + ascii_bytes("\" class=\"wiki-link\">"@) + title + ascii_bytes("</a>"@)
}

/// The bytes for the inside of a `0x03 ... 0x03` link: the first `0x04`
/// parts the title from the target.
pub open spec fn link_bytes(body: Seq<u8>) -> Seq<u8> {
    match find_elem(body, 4u8) {
        Some(j) => {
            let title = trim_ascii_ws(body.take(j));
            let target = trim_ascii_ws(body.skip(j + 1));
            let href = if is_external_bytes(target) {
                target
            } else {
                ascii_bytes("#"@)
            };
            anchor_bytes(href, target, title)
        },
        None => {
            let page = trim_ascii_ws(body);
            anchor_bytes(ascii_bytes("#"@), page, page)
        },
    }
}

/// Binary markup read from the left; an opener without its closer leaves
/// the rest of the bytes as they are.
pub open spec fn binary_scan(b: Seq<u8>, br_inline: bool) -> Seq<u8>
    decreases b.len(),
{
    if b.len() == 0 {
        Seq::empty()
    } else if br_inline && b[0] == 1u8 {
        ascii_bytes("<br>"@) + binary_scan(b.drop_first(), br_inline)
    } else if b[0] == 2u8 {
        let rest = b.drop_first();
        match find_elem(rest, 2u8) {
            Some(k) => {
                proof {
                    lemma_find_elem_range(rest, 2u8, 0);
                }
                ascii_bytes("<strong>"@) + rest.take(k) + ascii_bytes("</strong>"@) + binary_scan(
                    rest.skip(k + 1),
                    br_inline,
                )
            },
            None => b,
        }
    } else if b[0] == 3u8 {
        let rest = b.drop_first();
        match find_elem(rest, 3u8) {
            Some(k) => {
                proof {
                    lemma_find_elem_range(rest, 3u8, 0);
                }
                link_bytes(rest.take(k)) + binary_scan(rest.skip(k + 1), br_inline)
            },
            None => b,
        }
    } else {
        seq![b[0]] + binary_scan(b.drop_first(), br_inline)
    }
}

/// What `parse_binary_inline` gives: the rendered bytes, decoded.
pub open spec fn binary_inline(b: Seq<u8>, br_inline: bool) -> Seq<char> {
    utf8_lossy(binary_scan(b, br_inline))
}

/// Appends the bytes of an ASCII literal.
fn push_ascii(out: &mut Vec<u8>, s: &str)
    ensures
        final(out)@ == old(out)@ + ascii_bytes(s@),
{
    let cs = chars_of(s);
    let mut i: usize = 0;
    while i < cs.len()
        invariant
            0 <= i <= cs@.len(),
            cs@ == s@,
            out@ == old(out)@ + ascii_bytes(cs@.take(i as int)),
        decreases cs@.len() - i,
    {
        let c = cs[i];
        out.push((c as u32) as u8);
        i = i + 1;
        assert(ascii_bytes(cs@.take(i as int)) =~= ascii_bytes(cs@.take(i - 1 as int)).push(
            (c as u32) as u8,
        ));
    }
    assert(cs@.take(cs@.len() as int) =~= cs@);
}

/// Appends the bytes of `v`.
fn push_bytes(out: &mut Vec<u8>, v: &[u8])
    ensures
        final(out)@ == old(out)@ + v@,
{
    let mut i: usize = 0;
    while i < v.len()
        invariant
            0 <= i <= v@.len(),
            out@ == old(out)@ + v@.take(i as int),
        decreases v@.len() - i,
    {
        out.push(v[i]);
        i = i + 1;
        assert(v@.take(i as int) =~= v@.take(i - 1 as int).push(v@[i - 1]));
    }
    assert(v@.take(v@.len() as int) =~= v@);
}

/// The first index at or after `from` that holds `c`.
fn find_byte_from(s: &[u8], c: u8, from: usize) -> (r: Option<usize>)
    requires
        from <= s@.len(),
    ensures
        r matches Some(k) ==> find_elem_from(s@, c, from as int) == Some(k as int) && k < s@.len(),
        r is None ==> find_elem_from(s@, c, from as int) is None,
{
    let mut k: usize = from;
    while k < s.len()
        invariant
            from <= k <= s@.len(),
            forall|j: int| from <= j < k ==> s@[j] != c,
        decreases s@.len() - k,
    {
        if s[k] == c {
            proof {
                lemma_find_elem_from(s@, c, from as int, Some(k as int));
            }
            return Some(k);
        }
        k = k + 1;
    }
    proof {
        lemma_find_elem_from(s@, c, from as int, None);
    }
    None
}

/// `s` begins with the ASCII literal `p`.
fn starts_with_ascii(s: &[u8], p: &str) -> (b: bool)
    ensures
        b == starts_with(s@, ascii_bytes(p@)),
{
    let mut pv: Vec<u8> = Vec::new();
    push_ascii(&mut pv, p);
    if pv.len() > s.len() {
        return false;
    }
    let mut i: usize = 0;
    while i < pv.len()
        invariant
            pv@ == ascii_bytes(p@),
            pv@.len() <= s@.len(),
            0 <= i <= pv@.len(),
            forall|k: int| 0 <= k < i ==> s@[k] == pv@[k],
        decreases pv@.len() - i,
    {
        if s[i] != pv[i] {
            assert(s@.take(pv@.len() as int)[i as int] != pv@[i as int]);
            return false;
        }
        i = i + 1;
    }
    assert(s@.take(pv@.len() as int) =~= pv@);
    true
}

/// Appends the anchor for a link, as bytes.
fn push_anchor_bytes(out: &mut Vec<u8>, href: &[u8], target: &[u8], title: &[u8])
    ensures
        final(out)@ == old(out)@ + anchor_bytes(href@, target@, title@),
{
    push_ascii(out, "<a href=\"");
    push_bytes(out, href);
    push_ascii(out, "\" data-wiki-link=\"");
    push_bytes(out, target);
    push_ascii(out, "\" class=\"wiki-link\">");
    push_bytes(out, title);
    push_ascii(out, "</a>");
}

/// Appends the bytes for the inside of a link.
fn push_link_bytes(out: &mut Vec<u8>, body: &[u8])
    ensures
        final(out)@ == old(out)@ + link_bytes(body@),
{
    match find_byte_from(body, 4u8, 0) {
        Some(j) => {
            assert(j < body.len());
            let title = trim_bytes(&body[0..j]);
            let target = trim_bytes(&body[j + 1..body.len()]);
            assert(body@.subrange(j + 1, body@.len() as int) =~= body@.skip(j + 1));
            assert(body@.subrange(0, j as int) =~= body@.take(j as int));
            if starts_with_ascii(target, "http://") || starts_with_ascii(target, "https://") {
                push_anchor_bytes(out, target, target, title);
            } else {
                let mut hash: Vec<u8> = Vec::new();
                push_ascii(&mut hash, "#");
                push_anchor_bytes(out, &hash, target, title);
            }
        },
        None => {
            let page = trim_bytes(body);
            let mut hash: Vec<u8> = Vec::new();
            push_ascii(&mut hash, "#");
            push_anchor_bytes(out, &hash, page, page);
        },
    }
}

/// Renders the markup bytes of `b` (`binary_scan`).
fn scan_bytes(b: &[u8], br_inline: bool) -> (r: Vec<u8>)
    ensures
        r@ == binary_scan(b@, br_inline),
{
    let mut out: Vec<u8> = Vec::new();
    let mut i: usize = 0;
    assert(b@.skip(0) =~= b@);
    while i < b.len()
        invariant
            0 <= i <= b@.len(),
            out@ + binary_scan(b@.skip(i as int), br_inline) == binary_scan(b@, br_inline),
        decreases b@.len() - i,
    {
        let ghost t = b@.skip(i as int);
        let byte = b[i];
        if br_inline && byte == 1u8 {
            push_ascii(&mut out, "<br>");
            assert(t.drop_first() =~= b@.skip(i + 1));
            i = i + 1;
        } else if byte == 2u8 || byte == 3u8 {
            match find_byte_from(b, byte, i + 1) {
                Some(k) => {
                    assert(k < b.len());
                    proof {
                        lemma_find_elem_range(b@, byte, i + 1);
                        assert forall|j: int| 0 <= j < k - i - 1 implies t.drop_first()[j] != byte by {
                            assert(t.drop_first()[j] == b@[i + 1 + j]);
                        }
                        assert(t.drop_first()[k - i - 1] == b@[k as int]);
                        lemma_find_elem_from(t.drop_first(), byte, 0, Some(k - i - 1));
                        assert(t.drop_first().take(k - i - 1) =~= b@.subrange(i + 1, k as int));
                        assert(t.drop_first().skip(k - i - 1 + 1) =~= b@.skip(k + 1));
                    }
                    if byte == 2u8 {
                        push_ascii(&mut out, "<strong>");
                        push_bytes(&mut out, &b[i + 1..k]);
                        push_ascii(&mut out, "</strong>");
                    } else {
                        push_link_bytes(&mut out, &b[i + 1..k]);
                    }
                    i = k + 1;
                },
                None => {
                    proof {
                        lemma_find_elem_none(b@, byte, i + 1);
                        assert forall|j: int| 0 <= j < t.drop_first().len() implies t.drop_first()[j]
                            != byte by {
                            assert(t.drop_first()[j] == b@[i + 1 + j]);
                        }
                        lemma_find_elem_from(t.drop_first(), byte, 0, None);
                    }
                    push_bytes(&mut out, &b[i..b.len()]);
                    assert(b@.subrange(i as int, b@.len() as int) =~= t);
                    assert(b@.skip(b@.len() as int) =~= Seq::<u8>::empty());
                    i = b.len();
                },
            }
        } else {
            out.push(byte);
            assert(t.drop_first() =~= b@.skip(i + 1));
            i = i + 1;
        }
    }
    assert(out@ + binary_scan(b@.skip(i as int), br_inline) =~= out@);
    out
}

/// Renders the inline markup of one line in binary mode.
pub fn parse_binary_inline(bytes: &[u8], options: &ParserOptions) -> (r: String)
    ensures
        r@ == binary_inline(bytes@, options.br_inline),
{
    let out = scan_bytes(bytes, options.br_inline);
    from_utf8_lossy(&out)
}


/// Bytes with no markup byte (and no `0x01` when it is read as a line
/// break) are rendered as they are.
pub proof fn law_binary_plain_unchanged(b: Seq<u8>, br_inline: bool)
    requires
        forall|i: int| 0 <= i < b.len() ==> b[i] != 2u8 && b[i] != 3u8,
        br_inline ==> forall|i: int| 0 <= i < b.len() ==> b[i] != 1u8,
    ensures
        binary_scan(b, br_inline) == b,
        binary_inline(b, br_inline) == utf8_lossy(b),
    decreases b.len(),
{
    if b.len() > 0 {
        let t = b.drop_first();
        assert forall|i: int| 0 <= i < t.len() implies t[i] != 2u8 && t[i] != 3u8 by {
            assert(t[i] == b[i + 1]);
        }
        if br_inline {
            assert forall|i: int| 0 <= i < t.len() implies t[i] != 1u8 by {
                assert(t[i] == b[i + 1]);
            }
        }
        law_binary_plain_unchanged(t, br_inline);
        assert(seq![b[0]] + t =~= b);
    }
}

/// A `0x02` that a later `0x02` closes makes the bytes between them bold.
pub proof fn law_binary_bold(inner: Seq<u8>, after: Seq<u8>, br_inline: bool)
    requires
        forall|i: int| 0 <= i < inner.len() ==> inner[i] != 2u8,
    ensures
        binary_scan(seq![2u8] + inner + seq![2u8] + after, br_inline) == ascii_bytes("<strong>"@)
            + inner + ascii_bytes("</strong>"@) + binary_scan(after, br_inline),
{
    let b = seq![2u8] + inner + seq![2u8] + after;
    let rest = b.drop_first();
    assert(rest =~= inner + seq![2u8] + after);
    assert(rest[inner.len() as int] == 2u8);
    lemma_find_elem_from(rest, 2u8, 0, Some(inner.len() as int));
    assert(rest.take(inner.len() as int) =~= inner);
    assert(rest.skip((inner.len() + 1) as int) =~= after);
}


/// A link `0x03 title 0x04 target 0x03` (the title holding no `0x04`, the
/// whole holding no other `0x03`) becomes an anchor whose text is the
/// trimmed title and whose `data-wiki-link` is the trimmed target; its
/// `href` is the target itself when it starts with `http://` or
/// `https://`, and `#` otherwise. Without `0x04` the trimmed page is both
/// target and text, with `href` `#`.
pub proof fn law_binary_link(title: Seq<u8>, target: Seq<u8>, after: Seq<u8>, br_inline: bool)
    requires
        forall|i: int| 0 <= i < title.len() ==> title[i] != 3u8 && title[i] != 4u8,
        forall|i: int| 0 <= i < target.len() ==> target[i] != 3u8,
    ensures
        ({
            let t = trim_ascii_ws(target);
            let href = if starts_with(t, ascii_bytes("http://"@)) || starts_with(t, ascii_bytes("https://"@)) {
                t
            } else {
                ascii_bytes("#"@)
            };
            binary_scan(seq![3u8] + title + seq![4u8] + target + seq![3u8] + after, br_inline)
                == ascii_bytes("<a href=\""@) + href + ascii_bytes("\" data-wiki-link=\""@) + t
                + ascii_bytes("\" class=\"wiki-link\">"@) + trim_ascii_ws(title) + ascii_bytes("</a>"@)
                + binary_scan(after, br_inline)
        }),
        binary_scan(seq![3u8] + title + seq![3u8] + after, br_inline) == ascii_bytes("<a href=\""@)
            + ascii_bytes("#"@) + ascii_bytes("\" data-wiki-link=\""@) + trim_ascii_ws(title)
            + ascii_bytes("\" class=\"wiki-link\">"@) + trim_ascii_ws(title) + ascii_bytes("</a>"@)
            + binary_scan(after, br_inline),
{
    let body = title + seq![4u8] + target;
    let b = seq![3u8] + body + seq![3u8] + after;
    let rest = b.drop_first();
    assert(b =~= seq![3u8] + title + seq![4u8] + target + seq![3u8] + after);
    assert(rest =~= body + seq![3u8] + after);
    assert(rest[body.len() as int] == 3u8);
    assert forall|j: int| 0 <= j < body.len() implies rest[j] != 3u8 by {
        assert(rest[j] == body[j]);
        if j < title.len() {
            assert(body[j] == title[j]);
        } else if j > title.len() {
            assert(body[j] == target[j - title.len() - 1]);
        }
    }
    lemma_find_elem_from(rest, 3u8, 0, Some(body.len() as int));
    assert(rest.take(body.len() as int) =~= body);
    assert(rest.skip((body.len() + 1) as int) =~= after);
    assert(body[title.len() as int] == 4u8);
    assert forall|j: int| 0 <= j < title.len() implies body[j] != 4u8 by {
        assert(body[j] == title[j]);
    }
    lemma_find_elem_from(body, 4u8, 0, Some(title.len() as int));
    assert(body.take(title.len() as int) =~= title);
    assert(body.skip((title.len() + 1) as int) =~= target);

    let b2 = seq![3u8] + title + seq![3u8] + after;
    let rest2 = b2.drop_first();
    assert(rest2 =~= title + seq![3u8] + after);
    assert(rest2[title.len() as int] == 3u8);
    assert forall|j: int| 0 <= j < title.len() implies rest2[j] != 3u8 by {
        assert(rest2[j] == title[j]);
    }
    lemma_find_elem_from(rest2, 3u8, 0, Some(title.len() as int));
    assert(rest2.take(title.len() as int) =~= title);
    assert(rest2.skip((title.len() + 1) as int) =~= after);
    lemma_find_elem_from(title, 4u8, 0, None);
}

/// A `0x01` byte becomes `<br>` when line breaks are read, and is kept
/// otherwise.
pub proof fn law_binary_br(after: Seq<u8>)
    ensures
        binary_scan(seq![1u8] + after, true) == ascii_bytes("<br>"@) + binary_scan(after, true),
        binary_scan(seq![1u8] + after, false) == seq![1u8] + binary_scan(after, false),
{
    assert((seq![1u8] + after).drop_first() =~= after);
}

} // verus!
