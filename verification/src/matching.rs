//! The regular expressions of the wiki syntax, matched by the `regex` crate.
//!
//! The library compiles and runs each pattern through `regex`; what a match
//! is, is named here and not restated. Match offsets are UTF-8 byte offsets
//! into the haystack, which this module turns into character indices.
use crate::text::{
    byte_len, char_index_at, char_index_of_byte, copy_range, is_boundary,
    lemma_byte_len_take_mono,
};
use vstd::prelude::*;

verus! {

/// A capture group as a byte span of the haystack, if the group took part
/// in the match.
pub type Group = Option<(usize, usize)>;

/// A name for what `regex::Regex::new(pattern)` and then
/// `Regex::captures(haystack)` give: `None` if the pattern does not compile,
/// `Some(None)` if it does not match, else the spans of all capture groups
/// of the leftmost-first match, group 0 being the whole match.
pub uninterp spec fn regex_captures(pattern: Seq<char>, haystack: Seq<char>) -> Option<
    Option<Seq<Group>>,
>;

/// A name for what `regex::Regex::new(pattern)` and then
/// `Regex::captures_iter(haystack)` give: `None` if the pattern does not
/// compile, else the capture groups of each successive non-overlapping
/// match, from the left.
pub uninterp spec fn regex_captures_all(pattern: Seq<char>, haystack: Seq<char>) -> Option<
    Seq<Seq<Group>>,
>;

/// What `regex` documents of a group's span: start before end, both on
/// character boundaries of the haystack.
pub open spec fn group_ok(h: Seq<char>, g: Group) -> bool {
    match g {
        Some((s, e)) => s <= e && is_boundary(h, s as int) && is_boundary(h, e as int),
        None => true,
    }
}

/// What `regex` documents of one match's groups: there is at least the
/// whole match, it took part, and every span is well formed.
pub open spec fn caps_ok(h: Seq<char>, caps: Seq<Group>) -> bool {
    &&& caps.len() >= 1
    &&& caps[0] is Some
    &&& forall|i: int| 0 <= i < caps.len() ==> group_ok(h, #[trigger] caps[i])
}

/// The byte offset where a match begins.
pub open spec fn match_start(caps: Seq<Group>) -> usize {
    let (s, e) = caps[0].unwrap();
    s
}

/// The byte offset where a match ends.
pub open spec fn match_end(caps: Seq<Group>) -> usize {
    let (s, e) = caps[0].unwrap();
    e
}

/// The successive matches do not overlap and come from the left.
pub open spec fn matches_ok(h: Seq<char>, ms: Seq<Seq<Group>>) -> bool {
    &&& forall|i: int| 0 <= i < ms.len() ==> caps_ok(h, #[trigger] ms[i])
    &&& forall|i: int, j: int|
        #![trigger ms[i], ms[j]]
        0 <= i < j < ms.len() ==> match_end(ms[i]) <= match_start(ms[j])
}

/// `regex::Regex::new(pattern)`, then `captures` on the text `haystack`,
/// each group turned into its byte span. The result is named
/// `regex_captures`; beside the name stand the facts the `regex`
/// documentation gives of the spans.
#[verifier::external_body]
pub(crate) fn captures(pattern: &str, haystack: &[char]) -> (r: Option<Option<Vec<Group>>>)
    ensures
        match r {
            None => regex_captures(pattern@, haystack@) is None,
            Some(None) => regex_captures(pattern@, haystack@) == Some(None::<Seq<Group>>),
            Some(Some(c)) => regex_captures(pattern@, haystack@) == Some(Some(c@)) && caps_ok(
                haystack@,
                c@,
            ),
        },
{
    let h: String = haystack.iter().collect();
    match regex::Regex::new(pattern) {
        Ok(re) => match re.captures(&h) {
            Some(c) => Some(Some(c.iter().map(|m| m.map(|m| (m.start(), m.end()))).collect())),
            None => Some(None),
        },
        Err(_) => None,
    }
}

/// `regex::Regex::new(pattern)`, then `captures_iter` on the text
/// `haystack`, each group turned into its byte span. The result is named
/// `regex_captures_all`; beside the name stand the facts the `regex`
/// documentation gives of the spans and of the order of the matches.
#[verifier::external_body]
pub(crate) fn captures_all(pattern: &str, haystack: &[char]) -> (r: Option<Vec<Vec<Group>>>)
    ensures
        match r {
            None => regex_captures_all(pattern@, haystack@) is None,
            Some(ms) => regex_captures_all(pattern@, haystack@) == Some(groups_of(ms@)) && matches_ok(haystack@, groups_of(ms@)),
        },
{
    let h: String = haystack.iter().collect();
    match regex::Regex::new(pattern) {
        Ok(re) => Some(
            re.captures_iter(&h).map(
                |c| c.iter().map(|m| m.map(|m| (m.start(), m.end()))).collect(),
            ).collect(),
        ),
        Err(_) => None,
    }
}

/// The character span of a byte span that falls on character boundaries.
pub open spec fn char_span(h: Seq<char>, s: usize, e: usize) -> (int, int) {
    (char_index_at(h, s as int).unwrap(), char_index_at(h, e as int).unwrap())
}

/// The text of group `i`, if the group exists and took part in the match.
pub open spec fn group_text(h: Seq<char>, caps: Seq<Group>, i: int) -> Option<Seq<char>> {
    if 0 <= i < caps.len() {
        match caps[i] {
            Some((s, e)) => Some(h.subrange(char_span(h, s, e).0, char_span(h, s, e).1)),
            None => None,
        }
    } else {
        None
    }
}

pub proof fn lemma_char_span(h: Seq<char>, s: usize, e: usize)
    requires
        s <= e,
        is_boundary(h, s as int),
        is_boundary(h, e as int),
    ensures
        0 <= char_span(h, s, e).0 <= char_span(h, s, e).1 <= h.len(),
        byte_len(h.take(char_span(h, s, e).0)) == s,
        byte_len(h.take(char_span(h, s, e).1)) == e,
{
    let a = choose|k: int| 0 <= k <= h.len() && byte_len(h.take(k)) == s;
    let b = choose|k: int| 0 <= k <= h.len() && byte_len(h.take(k)) == e;
    if b < a {
        lemma_byte_len_take_mono(h, b, a);
    }
}

/// The character indices of two boundaries are in the order of their byte
/// offsets.
pub proof fn lemma_char_index_mono(h: Seq<char>, x: int, y: int)
    requires
        x <= y,
        is_boundary(h, x),
        is_boundary(h, y),
    ensures
        char_index_at(h, x).unwrap() <= char_index_at(h, y).unwrap(),
{
    let a = choose|k: int| 0 <= k <= h.len() && byte_len(h.take(k)) == x;
    let b = choose|k: int| 0 <= k <= h.len() && byte_len(h.take(k)) == y;
    if b < a {
        lemma_byte_len_take_mono(h, b, a);
    }
}

/// The groups of each match.
pub open spec fn groups_of(ms: Seq<Vec<Group>>) -> Seq<Seq<Group>> {
    ms.map_values(|c: Vec<Group>| c@)
}

/// The character span of a byte span that falls on character boundaries.
pub fn char_span_exec(h: &[char], s: usize, e: usize) -> (r: (usize, usize))
    requires
        s <= e,
        is_boundary(h@, s as int),
        is_boundary(h@, e as int),
    ensures
        r.0 as int == char_span(h@, s, e).0,
        r.1 as int == char_span(h@, s, e).1,
        r.0 <= r.1 <= h@.len(),
{
    proof {
        lemma_char_span(h@, s, e);
    }
    let a = char_index_of_byte(h, s).unwrap();
    let b = char_index_of_byte(h, e).unwrap();
    (a, b)
}

/// The text of group `i`.
pub fn group_chars(h: &[char], caps: &Vec<Group>, i: usize) -> (r: Option<Vec<char>>)
    requires
        caps_ok(h@, caps@),
    ensures
        match r {
            Some(v) => group_text(h@, caps@, i as int) == Some(v@),
            None => group_text(h@, caps@, i as int) is None,
        },
{
    if i >= caps.len() {
        return None;
    }
    assert(group_ok(h@, caps@[i as int]));
    match caps[i] {
        Some((s, e)) => {
            let (a, b) = char_span_exec(h, s, e);
            Some(copy_range(h, a, b))
        },
        None => None,
    }
}

} // verus!
