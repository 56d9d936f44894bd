//! Inline markup of one line, read from its text or from its bytes.
pub mod binary;
pub mod text;

use crate::parser_options::{ParseMode, ParserOptions};
use vstd::prelude::*;

verus! {

/// `u8::is_ascii_whitespace`: space, tab, line feed, form feed, carriage return.
pub open spec fn is_ascii_ws(b: u8) -> bool {
    b == 0x20u8 || b == 0x09u8 || b == 0x0Au8 || b == 0x0Cu8 || b == 0x0Du8
}

/// `s` without its leading and trailing ASCII whitespace.
pub open spec fn trim_ascii_ws(s: Seq<u8>) -> Seq<u8>
    decreases s.len(),
{
    if s.len() > 0 && is_ascii_ws(s[0]) {
        trim_ascii_ws(s.drop_first())
    } else if s.len() > 0 && is_ascii_ws(s.last()) {
        trim_ascii_ws(s.drop_last())
    } else {
        s
    }
}

/// Trimming keeps exactly the bytes from the first byte that is not ASCII
/// whitespace to the last one: given the span `a..b` with only whitespace
/// outside it and none at its ends, the trimmed bytes are `s[a..b]`.
pub proof fn lemma_trim_ascii_ws(s: Seq<u8>, a: int, b: int)
    requires
        0 <= a <= b <= s.len(),
        forall|k: int| 0 <= k < a ==> is_ascii_ws(s[k]),
        forall|k: int| b <= k < s.len() ==> is_ascii_ws(s[k]),
        a < b ==> !is_ascii_ws(s[a]) && !is_ascii_ws(s[b - 1]),
    ensures
        trim_ascii_ws(s) == s.subrange(a, b),
    decreases s.len(),
{
    if a > 0 {
        let t = s.drop_first();
        assert forall|k: int| 0 <= k < a - 1 implies is_ascii_ws(t[k]) by {
            assert(t[k] == s[k + 1]);
        }
        assert forall|k: int| b - 1 <= k < t.len() implies is_ascii_ws(t[k]) by {
            assert(t[k] == s[k + 1]);
        }
        lemma_trim_ascii_ws(t, a - 1, b - 1);
        assert(t.subrange(a - 1, b - 1) =~= s.subrange(a, b));
    } else if b < s.len() {
        let t = s.drop_last();
        if s.len() > 0 && is_ascii_ws(s[0]) {
            assert(a == b);
            let u = s.drop_first();
            assert forall|k: int| 0 <= k < u.len() implies is_ascii_ws(u[k]) by {
                assert(u[k] == s[k + 1]);
            }
            lemma_trim_ascii_ws(u, 0, 0);
            assert(u.subrange(0, 0) =~= s.subrange(a, b));
        } else {
            assert forall|k: int| b <= k < t.len() implies is_ascii_ws(t[k]) by {
                assert(t[k] == s[k]);
            }
            lemma_trim_ascii_ws(t, a, b);
            assert(t.subrange(a, b) =~= s.subrange(a, b));
        }
    } else {
        assert(s.subrange(a, b) =~= s);
    }
}

/// `u8::is_ascii_whitespace`.
fn is_ascii_whitespace(b: u8) -> (r: bool)
    ensures
        r == is_ascii_ws(b),
{
    b == 0x20u8 || b == 0x09u8 || b == 0x0Au8 || b == 0x0Cu8 || b == 0x0Du8
}

/// The part of `slice` without leading and trailing ASCII whitespace.
pub fn trim_bytes(slice: &[u8]) -> (r: &[u8])
    ensures
        r@ == trim_ascii_ws(slice@),
{
    let mut start: usize = 0;
    let mut end: usize = slice.len();
    while start < end && is_ascii_whitespace(slice[start])
        invariant
            0 <= start <= end == slice@.len(),
            forall|k: int| 0 <= k < start ==> is_ascii_ws(slice@[k]),
        decreases end - start,
    {
        start = start + 1;
    }
    while end > start && is_ascii_whitespace(slice[end - 1])
        invariant
            0 <= start <= end <= slice@.len(),
            forall|k: int| 0 <= k < start ==> is_ascii_ws(slice@[k]),
            forall|k: int| end <= k < slice@.len() ==> is_ascii_ws(slice@[k]),
            start < end ==> !is_ascii_ws(slice@[start as int]),
        decreases end,
    {
        end = end - 1;
    }
    proof {
        lemma_trim_ascii_ws(slice@, start as int, end as int);
    }
    &slice[start..end]
}

/// The rendered inline markup of a line, read from its text or its bytes.
pub open spec fn inline_elements(text: Seq<char>, bytes: Seq<u8>, options: ParserOptions) -> Seq<
    char,
> {
    match options.mode {
        ParseMode::Binary => binary::binary_inline(bytes, options.br_inline),
        ParseMode::Text => text::text_inline(text, options.br_inline),
    }
}

/// Renders the inline markup of one line as the options' mode says.
pub fn parse_inline_elements(text: &str, bytes: &[u8], options: &ParserOptions) -> (r: String)
    ensures
        r@ == inline_elements(text@, bytes@, *options),
{
    match options.mode {
        ParseMode::Binary => binary::parse_binary_inline(bytes, options),
        ParseMode::Text => text::parse_text_inline(text, options),
    }
}

} // verus!
