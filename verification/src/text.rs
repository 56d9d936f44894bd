//! Character-level text model shared by every parser of the crate.
//!
//! Text is held as a `Vec<char>` and specified over its view, a `Seq<char>`.
//! The spec functions here state what the `str` methods of std that the
//! wiki syntax relies on compute (`trim`, `lines`, `find`, `split`,
//! `replace`, ...), and each exec function is proved against them.
use vstd::prelude::*;
use vstd::slice::slice_to_vec;
use vstd::utf8::encode_utf8;

verus! {

// ---------------------------------------------------------------------------
// Specifications
// ---------------------------------------------------------------------------

/// `char::is_whitespace`: the Unicode `White_Space` property.
pub open spec fn is_ws(c: char) -> bool {
    let u = c as u32;
    ||| 0x09 <= u <= 0x0D
    ||| u == 0x20
    ||| u == 0x85
    ||| u == 0xA0
    ||| u == 0x1680
    ||| 0x2000 <= u <= 0x200A
    ||| u == 0x2028
    ||| u == 0x2029
    ||| u == 0x202F
    ||| u == 0x205F
    ||| u == 0x3000
}

/// `str::trim_start`.
pub open spec fn trim_start(s: Seq<char>) -> Seq<char>
    decreases s.len(),
{
    if s.len() > 0 && is_ws(s[0]) {
        trim_start(s.drop_first())
    } else {
        s
    }
}

/// `str::trim_end`.
pub open spec fn trim_end(s: Seq<char>) -> Seq<char>
    decreases s.len(),
{
    if s.len() > 0 && is_ws(s.last()) {
        trim_end(s.drop_last())
    } else {
        s
    }
}

/// `str::trim`.
pub open spec fn trim(s: Seq<char>) -> Seq<char> {
    trim_end(trim_start(s))
}

/// `s` begins with `p`.
pub open spec fn starts_with<T>(s: Seq<T>, p: Seq<T>) -> bool {
    p.len() <= s.len() && s.take(p.len() as int) == p
}

/// `p` occurs in `s` at index `k`.
pub open spec fn occurs_at<T>(s: Seq<T>, p: Seq<T>, k: int) -> bool {
    0 <= k && k + p.len() <= s.len() && s.subrange(k, k + p.len()) == p
}

/// The first index at or after `k` where `p` occurs in `s`.
pub open spec fn find_from<T>(s: Seq<T>, p: Seq<T>, k: int) -> Option<int>
    decreases s.len() + 1 - k,
{
    if k < 0 || k + p.len() > s.len() {
        None
    } else if occurs_at(s, p, k) {
        Some(k)
    } else {
        find_from(s, p, k + 1)
    }
}

/// `str::find` with a pattern string: the first index where `p` occurs.
pub open spec fn find_sub<T>(s: Seq<T>, p: Seq<T>) -> Option<int> {
    find_from(s, p, 0)
}

/// `str::contains` with a pattern string.
pub open spec fn contains_sub<T>(s: Seq<T>, p: Seq<T>) -> bool {
    find_sub(s, p) is Some
}

/// The first index at or after `k` that holds `c`.
pub open spec fn find_elem_from<T>(s: Seq<T>, c: T, k: int) -> Option<int>
    decreases s.len() - k,
{
    if k < 0 || k >= s.len() {
        None
    } else if s[k] == c {
        Some(k)
    } else {
        find_elem_from(s, c, k + 1)
    }
}

/// `str::find` with a `char` pattern.
pub open spec fn find_elem<T>(s: Seq<T>, c: T) -> Option<int> {
    find_elem_from(s, c, 0)
}

/// `str::rfind` with a `char` pattern: the last index that holds `c`.
pub open spec fn rfind_elem<T>(s: Seq<T>, c: T) -> Option<int>
    decreases s.len(),
{
    if s.len() == 0 {
        None
    } else if s.last() == c {
        Some(s.len() - 1)
    } else {
        rfind_elem(s.drop_last(), c)
    }
}

/// `str::split` with a `char` separator: always at least one piece.
pub open spec fn split_on<T>(s: Seq<T>, c: T) -> Seq<Seq<T>>
    decreases s.len(),
{
    match find_elem(s, c) {
        Some(k) => {
            proof {
                lemma_find_elem_range(s, c, 0);
            }
            seq![s.take(k)] + split_on(s.skip(k + 1), c)
        },
        None => seq![s],
    }
}

/// One line as `str::lines` yields it: a trailing carriage return is dropped.
pub open spec fn strip_cr(l: Seq<char>) -> Seq<char> {
    if l.len() > 0 && l.last() == '\r' {
        l.drop_last()
    } else {
        l
    }
}

/// `str::lines`: the text split at `\n`, each line without a trailing `\r`,
/// and no final empty line after a final line ending.
pub open spec fn lines_of(s: Seq<char>) -> Seq<Seq<char>>
    decreases s.len(),
{
    if s.len() == 0 {
        Seq::empty()
    } else {
        match find_elem(s, '\n') {
            Some(k) => {
                proof {
                    lemma_find_elem_range(s, '\n', 0);
                }
                seq![strip_cr(s.take(k))] + lines_of(s.skip(k + 1))
            },
            None => seq![s],
        }
    }
}

/// `slice::join`: the pieces with `sep` between each two neighbours.
pub open spec fn join(pieces: Seq<Seq<char>>, sep: Seq<char>) -> Seq<char>
    decreases pieces.len(),
{
    if pieces.len() == 0 {
        Seq::empty()
    } else if pieces.len() == 1 {
        pieces[0]
    } else {
        join(pieces.drop_last(), sep) + sep + pieces.last()
    }
}

/// `str::replace`: every non-overlapping occurrence of `from`, scanned from
/// the left, replaced by `to` (`from` is not empty).
pub open spec fn replace_all(s: Seq<char>, from: Seq<char>, to: Seq<char>) -> Seq<char>
    decreases s.len(),
{
    if from.len() == 0 {
        s
    } else {
        match find_sub(s, from) {
            Some(k) => {
                proof {
                    lemma_find_from_range(s, from, 0);
                }
                s.take(k) + to + replace_all(s.skip(k + from.len()), from, to)
            },
            None => s,
        }
    }
}

/// The number of times `c` occurs in `s`.
pub open spec fn count_elem<T>(s: Seq<T>, c: T) -> nat
    decreases s.len(),
{
    if s.len() == 0 {
        0
    } else {
        count_elem(s.drop_last(), c) + if s.last() == c { 1nat } else { 0nat }
    }
}

/// `char::is_ascii_digit`.
pub open spec fn is_digit(c: char) -> bool {
    '0' <= c <= '9'
}

/// `char::to_ascii_lowercase`.
pub open spec fn ascii_lower(c: char) -> char {
    if 'A' <= c <= 'Z' {
        ((c as u32) + 32) as char
    } else {
        c
    }
}

/// `str::eq_ignore_ascii_case`.
pub open spec fn eq_ignore_ascii_case(a: Seq<char>, b: Seq<char>) -> bool {
    a.len() == b.len() && forall|i: int| 0 <= i < a.len() ==> ascii_lower(a[i]) == ascii_lower(b[i])
}

/// The number of bytes of the UTF-8 encoding of `c` (`char::len_utf8`).
pub open spec fn char_width(c: char) -> nat {
    let u = c as u32;
    if u < 0x80 {
        1
    } else if u < 0x800 {
        2
    } else if u < 0x10000 {
        3
    } else {
        4
    }
}

/// The number of bytes of the UTF-8 encoding of `s` (`str::len`).
pub open spec fn byte_len(s: Seq<char>) -> nat
    decreases s.len(),
{
    if s.len() == 0 {
        0
    } else {
        byte_len(s.drop_last()) + char_width(s.last())
    }
}

/// `b` is a byte offset of `s` that falls between two characters, where a
/// `str` may be sliced without a panic.
pub open spec fn is_boundary(s: Seq<char>, b: int) -> bool {
    exists|k: int| 0 <= k <= s.len() && byte_len(s.take(k)) == b
}

/// The index of the character that begins at byte offset `b`, if `b` falls
/// between two characters of `s`.
pub open spec fn char_index_at(s: Seq<char>, b: int) -> Option<int> {
    if is_boundary(s, b) {
        Some(choose|k: int| 0 <= k <= s.len() && byte_len(s.take(k)) == b)
    } else {
        None
    }
}

/// A name for `str::to_lowercase`: the Unicode lowercase mapping of the whole
/// string. It is given by Unicode's case tables, which nothing here restates.
pub uninterp spec fn lowercase(s: Seq<char>) -> Seq<char>;

/// Every character is ASCII.
pub open spec fn all_ascii(s: Seq<char>) -> bool {
    forall|i: int| 0 <= i < s.len() ==> (s[i] as u32) < 128
}

/// Each ASCII letter lowered, every other character kept.
pub open spec fn ascii_lowered(s: Seq<char>) -> Seq<char> {
    s.map_values(|c: char| ascii_lower(c))
}

/// What `str::to_lowercase` gives: on ASCII text, each letter lowered (the
/// Unicode lowercase of `A`..`Z` is `a`..`z`, and other ASCII characters
/// have none); on other text, the name `lowercase`.
pub open spec fn lowered(s: Seq<char>) -> Seq<char> {
    if all_ascii(s) {
        ascii_lowered(s)
    } else {
        lowercase(s)
    }
}

/// The contents of each `Vec<char>` of a sequence.
pub open spec fn views(v: Seq<Vec<char>>) -> Seq<Seq<char>> {
    v.map_values(|x: Vec<char>| x@)
}

// ---------------------------------------------------------------------------
// Lemmas
// ---------------------------------------------------------------------------

pub proof fn lemma_find_elem_range<T>(s: Seq<T>, c: T, k: int)
    ensures
        find_elem_from(s, c, k) matches Some(x) ==> k <= x < s.len() && s[x] == c && forall|j: int|
            k <= j < x ==> s[j] != c,
    decreases s.len() - k,
{
    if 0 <= k < s.len() && s[k] != c {
        lemma_find_elem_range(s, c, k + 1);
    }
}

pub proof fn lemma_find_elem_none<T>(s: Seq<T>, c: T, k: int)
    requires
        0 <= k,
        find_elem_from(s, c, k) is None,
    ensures
        forall|j: int| k <= j < s.len() ==> s[j] != c,
    decreases s.len() - k,
{
    if k < s.len() {
        lemma_find_elem_none(s, c, k + 1);
    }
}

pub proof fn lemma_find_from_range<T>(s: Seq<T>, p: Seq<T>, k: int)
    ensures
        find_from(s, p, k) matches Some(x) ==> k <= x && occurs_at(s, p, x),
    decreases s.len() + 1 - k,
{
    if 0 <= k && k + p.len() <= s.len() && !occurs_at(s, p, k) {
        lemma_find_from_range(s, p, k + 1);
    }
}

/// A trimmed string is a piece of the string: its characters are the
/// string's characters from some index on.
pub proof fn lemma_trim_sub(s: Seq<char>)
    ensures
        exists|a: int, b: int| 0 <= a <= b <= s.len() && trim(s) == s.subrange(a, b),
        all_ascii(s) ==> all_ascii(trim(s)),
    decreases s.len(),
{
    lemma_trim_start_sub(s);
    let t = trim_start(s);
    let a = choose|a: int| 0 <= a <= s.len() && t == s.skip(a);
    lemma_trim_end_sub(t);
    let b = choose|b: int| 0 <= b <= t.len() && trim_end(t) == t.take(b);
    assert(trim(s) =~= s.subrange(a, a + b));
    if all_ascii(s) {
        assert forall|i: int| 0 <= i < trim(s).len() implies (trim(s)[i] as u32) < 128 by {
            assert(trim(s)[i] == s[a + i]);
        }
    }
}

proof fn lemma_trim_start_sub(s: Seq<char>)
    ensures
        exists|a: int| 0 <= a <= s.len() && trim_start(s) == s.skip(a),
    decreases s.len(),
{
    if s.len() > 0 && is_ws(s[0]) {
        lemma_trim_start_sub(s.drop_first());
        let a = choose|a: int| 0 <= a <= s.drop_first().len() && trim_start(s.drop_first()) == s.drop_first().skip(a);
        assert(s.drop_first().skip(a) =~= s.skip(a + 1));
    } else {
        assert(s.skip(0) =~= s);
    }
}

proof fn lemma_trim_end_sub(s: Seq<char>)
    ensures
        exists|b: int| 0 <= b <= s.len() && trim_end(s) == s.take(b),
    decreases s.len(),
{
    if s.len() > 0 && is_ws(s.last()) {
        lemma_trim_end_sub(s.drop_last());
        let b = choose|b: int| 0 <= b <= s.drop_last().len() && trim_end(s.drop_last()) == s.drop_last().take(b);
        assert(s.drop_last().take(b) =~= s.take(b));
    } else {
        assert(s.take(s.len() as int) =~= s);
    }
}

pub proof fn lemma_trim_start(s: Seq<char>, a: int)
    requires
        0 <= a <= s.len(),
        forall|k: int| 0 <= k < a ==> is_ws(s[k]),
        a == s.len() || !is_ws(s[a]),
    ensures
        trim_start(s) == s.skip(a),
    decreases a,
{
    if a > 0 {
        assert forall|k: int| 0 <= k < a - 1 implies is_ws(s.drop_first()[k]) by {
            assert(s.drop_first()[k] == s[k + 1]);
        }
        lemma_trim_start(s.drop_first(), a - 1);
        assert(s.drop_first().skip(a - 1) =~= s.skip(a));
    } else {
        assert(s.skip(0) =~= s);
    }
}

pub proof fn lemma_trim_end(s: Seq<char>, b: int)
    requires
        0 <= b <= s.len(),
        forall|k: int| b <= k < s.len() ==> is_ws(s[k]),
        b == 0 || !is_ws(s[b - 1]),
    ensures
        trim_end(s) == s.take(b),
    decreases s.len() - b,
{
    if b < s.len() {
        assert forall|k: int| b <= k < s.len() - 1 implies is_ws(s.drop_last()[k]) by {
            assert(s.drop_last()[k] == s[k]);
        }
        lemma_trim_end(s.drop_last(), b);
        assert(s.drop_last().take(b) =~= s.take(b));
    } else {
        assert(s.take(b) =~= s);
    }
}

pub proof fn lemma_find_elem_from<T>(s: Seq<T>, c: T, k: int, r: Option<int>)
    requires
        0 <= k <= s.len(),
        forall|j: int| k <= j < s.len() && (r matches Some(x) ==> j < x) ==> s[j] != c,
        r matches Some(x) ==> k <= x < s.len() && s[x] == c,
    ensures
        find_elem_from(s, c, k) == r,
    decreases s.len() - k,
{
    if k < s.len() && s[k] != c {
        lemma_find_elem_from(s, c, k + 1, r);
    }
}

pub proof fn lemma_find_from<T>(s: Seq<T>, p: Seq<T>, k: int, r: Option<int>)
    requires
        0 <= k,
        forall|j: int| k <= j && (r matches Some(x) ==> j < x) ==> !occurs_at(s, p, j),
        r matches Some(x) ==> k <= x && occurs_at(s, p, x),
    ensures
        find_from(s, p, k) == r,
    decreases s.len() + 1 - k,
{
    if k + p.len() <= s.len() && !occurs_at(s, p, k) {
        lemma_find_from(s, p, k + 1, r);
    }
}

pub proof fn lemma_byte_len_take_step(s: Seq<char>, k: int)
    requires
        0 <= k < s.len(),
    ensures
        byte_len(s.take(k + 1)) == byte_len(s.take(k)) + char_width(s[k]),
{
    assert(s.take(k + 1).drop_last() =~= s.take(k));
}

pub proof fn lemma_byte_len_take_mono(s: Seq<char>, j: int, k: int)
    requires
        0 <= j <= k <= s.len(),
    ensures
        byte_len(s.take(j)) + (k - j) <= byte_len(s.take(k)),
        j < k ==> byte_len(s.take(j)) < byte_len(s.take(k)),
    decreases k - j,
{
    if j < k {
        lemma_byte_len_take_mono(s, j, k - 1);
        lemma_byte_len_take_step(s, k - 1);
    }
}

pub proof fn lemma_char_index_at(s: Seq<char>, b: int, k: int)
    requires
        0 <= k <= s.len(),
        byte_len(s.take(k)) == b,
    ensures
        char_index_at(s, b) == Some(k),
{
    let k2 = choose|k2: int| 0 <= k2 <= s.len() && byte_len(s.take(k2)) == b;
    if k2 < k {
        lemma_byte_len_take_mono(s, k2, k);
    } else if k < k2 {
        lemma_byte_len_take_mono(s, k, k2);
    }
}

// ---------------------------------------------------------------------------
// Conversions
// ---------------------------------------------------------------------------

/// The characters of `s`, in order.
pub fn chars_of(s: &str) -> (v: Vec<char>)
    ensures
        v@ == s@,
{
    let mut v: Vec<char> = Vec::new();
    for c in it: s.chars()
        invariant
            v@ == it.seq().take(it.index() as int),
    {
        v.push(c);
    }
    v
}

/// Builds a `String` holding the characters of `v` (std's `FromIterator<&char>`
/// for `String`, which pushes each character in turn).
#[verifier::external_body]
pub(crate) fn string_from_chars(v: &[char]) -> (s: String)
    ensures
        s@ == v@,
{
    v.iter().collect()
}

/// `str::to_lowercase` on the string that `s` holds. The result is named
/// `lowercase`; of ASCII text it is stated, as the documentation's own
/// example shows (`"HELLO".to_lowercase() == "hello"`): each ASCII letter is
/// lowered and every other ASCII character is kept.
#[verifier::external_body]
pub(crate) fn to_lowercase(s: &[char]) -> (r: Vec<char>)
    ensures
        r@ == lowercase(s@),
        r@ == lowered(s@),
{
    let st: String = s.iter().collect();
    st.to_lowercase().chars().collect()
}

/// A copy of `s[a..b]`.
pub fn copy_range(s: &[char], a: usize, b: usize) -> (r: Vec<char>)
    requires
        a <= b <= s@.len(),
    ensures
        r@ == s@.subrange(a as int, b as int),
{
    slice_to_vec(&s[a..b])
}

/// Appends the characters of `s` to `out`.
pub fn push_str(out: &mut Vec<char>, s: &str)
    ensures
        final(out)@ == old(out)@ + s@,
{
    let v = chars_of(s);
    push_chars(out, &v);
}

/// Appends the characters of `v` to `out`.
pub fn push_chars(out: &mut Vec<char>, v: &[char])
    ensures
        final(out)@ == old(out)@ + v@,
{
    let mut i: usize = 0;
    while i < v.len()
        invariant
            0 <= i <= v@.len(),
            out@ == old(out)@ + v@.take(i as int),
        decreases v@.len() - i,
    {
        out.push(v[i]);
        i = i + 1;
        assert(v@.take(i as int) =~= v@.take(i - 1 as int).push(v@[i - 1]));
    }
    assert(v@.take(v@.len() as int) =~= v@);
}

// ---------------------------------------------------------------------------
// Queries
// ---------------------------------------------------------------------------

/// `char::is_whitespace`.
pub fn is_whitespace(c: char) -> (b: bool)
    ensures
        b == is_ws(c),
{
    let u: u32 = c as u32;
    (0x09 <= u && u <= 0x0D) || u == 0x20 || u == 0x85 || u == 0xA0 || u == 0x1680 || (0x2000
        <= u && u <= 0x200A) || u == 0x2028 || u == 0x2029 || u == 0x202F || u == 0x205F || u
        == 0x3000
}

/// The bounds of `trim(s)` inside `s`.
pub fn trim_bounds(s: &[char]) -> (r: (usize, usize))
    ensures
        r.0 <= r.1 <= s@.len(),
        s@.subrange(r.0 as int, r.1 as int) == trim(s@),
{
    let mut a: usize = 0;
    while a < s.len() && is_whitespace(s[a])
        invariant
            0 <= a <= s@.len(),
            forall|k: int| 0 <= k < a ==> is_ws(s@[k]),
        decreases s@.len() - a,
    {
        a = a + 1;
    }
    let mut b: usize = s.len();
    while b > a && is_whitespace(s[b - 1])
        invariant
            a <= b <= s@.len(),
            forall|k: int| b <= k < s@.len() ==> is_ws(s@[k]),
        decreases b,
    {
        b = b - 1;
    }
    proof {
        lemma_trim_start(s@, a as int);
        let t = s@.skip(a as int);
        assert forall|k: int| b - a <= k < t.len() implies is_ws(t[k]) by {
            assert(t[k] == s@[k + a]);
        }
        if b > a {
            assert(t[b - a - 1] == s@[b - 1]);
        }
        lemma_trim_end(t, b - a);
        assert(t.take(b - a) =~= s@.subrange(a as int, b as int));
    }
    (a, b)
}

/// `str::trim`, as a copy.
pub fn trim_chars(s: &[char]) -> (r: Vec<char>)
    ensures
        r@ == trim(s@),
{
    let (a, b) = trim_bounds(s);
    copy_range(s, a, b)
}

/// `s` begins with `p`.
pub fn starts_with_chars(s: &[char], p: &[char]) -> (b: bool)
    ensures
        b == starts_with(s@, p@),
{
    if p.len() > s.len() {
        return false;
    }
    let mut i: usize = 0;
    while i < p.len()
        invariant
            p@.len() <= s@.len(),
            0 <= i <= p@.len(),
            forall|k: int| 0 <= k < i ==> s@[k] == p@[k],
        decreases p@.len() - i,
    {
        if s[i] != p[i] {
            assert(s@.take(p@.len() as int)[i as int] != p@[i as int]);
            return false;
        }
        i = i + 1;
    }
    assert(s@.take(p@.len() as int) =~= p@);
    true
}

/// `s` begins with the literal `p`.
pub fn starts_with_str(s: &[char], p: &str) -> (b: bool)
    ensures
        b == starts_with(s@, p@),
{
    let pv = chars_of(p);
    starts_with_chars(s, &pv)
}

/// `s` equals `p`.
pub fn eq_chars(s: &[char], p: &[char]) -> (b: bool)
    ensures
        b == (s@ == p@),
{
    if s.len() != p.len() {
        return false;
    }
    let r = starts_with_chars(s, p);
    assert(s@.take(p@.len() as int) =~= s@);
    r
}

/// `s` equals the literal `p`.
pub fn eq_str(s: &[char], p: &str) -> (b: bool)
    ensures
        b == (s@ == p@),
{
    let pv = chars_of(p);
    eq_chars(s, &pv)
}

/// Whether `p` occurs in `s` at index `k`.
pub fn occurs_at_exec(s: &[char], p: &[char], k: usize) -> (b: bool)
    ensures
        b == occurs_at(s@, p@, k as int),
{
    if k > s.len() || p.len() > s.len() - k {
        return false;
    }
    let mut i: usize = 0;
    while i < p.len()
        invariant
            k + p@.len() <= s@.len(),
            0 <= i <= p@.len(),
            forall|j: int| 0 <= j < i ==> s@[k + j] == p@[j],
        decreases p@.len() - i,
    {
        assert(k + i < s.len());
        if s[k + i] != p[i] {
            assert(s@.subrange(k as int, k + p@.len())[i as int] != p@[i as int]);
            return false;
        }
        i = i + 1;
    }
    assert(s@.subrange(k as int, k + p@.len()) =~= p@);
    true
}

/// `str::find` with a string pattern.
pub fn find_chars(s: &[char], p: &[char]) -> (r: Option<usize>)
    ensures
        r matches Some(k) ==> find_sub(s@, p@) == Some(k as int),
        r is None ==> find_sub(s@, p@) is None,
{
    if p.len() > s.len() {
        proof {
            lemma_find_from(s@, p@, 0, None);
        }
        return None;
    }
    let last: usize = s.len() - p.len();
    let mut k: usize = 0;
    while k < last
        invariant
            last + p@.len() == s@.len(),
            0 <= k <= last,
            forall|j: int| 0 <= j < k ==> !occurs_at(s@, p@, j),
        decreases last - k,
    {
        if occurs_at_exec(s, p, k) {
            proof {
                lemma_find_from(s@, p@, 0, Some(k as int));
            }
            return Some(k);
        }
        k = k + 1;
    }
    if occurs_at_exec(s, p, last) {
        proof {
            lemma_find_from(s@, p@, 0, Some(last as int));
        }
        return Some(last);
    }
    proof {
        lemma_find_from(s@, p@, 0, None);
    }
    None
}

/// `str::find` with a literal pattern.
pub fn find_str(s: &[char], p: &str) -> (r: Option<usize>)
    ensures
        r matches Some(k) ==> find_sub(s@, p@) == Some(k as int),
        r is None ==> find_sub(s@, p@) is None,
{
    let pv = chars_of(p);
    find_chars(s, &pv)
}

/// `str::contains` with a literal pattern.
pub fn contains_str(s: &[char], p: &str) -> (b: bool)
    ensures
        b == contains_sub(s@, p@),
{
    find_str(s, p).is_some()
}

/// `str::find` with a `char` pattern, searching from index `from`.
pub fn find_char_from(s: &[char], c: char, from: usize) -> (r: Option<usize>)
    requires
        from <= s@.len(),
    ensures
        r matches Some(k) ==> find_elem_from(s@, c, from as int) == Some(k as int),
        r is None ==> find_elem_from(s@, c, from as int) is None,
{
    let mut k: usize = from;
    while k < s.len()
        invariant
            from <= k <= s@.len(),
            forall|j: int| from <= j < k ==> s@[j] != c,
        decreases s@.len() - k,
    {
        if s[k] == c {
            proof {
                lemma_find_elem_from(s@, c, from as int, Some(k as int));
            }
            return Some(k);
        }
        k = k + 1;
    }
    proof {
        lemma_find_elem_from(s@, c, from as int, None);
    }
    None
}

/// `str::find` with a `char` pattern.
pub fn find_char(s: &[char], c: char) -> (r: Option<usize>)
    ensures
        r matches Some(k) ==> find_elem(s@, c) == Some(k as int),
        r is None ==> find_elem(s@, c) is None,
{
    find_char_from(s, c, 0)
}

pub proof fn lemma_rfind_elem<T>(s: Seq<T>, c: T, r: Option<int>)
    requires
        forall|j: int| 0 <= j < s.len() && (r matches Some(x) ==> x < j) ==> s[j] != c,
        r matches Some(x) ==> 0 <= x < s.len() && s[x] == c,
    ensures
        rfind_elem(s, c) == r,
    decreases s.len(),
{
    if s.len() > 0 && s.last() != c {
        assert forall|j: int|
            0 <= j < s.drop_last().len() && (r matches Some(x) ==> x < j) implies s.drop_last()[j]
            != c by {
            assert(s.drop_last()[j] == s[j]);
        }
        lemma_rfind_elem(s.drop_last(), c, r);
    }
}

pub proof fn lemma_rfind_range<T>(s: Seq<T>, c: T)
    ensures
        rfind_elem(s, c) matches Some(x) ==> 0 <= x < s.len() && s[x] == c,
    decreases s.len(),
{
    if s.len() > 0 && s.last() != c {
        lemma_rfind_range(s.drop_last(), c);
    }
}

pub proof fn lemma_rfind_none<T>(s: Seq<T>, c: T)
    requires
        rfind_elem(s, c) is None,
    ensures
        forall|j: int| 0 <= j < s.len() ==> s[j] != c,
    decreases s.len(),
{
    if s.len() > 0 {
        lemma_rfind_none(s.drop_last(), c);
        assert forall|j: int| 0 <= j < s.len() implies s[j] != c by {
            if j < s.len() - 1 {
                assert(s.drop_last()[j] == s[j]);
            }
        }
    }
}

/// `str::rfind` with a `char` pattern.
pub fn rfind_char(s: &[char], c: char) -> (r: Option<usize>)
    ensures
        r matches Some(k) ==> rfind_elem(s@, c) == Some(k as int),
        r is None ==> rfind_elem(s@, c) is None,
{
    let mut k: usize = s.len();
    while k > 0
        invariant
            0 <= k <= s@.len(),
            forall|j: int| k <= j < s@.len() ==> s@[j] != c,
        decreases k,
    {
        if s[k - 1] == c {
            proof {
                lemma_rfind_elem(s@, c, Some(k - 1 as int));
            }
            return Some(k - 1);
        }
        k = k - 1;
    }
    proof {
        lemma_rfind_elem(s@, c, None);
    }
    None
}

pub proof fn lemma_count_elem_step<T>(s: Seq<T>, c: T, k: int)
    requires
        0 <= k < s.len(),
    ensures
        count_elem(s.take(k + 1), c) == count_elem(s.take(k), c) + if s[k] == c {
            1nat
        } else {
            0nat
        },
{
    assert(s.take(k + 1).drop_last() =~= s.take(k));
}

/// The number of times `c` occurs in `s` (`str::matches(c).count()`).
pub fn count_char(s: &[char], c: char) -> (n: usize)
    ensures
        n == count_elem(s@, c),
{
    let mut n: usize = 0;
    let mut i: usize = 0;
    while i < s.len()
        invariant
            0 <= i <= s@.len(),
            n == count_elem(s@.take(i as int), c),
            n <= i,
        decreases s@.len() - i,
    {
        proof {
            lemma_count_elem_step(s@, c, i as int);
        }
        if s[i] == c {
            n = n + 1;
        }
        i = i + 1;
    }
    assert(s@.take(s@.len() as int) =~= s@);
    n
}


/// `str::split` with a `char` separator.
pub fn split_char(s: &[char], c: char) -> (r: Vec<Vec<char>>)
    ensures
        views(r@) == split_on(s@, c),
{
    let mut r: Vec<Vec<char>> = Vec::new();
    let mut start: usize = 0;
    assert(s@.skip(0) =~= s@);
    assert(views(r@) =~= Seq::<Seq<char>>::empty());
    loop
        invariant
            0 <= start <= s@.len(),
            views(r@) + split_on(s@.skip(start as int), c) == split_on(s@, c),
        decreases s@.len() - start,
    {
        let rest = &s[start..s.len()];
        assert(rest@ == s@.skip(start as int));
        match find_char(rest, c) {
            Some(k) => {
                proof {
                    lemma_find_elem_range(rest@, c, 0);
                }
                let piece = copy_range(rest, 0, k);
                proof {
                    assert(rest@.skip(k + 1) =~= s@.skip(start + k + 1));
                    assert(piece@ == rest@.take(k as int));
                    assert(views(r@).push(piece@) + split_on(s@.skip(start + k + 1), c)
                        =~= views(r@) + split_on(rest@, c));
                }
                let ghost dv = r@;
                r.push(piece);
                assert(views(r@) =~= views(dv).push(piece@));
                start = start + k + 1;
            },
            None => {
                let piece = copy_range(rest, 0, rest.len());
                proof {
                    assert(piece@ =~= rest@);
                    assert(views(r@).push(piece@) =~= views(r@) + split_on(rest@, c));
                }
                let ghost dv = r@;
                r.push(piece);
                assert(views(r@) =~= views(dv).push(piece@));
                return r;
            },
        }
    }
}


/// `str::lines`.
pub fn lines(s: &[char]) -> (r: Vec<Vec<char>>)
    ensures
        views(r@) == lines_of(s@),
{
    let mut r: Vec<Vec<char>> = Vec::new();
    let mut start: usize = 0;
    assert(s@.skip(0) =~= s@);
    assert(views(r@) =~= Seq::<Seq<char>>::empty());
    while start < s.len()
        invariant
            0 <= start <= s@.len(),
            views(r@) + lines_of(s@.skip(start as int)) == lines_of(s@),
        decreases s@.len() - start,
    {
        let rest = &s[start..s.len()];
        assert(rest@ == s@.skip(start as int));
        match find_char(rest, '\n') {
            Some(k) => {
                proof {
                    lemma_find_elem_range(rest@, '\n', 0);
                }
                let end: usize = if k > 0 && rest[k - 1] == '\r' {
                    k - 1
                } else {
                    k
                };
                let piece = copy_range(rest, 0, end);
                proof {
                    assert(rest@.skip(k + 1) =~= s@.skip(start + k + 1));
                    assert(piece@ =~= strip_cr(rest@.take(k as int)));
                    assert(views(r@).push(piece@) + lines_of(s@.skip(start + k + 1)) =~= views(r@)
                        + lines_of(rest@));
                }
                let ghost dv = r@;
                r.push(piece);
                assert(views(r@) =~= views(dv).push(piece@));
                start = start + k + 1;
            },
            None => {
                let piece = copy_range(rest, 0, rest.len());
                proof {
                    assert(piece@ =~= rest@);
                    assert(views(r@).push(piece@) =~= views(r@) + lines_of(rest@));
                }
                let ghost dv = r@;
                r.push(piece);
                assert(views(r@) =~= views(dv).push(piece@));
                assert(s@.skip(s@.len() as int) =~= Seq::<char>::empty());
                return r;
            },
        }
    }
    assert(views(r@) + lines_of(s@.skip(start as int)) =~= views(r@));
    r
}

/// `slice::join` of character vectors.
pub fn join_chars(pieces: &[Vec<char>], sep: &[char]) -> (r: Vec<char>)
    ensures
        r@ == join(views(pieces@), sep@),
{
    let mut r: Vec<char> = Vec::new();
    let mut i: usize = 0;
    while i < pieces.len()
        invariant
            0 <= i <= pieces@.len(),
            r@ == join(views(pieces@).take(i as int), sep@),
        decreases pieces@.len() - i,
    {
        proof {
            assert(views(pieces@).take(i + 1).drop_last() =~= views(pieces@).take(i as int));
        }
        if i > 0 {
            push_chars(&mut r, sep);
        } else {
            assert(join(views(pieces@).take(0), sep@) =~= Seq::<char>::empty());
        }
        push_chars(&mut r, &pieces[i]);
        i = i + 1;
        proof {
            if i == 1 {
                assert(r@ =~= views(pieces@).take(1)[0]);
            }
        }
    }
    assert(views(pieces@).take(pieces@.len() as int) =~= views(pieces@));
    r
}

/// `str::replace`.
pub fn replace_chars(s: &[char], from: &[char], to: &[char]) -> (r: Vec<char>)
    requires
        from@.len() > 0,
    ensures
        r@ == replace_all(s@, from@, to@),
{
    let mut r: Vec<char> = Vec::new();
    let mut start: usize = 0;
    assert(s@.skip(0) =~= s@);
    loop
        invariant
            from@.len() > 0,
            0 <= start <= s@.len(),
            r@ + replace_all(s@.skip(start as int), from@, to@) == replace_all(s@, from@, to@),
        decreases s@.len() - start,
    {
        let rest = &s[start..s.len()];
        assert(rest@ == s@.skip(start as int));
        match find_chars(rest, from) {
            Some(k) => {
                proof {
                    lemma_find_from_range(rest@, from@, 0);
                }
                let piece = copy_range(rest, 0, k);
                proof {
                    assert(rest@.skip(k + from@.len()) =~= s@.skip(start + k + from@.len()));
                    assert(r@ + piece@ + to@ + replace_all(rest@.skip(k + from@.len()), from@, to@)
                        =~= r@ + replace_all(rest@, from@, to@));
                }
                push_chars(&mut r, &piece);
                push_chars(&mut r, to);
                start = start + k + from.len();
            },
            None => {
                push_chars(&mut r, rest);
                return r;
            },
        }
    }
}

/// `char::len_utf8`.
pub fn char_len_utf8(c: char) -> (n: usize)
    ensures
        n == char_width(c),
        1 <= n <= 4,
{
    let u: u32 = c as u32;
    if u < 0x80 {
        1
    } else if u < 0x800 {
        2
    } else if u < 0x10000 {
        3
    } else {
        4
    }
}

/// The index of the character that begins at byte offset `b` of the UTF-8
/// encoding of `s`, if `b` falls between two characters.
pub fn char_index_of_byte(s: &[char], b: usize) -> (r: Option<usize>)
    ensures
        r matches Some(k) ==> char_index_at(s@, b as int) == Some(k as int),
        r is None ==> char_index_at(s@, b as int) is None,
{
    let mut k: usize = 0;
    let mut acc: usize = 0;
    while k < s.len() && acc < b
        invariant
            0 <= k <= s@.len(),
            acc == byte_len(s@.take(k as int)),
            acc <= b,
        decreases s@.len() - k,
    {
        let w = char_len_utf8(s[k]);
        proof {
            lemma_byte_len_take_step(s@, k as int);
        }
        if w > b - acc {
            proof {
                assert forall|j: int| 0 <= j <= s@.len() implies byte_len(s@.take(j)) != b by {
                    if j <= k {
                        lemma_byte_len_take_mono(s@, j, k as int);
                    } else {
                        lemma_byte_len_take_mono(s@, k + 1, j);
                    }
                }
            }
            return None;
        }
        acc = acc + w;
        k = k + 1;
    }
    if acc == b {
        proof {
            lemma_char_index_at(s@, b as int, k as int);
        }
        Some(k)
    } else {
        proof {
            assert(k == s@.len());
            assert forall|j: int| 0 <= j <= s@.len() implies byte_len(s@.take(j)) != b by {
                lemma_byte_len_take_mono(s@, j, k as int);
            }
        }
        None
    }
}

/// `char::to_ascii_lowercase`.
pub fn to_ascii_lower(c: char) -> (r: char)
    ensures
        r == ascii_lower(c),
{
    if 'A' <= c && c <= 'Z' {
        let b: u8 = (c as u32) as u8 + 32;
        b as char
    } else {
        c
    }
}

/// `str::eq_ignore_ascii_case`.
pub fn eq_ignore_ascii_case_exec(a: &[char], b: &[char]) -> (r: bool)
    ensures
        r == eq_ignore_ascii_case(a@, b@),
{
    if a.len() != b.len() {
        return false;
    }
    let mut i: usize = 0;
    while i < a.len()
        invariant
            a@.len() == b@.len(),
            0 <= i <= a@.len(),
            forall|j: int| 0 <= j < i ==> ascii_lower(a@[j]) == ascii_lower(b@[j]),
        decreases a@.len() - i,
    {
        if to_ascii_lower(a[i]) != to_ascii_lower(b[i]) {
            return false;
        }
        i = i + 1;
    }
    true
}


/// The contents of an optional `String`.
pub open spec fn opt_view(o: Option<String>) -> Option<Seq<char>> {
    match o {
        Some(s) => Some(s@),
        None => None,
    }
}

/// The UTF-8 bytes of the text `s` (`str::as_bytes`).
pub fn utf8_bytes(s: &[char]) -> (b: Vec<u8>)
    ensures
        b@ == encode_utf8(s@),
{
    let st = string_from_chars(s);
    slice_to_vec(st.as_str().as_bytes())
}


/// `str::split` with a `char` separator, each piece trimmed.
pub open spec fn split_trimmed(s: Seq<char>, c: char) -> Seq<Seq<char>> {
    split_on(s, c).map_values(|p: Seq<char>| trim(p))
}

pub proof fn lemma_split_on_nonempty<T>(s: Seq<T>, c: T)
    ensures
        split_on(s, c).len() >= 1,
    decreases s.len(),
{
    match find_elem(s, c) {
        Some(k) => {
            lemma_find_elem_range(s, c, 0);
        },
        None => {},
    }
}

/// `str::split` with a `char` separator, each piece trimmed.
pub fn split_trim(s: &[char], c: char) -> (r: Vec<Vec<char>>)
    ensures
        views(r@) == split_trimmed(s@, c),
        r@.len() >= 1,
{
    let pieces = split_char(s, c);
    proof {
        lemma_split_on_nonempty(s@, c);
    }
    let mut r: Vec<Vec<char>> = Vec::new();
    let mut i: usize = 0;
    while i < pieces.len()
        invariant
            views(pieces@) == split_on(s@, c),
            0 <= i <= pieces@.len(),
            views(r@) == split_trimmed(s@, c).take(i as int),
        decreases pieces@.len() - i,
    {
        let t = trim_chars(&pieces[i]);
        let ghost dv = r@;
        r.push(t);
        assert(views(r@) =~= views(dv).push(t@));
        assert(split_trimmed(s@, c).take(i + 1) =~= split_trimmed(s@, c).take(i as int).push(
            trim(split_on(s@, c)[i as int]),
        ));
        i = i + 1;
    }
    assert(split_trimmed(s@, c).take(pieces@.len() as int) =~= split_trimmed(s@, c));
    r
}


pub proof fn lemma_byte_len_first(s: Seq<char>)
    requires
        s.len() > 0,
    ensures
        byte_len(s) == char_width(s[0]) + byte_len(s.drop_first()),
    decreases s.len(),
{
    if s.len() > 1 {
        lemma_byte_len_first(s.drop_last());
        assert(s.drop_last().drop_first() =~= s.drop_first().drop_last());
    } else {
        assert(s.drop_last() =~= Seq::<char>::empty());
        assert(s.drop_first() =~= Seq::<char>::empty());
    }
}

pub proof fn lemma_encode_utf8_len(s: Seq<char>)
    ensures
        encode_utf8(s).len() == byte_len(s),
    decreases s.len(),
{
    if s.len() > 0 {
        lemma_encode_utf8_len(s.drop_first());
        lemma_byte_len_first(s);
        vstd::utf8::char_is_scalar(s[0]);
    }
}

/// The number of bytes of the UTF-8 encoding of `s[..k]`.
pub fn prefix_byte_len(s: &[char], k: usize) -> (n: usize)
    requires
        k <= s@.len(),
    ensures
        n == byte_len(s@.take(k as int)),
{
    let head = copy_range(s, 0, k);
    let bytes = utf8_bytes(&head);
    proof {
        lemma_encode_utf8_len(head@);
    }
    bytes.len()
}


/// The total length of the pieces.
pub open spec fn sum_lens(ls: Seq<Seq<char>>) -> nat
    decreases ls.len(),
{
    if ls.len() == 0 {
        0
    } else {
        sum_lens(ls.drop_last()) + ls.last().len()
    }
}

pub proof fn lemma_sum_lens_append(a: Seq<Seq<char>>, b: Seq<Seq<char>>)
    ensures
        sum_lens(a + b) == sum_lens(a) + sum_lens(b),
    decreases b.len(),
{
    if b.len() == 0 {
        assert(a + b =~= a);
    } else {
        lemma_sum_lens_append(a, b.drop_last());
        assert((a + b).drop_last() =~= a + b.drop_last());
    }
}

pub proof fn lemma_sum_lens_single(x: Seq<char>)
    ensures
        sum_lens(seq![x]) == x.len(),
{
    let l = seq![x];
    assert(l.drop_last() =~= Seq::<Seq<char>>::empty());
    assert(sum_lens(l.drop_last()) == 0);
    assert(l.last() == x);
}

pub proof fn lemma_lines_size(s: Seq<char>)
    ensures
        sum_lens(lines_of(s)) + lines_of(s).len() <= s.len() + 1,
    decreases s.len(),
{
    if s.len() > 0 {
        match find_elem(s, '\n') {
            Some(k) => {
                lemma_find_elem_range(s, '\n', 0);
                lemma_lines_size(s.skip(k + 1));
                lemma_sum_lens_append(seq![strip_cr(s.take(k))], lines_of(s.skip(k + 1)));
                lemma_sum_lens_single(strip_cr(s.take(k)));
            },
            None => {
                lemma_sum_lens_single(s);
            },
        }
    }
}

pub proof fn lemma_join_len(ls: Seq<Seq<char>>, sep: Seq<char>)
    requires
        sep.len() == 1,
    ensures
        join(ls, sep).len() <= sum_lens(ls) + ls.len(),
    decreases ls.len(),
{
    if ls.len() > 1 {
        lemma_join_len(ls.drop_last(), sep);
    }
}

/// The pieces strictly between two lines of a text, joined by line feeds,
/// are shorter than the text.
pub proof fn lemma_inner_lines_shorter(s: Seq<char>, i: int, j: int)
    requires
        0 <= i < j < lines_of(s).len(),
        lines_of(s)[i].len() >= 2,
    ensures
        join(lines_of(s).subrange(i + 1, j), seq!['\n']).len() + 1 <= s.len(),
{
    let ls = lines_of(s);
    let sub = ls.subrange(i + 1, j);
    lemma_lines_size(s);
    lemma_join_len(sub, seq!['\n']);
    assert(ls =~= ls.take(i) + seq![ls[i]] + sub + ls.skip(j));
    lemma_sum_lens_append(ls.take(i) + seq![ls[i]] + sub, ls.skip(j));
    lemma_sum_lens_append(ls.take(i) + seq![ls[i]], sub);
    lemma_sum_lens_append(ls.take(i), seq![ls[i]]);
    lemma_sum_lens_single(ls[i]);
}

/// Joining a first piece before a non-empty rest puts the separator
/// between them.
pub proof fn lemma_join_cons(a: Seq<char>, rest: Seq<Seq<char>>, sep: Seq<char>)
    requires
        rest.len() > 0,
    ensures
        join(seq![a] + rest, sep) == a + sep + join(rest, sep),
    decreases rest.len(),
{
    let s = seq![a] + rest;
    assert(s.last() == rest.last());
    if rest.len() == 1 {
        assert(s.drop_last() =~= seq![a]);
        assert(join(seq![a], sep) == a);
        assert(join(rest, sep) == rest[0]);
        assert(join(s, sep) == join(s.drop_last(), sep) + sep + s.last());
    } else {
        assert(s.drop_last() =~= seq![a] + rest.drop_last());
        lemma_join_cons(a, rest.drop_last(), sep);
        assert(join(s, sep) == join(s.drop_last(), sep) + sep + s.last());
        assert(join(rest, sep) == join(rest.drop_last(), sep) + sep + rest.last());
        assert(join(s, sep) =~= a + sep + join(rest, sep));
    }
}

/// Splitting at `c` and joining the pieces with `c` gives back the text.
pub proof fn law_split_join(s: Seq<char>, c: char)
    ensures
        join(split_on(s, c), seq![c]) == s,
        split_on(s, c).len() >= 1,
        forall|i: int| 0 <= i < split_on(s, c).len() ==> !(#[trigger] split_on(s, c)[i]).contains(c),
    decreases s.len(),
{
    lemma_find_elem_range(s, c, 0);
    match find_elem(s, c) {
        Some(k) => {
            let rest = split_on(s.skip(k + 1), c);
            law_split_join(s.skip(k + 1), c);
            lemma_join_cons(s.take(k), rest, seq![c]);
            assert(s.take(k) + seq![c] + s.skip(k + 1) =~= s);
            let parts = split_on(s, c);
            assert(parts == seq![s.take(k)] + rest);
            assert forall|i: int| 0 <= i < parts.len() implies !(#[trigger] parts[i]).contains(c) by {
                if i == 0 {
                    assert(parts[0] == s.take(k));
                    if s.take(k).contains(c) {
                        let j = choose|j: int| 0 <= j < s.take(k).len() && s.take(k)[j] == c;
                        assert(s[j] == c);
                    }
                } else {
                    assert(parts[i] == rest[i - 1]);
                }
            }
        },
        None => {
            lemma_find_elem_none(s, c, 0);
            assert(split_on(s, c) == seq![s]);
            assert(join(seq![s], seq![c]) == s);
            assert(split_on(s, c)[0] == s);
        },
    }
}

/// Joining the lines of a text without carriage returns by line feeds
/// gives back the text, less one final line feed.
pub proof fn law_lines_join(s: Seq<char>)
    requires
        !s.contains('\r'),
    ensures
        join(lines_of(s), seq!['\n']) == (if s.len() > 0 && s.last() == '\n' {
            s.drop_last()
        } else {
            s
        }),
    decreases s.len(),
{
    if s.len() > 0 {
        lemma_find_elem_range(s, '\n', 0);
        match find_elem(s, '\n') {
            Some(k) => {
                let head = s.take(k);
                assert(strip_cr(head) == head) by {
                    if head.len() > 0 {
                        assert(head.last() == s[k - 1]);
                    }
                }
                let t = s.skip(k + 1);
                assert(!t.contains('\r')) by {
                    if t.contains('\r') {
                        let j = choose|j: int| 0 <= j < t.len() && t[j] == '\r';
                        assert(s[k + 1 + j] == '\r');
                    }
                }
                law_lines_join(t);
                if t.len() == 0 {
                    assert(lines_of(t) =~= Seq::<Seq<char>>::empty());
                    assert(lines_of(s) =~= seq![head]);
                    assert(s.drop_last() =~= head);
                } else {
                    if lines_of(t).len() == 0 {
                        lemma_lines_nonempty(t);
                    }
                    lemma_join_cons(head, lines_of(t), seq!['\n']);
                    assert(s.last() == t.last());
                    if t.last() == '\n' {
                        assert(head + seq!['\n'] + t.drop_last() =~= s.drop_last());
                    } else {
                        assert(head + seq!['\n'] + t =~= s);
                    }
                }
            },
            None => {
                lemma_find_elem_none(s, '\n', 0);
                assert(strip_cr(s) == s);
                assert(join(seq![s], seq!['\n']) == s);
            },
        }
    }
}

proof fn lemma_lines_nonempty(t: Seq<char>)
    requires
        t.len() > 0,
    ensures
        lines_of(t).len() > 0,
{
}

/// In ASCII text each character is one byte: the first `k` characters take
/// `k` bytes, and byte offset `k` is character index `k`.
pub proof fn lemma_ascii_offsets(s: Seq<char>, k: int)
    requires
        all_ascii(s),
        0 <= k <= s.len(),
    ensures
        byte_len(s.take(k)) == k,
        char_index_at(s, k) == Some(k),
    decreases k,
{
    if k > 0 {
        lemma_ascii_offsets(s, k - 1);
        lemma_byte_len_take_step(s, k - 1);
    } else {
        assert(s.take(0) =~= Seq::<char>::empty());
    }
    lemma_char_index_at(s, k, k);
}

/// A prefix, lowered letter by letter, that is a given text of `n`
/// characters is found at the start of the lowered text.
pub proof fn lemma_lowered_prefix(s: Seq<char>, p: Seq<char>)
    requires
        all_ascii(s),
        p.len() <= s.len(),
        ascii_lowered(s.take(p.len() as int)) == p,
    ensures
        find_sub(lowered(s), p) == Some(0int),
{
    let l = lowered(s);
    assert(l.subrange(0, p.len() as int) =~= ascii_lowered(s.take(p.len() as int)));
    lemma_find_from(l, p, 0, Some(0));
}

} // verus!
