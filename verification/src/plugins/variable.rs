//! Constants and variables: `#const(name: type){value};` defines a constant
//! once, `#let(name: type){value};` sets a variable, and inline
//! `&const-use(name);`, `&let-use(name);` and `&relet(name);` read them.
use crate::matching::{
    caps_ok, captures, captures_all, char_span, char_span_exec, group_chars, group_ok,
    group_text, groups_of, lemma_char_index_mono, lemma_char_span, match_end, match_start,
    matches_ok, regex_captures, regex_captures_all, Group,
};
use crate::text::{
    byte_len, chars_of, copy_range, eq_chars, lemma_byte_len_take_mono, opt_view, push_chars,
    push_str, string_from_chars, trim, trim_chars,
};
use vstd::prelude::*;

verus! {

/// The pattern of a constant's definition.
pub const CONST_PATTERN: &'static str = r"(?i)^#const\(\s*([^:]+?)\s*:\s*([^)]+?)\s*\)\{([^\}]+?)\};";

/// The pattern of a variable's definition.
pub const LET_PATTERN: &'static str = r"(?i)^#let\(\s*([^:]+?)\s*:\s*([^)]+?)\s*\)\{([^\}]+?)\};";

/// The pattern of a constant's use.
pub const CONST_USE_PATTERN: &'static str = r"(?i)&const-use\(([^)]+?)\);";

/// The pattern of a variable's use.
pub const LET_USE_PATTERN: &'static str = r"(?i)&let-use\(([^)]+?)\);";

/// The pattern of a variable's reassignment check.
pub const RELET_PATTERN: &'static str = r"(?i)&relet\(([^)]+?)\);";

/// A table of names and their values.
pub type Table = Seq<(Seq<char>, Seq<char>)>;

/// The constants and the variables defined so far on a page.
#[derive(Debug, Clone)]
pub struct VariableContext {
    pub const_context: Vec<(String, String)>,
    pub let_context: Vec<(String, String)>,
}

/// The contents of a table of strings.
pub open spec fn table_of(v: Seq<(String, String)>) -> Table {
    v.map_values(|p: (String, String)| (p.0@, p.1@))
}

/// The value of `name` in the table.
pub open spec fn table_get(t: Table, name: Seq<char>) -> Option<Seq<char>>
    decreases t.len(),
{
    if t.len() == 0 {
        None
    } else if t[0].0 == name {
        Some(t[0].1)
    } else {
        table_get(t.drop_first(), name)
    }
}

/// The table with `name` set to `value`: its entry replaced in place, or a
/// new entry at the end.
pub open spec fn table_set(t: Table, name: Seq<char>, value: Seq<char>) -> Table
    decreases t.len(),
{
    if t.len() == 0 {
        seq![(name, value)]
    } else if t[0].0 == name {
        t.update(0, (name, value))
    } else {
        seq![t[0]] + table_set(t.drop_first(), name, value)
    }
}

/// No name stands twice in the table.
pub open spec fn distinct_names(t: Table) -> bool {
    forall|i: int, j: int| 0 <= i < j < t.len() ==> t[i].0 != t[j].0
}

impl VariableContext {
    /// The constants.
    pub open spec fn consts(self) -> Table {
        table_of(self.const_context@)
    }

    /// The variables.
    pub open spec fn lets(self) -> Table {
        table_of(self.let_context@)
    }

    /// Each name stands once in each table.
    pub open spec fn wf(self) -> bool {
        distinct_names(self.consts()) && distinct_names(self.lets())
    }

    /// An empty context.
    pub fn new() -> (c: Self)
        ensures
            c.consts() == Seq::<(Seq<char>, Seq<char>)>::empty(),
            c.lets() == Seq::<(Seq<char>, Seq<char>)>::empty(),
            c.wf(),
    {
        let c = VariableContext { const_context: Vec::new(), let_context: Vec::new() };
        assert(c.consts() =~= Seq::<(Seq<char>, Seq<char>)>::empty());
        assert(c.lets() =~= Seq::<(Seq<char>, Seq<char>)>::empty());
        c
    }
}

impl Default for VariableContext {
    /// An empty context, as `new` gives.
    fn default() -> (c: Self)
        ensures
            c.consts() == Seq::<(Seq<char>, Seq<char>)>::empty(),
            c.lets() == Seq::<(Seq<char>, Seq<char>)>::empty(),
            c.wf(),
    {
        VariableContext::new()
    }
}

/// The name, type and value of a definition, each trimmed; `None` if a
/// group did not take part.
pub open spec fn declaration(h: Seq<char>, caps: Seq<Group>) -> Option<(Seq<char>, Seq<char>, Seq<char>)> {
    match group_text(h, caps, 1) {
        Some(n) => match group_text(h, caps, 2) {
            Some(ty) => match group_text(h, caps, 3) {
                Some(v) => Some((trim(n), trim(ty), trim(v))),
                None => None,
            },
            None => None,
        },
        None => None,
    }
}

/// The message that a constant cannot be defined again.
pub open spec fn const_redefined_html(name: Seq<char>) -> Seq<char> {
    "<span style=\"color: red;\">定数 "@ + name + " は再定義不可！</span>"@
}

/// The hidden record of a constant's definition.
pub open spec fn const_defined_html(name: Seq<char>, ty: Seq<char>, value: Seq<char>) -> Seq<char> {
    "<span style=\"display: none; font-weight: bold;\">定数 "@ + name + "（"@ + ty + "） = "@ + value
        + "</span>"@
}

/// The hidden record of a variable's definition.
pub open spec fn let_defined_html(name: Seq<char>, ty: Seq<char>, value: Seq<char>) -> Seq<char> {
    "<span style=\"display: none; font-style: italic;\">変数 "@ + name + "（"@ + ty + "） ← "@ + value
        + "</span>"@
}

/// A constant's definition matched in `h`: the record and the new table;
/// a name that is already defined keeps its value and gets the message.
pub open spec fn const_from_captures(h: Seq<char>, caps: Seq<Group>, consts: Table) -> (Option<Seq<char>>, Table) {
    match declaration(h, caps) {
        Some((n, ty, v)) => if table_get(consts, n) is Some {
            (Some(const_redefined_html(n)), consts)
        } else {
            (Some(const_defined_html(n, ty, v)), table_set(consts, n, v))
        },
        None => (None, consts),
    }
}

/// A variable's definition matched in `h`: the record and the new table.
pub open spec fn let_from_captures(h: Seq<char>, caps: Seq<Group>, lets: Table) -> (Option<Seq<char>>, Table) {
    match declaration(h, caps) {
        Some((n, ty, v)) => (Some(let_defined_html(n, ty, v)), table_set(lets, n, v)),
        None => (None, lets),
    }
}

/// What `#const` gives for `line` and the constants after it.
pub open spec fn const_block(line: Seq<char>, consts: Table) -> (Option<Seq<char>>, Table) {
    let t = trim(line);
    match regex_captures(CONST_PATTERN@, t) {
        Some(Some(c)) => const_from_captures(t, c, consts),
        _ => (None, consts),
    }
}

/// What `#let` gives for `line` and the variables after it.
pub open spec fn let_block(line: Seq<char>, lets: Table) -> (Option<Seq<char>>, Table) {
    let t = trim(line);
    match regex_captures(LET_PATTERN@, t) {
        Some(Some(c)) => let_from_captures(t, c, lets),
        _ => (None, lets),
    }
}

/// The kinds of inline use.
#[derive(Debug, Clone, Copy, PartialEq, Eq, Structural)]
pub enum UseKind {
    ConstUse,
    LetUse,
    Relet,
}

/// What stands in place of a use of `name`.
pub open spec fn use_replacement(kind: UseKind, name: Seq<char>, consts: Table, lets: Table) -> Seq<char> {
    match kind {
        UseKind::ConstUse => match table_get(consts, name) {
            Some(v) => v,
            None => "[定数未定義:"@ + name + "]"@,
        },
        UseKind::LetUse => match table_get(lets, name) {
            Some(v) => v,
            None => "[変数未定義:"@ + name + "]"@,
        },
        UseKind::Relet => if table_get(lets, name) is Some {
            "<span style=\"display: none;\">再代入OK: "@ + name + "</span>"@
        } else {
            "<span style=\"color: red;\">再代入対象 `"@ + name + "` が未定義です</span>"@
        },
    }
}

/// `h` from character index `last` on, with matches `i..` replaced; `None`
/// where a match lacks group 1.
#[verifier::opaque]
pub open spec fn splice_uses(
    h: Seq<char>,
    ms: Seq<Seq<Group>>,
    kind: UseKind,
    consts: Table,
    lets: Table,
    i: int,
    last: int,
) -> Option<Seq<char>>
    decreases ms.len() - i,
{
    if i < 0 || i >= ms.len() {
        Some(h.subrange(last, h.len() as int))
    } else {
        let (a, b) = char_span(h, match_start(ms[i]), match_end(ms[i]));
        match group_text(h, ms[i], 1) {
            None => None,
            Some(g) => match splice_uses(h, ms, kind, consts, lets, i + 1, b) {
                Some(rest) => Some(h.subrange(last, a) + use_replacement(kind, trim(g), consts, lets)
                    + rest),
                None => None,
            },
        }
    }
}

/// The pattern of each kind of use.
pub open spec fn use_pattern(kind: UseKind) -> Seq<char> {
    match kind {
        UseKind::ConstUse => CONST_USE_PATTERN@,
        UseKind::LetUse => LET_USE_PATTERN@,
        UseKind::Relet => RELET_PATTERN@,
    }
}

/// One pass of `replace_all` for a kind of use; a pattern that does not
/// compile leaves the text as it is.
pub open spec fn replace_uses(h: Seq<char>, kind: UseKind, consts: Table, lets: Table) -> Option<Seq<char>> {
    match regex_captures_all(use_pattern(kind), h) {
        None => Some(h),
        Some(ms) => splice_uses(h, ms, kind, consts, lets, 0, 0),
    }
}

/// What `parse_variable_inline` gives: constant uses, then variable uses,
/// then reassignment checks replaced; `None` where a match lacks group 1.
pub open spec fn variable_inline(text: Seq<char>, consts: Table, lets: Table) -> Option<Seq<char>> {
    match replace_uses(text, UseKind::ConstUse, consts, lets) {
        None => None,
        Some(r1) => match replace_uses(r1, UseKind::LetUse, consts, lets) {
            None => None,
            Some(r2) => replace_uses(r2, UseKind::Relet, consts, lets),
        },
    }
}


proof fn lemma_table_set_first(t: Table, name: Seq<char>, value: Seq<char>, i: int)
    requires
        0 <= i <= t.len(),
        forall|j: int| 0 <= j < i ==> t[j].0 != name,
        i < t.len() ==> t[i].0 == name,
    ensures
        table_set(t, name, value) == if i < t.len() {
            t.update(i, (name, value))
        } else {
            t.push((name, value))
        },
        table_get(t, name) == if i < t.len() {
            Some(t[i].1)
        } else {
            None::<Seq<char>>
        },
    decreases i,
{
    if i > 0 {
        let u = t.drop_first();
        assert forall|j: int| 0 <= j < i - 1 implies u[j].0 != name by {
            assert(u[j] == t[j + 1]);
        }
        if i < t.len() {
            assert(u[i - 1] == t[i]);
        }
        lemma_table_set_first(u, name, value, i - 1);
        if i < t.len() {
            assert(seq![t[0]] + u.update(i - 1, (name, value)) =~= t.update(i, (name, value)));
        } else {
            assert(seq![t[0]] + u.push((name, value)) =~= t.push((name, value)));
        }
    } else if t.len() == 0 {
        assert(seq![(name, value)] =~= t.push((name, value)));
    }
}

/// Reading a table after setting a name gives the value set for that name
/// and the old value for every other name.
pub proof fn lemma_table_set_get(t: Table, name: Seq<char>, value: Seq<char>, other: Seq<char>)
    ensures
        table_get(table_set(t, name, value), name) == Some(value),
        other != name ==> table_get(table_set(t, name, value), other) == table_get(t, other),
    decreases t.len(),
{
    let r = table_set(t, name, value);
    if t.len() > 0 && t[0].0 != name {
        let rs = table_set(t.drop_first(), name, value);
        lemma_table_set_get(t.drop_first(), name, value, other);
        assert(r == seq![t[0]] + rs);
        assert(r[0] == t[0]);
        assert(r.drop_first() =~= rs);
        if other != name {
            if t[0].0 == other {
                assert(table_get(r, other) == Some(t[0].1));
            } else {
                assert(table_get(r, other) == table_get(rs, other));
                assert(table_get(t, other) == table_get(t.drop_first(), other));
            }
        }
    } else if t.len() > 0 {
        assert(r == t.update(0, (name, value)));
        assert(r[0] == (name, value));
        assert(r.drop_first() =~= t.drop_first());
        if other != name {
            assert(table_get(r, other) == table_get(t.drop_first(), other));
            assert(table_get(t, other) == table_get(t.drop_first(), other));
        }
    } else {
        assert(r == seq![(name, value)]);
        assert(r.drop_first() =~= Seq::<(Seq<char>, Seq<char>)>::empty());
        assert(r[0] == (name, value));
        if other != name {
            assert(table_get(r, other) == table_get(r.drop_first(), other));
        }
    }
}

/// Setting a name keeps each name once in the table.
pub proof fn lemma_table_set_distinct(t: Table, name: Seq<char>, value: Seq<char>)
    requires
        distinct_names(t),
    ensures
        distinct_names(table_set(t, name, value)),
    decreases t.len(),
{
    if t.len() > 0 && t[0].0 != name {
        let u = t.drop_first();
        assert forall|i: int, j: int| 0 <= i < j < u.len() implies u[i].0 != u[j].0 by {
            assert(u[i] == t[i + 1] && u[j] == t[j + 1]);
        }
        lemma_table_set_distinct(u, name, value);
        let r = table_set(t, name, value);
        let ru = table_set(u, name, value);
        lemma_table_set_keys(u, name, value);
        assert forall|i: int, j: int| 0 <= i < j < r.len() implies r[i].0 != r[j].0 by {
            if i == 0 {
                assert(r[j] == ru[j - 1]);
                if ru[j - 1].0 != name {
                    let k = choose|k: int| 0 <= k < u.len() && u[k].0 == ru[j - 1].0;
                    assert(u[k] == t[k + 1]);
                }
            } else {
                assert(r[i] == ru[i - 1] && r[j] == ru[j - 1]);
            }
        }
    } else if t.len() > 0 {
        let r = t.update(0, (name, value));
        assert forall|i: int, j: int| 0 <= i < j < r.len() implies r[i].0 != r[j].0 by {
            assert(r[j] == t[j]);
            if i > 0 {
                assert(r[i] == t[i]);
            }
        }
    }
}

/// Every name of the table after a set is the name set or an old name.
proof fn lemma_table_set_keys(t: Table, name: Seq<char>, value: Seq<char>)
    ensures
        forall|i: int|
            0 <= i < table_set(t, name, value).len() ==> (#[trigger] table_set(t, name, value)[i]).0
                == name || exists|k: int| 0 <= k < t.len() && t[k].0 == table_set(t, name, value)[i].0,
    decreases t.len(),
{
    if t.len() > 0 && t[0].0 != name {
        let u = t.drop_first();
        lemma_table_set_keys(u, name, value);
        let r = table_set(t, name, value);
        assert forall|i: int| 0 <= i < r.len() implies (#[trigger] r[i]).0 == name || exists|k: int|
            0 <= k < t.len() && t[k].0 == r[i].0 by {
            if i == 0 {
                assert(t[0].0 == r[0].0);
            } else {
                assert(r[i] == table_set(u, name, value)[i - 1]);
                if r[i].0 != name {
                    let k = choose|k: int| 0 <= k < u.len() && u[k].0 == table_set(u, name, value)[i - 1].0;
                    assert(t[k + 1] == u[k]);
                }
            }
        }
    } else if t.len() > 0 {
        let r = t.update(0, (name, value));
        assert forall|i: int| 0 <= i < r.len() implies (#[trigger] r[i]).0 == name || exists|k: int|
            0 <= k < t.len() && t[k].0 == r[i].0 by {
            if i > 0 {
                assert(r[i] == t[i]);
            }
        }
    }
}

/// The value of `name` in the table of strings.
fn table_lookup(v: &Vec<(String, String)>, name: &[char]) -> (r: Option<Vec<char>>)
    ensures
        match r {
            Some(x) => table_get(table_of(v@), name@) == Some(x@),
            None => table_get(table_of(v@), name@) is None,
        },
{
    let ghost t = table_of(v@);
    let mut i: usize = 0;
    while i < v.len()
        invariant
            t == table_of(v@),
            0 <= i <= v@.len(),
            forall|j: int| 0 <= j < i ==> t[j].0 != name@,
        decreases v@.len() - i,
    {
        let key = chars_of(v[i].0.as_str());
        assert(t[i as int] == (v@[i as int].0@, v@[i as int].1@));
        if eq_chars(&key, name) {
            proof {
                lemma_table_set_first(t, name@, name@, i as int);
            }
            return Some(chars_of(v[i].1.as_str()));
        }
        i = i + 1;
    }
    proof {
        lemma_table_set_first(t, name@, name@, i as int);
    }
    None
}

/// Sets `name` to `value` in the table of strings.
fn table_insert(v: &mut Vec<(String, String)>, name: String, value: String)
    ensures
        table_of(final(v)@) == table_set(table_of(old(v)@), name@, value@),
{
    let ghost t = table_of(v@);
    let name_chars = chars_of(name.as_str());
    let mut i: usize = 0;
    while i < v.len()
        invariant
            t == table_of(v@),
            v@ == old(v)@,
            name_chars@ == name@,
            0 <= i <= v@.len(),
            forall|j: int| 0 <= j < i ==> t[j].0 != name@,
        decreases v@.len() - i,
    {
        let key = chars_of(v[i].0.as_str());
        assert(t[i as int] == (v@[i as int].0@, v@[i as int].1@));
        if eq_chars(&key, &name_chars) {
            proof {
                lemma_table_set_first(t, name@, value@, i as int);
            }
            let ghost nv = name@;
            let ghost vv = value@;
            v.set(i, (name, value));
            assert(table_of(v@) =~= t.update(i as int, (nv, vv)));
            return;
        }
        i = i + 1;
    }
    proof {
        lemma_table_set_first(t, name@, value@, i as int);
    }
    let ghost nv = name@;
    let ghost vv = value@;
    v.push((name, value));
    assert(table_of(v@) =~= t.push((nv, vv)));
}

/// The name, type and value of a definition matched in `h`.
fn declaration_exec(h: &[char], caps: &Vec<Group>) -> (r: Option<(Vec<char>, Vec<char>, Vec<char>)>)
    requires
        caps_ok(h@, caps@),
    ensures
        match r {
            Some((n, ty, v)) => declaration(h@, caps@) == Some((n@, ty@, v@)),
            None => declaration(h@, caps@) is None,
        },
{
    let n = match group_chars(h, caps, 1) {
        Some(n) => n,
        None => return None,
    };
    let ty = match group_chars(h, caps, 2) {
        Some(t) => t,
        None => return None,
    };
    let v = match group_chars(h, caps, 3) {
        Some(v) => v,
        None => return None,
    };
    Some((trim_chars(&n), trim_chars(&ty), trim_chars(&v)))
}

fn push_record(out: &mut Vec<char>, head: &str, name: &[char], ty: &[char], arrow: &str, value: &[char])
    ensures
        final(out)@ == old(out)@ + head@ + name@ + "（"@ + ty@ + arrow@ + value@ + "</span>"@,
{
    push_str(out, head);
    push_chars(out, name);
    push_str(out, "（");
    push_chars(out, ty);
    push_str(out, arrow);
    push_chars(out, value);
    push_str(out, "</span>");
}

/// Defines the constant that a match of `CONST_PATTERN` in `h` declares.
pub fn define_const_from_captures(h: &[char], caps: &Vec<Group>, context: &mut VariableContext) -> (r: Option<String>)
    requires
        caps_ok(h@, caps@),
    ensures
        (opt_view(r), final(context).consts()) == const_from_captures(h@, caps@, old(context).consts()),
        final(context).lets() == old(context).lets(),
        old(context).wf() ==> final(context).wf(),
{
    let (n, ty, v) = match declaration_exec(h, caps) {
        Some(d) => d,
        None => return None,
    };
    if table_lookup(&context.const_context, &n).is_some() {
        let mut out: Vec<char> = Vec::new();
        push_str(&mut out, "<span style=\"color: red;\">定数 ");
        push_chars(&mut out, &n);
        push_str(&mut out, " は再定義不可！</span>");
        return Some(string_from_chars(&out));
    }
    let mut out: Vec<char> = Vec::new();
    push_record(&mut out, "<span style=\"display: none; font-weight: bold;\">定数 ", &n, &ty, "） = ", &v);
    proof {
        if old(context).wf() {
            lemma_table_set_distinct(old(context).consts(), n@, v@);
        }
    }
    table_insert(&mut context.const_context, string_from_chars(&n), string_from_chars(&v));
    Some(string_from_chars(&out))
}

/// Sets the variable that a match of `LET_PATTERN` in `h` declares.
pub fn define_let_from_captures(h: &[char], caps: &Vec<Group>, context: &mut VariableContext) -> (r: Option<String>)
    requires
        caps_ok(h@, caps@),
    ensures
        (opt_view(r), final(context).lets()) == let_from_captures(h@, caps@, old(context).lets()),
        final(context).consts() == old(context).consts(),
        old(context).wf() ==> final(context).wf(),
{
    let (n, ty, v) = match declaration_exec(h, caps) {
        Some(d) => d,
        None => return None,
    };
    let mut out: Vec<char> = Vec::new();
    push_record(&mut out, "<span style=\"display: none; font-style: italic;\">変数 ", &n, &ty, "） ← ", &v);
    proof {
        if old(context).wf() {
            lemma_table_set_distinct(old(context).lets(), n@, v@);
        }
    }
    table_insert(&mut context.let_context, string_from_chars(&n), string_from_chars(&v));
    Some(string_from_chars(&out))
}

/// `#const(name: type){value};`: defines the constant and gives its hidden
/// record, or the message that it is already defined; `None` if `line` is
/// no such definition.
pub fn parse_const_block(line: &str, context: &mut VariableContext) -> (r: Option<String>)
    ensures
        (opt_view(r), final(context).consts()) == const_block(line@, old(context).consts()),
        final(context).lets() == old(context).lets(),
        old(context).wf() ==> final(context).wf(),
{
    let chars = chars_of(line);
    let t = trim_chars(&chars);
    match captures(CONST_PATTERN, &t) {
        Some(Some(c)) => define_const_from_captures(&t, &c, context),
        _ => None,
    }
}

/// `#let(name: type){value};`: sets the variable and gives its hidden
/// record; `None` if `line` is no such definition.
pub fn parse_let_block(line: &str, context: &mut VariableContext) -> (r: Option<String>)
    ensures
        (opt_view(r), final(context).lets()) == let_block(line@, old(context).lets()),
        final(context).consts() == old(context).consts(),
        old(context).wf() ==> final(context).wf(),
{
    let chars = chars_of(line);
    let t = trim_chars(&chars);
    match captures(LET_PATTERN, &t) {
        Some(Some(c)) => define_let_from_captures(&t, &c, context),
        _ => None,
    }
}


/// What stands in place of a use of `name`.
fn use_replacement_exec(kind: UseKind, name: &[char], context: &VariableContext) -> (r: Vec<char>)
    ensures
        r@ == use_replacement(kind, name@, context.consts(), context.lets()),
{
    let mut out: Vec<char> = Vec::new();
    match kind {
        UseKind::ConstUse => match table_lookup(&context.const_context, name) {
            Some(v) => {
                return v;
            },
            None => {
                push_str(&mut out, "[定数未定義:");
                push_chars(&mut out, name);
                push_str(&mut out, "]");
            },
        },
        UseKind::LetUse => match table_lookup(&context.let_context, name) {
            Some(v) => {
                return v;
            },
            None => {
                push_str(&mut out, "[変数未定義:");
                push_chars(&mut out, name);
                push_str(&mut out, "]");
            },
        },
        UseKind::Relet => {
            if table_lookup(&context.let_context, name).is_some() {
                push_str(&mut out, "<span style=\"display: none;\">再代入OK: ");
                push_chars(&mut out, name);
                push_str(&mut out, "</span>");
            } else {
                push_str(&mut out, "<span style=\"color: red;\">再代入対象 `");
                push_chars(&mut out, name);
                push_str(&mut out, "` が未定義です</span>");
            }
        },
    }
    out
}

/// The text from `last` up to one match and the match's replacement.
fn use_step(h: &[char], caps: &Vec<Group>, kind: UseKind, context: &VariableContext, last: usize) -> (r: Option<(Vec<char>, usize)>)
    requires
        caps_ok(h@, caps@),
        last <= char_span(h@, match_start(caps@), match_end(caps@)).0,
    ensures
        match r {
            Some((v, b)) => {
                &&& group_text(h@, caps@, 1) is Some
                &&& v@ == h@.subrange(
                    last as int,
                    char_span(h@, match_start(caps@), match_end(caps@)).0,
                ) + use_replacement(
                    kind,
                    trim(group_text(h@, caps@, 1).unwrap()),
                    context.consts(),
                    context.lets(),
                )
                &&& b as int == char_span(h@, match_start(caps@), match_end(caps@)).1
                &&& b <= h@.len()
            },
            None => group_text(h@, caps@, 1) is None,
        },
{
    assert(group_ok(h@, caps@[0]));
    let (s, e) = match caps[0] {
        Some(span) => span,
        None => (0, 0),
    };
    let (a, b) = char_span_exec(h, s, e);
    let name = match group_chars(h, caps, 1) {
        Some(n) => n,
        None => return None,
    };
    let mut out = copy_range(h, last, a);
    let tn = trim_chars(&name);
    let rep = use_replacement_exec(kind, &tn, context);
    push_chars(&mut out, &rep);
    Some((out, b))
}

proof fn lemma_splice_unfold(
    h: Seq<char>,
    g: Seq<Seq<Group>>,
    kind: UseKind,
    consts: Table,
    lets: Table,
    i: int,
    last: int,
)
    ensures
        0 <= i < g.len() ==> splice_uses(h, g, kind, consts, lets, i, last) == match group_text(
            h,
            g[i],
            1,
        ) {
            None => None,
            Some(gt) => match splice_uses(
                h,
                g,
                kind,
                consts,
                lets,
                i + 1,
                char_span(h, match_start(g[i]), match_end(g[i])).1,
            ) {
                Some(rest) => Some(h.subrange(
                    last,
                    char_span(h, match_start(g[i]), match_end(g[i])).0,
                ) + use_replacement(kind, trim(gt), consts, lets) + rest),
                None => None,
            },
        },
        i == g.len() ==> splice_uses(h, g, kind, consts, lets, i, last) == Some(
            h.subrange(last, h.len() as int),
        ),
{
    reveal(splice_uses);
}

proof fn lemma_consecutive(h: Seq<char>, g: Seq<Seq<Group>>, i: int)
    requires
        matches_ok(h, g),
        0 < i < g.len(),
    ensures
        char_span(h, match_start(g[i - 1]), match_end(g[i - 1])).1 <= char_span(
            h,
            match_start(g[i]),
            match_end(g[i]),
        ).0,
{
    assert(match_end(g[i - 1]) <= match_start(g[i]));
    assert(caps_ok(h, g[i - 1]));
    assert(caps_ok(h, g[i]));
    assert(group_ok(h, g[i - 1][0]));
    assert(group_ok(h, g[i][0]));
    lemma_char_index_mono(h, match_end(g[i - 1]) as int, match_start(g[i]) as int);
}

/// Replaces the uses that the matches `ms` of the kind's pattern find in
/// `h`; `None` where a match lacks group 1.
pub fn replace_uses_in(h: &[char], ms: &Vec<Vec<Group>>, kind: UseKind, context: &VariableContext) -> (r: Option<Vec<char>>)
    requires
        matches_ok(h@, groups_of(ms@)),
    ensures
        match r {
            Some(v) => splice_uses(h@, groups_of(ms@), kind, context.consts(), context.lets(), 0, 0)
                == Some(v@),
            None => splice_uses(h@, groups_of(ms@), kind, context.consts(), context.lets(), 0, 0) is None,
        },
{
    let ghost g = groups_of(ms@);
    let ghost consts = context.consts();
    let ghost lets = context.lets();
    let ghost full = splice_uses(h@, g, kind, consts, lets, 0, 0);
    let mut out: Vec<char> = Vec::new();
    let mut i: usize = 0;
    let mut last: usize = 0;
    while i < ms.len()
        invariant
            g == groups_of(ms@),
            consts == context.consts(),
            lets == context.lets(),
            matches_ok(h@, g),
            0 <= i <= ms@.len(),
            last <= h@.len(),
            i > 0 ==> last as int == char_span(h@, match_start(g[i - 1]), match_end(g[i - 1])).1,
            i == 0 ==> last == 0,
            full == splice_uses(h@, g, kind, consts, lets, 0, 0),
            full == match splice_uses(h@, g, kind, consts, lets, i as int, last as int) {
                Some(rest) => Some(out@ + rest),
                None => None,
            },
        decreases ms@.len() - i,
    {
        let caps = &ms[i];
        assert(caps@ == g[i as int]);
        proof {
            assert(caps_ok(h@, g[i as int]));
            if i > 0 {
                lemma_consecutive(h@, g, i as int);
            }
        }
        proof {
            lemma_splice_unfold(h@, g, kind, consts, lets, i as int, last as int);
        }
        match use_step(h, caps, kind, context, last) {
            None => return None,
            Some((piece, b)) => {
                let ghost old_out = out@;
                push_chars(&mut out, &piece);
                proof {
                    match splice_uses(h@, g, kind, consts, lets, i + 1, b as int) {
                        Some(rest) => {
                            assert(old_out + (piece@ + rest) =~= out@ + rest);
                        },
                        None => {},
                    }
                }
                last = b;
                i = i + 1;
            },
        }
    }
    proof {
        lemma_splice_unfold(h@, g, kind, consts, lets, i as int, last as int);
    }
    let tail = copy_range(h, last, h.len());
    push_chars(&mut out, &tail);
    Some(out)
}

/// The pattern of each kind of use.
fn pattern_of(kind: UseKind) -> (p: &'static str)
    ensures
        p@ == use_pattern(kind),
{
    match kind {
        UseKind::ConstUse => CONST_USE_PATTERN,
        UseKind::LetUse => LET_USE_PATTERN,
        UseKind::Relet => RELET_PATTERN,
    }
}

/// One pass of replacements for a kind of use.
fn replace_pass(h: &[char], kind: UseKind, context: &VariableContext) -> (r: Option<Vec<char>>)
    ensures
        match r {
            Some(v) => replace_uses(h@, kind, context.consts(), context.lets()) == Some(v@),
            None => replace_uses(h@, kind, context.consts(), context.lets()) is None,
        },
{
    assert(h@.subrange(0, h@.len() as int) =~= h@);
    match captures_all(pattern_of(kind), h) {
        None => Some(copy_range(h, 0, h.len())),
        Some(ms) => replace_uses_in(h, &ms, kind, context),
    }
}

/// Inline uses of constants and variables replaced, or `None` where a
/// match lacks its name's group.
pub fn checked_parse_variable_inline(text: &str, context: &VariableContext) -> (r: Option<String>)
    ensures
        opt_view(r) == variable_inline(text@, context.consts(), context.lets()),
{
    let h = chars_of(text);
    let r1 = match replace_pass(&h, UseKind::ConstUse, context) {
        Some(r) => r,
        None => return None,
    };
    let r2 = match replace_pass(&r1, UseKind::LetUse, context) {
        Some(r) => r,
        None => return None,
    };
    match replace_pass(&r2, UseKind::Relet, context) {
        Some(r) => Some(string_from_chars(&r)),
        None => None,
    }
}

/// Replaces `&const-use(name);` by the constant's value, `&let-use(name);`
/// by the variable's value (or a note that the name is not defined), and
/// `&relet(name);` by a note on whether the variable exists.
pub fn parse_variable_inline(text: &str, context: &mut VariableContext) -> (r: String)
    requires
        variable_inline(text@, old(context).consts(), old(context).lets()) is Some,
    ensures
        r@ == variable_inline(text@, old(context).consts(), old(context).lets()).unwrap(),
        *final(context) == *old(context),
{
    match checked_parse_variable_inline(text, context) {
        Some(r) => r,
        None => String::new(),
    }
}


/// A variable read after it was set gives the value set last, and its
/// reassignment check passes.
pub proof fn law_let_read_after_write(
    name: Seq<char>,
    value: Seq<char>,
    consts: Table,
    lets: Table,
)
    ensures
        use_replacement(UseKind::LetUse, name, consts, table_set(lets, name, value)) == value,
        use_replacement(UseKind::Relet, name, consts, table_set(lets, name, value))
            == "<span style=\"display: none;\">再代入OK: "@ + name + "</span>"@,
{
    lemma_table_set_get(lets, name, value, name);
}

/// Setting one variable leaves what every other name reads unchanged.
pub proof fn law_let_write_other(
    name: Seq<char>,
    value: Seq<char>,
    other: Seq<char>,
    kind: UseKind,
    consts: Table,
    lets: Table,
)
    requires
        other != name,
    ensures
        use_replacement(kind, other, consts, table_set(lets, name, value)) == use_replacement(
            kind,
            other,
            consts,
            lets,
        ),
{
    lemma_table_set_get(lets, name, value, other);
}

/// A constant is defined once: a second definition of a name leaves the
/// constants as they were and gives the message that it cannot be redefined.
pub proof fn law_const_defined_once(h: Seq<char>, caps: Seq<Group>, consts: Table)
    requires
        declaration(h, caps) is Some,
        table_get(consts, declaration(h, caps).unwrap().0) is Some,
    ensures
        const_from_captures(h, caps, consts) == (
            Some(const_redefined_html(declaration(h, caps).unwrap().0)),
            consts,
        ),
{
}

/// A constant read after its first definition gives the value defined.
pub proof fn law_const_read_after_define(
    h: Seq<char>,
    caps: Seq<Group>,
    consts: Table,
    lets: Table,
)
    requires
        declaration(h, caps) is Some,
        table_get(consts, declaration(h, caps).unwrap().0) is None,
    ensures
        use_replacement(
            UseKind::ConstUse,
            declaration(h, caps).unwrap().0,
            const_from_captures(h, caps, consts).1,
            lets,
        ) == declaration(h, caps).unwrap().2,
{
    let (n, ty, v) = declaration(h, caps).unwrap();
    lemma_table_set_get(consts, n, v, n);
}

/// Text in which a kind of use does not occur passes that kind's
/// replacement unchanged.
pub proof fn law_no_use_unchanged(h: Seq<char>, kind: UseKind, consts: Table, lets: Table)
    requires
        regex_captures_all(use_pattern(kind), h) == Some(Seq::<Seq<Group>>::empty()),
    ensures
        replace_uses(h, kind, consts, lets) == Some(h),
{
    reveal(splice_uses);
    assert(h.subrange(0, h.len() as int) =~= h);
}

/// Reading never changes the tables, and each definition keeps every name
/// once in its table.
pub proof fn law_definitions_keep_names_distinct(
    h: Seq<char>,
    caps: Seq<Group>,
    consts: Table,
    lets: Table,
)
    requires
        distinct_names(consts),
        distinct_names(lets),
    ensures
        distinct_names(const_from_captures(h, caps, consts).1),
        distinct_names(let_from_captures(h, caps, lets).1),
{
    if let Some((n, ty, v)) = declaration(h, caps) {
        lemma_table_set_distinct(consts, n, v);
        lemma_table_set_distinct(lets, n, v);
    }
}


/// A use of a name that is not defined is replaced by a note naming it:
/// `[定数未定義:name]` for a constant, `[変数未定義:name]` for a variable, and
/// a red message for a reassignment check; a defined constant or variable is
/// replaced by its value, and a passed check by a hidden note.
pub proof fn law_use_replacements(name: Seq<char>, consts: Table, lets: Table)
    ensures
        use_replacement(UseKind::ConstUse, name, consts, lets) == match table_get(consts, name) {
            Some(v) => v,
            None => "[定数未定義:"@ + name + "]"@,
        },
        use_replacement(UseKind::LetUse, name, consts, lets) == match table_get(lets, name) {
            Some(v) => v,
            None => "[変数未定義:"@ + name + "]"@,
        },
        use_replacement(UseKind::Relet, name, consts, lets) == if table_get(lets, name) is Some {
            "<span style=\"display: none;\">再代入OK: "@ + name + "</span>"@
        } else {
            "<span style=\"color: red;\">再代入対象 `"@ + name + "` が未定義です</span>"@
        },
{
}

/// A definition gives a hidden record of its name, type and value: a
/// constant's in bold with `=`, a variable's in italics with `←`; a second
/// definition of a constant gives the red message and keeps the first value.
pub proof fn law_definition_records(h: Seq<char>, caps: Seq<Group>, consts: Table, lets: Table)
    requires
        declaration(h, caps) is Some,
    ensures
        ({
            let (n, ty, v) = declaration(h, caps).unwrap();
            &&& let_from_captures(h, caps, lets).0 == Some(
                "<span style=\"display: none; font-style: italic;\">変数 "@ + n + "（"@ + ty + "） ← "@ + v
                    + "</span>"@,
            )
            &&& table_get(consts, n) is None ==> const_from_captures(h, caps, consts).0 == Some(
                "<span style=\"display: none; font-weight: bold;\">定数 "@ + n + "（"@ + ty + "） = "@ + v
                    + "</span>"@,
            )
            &&& table_get(consts, n) is Some ==> const_from_captures(h, caps, consts) == (
                Some("<span style=\"color: red;\">定数 "@ + n + " は再定義不可！</span>"@),
                consts,
            )
        }),
{
}

/// One use in a text is replaced in place: the text before and after the
/// match is kept, and the match becomes the replacement for its trimmed name.
pub proof fn law_single_use(
    h: Seq<char>,
    ms: Seq<Seq<Group>>,
    kind: UseKind,
    consts: Table,
    lets: Table,
    name: Seq<char>,
)
    requires
        ms.len() == 1,
        group_text(h, ms[0], 1) == Some(name),
    ensures
        ({
            let (a, b) = char_span(h, match_start(ms[0]), match_end(ms[0]));
            splice_uses(h, ms, kind, consts, lets, 0, 0) == Some(
                h.subrange(0, a) + use_replacement(kind, trim(name), consts, lets) + h.subrange(
                    b,
                    h.len() as int,
                ),
            )
        }),
{
    reveal_with_fuel(splice_uses, 2);
}

} // verus!
