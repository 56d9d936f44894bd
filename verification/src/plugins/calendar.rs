//! `#calendar2(2026, 07)`, `#calendar2(202607)` and `#calendar2(202607, off)`:
//! a month's calendar as an HTML table.
use crate::numeric::{decimal, parse_i32, parse_i32_spec, parse_u32, parse_u32_spec, push_decimal};
use crate::text::{
    byte_len, char_index_at, char_index_of_byte, chars_of, copy_range, eq_str, find_char,
    find_elem, find_str, find_sub, lemma_char_index_at, lemma_encode_utf8_len,
    lemma_find_elem_range, lemma_find_from_range, lowered, opt_view, prefix_byte_len, push_str,
    split_trim, split_trimmed, starts_with, all_ascii, ascii_lowered, lemma_ascii_offsets, lemma_lowered_prefix, string_from_chars, to_lowercase, utf8_bytes, views,
};
use chrono::Datelike;
use vstd::prelude::*;

verus! {

/// A leap year of the proleptic Gregorian calendar.
pub open spec fn is_leap(y: int) -> bool {
    (y % 4 == 0 && y % 100 != 0) || y % 400 == 0
}

/// The number of days of month `m` of year `y`.
pub open spec fn month_length(y: int, m: int) -> int {
    if m == 2 {
        if is_leap(y) {
            29
        } else {
            28
        }
    } else if m == 4 || m == 6 || m == 9 || m == 11 {
        30
    } else {
        31
    }
}

/// A date that `chrono::NaiveDate` holds: a day of the proleptic Gregorian
/// calendar from January 1 of year -262143 to December 31 of year 262142.
pub open spec fn date_exists(y: int, m: int, d: int) -> bool {
    &&& -262143 <= y <= 262142
    &&& 1 <= m <= 12
    &&& 1 <= d <= month_length(y, m)
}

/// The days of the months of year `y` before month `m`.
pub open spec fn days_before_month(y: int, m: int) -> int
    decreases m,
{
    if m <= 1 {
        0
    } else {
        days_before_month(y, m - 1) + month_length(y, m - 1)
    }
}

/// A count of days in the proleptic Gregorian calendar: one more for each
/// day after the one before, through year ends and leap days alike.
pub open spec fn civil_day(y: int, m: int, d: int) -> int {
    365 * y + (y - 1) / 4 - (y - 1) / 100 + (y - 1) / 400 + days_before_month(y, m) + d
}

/// The day of the week of a date, counted from Sunday (0) to Saturday (6),
/// as chrono's `Weekday::num_days_from_sunday` gives it. January 1 of year
/// 1 was a Monday.
pub open spec fn weekday_from_sunday(y: i32, m: u32, d: u32) -> u32 {
    ((civil_day(y as int, m as int, d as int) + 6) % 7) as u32
}

/// The number of days from the first date to the second, as chrono's
/// `NaiveDate` subtraction and `TimeDelta::num_days` give it.
pub open spec fn days_between(y1: i32, m1: u32, d1: u32, y2: i32, m2: u32, d2: u32) -> i64 {
    (civil_day(y2 as int, m2 as int, d2 as int) - civil_day(y1 as int, m1 as int, d1 as int)) as i64
}

/// chrono's `NaiveDate::from_ymd_opt`, then `weekday().num_days_from_sunday()`.
/// The date exists exactly as chrono's documentation gives its range and
/// calendar, the proleptic Gregorian one, whose weekdays repeat every seven
/// days.
#[verifier::external_body]
fn ymd_weekday(y: i32, m: u32, d: u32) -> (r: Option<u32>)
    ensures
        r is Some <==> date_exists(y as int, m as int, d as int),
        r matches Some(w) ==> w == weekday_from_sunday(y, m, d) && w < 7,
{
    match chrono::NaiveDate::from_ymd_opt(y, m, d) {
        Some(date) => Some(date.weekday().num_days_from_sunday()),
        None => None,
    }
}

/// chrono's `NaiveDate - NaiveDate`, then `num_days()`, on two existing
/// dates: the count of days from the first to the second.
#[verifier::external_body]
fn ymd_days_between(y1: i32, m1: u32, d1: u32, y2: i32, m2: u32, d2: u32) -> (r: i64)
    requires
        date_exists(y1 as int, m1 as int, d1 as int),
        date_exists(y2 as int, m2 as int, d2 as int),
    ensures
        r == days_between(y1, m1, d1, y2, m2, d2),
{
    let from = chrono::NaiveDate::from_ymd_opt(y1, m1, d1).unwrap();
    let to = chrono::NaiveDate::from_ymd_opt(y2, m2, d2).unwrap();
    (to - from).num_days()
}

/// The class of a day's cell.
pub open spec fn day_class(off: bool, weekday: u32) -> Seq<char> {
    if off {
        Seq::empty()
    } else if weekday == 0 {
        " class=\"sunday\""@
    } else if weekday == 6 {
        " class=\"saturday\""@
    } else {
        Seq::empty()
    }
}

/// The cells of days `d..=days`, `col` cells being in the current row; a
/// full row is closed before the next day. `None` if a day does not exist.
/// The result holds the cells and the number of cells in the last row.
#[verifier::opaque]
pub open spec fn day_cells(y: i32, m: u32, off: bool, d: int, days: int, col: int) -> Option<
    (Seq<char>, int),
>
    decreases days - d + 1,
{
    if d > days || d > u32::MAX {
        Some((Seq::empty(), col))
    } else {
        let sep = if col == 7 {
            "</tr><tr>"@
        } else {
            Seq::empty()
        };
        let col2 = if col == 7 {
            0
        } else {
            col
        };
        if !date_exists(y as int, m as int, d) {
            None
        } else {
            let cell = "<td"@ + day_class(off, weekday_from_sunday(y, m, d as u32)) + ">"@ + decimal(
                d as nat,
            ) + "</td>"@;
            match day_cells(y, m, off, d + 1, days, col2 + 1) {
                Some((rest, c)) => Some((sep + cell + rest, c)),
                None => None,
            }
        }
    }
}

proof fn lemma_day_cells_unfold(y: i32, m: u32, off: bool, d: int, days: int, col: int)
    ensures
        day_cells(y, m, off, d, days, col) == if d > days || d > u32::MAX {
            Some((Seq::<char>::empty(), col))
        } else if !date_exists(y as int, m as int, d) {
            None
        } else {
            let sep = if col == 7 {
                "</tr><tr>"@
            } else {
                Seq::<char>::empty()
            };
            let col2 = if col == 7 {
                0
            } else {
                col
            };
            let cell = "<td"@ + day_class(off, weekday_from_sunday(y, m, d as u32)) + ">"@ + decimal(
                d as nat,
            ) + "</td>"@;
            match day_cells(y, m, off, d + 1, days, col2 + 1) {
                Some((rest, c)) => Some((sep + cell + rest, c)),
                None => None,
            }
        },
{
    reveal(day_cells);
}

/// `n` empty cells.
pub open spec fn empty_cells(n: int) -> Seq<char>
    decreases n,
{
    if n <= 0 {
        Seq::empty()
    } else {
        empty_cells(n - 1) + "<td></td>"@
    }
}

/// The table's fixed head.
pub open spec fn calendar_head() -> Seq<char> {
    "<table class=\"calendar2\"><thead><tr><th>日</th><th>月</th><th><span style=\"color: red;\">火</span></th><th><span style=\"color: red;\">水</span></th><th>木</th><th>金</th><th>土</th></tr></thead><tbody>"@
}

/// The calendar of month `m` of year `y`; `off` leaves the weekend days
/// unmarked. `None` for a month or year that has no calendar.
pub open spec fn calendar_for(y: i32, m: u32, off: bool) -> Option<Seq<char>> {
    if m < 1 || m > 12 || !date_exists(y as int, m as int, 1) {
        None
    } else {
        let ny: int = if m == 12 {
            y + 1
        } else {
            y as int
        };
        let nm: int = if m == 12 {
            1
        } else {
            m + 1
        };
        if !date_exists(ny, nm, 1) {
            None
        } else {
            let first = weekday_from_sunday(y, m, 1);
            let days = days_between(y, m, 1, ny as i32, nm as u32, 1) as u32;
            wrap_table(first, day_cells(y, m, off, 1, days as int, first as int))
        }
    }
}

/// The whole table around the day cells and the last row's length.
pub open spec fn wrap_table(first: u32, cells: Option<(Seq<char>, int)>) -> Option<Seq<char>> {
    match cells {
        None => None,
        Some((c, col)) => Some(
            calendar_head() + "<tr>"@ + empty_cells(first as int) + c + empty_cells(7 - col)
                + "</tr>"@ + "</tbody></table>"@,
        ),
    }
}

/// The argument says `off`, in any case.
pub open spec fn is_off(a: Seq<char>) -> bool {
    lowered(a) == "off"@
}

/// The calendar for the trimmed arguments. `None` for an argument whose
/// byte slicing would fall inside a character; otherwise `Some` of the optional calendar.
pub open spec fn calendar_from_args(args: Seq<Seq<char>>) -> Option<Option<Seq<char>>> {
    let first = args[0];
    if args.len() >= 2 && byte_len(first) == 4 && byte_len(args[1]) == 2 {
        match parse_i32_spec(first) {
            Some(y) => match parse_u32_spec(args[1]) {
                Some(m) => Some(calendar_for(y, m, args.len() > 2 && is_off(args[2]))),
                None => Some(None),
            },
            None => Some(None),
        }
    } else if byte_len(first) >= 6 {
        match char_index_at(first, 4) {
            Some(a) => match char_index_at(first, 6) {
                Some(c) => match parse_i32_spec(first.take(a)) {
                    Some(y) => match parse_u32_spec(first.subrange(a, c)) {
                        Some(m) => Some(calendar_for(y, m, args.len() > 1 && is_off(args[1]))),
                        None => Some(None),
                    },
                    None => Some(None),
                },
                None => None,
            },
            None => None,
        }
    } else {
        Some(None)
    }
}

/// What `#calendar2(` gives for `line`. The arguments are read from `line`
/// at the byte offset where `#calendar2(` ends in the lowercased line;
/// `None` stands for the lines where that slicing would fall inside a
/// character (or past `usize`). Otherwise `Some` of the optional
/// table, which is `None` without `#calendar2(`, a closing `)` or a valid
/// year and month.
pub open spec fn calendar_block(line: Seq<char>) -> Option<Option<Seq<char>>> {
    let lower = lowered(line);
    match find_sub(lower, "#calendar2("@) {
        None => Some(None),
        Some(k) => {
            let b = byte_len(lower.take(k)) + 11;
            if b > usize::MAX {
                None
            } else {
                match char_index_at(line, b as int) {
                    None => None,
                    Some(j) => {
                        let rest = line.skip(j);
                        match find_elem(rest, ')') {
                            None => Some(None),
                            Some(q) => calendar_from_args(split_trimmed(rest.take(q), ',')),
                        }
                    },
                }
            }
        },
    }
}

fn push_empty_cells(out: &mut Vec<char>, from: u32, to: u32)
    requires
        from <= to,
    ensures
        final(out)@ == old(out)@ + empty_cells(to - from),
{
    let mut i: u32 = from;
    while i < to
        invariant
            from <= i <= to,
            out@ == old(out)@ + empty_cells(i - from),
        decreases to - i,
    {
        push_str(out, "<td></td>");
        i = i + 1;
    }
}

fn push_day_class(out: &mut Vec<char>, off: bool, w: u32)
    ensures
        final(out)@ == old(out)@ + day_class(off, w),
{
    if off {
    } else if w == 0 {
        push_str(out, " class=\"sunday\"");
    } else if w == 6 {
        push_str(out, " class=\"saturday\"");
    }
    assert(out@ =~= old(out)@ + day_class(off, w));
}

/// The calendar table of month `m` of year `y`.
fn calendar_table(y: i32, m: u32, off: bool) -> (r: Option<Vec<char>>)
    ensures
        match r {
            Some(v) => calendar_for(y, m, off) == Some(v@),
            None => calendar_for(y, m, off) is None,
        },
{
    if m < 1 || m > 12 {
        return None;
    }
    let first = match ymd_weekday(y, m, 1) {
        Some(w) => w,
        None => return None,
    };
    let (ny, nm): (i32, u32) = if m == 12 {
        (y + 1, 1)
    } else {
        (y, m + 1)
    };
    if ymd_weekday(ny, nm, 1).is_none() {
        return None;
    }
    let days = #[verifier::truncate] (ymd_days_between(y, m, 1, ny, nm, 1) as u32);
    let mut cells: Vec<char> = Vec::new();
    let mut col: u32 = first;
    let mut d: u64 = 1;
    let ghost full = day_cells(y, m, off, 1, days as int, first as int);
    assert(calendar_for(y, m, off) == wrap_table(first, full));
    while d <= days as u64
        invariant
            calendar_for(y, m, off) == wrap_table(first, full),
            1 <= d <= days as u64 + 1,
            col <= 7,
            full == day_cells(y, m, off, 1, days as int, first as int),
            full == match day_cells(y, m, off, d as int, days as int, col as int) {
                Some((rest, c)) => Some((cells@ + rest, c)),
                None => None,
            },
        decreases days as u64 + 1 - d,
    {
        let ghost col0 = col;
        let ghost cells0 = cells@;
        proof {
            lemma_day_cells_unfold(y, m, off, d as int, days as int, col as int);
        }
        if col == 7 {
            push_str(&mut cells, "</tr><tr>");
            col = 0;
        }
        let w = match ymd_weekday(y, m, d as u32) {
            Some(w) => w,
            None => {
                assert(day_cells(y, m, off, d as int, days as int, col0 as int) is None);
                return None;
            },
        };
        push_str(&mut cells, "<td");
        push_day_class(&mut cells, off, w);
        push_str(&mut cells, ">");
        push_decimal(&mut cells, d as u32);
        push_str(&mut cells, "</td>");
        proof {
            let sep = if col0 == 7 {
                "</tr><tr>"@
            } else {
                Seq::<char>::empty()
            };
            let cell = "<td"@ + day_class(off, w) + ">"@ + decimal(d as nat) + "</td>"@;
            assert(cells@ =~= cells0 + sep + cell);
            match day_cells(y, m, off, d + 1, days as int, col + 1) {
                Some((rest, c)) => {
                    assert(cells0 + (sep + cell + rest) =~= cells@ + rest);
                },
                None => {},
            }
        }
        col = col + 1;
        d = d + 1;
    }
    proof {
        lemma_day_cells_unfold(y, m, off, d as int, days as int, col as int);
    }
    let mut out: Vec<char> = Vec::new();
    push_str(
        &mut out,
        "<table class=\"calendar2\"><thead><tr><th>日</th><th>月</th><th><span style=\"color: red;\">火</span></th><th><span style=\"color: red;\">水</span></th><th>木</th><th>金</th><th>土</th></tr></thead><tbody>",
    );
    push_str(&mut out, "<tr>");
    push_empty_cells(&mut out, 0, first);
    crate::text::push_chars(&mut out, &cells);
    push_empty_cells(&mut out, col, 7);
    push_str(&mut out, "</tr>");
    push_str(&mut out, "</tbody></table>");
    Some(out)
}

/// The calendar for the trimmed arguments `args`; `None` (outer) where a
/// slicing would fall inside a character.
fn calendar_from_args_exec(args: &Vec<Vec<char>>) -> (r: Option<Option<Vec<char>>>)
    requires
        args@.len() >= 1,
    ensures
        match r {
            Some(Some(v)) => calendar_from_args(views(args@)) == Some(Some(v@)),
            Some(None) => calendar_from_args(views(args@)) == Some(None::<Seq<char>>),
            None => calendar_from_args(views(args@)) is None,
        },
{
    let ghost av = views(args@);
    let first = &args[0];
    assert(first@ == av[0]);
    let first_bytes = prefix_byte_len(first, first.len());
    assert(first@.take(first@.len() as int) =~= first@);
    let second_bytes: usize = if args.len() >= 2 {
        assert(args@[1]@ == av[1]);
        let s = &args[1];
        assert(s@.take(s@.len() as int) =~= s@);
        prefix_byte_len(s, s.len())
    } else {
        0
    };
    if args.len() >= 2 && first_bytes == 4 && second_bytes == 2 {
        let y = match parse_i32(first) {
            Some(y) => y,
            None => return Some(None),
        };
        let m = match parse_u32(&args[1]) {
            Some(m) => m,
            None => return Some(None),
        };
        let off = if args.len() > 2 {
            assert(args@[2]@ == av[2]);
            let l = to_lowercase(&args[2]);
            eq_str(&l, "off")
        } else {
            false
        };
        Some(calendar_table(y, m, off))
    } else if first_bytes >= 6 {
        let a = match char_index_of_byte(first, 4) {
            Some(a) => a,
            None => return None,
        };
        let c = match char_index_of_byte(first, 6) {
            Some(c) => c,
            None => return None,
        };
        proof {
            let a2 = choose|k: int| 0 <= k <= first@.len() && byte_len(first@.take(k)) == 4;
            let c2 = choose|k: int| 0 <= k <= first@.len() && byte_len(first@.take(k)) == 6;
            assert(a2 == a && c2 == c);
            if c < a {
                crate::text::lemma_byte_len_take_mono(first@, c as int, a as int);
            }
        }
        let y_str = copy_range(first, 0, a);
        let m_str = copy_range(first, a, c);
        let y = match parse_i32(&y_str) {
            Some(y) => y,
            None => return Some(None),
        };
        let m = match parse_u32(&m_str) {
            Some(m) => m,
            None => return Some(None),
        };
        let off = if args.len() > 1 {
            assert(args@[1]@ == av[1]);
            let l = to_lowercase(&args[1]);
            eq_str(&l, "off")
        } else {
            false
        };
        Some(calendar_table(y, m, off))
    } else {
        Some(None)
    }
}

/// `#calendar2(` on `line`, or `None` (outer) where slicing `line` would
/// fall inside a character.
pub fn checked_parse_calendar_block(line: &str) -> (r: Option<Option<String>>)
    ensures
        match r {
            Some(o) => calendar_block(line@) == Some(opt_view(o)),
            None => calendar_block(line@) is None,
        },
{
    let chars = chars_of(line);
    let lower = to_lowercase(&chars);
    let k = match find_str(&lower, "#calendar2(") {
        Some(k) => k,
        None => return Some(None),
    };
    proof {
        lemma_find_from_range(lower@, "#calendar2("@, 0);
    }
    let n = prefix_byte_len(&lower, k);
    if n > usize::MAX - 11 {
        return None;
    }
    let j = match char_index_of_byte(&chars, n + 11) {
        Some(j) => j,
        None => return None,
    };
    proof {
        let j2 = choose|j2: int| 0 <= j2 <= chars@.len() && byte_len(chars@.take(j2)) == n + 11;
        assert(0 <= j2 <= chars@.len());
    }
    let rest = copy_range(&chars, j, chars.len());
    assert(rest@ =~= chars@.skip(j as int));
    let q = match find_char(&rest, ')') {
        Some(q) => q,
        None => return Some(None),
    };
    proof {
        lemma_find_elem_range(rest@, ')', 0);
    }
    let inside = copy_range(&rest, 0, q);
    let args = split_trim(&inside, ',');
    match calendar_from_args_exec(&args) {
        Some(Some(v)) => Some(Some(string_from_chars(&v))),
        Some(None) => Some(None),
        None => None,
    }
}

/// `#calendar2(`: the month's calendar table, or `None` if the line has no
/// `#calendar2(`, no closing `)`, or no valid year and month.
pub fn parse_calendar_block(line: &str) -> (r: Option<String>)
    requires
        calendar_block(line@) is Some,
    ensures
        opt_view(r) == calendar_block(line@).unwrap(),
{
    match checked_parse_calendar_block(line) {
        Some(o) => o,
        None => None,
    }
}


proof fn lemma_floor_step(y: int)
    ensures
        y / 4 - (y - 1) / 4 == (if y % 4 == 0 { 1int } else { 0int }),
        y / 100 - (y - 1) / 100 == (if y % 100 == 0 { 1int } else { 0int }),
        y / 400 - (y - 1) / 400 == (if y % 400 == 0 { 1int } else { 0int }),
{
    vstd::arithmetic::div_mod::lemma_fundamental_div_mod(y, 4);
    vstd::arithmetic::div_mod::lemma_fundamental_div_mod(y - 1, 4);
    vstd::arithmetic::div_mod::lemma_fundamental_div_mod(y, 100);
    vstd::arithmetic::div_mod::lemma_fundamental_div_mod(y - 1, 100);
    vstd::arithmetic::div_mod::lemma_fundamental_div_mod(y, 400);
    vstd::arithmetic::div_mod::lemma_fundamental_div_mod(y - 1, 400);
}

/// A year has 365 days, and 366 in a leap year.
pub proof fn law_year_length(y: int)
    ensures
        civil_day(y + 1, 1, 1) - civil_day(y, 1, 1) == (if is_leap(y) { 366int } else { 365int }),
        days_before_month(y, 13) == (if is_leap(y) { 366int } else { 365int }),
{
    lemma_floor_step(y);
    reveal_with_fuel(days_before_month, 13);
}

/// A month's first day is followed, `month_length` days later, by the first
/// day of the next month: the calendar counts exactly the month's days.
pub proof fn law_month_days(y: i32, m: u32)
    requires
        1 <= m <= 12,
        date_exists(y as int, m as int, 1),
        m == 12 ==> date_exists(y + 1, 1, 1),
    ensures
        m < 12 ==> days_between(y, m, 1, y, (m + 1) as u32, 1) == month_length(y as int, m as int),
        m == 12 ==> days_between(y, m, 1, (y + 1) as i32, 1, 1) == month_length(y as int, m as int),
{
    if m == 12 {
        law_year_length(y as int);
        assert(days_before_month(y as int, 13) == days_before_month(y as int, 12) + 31);
    } else {
        assert(days_before_month(y as int, m + 1) == days_before_month(y as int, m as int)
            + month_length(y as int, m as int));
    }
}

/// Each day falls on the weekday after the one of the day before.
pub proof fn law_weekday_next(y: i32, m: u32, d: u32)
    requires
        d < u32::MAX,
    ensures
        weekday_from_sunday(y, m, (d + 1) as u32) == (weekday_from_sunday(y, m, d) + 1) % 7,
{
    let c = civil_day(y as int, m as int, d as int);
    assert(civil_day(y as int, m as int, d + 1) == c + 1);
    vstd::arithmetic::div_mod::lemma_fundamental_div_mod(c + 6, 7);
    vstd::arithmetic::div_mod::lemma_fundamental_div_mod(c + 7, 7);
}

proof fn lemma_day_cells_some(y: i32, m: u32, off: bool, d: int, days: int, col: int)
    requires
        1 <= m <= 12,
        date_exists(y as int, m as int, 1),
        days == month_length(y as int, m as int),
        1 <= d,
        0 <= col <= 7,
    ensures
        day_cells(y, m, off, d, days, col) is Some,
    decreases days - d + 1,
{
    lemma_day_cells_unfold(y, m, off, d, days, col);
    if d <= days {
        let col2 = if col == 7 { 0 } else { col };
        lemma_day_cells_some(y, m, off, d + 1, days, col2 + 1);
    }
}

/// The calendar of every month that has a next month in chrono's range is
/// its month's days, `month_length` of them, laid out from the weekday of
/// the first day on.
pub proof fn law_calendar_month(y: i32, m: u32, off: bool)
    requires
        1 <= m <= 12,
        date_exists(y as int, m as int, 1),
        m == 12 ==> date_exists(y + 1, 1, 1),
    ensures
        calendar_for(y, m, off) == wrap_table(
            weekday_from_sunday(y, m, 1),
            day_cells(
                y,
                m,
                off,
                1,
                month_length(y as int, m as int),
                weekday_from_sunday(y, m, 1) as int,
            ),
        ),
        calendar_for(y, m, off) is Some,
{
    law_month_days(y, m);
    lemma_day_cells_some(
        y,
        m,
        off,
        1,
        month_length(y as int, m as int),
        weekday_from_sunday(y, m, 1) as int,
    );
}


/// `#calendar2(YYYY, MM, off)`: a third argument that lowercases to `off`
/// leaves the weekend days unmarked; without it they are marked.
pub proof fn law_calendar_off_separated(args: Seq<Seq<char>>, y: i32, m: u32)
    requires
        args.len() >= 2,
        byte_len(args[0]) == 4,
        byte_len(args[1]) == 2,
        parse_i32_spec(args[0]) == Some(y),
        parse_u32_spec(args[1]) == Some(m),
    ensures
        args.len() > 2 && lowered(args[2]) == "off"@ ==> calendar_from_args(args) == Some(
            calendar_for(y, m, true),
        ),
        !(args.len() > 2 && lowered(args[2]) == "off"@) ==> calendar_from_args(args) == Some(
            calendar_for(y, m, false),
        ),
{
}

/// `#calendar2(YYYYMM, off)`: a second argument that lowercases to `off`
/// leaves the weekend days unmarked; without it they are marked.
pub proof fn law_calendar_off_joined(args: Seq<Seq<char>>, a: int, c: int, y: i32, m: u32)
    requires
        args.len() >= 1,
        byte_len(args[0]) >= 6,
        char_index_at(args[0], 4) == Some(a),
        char_index_at(args[0], 6) == Some(c),
        parse_i32_spec(args[0].take(a)) == Some(y),
        parse_u32_spec(args[0].subrange(a, c)) == Some(m),
    ensures
        args.len() > 1 && lowered(args[1]) == "off"@ ==> calendar_from_args(args) == Some(
            calendar_for(y, m, true),
        ),
        !(args.len() > 1 && lowered(args[1]) == "off"@) ==> calendar_from_args(args) == Some(
            calendar_for(y, m, false),
        ),
{
}

/// With `off` no day's cell carries a class; otherwise a Sunday's cell is
/// marked `sunday`, a Saturday's `saturday`, and no other day's.
pub proof fn law_weekend_marks(y: i32, m: u32, d: u32)
    ensures
        day_class(true, weekday_from_sunday(y, m, d)) == Seq::<char>::empty(),
        weekday_from_sunday(y, m, d) == 0 ==> day_class(false, weekday_from_sunday(y, m, d))
            == " class=\"sunday\""@,
        weekday_from_sunday(y, m, d) == 6 ==> day_class(false, weekday_from_sunday(y, m, d))
            == " class=\"saturday\""@,
        1 <= weekday_from_sunday(y, m, d) <= 5 ==> day_class(false, weekday_from_sunday(y, m, d))
            == Seq::<char>::empty(),
{
}

/// Each day's cell holds its number, after a row break when seven cells
/// fill the row; with `off` it carries no class, otherwise a Sunday's is
/// `sunday`, a Saturday's `saturday`, and other days' none.
pub proof fn law_day_cell(y: i32, m: u32, off: bool, d: int, days: int, col: int)
    requires
        1 <= d <= days,
        d <= u32::MAX,
        date_exists(y as int, m as int, d),
    ensures
        day_cells(y, m, off, d, days, col) matches Some((cells, last)) ==> {
            let sep: Seq<char> = if col == 7 { "</tr><tr>"@ } else { Seq::empty() };
            let w = weekday_from_sunday(y, m, d as u32);
            let cls: Seq<char> = if off {
                Seq::empty()
            } else if w == 0 {
                " class=\"sunday\""@
            } else if w == 6 {
                " class=\"saturday\""@
            } else {
                Seq::empty()
            };
            starts_with(cells, sep + "<td"@ + cls + ">"@ + decimal(d as nat) + "</td>"@)
        },
{
    lemma_day_cells_unfold(y, m, off, d, days, col);
    let sep: Seq<char> = if col == 7 { "</tr><tr>"@ } else { Seq::empty() };
    let cell = "<td"@ + day_class(off, weekday_from_sunday(y, m, d as u32)) + ">"@ + decimal(d as nat)
        + "</td>"@;
    let w = weekday_from_sunday(y, m, d as u32);
    let cls: Seq<char> = if off {
        Seq::empty()
    } else if w == 0 {
        " class=\"sunday\""@
    } else if w == 6 {
        " class=\"saturday\""@
    } else {
        Seq::empty()
    };
    assert(day_class(off, w) == cls);
    let front = sep + "<td"@ + cls + ">"@ + decimal(d as nat) + "</td>"@;
    assert(front =~= sep + cell);
    if let Some((cells, last)) = day_cells(y, m, off, d, days, col) {
        let col2 = if col == 7 { 0 } else { col };
        let rest = day_cells(y, m, off, d + 1, days, col2 + 1).unwrap().0;
        assert(cells =~= sep + cell + rest);
        assert(cells.take(front.len() as int) =~= front);
        assert(starts_with(cells, front));
    }
}

/// An ASCII line that begins with `#calendar2(` in any case reads its
/// arguments, split at `,` and trimmed, up to the first `)`; without a `)`
/// it gives no calendar.
pub proof fn law_calendar_arguments(line: Seq<char>)
    requires
        all_ascii(line),
        line.len() >= 11,
        ascii_lowered(line.take(11)) == "#calendar2("@,
    ensures
        ({
            let rest = line.skip(11);
            calendar_block(line) == match find_elem(rest, ')') {
                Some(q) => calendar_from_args(split_trimmed(rest.take(q), ',')),
                None => Some(None::<Seq<char>>),
            }
        }),
{
    reveal_strlit("#calendar2(");
    lemma_lowered_prefix(line, "#calendar2("@);
    lemma_ascii_offsets(line, 11);
    assert(byte_len(lowered(line).take(0)) == 0) by {
        assert(lowered(line).take(0) =~= Seq::<char>::empty());
    }
}

} // verus!
