//! Human-readable dates and times for the schedule, rides and gatherings,
//! and the "YYYY-MM-DD" stamps the pages compare against. Every formatter
//! falls back to the raw text when it is not shaped as expected: stored data
//! is never trusted to be clean.
use vstd::prelude::*;

use crate::fmt::{
    lemma_split_concat, lemma_split_without_separator, all_digits, digits_value, lemma_fixed_width, pow10, decimal, fmt_int, parse_i64_chars, parse_signed, parse_unsigned, parse_unsigned_chars, push_decimal,
    push_int, split_chars, split_on, views, lemma_split_nonempty,
};
use crate::gathering::{local_date_shaped, local_datetime_shaped, stamp_field};
use crate::text::{
    is_digit,
    chars_of, find_char, first_index, lex_lt, push_all, push_char, push_str, slice_chars,
    str_lt, string_of, find_sub, first_occurrence,
};

verus! {

// ---------------------------------------------------------------------------
// Pieces
// ---------------------------------------------------------------------------

pub open spec fn month_name(m: int) -> Seq<char> {
    if m == 1 {
        "January"@
    } else if m == 2 {
        "February"@
    } else if m == 3 {
        "March"@
    } else if m == 4 {
        "April"@
    } else if m == 5 {
        "May"@
    } else if m == 6 {
        "June"@
    } else if m == 7 {
        "July"@
    } else if m == 8 {
        "August"@
    } else if m == 9 {
        "September"@
    } else if m == 10 {
        "October"@
    } else if m == 11 {
        "November"@
    } else {
        "December"@
    }
}

/// The English month names, January first.
pub open spec fn english_months() -> Seq<Seq<char>> {
    seq![
        "January"@,
        "February"@,
        "March"@,
        "April"@,
        "May"@,
        "June"@,
        "July"@,
        "August"@,
        "September"@,
        "October"@,
        "November"@,
        "December"@,
    ]
}

/// Month `m` of the year is named by the `m`-th English month name, so
/// different months get different names.
pub proof fn lemma_month_names(m: int, n: int)
    requires
        1 <= m <= 12,
        1 <= n <= 12,
    ensures
        month_name(m) == english_months()[m - 1],
        month_name(m) == month_name(n) ==> m == n,
{
    reveal_strlit("January");
    reveal_strlit("February");
    reveal_strlit("March");
    reveal_strlit("April");
    reveal_strlit("May");
    reveal_strlit("June");
    reveal_strlit("July");
    reveal_strlit("August");
    reveal_strlit("September");
    reveal_strlit("October");
    reveal_strlit("November");
    reveal_strlit("December");
    let t = english_months();
    assert forall|i: int, j: int| 0 <= i < 12 && 0 <= j < 12 && i != j implies t[i] != t[j] by {
        if t[i].len() == t[j].len() {
            assert(t[i][0] != t[j][0] || t[i][1] != t[j][1] || t[i][2] != t[j][2]);
        }
    }
}

/// On a well-formed "YYYY-MM-DD" with a month from 01 to 12, `pretty_date`
/// gives the month's English name, the day without leading zeros and the
/// year ("2030-06-15" is "June 15, 2030"); `pretty_md` the same without the
/// year.
pub proof fn lemma_pretty_date_of_a_date(d: Seq<char>)
    requires
        local_date_shaped(d),
        1 <= stamp_field(d, 5, 7) <= 12,
    ensures
        pretty_date_of(d) == english_months()[stamp_field(d, 5, 7) - 1] + " "@ + strip_zeros(d.subrange(8, 10))
            + ", "@ + d.subrange(0, 4),
        pretty_md_of(d) == english_months()[stamp_field(d, 5, 7) - 1] + " "@ + strip_zeros(d.subrange(8, 10)),
{
    let a = d.subrange(0, 4);
    let b = d.subrange(5, 7);
    let c = d.subrange(8, 10);
    assert(d =~= a + seq!['-'] + (b + seq!['-'] + c));
    assert forall|i: int| 0 <= i < a.len() implies a[i] != '-' && is_digit(#[trigger] a[i]) by {
        assert(a[i] == d[i]);
    }
    assert forall|i: int| 0 <= i < b.len() implies b[i] != '-' && is_digit(#[trigger] b[i]) by {
        assert(b[i] == d[i + 5]);
    }
    assert forall|i: int| 0 <= i < c.len() implies c[i] != '-' && is_digit(#[trigger] c[i]) by {
        assert(c[i] == d[i + 8]);
    }
    lemma_split_concat(a, '-', b + seq!['-'] + c);
    lemma_split_concat(b, '-', c);
    lemma_split_without_separator(a, '-');
    lemma_split_without_separator(b, '-');
    lemma_split_without_separator(c, '-');
    let parts = split_on(d, '-');
    assert(parts =~= seq![a, b, c]);
    assert(all_digits(b));
    assert(parse_unsigned(b, usize::MAX as int) == Some(digits_value(b)));
    let m = stamp_field(d, 5, 7);
    assert(month_of(parts[1]) == Some(m));
    lemma_month_names(m, m);
}

fn month_str(m: u64) -> (r: &'static str)
    requires
        1 <= m <= 12,
    ensures
        r@ == month_name(m as int),
{
    if m == 1 {
        "January"
    } else if m == 2 {
        "February"
    } else if m == 3 {
        "March"
    } else if m == 4 {
        "April"
    } else if m == 5 {
        "May"
    } else if m == 6 {
        "June"
    } else if m == 7 {
        "July"
    } else if m == 8 {
        "August"
    } else if m == 9 {
        "September"
    } else if m == 10 {
        "October"
    } else if m == 11 {
        "November"
    } else {
        "December"
    }
}

/// `str::trim_start_matches('0')`.
pub open spec fn strip_zeros(s: Seq<char>) -> Seq<char>
    decreases s.len(),
{
    if s.len() > 0 && s[0] == '0' {
        strip_zeros(s.drop_first())
    } else {
        s
    }
}

fn strip_zeros_chars(v: &Vec<char>) -> (r: Vec<char>)
    ensures
        r@ == strip_zeros(v@),
{
    let mut i: usize = 0;
    assert(v@.subrange(0, v.len() as int) =~= v@);
    while i < v.len() && v[i] == '0'
        invariant
            i <= v.len(),
            strip_zeros(v@) == strip_zeros(v@.subrange(i as int, v.len() as int)),
        decreases v.len() - i,
    {
        assert(v@.subrange(i as int, v.len() as int).drop_first() =~= v@.subrange(i + 1, v.len() as int));
        i += 1;
    }
    slice_chars(v, i, v.len())
}

/// The text before the first `c` and the text after it.
pub open spec fn before_first(s: Seq<char>, c: char) -> Seq<char> {
    s.subrange(0, first_index(s, c)->0)
}

pub open spec fn after_first(s: Seq<char>, c: char) -> Seq<char> {
    s.subrange(first_index(s, c)->0 + 1, s.len() as int)
}

/// The month number of a date piece, as `parse::<usize>` reads it, when it
/// names a month.
pub open spec fn month_of(piece: Seq<char>) -> Option<int> {
    match parse_unsigned(piece, usize::MAX as int) {
        Some(m) => if 1 <= m <= 12 { Some(m) } else { None },
        None => None,
    }
}

fn month_of_chars(piece: &Vec<char>) -> (r: Option<u64>)
    ensures
        match month_of(piece@) {
            Some(m) => r == Some(m as u64),
            None => r is None,
        },
{
    match parse_unsigned_chars(piece, usize::MAX as u64) {
        Some(m) => if 1 <= m && m <= 12 {
            Some(m)
        } else {
            None
        },
        None => None,
    }
}

// ---------------------------------------------------------------------------
// Dates
// ---------------------------------------------------------------------------

/// "2030-10-31" as "October 31, 2030".
pub open spec fn pretty_date_of(d: Seq<char>) -> Seq<char> {
    let parts = split_on(d, '-');
    if parts.len() >= 3 && month_of(parts[1]) is Some {
        month_name(month_of(parts[1])->0) + " "@ + strip_zeros(parts[2]) + ", "@ + parts[0]
    } else {
        d
    }
}

/// "2030-10-31" as "October 31".
pub open spec fn pretty_md_of(d: Seq<char>) -> Seq<char> {
    let parts = split_on(d, '-');
    if parts.len() >= 3 && month_of(parts[1]) is Some {
        month_name(month_of(parts[1])->0) + " "@ + strip_zeros(parts[2])
    } else {
        d
    }
}

/// Render "2030-10-31" as "October 31, 2030"; anything else comes back as
/// it is.
pub fn pretty_date(d: &str) -> (r: String)
    ensures
        r@ == pretty_date_of(d@),
{
    let v = chars_of(d);
    let parts = split_chars(&v, '-');
    proof {
        assert(views(parts@).len() == parts@.len());
    }
    if parts.len() >= 3 {
        proof {
            assert(views(parts@)[1] == parts@[1]@);
            assert(views(parts@)[2] == parts@[2]@);
            assert(views(parts@)[0] == parts@[0]@);
        }
        if let Some(m) = month_of_chars(&parts[1]) {
            let mut s = String::new();
            push_str(&mut s, month_str(m));
            push_str(&mut s, " ");
            let day = strip_zeros_chars(&parts[2]);
            push_all(&mut s, &day);
            push_str(&mut s, ", ");
            push_all(&mut s, &parts[0]);
            assert(s@ =~= pretty_date_of(d@));
            return s;
        }
    }
    string_of(&v)
}

/// Render "2030-10-31" as "October 31"; anything else comes back as it is.
pub fn pretty_md(d: &str) -> (r: String)
    ensures
        r@ == pretty_md_of(d@),
{
    let v = chars_of(d);
    let parts = split_chars(&v, '-');
    proof {
        assert(views(parts@).len() == parts@.len());
    }
    if parts.len() >= 3 {
        proof {
            assert(views(parts@)[1] == parts@[1]@);
            assert(views(parts@)[2] == parts@[2]@);
        }
        if let Some(m) = month_of_chars(&parts[1]) {
            let mut s = String::new();
            push_str(&mut s, month_str(m));
            push_str(&mut s, " ");
            let day = strip_zeros_chars(&parts[2]);
            push_all(&mut s, &day);
            assert(s@ =~= pretty_md_of(d@));
            return s;
        }
    }
    string_of(&v)
}

/// RSVPs are closed once today is past the deadline.
pub fn rsvp_closed(today: &str, deadline: Option<&str>) -> (r: bool)
    ensures
        r == match deadline {
            Some(d) => lex_lt(d@, today@),
            None => false,
        },
{
    match deadline {
        Some(d) => str_lt(d, today),
        None => false,
    }
}

/// A local date as "YYYY-MM-DD" from its year, month (1-based) and day.
pub fn date_stamp(year: i64, month: i64, day: i64) -> (r: String)
    ensures
        r@ == date_stamp_of(year as int, month as int, day as int),
{
    let mut s = String::new();
    push_int(&mut s, year, 4);
    push_str(&mut s, "-");
    push_int(&mut s, month, 2);
    push_str(&mut s, "-");
    push_int(&mut s, day, 2);
    s
}

/// A local datetime as "YYYY-MM-DDTHH:MM", comparable to ride times.
pub fn datetime_stamp(year: i64, month: i64, day: i64, hour: i64, minute: i64) -> (r: String)
    ensures
        r@ == datetime_stamp_of(year as int, month as int, day as int, hour as int, minute as int),
{
    let mut s = date_stamp(year, month, day);
    push_str(&mut s, "T");
    push_int(&mut s, hour, 2);
    push_str(&mut s, ":");
    push_int(&mut s, minute, 2);
    s
}

/// The text of `date_stamp`.
pub open spec fn date_stamp_of(year: int, month: int, day: int) -> Seq<char> {
    fmt_int(year, 4) + "-"@ + fmt_int(month, 2) + "-"@ + fmt_int(day, 2)
}

/// The text of `datetime_stamp`.
pub open spec fn datetime_stamp_of(year: int, month: int, day: int, hour: int, minute: int) -> Seq<char> {
    date_stamp_of(year, month, day) + "T"@ + fmt_int(hour, 2) + ":"@ + fmt_int(minute, 2)
}

proof fn lemma_two_digits(n: int)
    requires
        0 <= n <= 99,
    ensures
        fmt_int(n, 2).len() == 2,
        all_digits(fmt_int(n, 2)),
        digits_value(fmt_int(n, 2)) == n,
{
    reveal_with_fuel(pow10, 3);
    lemma_fixed_width(n, 2);
}

proof fn lemma_four_digits(n: int)
    requires
        0 <= n <= 9999,
    ensures
        fmt_int(n, 4).len() == 4,
        all_digits(fmt_int(n, 4)),
        digits_value(fmt_int(n, 4)) == n,
{
    reveal_with_fuel(pow10, 5);
    lemma_fixed_width(n, 4);
}

/// A date of a four-digit year is stamped as a well-formed "YYYY-MM-DD"
/// whose fields read back as the date, so stamps compare as the days do.
pub proof fn lemma_date_stamp_reads_back(year: int, month: int, day: int)
    requires
        0 <= year <= 9999,
        0 <= month <= 99,
        0 <= day <= 99,
    ensures
        local_date_shaped(date_stamp_of(year, month, day)),
        stamp_field(date_stamp_of(year, month, day), 0, 4) == year,
        stamp_field(date_stamp_of(year, month, day), 5, 7) == month,
        stamp_field(date_stamp_of(year, month, day), 8, 10) == day,
{
    reveal_strlit("-");
    lemma_four_digits(year);
    lemma_two_digits(month);
    lemma_two_digits(day);
    let (y, m, d) = (fmt_int(year, 4), fmt_int(month, 2), fmt_int(day, 2));
    let s = date_stamp_of(year, month, day);
    assert(s =~= y + seq!['-'] + m + seq!['-'] + d);
    assert(s.subrange(0, 4) =~= y);
    assert(s.subrange(5, 7) =~= m);
    assert(s.subrange(8, 10) =~= d);
    assert forall|i: int| 0 <= i < 10 && i != 4 && i != 7 implies is_digit(#[trigger] s[i]) by {
        if i < 4 {
            assert(s[i] == y[i]);
        } else if i < 7 {
            assert(s[i] == m[i - 5]);
        } else {
            assert(s[i] == d[i - 8]);
        }
    }
}

/// A moment of a four-digit year is stamped as a well-formed
/// "YYYY-MM-DDTHH:MM" whose fields read back as the moment, so the clock's
/// stamps compare with ride and gathering times as the moments do.
pub proof fn lemma_datetime_stamp_reads_back(year: int, month: int, day: int, hour: int, minute: int)
    requires
        0 <= year <= 9999,
        0 <= month <= 99,
        0 <= day <= 99,
        0 <= hour <= 99,
        0 <= minute <= 99,
    ensures
        local_datetime_shaped(datetime_stamp_of(year, month, day, hour, minute)),
        stamp_field(datetime_stamp_of(year, month, day, hour, minute), 0, 4) == year,
        stamp_field(datetime_stamp_of(year, month, day, hour, minute), 5, 7) == month,
        stamp_field(datetime_stamp_of(year, month, day, hour, minute), 8, 10) == day,
        stamp_field(datetime_stamp_of(year, month, day, hour, minute), 11, 13) == hour,
        stamp_field(datetime_stamp_of(year, month, day, hour, minute), 14, 16) == minute,
{
    reveal_strlit("T");
    reveal_strlit(":");
    lemma_date_stamp_reads_back(year, month, day);
    lemma_two_digits(hour);
    lemma_two_digits(minute);
    let ds = date_stamp_of(year, month, day);
    let (h, mi) = (fmt_int(hour, 2), fmt_int(minute, 2));
    let s = datetime_stamp_of(year, month, day, hour, minute);
    assert(s =~= ds + seq!['T'] + h + seq![':'] + mi);
    assert(s.subrange(0, 4) =~= ds.subrange(0, 4));
    assert(s.subrange(5, 7) =~= ds.subrange(5, 7));
    assert(s.subrange(8, 10) =~= ds.subrange(8, 10));
    assert(s.subrange(11, 13) =~= h);
    assert(s.subrange(14, 16) =~= mi);
    assert forall|i: int| 0 <= i < 16 && i != 4 && i != 7 && i != 10 && i != 13 implies is_digit(
        #[trigger] s[i],
    ) by {
        if i < 10 {
            assert(s[i] == ds[i]);
        } else if i < 13 {
            assert(s[i] == h[i - 11]);
        } else {
            assert(s[i] == mi[i - 14]);
        }
    }
}

// ---------------------------------------------------------------------------
// Date and time
// ---------------------------------------------------------------------------

/// The hour of a "YYYY-MM-DDTHH:MM" text read by `parse::<u32>`.
pub open spec fn when_parts_ok(s: Seq<char>) -> bool {
    first_index(s, 'T') is Some && split_on(before_first(s, 'T'), '-').len() >= 3 && split_on(
        after_first(s, 'T'),
        ':',
    ).len() >= 2
}

/// "2026-09-01T18:30" as "September 1, 2026 · 6:30 PM".
pub open spec fn pretty_when_of(s: Seq<char>) -> Seq<char> {
    if !when_parts_ok(s) {
        s
    } else {
        let d = split_on(before_first(s, 'T'), '-');
        let t = split_on(after_first(s, 'T'), ':');
        let mi = parse_unsigned(d[1], usize::MAX as int);
        let hh = parse_unsigned(t[0], u32::MAX as int);
        if mi is None || hh is None || !(1 <= mi->0 <= 12) || hh->0 > 23 {
            s
        } else {
            let h = hh->0;
            let h12 = if h % 12 == 0 { 12 } else { h % 12 };
            month_name(mi->0) + " "@ + strip_zeros(d[2]) + ", "@ + d[0] + " · "@ + decimal(h12 as nat) + ":"@
                + t[1] + " "@ + if h < 12 { "AM"@ } else { "PM"@ }
        }
    }
}

/// Render "2026-09-01T18:30" as "September 1, 2026 · 6:30 PM"; anything else
/// comes back as it is.
#[verifier::rlimit(40)]
pub fn pretty_when(s: &str) -> (r: String)
    ensures
        r@ == pretty_when_of(s@),
{
    let v = chars_of(s);
    let k = match find_char(&v, 'T') {
        Some(k) => k,
        None => return string_of(&v),
    };
    let date = slice_chars(&v, 0, k);
    let time = slice_chars(&v, k + 1, v.len());
    let d = split_chars(&date, '-');
    let t = split_chars(&time, ':');
    proof {
        assert(views(d@).len() == d@.len());
        assert(views(t@).len() == t@.len());
    }
    if d.len() < 3 || t.len() < 2 {
        return string_of(&v);
    }
    proof {
        assert(views(d@)[0] == d@[0]@);
        assert(views(d@)[1] == d@[1]@);
        assert(views(d@)[2] == d@[2]@);
        assert(views(t@)[0] == t@[0]@);
        assert(views(t@)[1] == t@[1]@);
    }
    let mi = parse_unsigned_chars(&d[1], usize::MAX as u64);
    let hh = parse_unsigned_chars(&t[0], u32::MAX as u64);
    let (mi, hh) = match (mi, hh) {
        (Some(mi), Some(hh)) => (mi, hh),
        _ => return string_of(&v),
    };
    if mi < 1 || mi > 12 || hh > 23 {
        return string_of(&v);
    }
    let h12 = if hh % 12 == 0 {
        12
    } else {
        hh % 12
    };
    let mut out = String::new();
    push_str(&mut out, month_str(mi));
    push_str(&mut out, " ");
    let day = strip_zeros_chars(&d[2]);
    push_all(&mut out, &day);
    push_str(&mut out, ", ");
    push_all(&mut out, &d[0]);
    push_str(&mut out, " · ");
    push_decimal(&mut out, h12);
    push_str(&mut out, ":");
    push_all(&mut out, &t[1]);
    push_str(&mut out, " ");
    if hh < 12 {
        push_str(&mut out, "AM");
    } else {
        push_str(&mut out, "PM");
    }
    assert(out@ =~= pretty_when_of(s@));
    out
}

/// The pieces that `pretty_dt` reads: the month and the hour, when both
/// parse and the month is one of the twelve.
pub open spec fn dt_fields(dt: Seq<char>) -> Option<(int, int)> {
    if !when_parts_ok(dt) {
        None
    } else {
        let d = split_on(before_first(dt, 'T'), '-');
        let t = split_on(after_first(dt, 'T'), ':');
        match (month_of(d[1]), parse_signed(t[0], i64::MIN as int, i64::MAX as int)) {
            (Some(m), Some(h)) => Some((m, h)),
            _ => None,
        }
    }
}

/// `pretty_dt` computes `hour - 12` for the afternoon; that subtraction is
/// defined for every hour but the twelve smallest `i64` values.
pub open spec fn dt_hour_in_range(dt: Seq<char>) -> bool {
    match dt_fields(dt) {
        Some((_, h)) => h >= i64::MIN + 12,
        None => true,
    }
}

/// "2026-07-04T09:00" as "July 4 · 9:00 AM".
pub open spec fn pretty_dt_of(dt: Seq<char>) -> Seq<char> {
    match dt_fields(dt) {
        None => dt,
        Some((m, hr)) => {
            let h12 = if hr == 0 { 12 } else if 1 <= hr <= 11 { hr } else if hr == 12 { 12 } else { hr - 12 };
            let ampm = if hr == 0 || (1 <= hr <= 11) { "AM"@ } else { "PM"@ };
            month_name(m) + " "@ + strip_zeros(dt_day(dt)) + " · "@ + fmt_int(h12, 0) + ":"@ + dt_minute(dt) + " "@
                + ampm
        },
    }
}

/// The day piece and the minute piece of a datetime whose fields parse.
pub open spec fn dt_day(dt: Seq<char>) -> Seq<char> {
    split_on(before_first(dt, 'T'), '-')[2]
}

pub open spec fn dt_minute(dt: Seq<char>) -> Seq<char> {
    split_on(after_first(dt, 'T'), ':')[1]
}

/// The month, hour, day piece and minute piece of `v`, as `pretty_dt` reads
/// them.
#[verifier::rlimit(40)]
fn dt_fields_exec(v: &Vec<char>) -> (r: Option<(u64, i64, Vec<char>, Vec<char>)>)
    ensures
        match dt_fields(v@) {
            Some((m, h)) => r matches Some((rm, rh, day, minute)) && rm == m && rh == h && day@ == dt_day(
                v@,
            ) && minute@ == dt_minute(v@),
            None => r is None,
        },
{
    let k = match find_char(v, 'T') {
        Some(k) => k,
        None => return None,
    };
    let date = slice_chars(v, 0, k);
    let time = slice_chars(v, k + 1, v.len());
    assert(date@ == before_first(v@, 'T'));
    assert(time@ == after_first(v@, 'T'));
    let d = split_chars(&date, '-');
    let t = split_chars(&time, ':');
    let ghost ds = split_on(before_first(v@, 'T'), '-');
    let ghost ts = split_on(after_first(v@, 'T'), ':');
    proof {
        assert(views(d@) == ds);
        assert(views(t@) == ts);
        assert(views(d@).len() == d@.len());
        assert(views(t@).len() == t@.len());
    }
    if d.len() < 3 || t.len() < 2 {
        assert(!when_parts_ok(v@));
        return None;
    }
    proof {
        assert(when_parts_ok(v@));
        assert(views(d@)[1] == d@[1]@);
        assert(views(d@)[2] == d@[2]@);
        assert(views(t@)[0] == t@[0]@);
        assert(views(t@)[1] == t@[1]@);
        assert(ds[1] == d@[1]@ && ds[2] == d@[2]@ && ts[0] == t@[0]@ && ts[1] == t@[1]@);
    }
    let mo = month_of_chars(&d[1]);
    let ho = parse_i64_chars(&t[0]);
    assert(dt_fields(v@) == match (month_of(ds[1]), parse_signed(ts[0], i64::MIN as int, i64::MAX as int)) {
        (Some(m), Some(h)) => Some((m, h)),
        _ => None,
    });
    match (mo, ho) {
        (Some(mi), Some(hr)) => {
            let day = slice_chars(&d[2], 0, d[2].len());
            let minute = slice_chars(&t[1], 0, t[1].len());
            assert(day@ =~= d@[2]@);
            assert(minute@ =~= t@[1]@);
            Some((mi, hr, day, minute))
        },
        _ => None,
    }
}

/// Whether `pretty_dt` is defined on `dt` (see `dt_hour_in_range`).
pub fn hour_in_range(dt: &str) -> (r: bool)
    ensures
        r == dt_hour_in_range(dt@),
{
    let v = chars_of(dt);
    match dt_fields_exec(&v) {
        Some((_, h, _, _)) => h >= i64::MIN + 12,
        None => true,
    }
}

/// Render "2026-07-04T09:00" as "July 4 · 9:00 AM"; anything else comes
/// back as it is.
pub fn pretty_dt(dt: &str) -> (r: String)
    requires
        dt_hour_in_range(dt@),
    ensures
        r@ == pretty_dt_of(dt@),
{
    let v = chars_of(dt);
    let (mi, hr, day_piece, minute) = match dt_fields_exec(&v) {
        Some(f) => f,
        None => return string_of(&v),
    };
    let (h12, am) = if hr == 0 {
        (12i64, true)
    } else if 1 <= hr && hr <= 11 {
        (hr, true)
    } else if hr == 12 {
        (12i64, false)
    } else {
        (hr - 12, false)
    };
    let mut out = String::new();
    push_str(&mut out, month_str(mi));
    push_str(&mut out, " ");
    let day = strip_zeros_chars(&day_piece);
    push_all(&mut out, &day);
    push_str(&mut out, " · ");
    push_int(&mut out, h12, 0);
    push_str(&mut out, ":");
    push_all(&mut out, &minute);
    push_str(&mut out, " ");
    if am {
        push_str(&mut out, "AM");
    } else {
        push_str(&mut out, "PM");
    }
    assert(out@ =~= pretty_dt_of(dt@));
    out
}

/// The date part of a datetime, if it has a 'T'.
pub open spec fn date_part(s: Seq<char>) -> Option<Seq<char>> {
    match first_index(s, 'T') {
        Some(k) => Some(s.subrange(0, k)),
        None => None,
    }
}

/// `s.split_once(t).map(|(_, after)| after).unwrap_or(s)`.
pub open spec fn after_sub_or_all(s: Seq<char>, t: Seq<char>) -> Seq<char> {
    match first_occurrence(s, t) {
        Some(k) => s.subrange(k + t.len(), s.len() as int),
        None => s,
    }
}

fn after_sub(v: &Vec<char>, t: &str) -> (r: Vec<char>)
    ensures
        r@ == after_sub_or_all(v@, t@),
{
    let n = t.unicode_len();
    match find_sub(v, t) {
        Some(k) => {
            assert(k + n <= v.len());
            slice_chars(v, k + n, v.len())
        },
        None => {
            let r = slice_chars(v, 0, v.len());
            assert(r@ =~= v@);
            r
        },
    }
}

/// A ride's time range: same-day rides repeat only the clock time.
pub open spec fn pretty_range_of(start: Seq<char>, end: Seq<char>) -> Seq<char> {
    if date_part(start) == date_part(end) {
        pretty_dt_of(start) + " – "@ + after_sub_or_all(pretty_dt_of(end), "· "@)
    } else {
        pretty_dt_of(start) + " – "@ + pretty_dt_of(end)
    }
}

fn date_part_exec(v: &Vec<char>) -> (r: Option<Vec<char>>)
    ensures
        match date_part(v@) {
            Some(d) => r matches Some(x) && x@ == d,
            None => r is None,
        },
{
    match find_char(v, 'T') {
        Some(k) => Some(slice_chars(v, 0, k)),
        None => None,
    }
}

fn same_day_exec(start: &str, end: &str) -> (r: bool)
    ensures
        r == (date_part(start@) == date_part(end@)),
{
    let sv = chars_of(start);
    let ev = chars_of(end);
    match (date_part_exec(&sv), date_part_exec(&ev)) {
        (Some(a), Some(b)) => crate::text::chars_eq(&a, &b),
        (None, None) => true,
        _ => false,
    }
}

/// Time range label for a ride.
pub fn pretty_range(start: &str, end: &str) -> (r: String)
    requires
        dt_hour_in_range(start@),
        dt_hour_in_range(end@),
    ensures
        r@ == pretty_range_of(start@, end@),
{
    let same_day = same_day_exec(start, end);
    let mut out = pretty_dt(start);
    push_str(&mut out, " – ");
    let end_text = pretty_dt(end);
    if same_day {
        let ec = chars_of(end_text.as_str());
        let short = after_sub(&ec, "· ");
        push_all(&mut out, &short);
    } else {
        push_str(&mut out, end_text.as_str());
    }
    assert(out@ =~= pretty_range_of(start@, end@));
    out
}

} // verus!
