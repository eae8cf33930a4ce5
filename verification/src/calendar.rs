//! Calendar days and the `YYYY-MM-DD` keys that name them.
use vstd::prelude::*;
use crate::numtext::{
    all_digits, digits_value, is_ascii_digit, lemma_padded_digits, lemma_zero_padded, parse_integer,
    parse_integer_chars, pow10, zero_padded, zero_padded_chars,
};
use crate::text::{chars_of, string_from_chars};

verus! {

/// The proleptic Gregorian leap-year rule.
pub open spec fn is_leap_year(y: int) -> bool {
    (y % 4 == 0 && y % 100 != 0) || y % 400 == 0
}

pub open spec fn days_in_month(y: int, m: int) -> int {
    if m == 2 {
        if is_leap_year(y) {
            29
        } else {
            28
        }
    } else if m == 4 || m == 6 || m == 9 || m == 11 {
        30
    } else {
        31
    }
}

/// A day that `time::Date` can hold (its default range is the years
/// -9999 to 9999).
pub open spec fn valid_date(y: int, m: int, d: int) -> bool {
    &&& -9999 <= y <= 9999
    &&& 1 <= m <= 12
    &&& 1 <= d <= days_in_month(y, m)
}

/// The calendar day before `(y, m, d)`; `None` before the first day that
/// `time::Date` holds.
pub open spec fn previous_date(y: int, m: int, d: int) -> Option<(int, int, int)> {
    if d > 1 {
        Some((y, m, d - 1))
    } else if m > 1 {
        Some((y, m - 1, days_in_month(y, m - 1)))
    } else if y > -9999 {
        Some((y - 1, 12, 31))
    } else {
        None
    }
}

/// The day `n` days before `(y, m, d)`, if the calendar reaches it.
pub open spec fn date_back(y: int, m: int, d: int, n: nat) -> Option<(int, int, int)>
    decreases n,
{
    if n == 0 {
        Some((y, m, d))
    } else {
        match previous_date(y, m, d) {
            Some(p) => date_back(p.0, p.1, p.2, (n - 1) as nat),
            None => None,
        }
    }
}

/// `format!("{:04}-{:02}-{:02}", y, m, d)`.
pub open spec fn date_key(y: int, m: int, d: int) -> Seq<char> {
    zero_padded(y, 4) + seq!['-'] + zero_padded(m, 2) + seq!['-'] + zero_padded(d, 2)
}

/// Whether `Date::from_calendar_date(year, month, day)` accepts the day, the
/// month given by number through `Month::try_from`.
#[verifier::external_body]
fn is_calendar_date(year: i32, month: u8, day: u8) -> (r: bool)
    ensures
        r == valid_date(year as int, month as int, day as int),
{
    match time::Month::try_from(month) {
        Ok(m) => time::Date::from_calendar_date(year, m, day).is_ok(),
        Err(_) => false,
    }
}

/// `Date::previous_day` of the day `(year, month, day)`, given and returned
/// as numbers.
#[verifier::external_body]
fn day_before(year: i32, month: u8, day: u8) -> (r: Option<(i32, u8, u8)>)
    requires
        valid_date(year as int, month as int, day as int),
    ensures
        match previous_date(year as int, month as int, day as int) {
            Some(p) => r == Some((p.0 as i32, p.1 as u8, p.2 as u8)),
            None => r is None,
        },
{
    let month = time::Month::try_from(month).unwrap();
    let date = time::Date::from_calendar_date(year, month, day).unwrap();
    date.previous_day().map(|p| (p.year(), u8::from(p.month()), p.day()))
}

/// The current day in UTC (`OffsetDateTime::now_utc().date()`): a valid day
/// of the calendar, which one depends on the clock.
#[verifier::external_body]
fn utc_today() -> (r: (i32, u8, u8))
    ensures
        valid_date(r.0 as int, r.1 as int, r.2 as int),
{
    let date = time::OffsetDateTime::now_utc().date();
    (date.year(), u8::from(date.month()), date.day())
}

proof fn lemma_previous_date_valid(y: int, m: int, d: int)
    requires
        valid_date(y, m, d),
    ensures
        previous_date(y, m, d) matches Some(p) ==> valid_date(p.0, p.1, p.2),
{
}

/// The key `format!("{:04}-{:02}-{:02}")` of a day.
pub fn date_key_chars(y: i32, m: u8, d: u8) -> (r: Vec<char>)
    ensures
        r@ == date_key(y as int, m as int, d as int),
{
    let mut out = zero_padded_chars(y as i64, 4);
    out.push('-');
    let mm = zero_padded_chars(m as i64, 2);
    let dd = zero_padded_chars(d as i64, 2);
    let ghost a = out@;
    let mut i: usize = 0;
    while i < mm.len()
        invariant
            i <= mm@.len(),
            out@ == a + mm@.subrange(0, i as int),
        decreases mm@.len() - i,
    {
        out.push(mm[i]);
        i = i + 1;
    }
    out.push('-');
    let ghost b = out@;
    let mut j: usize = 0;
    while j < dd.len()
        invariant
            j <= dd@.len(),
            out@ == b + dd@.subrange(0, j as int),
        decreases dd@.len() - j,
    {
        out.push(dd[j]);
        j = j + 1;
    }
    assert(mm@.subrange(0, mm@.len() as int) =~= mm@);
    assert(dd@.subrange(0, dd@.len() as int) =~= dd@);
    assert(out@ =~= date_key(y as int, m as int, d as int));
    out
}

/// Today's key in UTC, `YYYY-MM-DD`; which day it names depends on the clock.
pub fn today_key() -> (r: String)
    ensures
        exists|y: int, m: int, d: int| valid_date(y, m, d) && r@ == date_key(y, m, d),
{
    let (y, m, d) = utc_today();
    let key = date_key_chars(y, m, d);
    string_from_chars(&key)
}

/// The index of the first `-` in `s` at or after `from`, or the length of `s`.
pub open spec fn dash_from(s: Seq<char>, from: int) -> int
    decreases s.len() - from,
{
    if from < 0 || from >= s.len() {
        s.len() as int
    } else if s[from] == '-' {
        from
    } else {
        dash_from(s, from + 1)
    }
}

/// The three pieces of `s` between its `-`, when it has exactly two of them
/// (what `s.split('-')` yields when it yields three pieces).
pub open spec fn three_parts(s: Seq<char>) -> Option<(Seq<char>, Seq<char>, Seq<char>)> {
    let i = dash_from(s, 0);
    let j = dash_from(s, i + 1);
    let k = dash_from(s, j + 1);
    if i < s.len() && j < s.len() && k == s.len() {
        Some((s.subrange(0, i), s.subrange(i + 1, j), s.subrange(j + 1, s.len() as int)))
    } else {
        None
    }
}

/// The day a key `year-month-day` names: the year read as an `i32`, month
/// and day as `u8`, and the day valid in the calendar.
pub open spec fn parse_date_key(s: Seq<char>) -> Option<(int, int, int)> {
    match three_parts(s) {
        Some(p) => match (
            parse_integer(p.0, -0x8000_0000, 0x7fff_ffff),
            parse_integer(p.1, 0, 255),
            parse_integer(p.2, 0, 255),
        ) {
            (Some(y), Some(m), Some(d)) => if valid_date(y, m, d) {
                Some((y, m, d))
            } else {
                None
            },
            _ => None,
        },
        None => None,
    }
}

/// The key of the day before the day that `key` names.
pub open spec fn previous_key(key: Seq<char>) -> Option<Seq<char>> {
    match parse_date_key(key) {
        Some(t) => match previous_date(t.0, t.1, t.2) {
            Some(p) => Some(date_key(p.0, p.1, p.2)),
            None => None,
        },
        None => None,
    }
}

fn dash_index(s: &Vec<char>, from: usize) -> (r: usize)
    requires
        from <= s@.len(),
    ensures
        r as int == dash_from(s@, from as int),
        from <= r <= s@.len(),
{
    let mut i = from;
    while i < s.len() && s[i] != '-'
        invariant
            from <= i <= s@.len(),
            dash_from(s@, from as int) == dash_from(s@, i as int),
        decreases s@.len() - i,
    {
        i = i + 1;
    }
    i
}

fn sub_chars(s: &Vec<char>, lo: usize, hi: usize) -> (r: Vec<char>)
    requires
        lo <= hi <= s@.len(),
    ensures
        r@ == s@.subrange(lo as int, hi as int),
{
    let mut out: Vec<char> = Vec::new();
    let mut i = lo;
    while i < hi
        invariant
            lo <= i <= hi <= s@.len(),
            out@ == s@.subrange(lo as int, i as int),
        decreases hi - i,
    {
        out.push(s[i]);
        i = i + 1;
    }
    out
}

/// Reads the day that `key` names (see `parse_date_key`).
pub fn parse_date_key_chars(key: &Vec<char>) -> (r: Option<(i32, u8, u8)>)
    ensures
        match parse_date_key(key@) {
            Some(t) => r == Some((t.0 as i32, t.1 as u8, t.2 as u8)),
            None => r is None,
        },
{
    let n = key.len();
    let i = dash_index(key, 0);
    if i >= n {
        return None;
    }
    let j = dash_index(key, i + 1);
    if j >= n {
        return None;
    }
    let k = dash_index(key, j + 1);
    if k != n {
        return None;
    }
    let a = sub_chars(key, 0, i);
    let b = sub_chars(key, i + 1, j);
    let c = sub_chars(key, j + 1, n);
    let y = match parse_integer_chars(&a, -0x8000_0000, 0x7fff_ffff) {
        Some(v) => v,
        None => return None,
    };
    let m = match parse_integer_chars(&b, 0, 255) {
        Some(v) => v,
        None => return None,
    };
    let d = match parse_integer_chars(&c, 0, 255) {
        Some(v) => v,
        None => return None,
    };
    let (y, m, d) = (y as i32, m as u8, d as u8);
    if is_calendar_date(y, m, d) {
        Some((y, m, d))
    } else {
        None
    }
}

/// The key of the day before the day that `today` names, `None` where
/// `today` names no day.
pub fn previous_day_key(today: &str) -> (r: Option<String>)
    ensures
        match previous_key(today@) {
            Some(k) => r matches Some(s) && s@ == k,
            None => r is None,
        },
{
    let key = chars_of(today);
    match parse_date_key_chars(&key) {
        Some((y, m, d)) => match day_before(y, m, d) {
            Some((py, pm, pd)) => {
                let k = date_key_chars(py, pm, pd);
                Some(string_from_chars(&k))
            },
            None => None,
        },
        None => None,
    }
}

/// The day `n` days before the valid day `(y, m, d)`.
pub fn days_back(y: i32, m: u8, d: u8, n: u32) -> (r: Option<(i32, u8, u8)>)
    requires
        valid_date(y as int, m as int, d as int),
    ensures
        match date_back(y as int, m as int, d as int, n as nat) {
            Some(t) => r == Some((t.0 as i32, t.1 as u8, t.2 as u8)) && valid_date(t.0, t.1, t.2),
            None => r is None,
        },
    decreases n,
{
    if n == 0 {
        return Some((y, m, d));
    }
    proof {
        lemma_previous_date_valid(y as int, m as int, d as int);
    }
    match day_before(y, m, d) {
        Some((py, pm, pd)) => days_back(py, pm, pd, n - 1),
        None => None,
    }
}

/// Day `a` is not after day `b`.
pub open spec fn date_le(a: (int, int, int), b: (int, int, int)) -> bool {
    a.0 < b.0 || (a.0 == b.0 && (a.1 < b.1 || (a.1 == b.1 && a.2 <= b.2)))
}

/// The day before a valid day is a valid day, and before it.
pub proof fn lemma_previous_before(y: int, m: int, d: int)
    requires
        valid_date(y, m, d),
    ensures
        previous_date(y, m, d) matches Some(p) ==> valid_date(p.0, p.1, p.2) && date_le(p, (y, m, d))
            && p != (y, m, d),
{
}

/// Going back from a valid day gives a valid day, not after it.
pub proof fn lemma_back_before(y: int, m: int, d: int, n: nat)
    requires
        valid_date(y, m, d),
    ensures
        date_back(y, m, d, n) matches Some(s) ==> valid_date(s.0, s.1, s.2) && date_le(s, (y, m, d)),
    decreases n,
{
    if n > 0 {
        lemma_previous_before(y, m, d);
        if let Some(p) = previous_date(y, m, d) {
            lemma_back_before(p.0, p.1, p.2, (n - 1) as nat);
        }
    }
}

/// Going back `a + b` days is going back `a` days, then `b`.
pub proof fn lemma_back_split(y: int, m: int, d: int, a: nat, b: nat)
    ensures
        date_back(y, m, d, a + b) == match date_back(y, m, d, a) {
            Some(s) => date_back(s.0, s.1, s.2, b),
            None => None,
        },
    decreases a,
{
    if a > 0 {
        if let Some(p) = previous_date(y, m, d) {
            lemma_back_split(p.0, p.1, p.2, (a - 1) as nat, b);
            assert((a + b - 1) as nat == ((a - 1) as nat + b) as nat);
        }
    }
}

proof fn lemma_dash_skip(s: Seq<char>, from: int, to: int)
    requires
        0 <= from <= to <= s.len(),
        forall|i: int| from <= i < to ==> s[i] != '-',
    ensures
        dash_from(s, from) == dash_from(s, to),
    decreases to - from,
{
    if from < to {
        lemma_dash_skip(s, from + 1, to);
    }
}

proof fn lemma_two_digits(n: int)
    requires
        1 <= n <= 31,
    ensures
        zero_padded(n, 2).len() == 2,
        all_digits(zero_padded(n, 2)),
        digits_value(zero_padded(n, 2)) == n,
{
    reveal_with_fuel(pow10, 3);
    lemma_zero_padded(n, 2);
}

/// A text `Y-MM-DD`, `Y` being digits, reads as the day they denote.
proof fn lemma_parse_parts(ys: Seq<char>, m: int, d: int)
    requires
        ys.len() >= 1,
        all_digits(ys),
        valid_date(digits_value(ys), m, d),
    ensures
        parse_date_key(ys + seq!['-'] + zero_padded(m, 2) + seq!['-'] + zero_padded(d, 2)) == Some(
            (digits_value(ys), m, d),
        ),
{
    lemma_two_digits(m);
    lemma_two_digits(d);
    let ms = zero_padded(m, 2);
    let ds = zero_padded(d, 2);
    let k = ys + seq!['-'] + ms + seq!['-'] + ds;
    let n = ys.len() as int;
    assert(k.len() == n + 6);
    assert forall|i: int| 0 <= i < n implies k[i] != '-' by {
        assert(k[i] == ys[i]);
        assert(is_ascii_digit(ys[i]));
    }
    assert forall|i: int| n + 1 <= i < n + 3 implies k[i] != '-' by {
        assert(k[i] == ms[i - n - 1]);
        assert(is_ascii_digit(ms[i - n - 1]));
    }
    assert forall|i: int| n + 4 <= i < n + 6 implies k[i] != '-' by {
        assert(k[i] == ds[i - n - 4]);
        assert(is_ascii_digit(ds[i - n - 4]));
    }
    lemma_dash_skip(k, 0, n);
    lemma_dash_skip(k, n + 1, n + 3);
    lemma_dash_skip(k, n + 4, n + 6);
    assert(k[n] == '-');
    assert(k[n + 3] == '-');
    assert(dash_from(k, 0) == n);
    assert(dash_from(k, n + 1) == n + 3);
    assert(dash_from(k, n + 4) == n + 6);
    assert(k.subrange(0, n) =~= ys);
    assert(k.subrange(n + 1, n + 3) =~= ms);
    assert(k.subrange(n + 4, n + 6) =~= ds);
    assert(is_ascii_digit(ys[0]));
    assert(is_ascii_digit(ms[0]));
    assert(is_ascii_digit(ds[0]));
}

/// A day's key reads back as that day, within the years 0 to 9999.
pub proof fn lemma_parse_key(y: int, m: int, d: int)
    requires
        valid_date(y, m, d),
        0 <= y,
    ensures
        parse_date_key(date_key(y, m, d)) == Some((y, m, d)),
{
    let ys = zero_padded(y, 4);
    lemma_padded_digits(y, 4);
    assert(date_key(y, m, d) =~= ys + seq!['-'] + zero_padded(m, 2) + seq!['-'] + zero_padded(d, 2));
    lemma_parse_parts(ys, m, d);
}

/// The day that a key names: the key read as `year-month-day` (see
/// `parse_date_key`), or, for a key that starts with `-`, the negative year
/// written after it, as `date_key` writes a year before the year 0.
pub open spec fn day_of_key(k: Seq<char>) -> Option<(int, int, int)> {
    match parse_date_key(k) {
        Some(t) => Some(t),
        None => if k.len() > 0 && k[0] == '-' {
            match parse_date_key(k.drop_first()) {
                Some(t) => if t.0 > 0 {
                    Some((-t.0, t.1, t.2))
                } else {
                    None
                },
                None => None,
            }
        } else {
            None
        },
    }
}

/// What a key reads as is a day of the calendar.
pub proof fn lemma_day_of_key_valid(k: Seq<char>)
    ensures
        day_of_key(k) matches Some(t) ==> valid_date(t.0, t.1, t.2),
{
    if parse_date_key(k) is None && k.len() > 0 && k[0] == '-' {
        if let Some(t) = parse_date_key(k.drop_first()) {
            lemma_leap_symmetric(t.0);
        }
    }
}

/// Every day's key reads back as that day.
pub proof fn lemma_day_of_key(y: int, m: int, d: int)
    requires
        valid_date(y, m, d),
    ensures
        day_of_key(date_key(y, m, d)) == Some((y, m, d)),
{
    if y >= 0 {
        lemma_parse_key(y, m, d);
    } else {
        let k = date_key(y, m, d);
        let ys = zero_padded(-y, 3);
        lemma_padded_digits(-y, 3);
        lemma_two_digits(m);
        lemma_two_digits(d);
        let n = ys.len() as int;
        assert(zero_padded(y, 4) =~= seq!['-'] + ys);
        assert(k =~= seq!['-'] + (ys + seq!['-'] + zero_padded(m, 2) + seq!['-'] + zero_padded(d, 2)));
        assert(k.drop_first() =~= ys + seq!['-'] + zero_padded(m, 2) + seq!['-'] + zero_padded(d, 2));
        lemma_leap_symmetric(y);
        lemma_parse_parts(ys, m, d);
        // The key read whole has a fourth piece after its leading `-`.
        assert(k[0] == '-');
        assert(dash_from(k, 0) == 0);
        assert forall|i: int| 1 <= i < n + 1 implies k[i] != '-' by {
            assert(k[i] == ys[i - 1]);
            assert(is_ascii_digit(ys[i - 1]));
        }
        lemma_dash_skip(k, 1, n + 1);
        assert(k[n + 1] == '-');
        assert(dash_from(k, 1) == n + 1);
        assert forall|i: int| n + 2 <= i < n + 4 implies k[i] != '-' by {
            assert(k[i] == zero_padded(m, 2)[i - n - 2]);
            assert(is_ascii_digit(zero_padded(m, 2)[i - n - 2]));
        }
        lemma_dash_skip(k, n + 2, n + 4);
        assert(k[n + 4] == '-');
        assert(dash_from(k, n + 2) == n + 4);
        assert(parse_date_key(k) is None);
    }
}

/// Reads the day that `key` names (see `day_of_key`).
pub fn read_day_key(key: &Vec<char>) -> (r: Option<(i32, u8, u8)>)
    ensures
        match day_of_key(key@) {
            Some(t) => r == Some((t.0 as i32, t.1 as u8, t.2 as u8)),
            None => r is None,
        },
{
    if let Some(t) = parse_date_key_chars(key) {
        return Some(t);
    }
    if key.len() > 0 && key[0] == '-' {
        let rest = sub_chars(key, 1, key.len());
        assert(rest@ =~= key@.drop_first());
        if let Some((y, m, d)) = parse_date_key_chars(&rest) {
            if y > 0 {
                return Some((-y, m, d));
            }
        }
    }
    None
}

proof fn lemma_leap_symmetric(y: int)
    ensures
        is_leap_year(-y) == is_leap_year(y),
{
}

} // verus!
