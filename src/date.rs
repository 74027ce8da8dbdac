//! Calendar dates and the recognition of `YYYY-MM-DD` folder names.
use vstd::prelude::*;

verus! {

/// A day of the proleptic Gregorian calendar.
#[derive(Clone, Copy, Debug, PartialEq, Eq, Structural)]
pub struct CalendarDate {
    pub year: u32,
    pub month: u32,
    pub day: u32,
}

pub open spec fn is_leap_year(y: int) -> bool {
    (y % 4 == 0 && y % 100 != 0) || y % 400 == 0
}

pub open spec fn days_in_month(y: int, m: int) -> int {
    if m == 2 {
        if is_leap_year(y) { 29 } else { 28 }
    } else if m == 4 || m == 6 || m == 9 || m == 11 {
        30
    } else {
        31
    }
}

pub open spec fn is_valid_ymd(y: int, m: int, d: int) -> bool {
    1 <= m <= 12 && 1 <= d <= days_in_month(y, m)
}

pub open spec fn is_ascii_digit(c: char) -> bool {
    '0' <= c && c <= '9'
}

pub open spec fn digit_value(c: char) -> int {
    c as int - '0' as int
}

/// The text has the shape `DDDD-DD-DD`, each `D` an ASCII digit.
pub open spec fn is_date_shaped(s: Seq<char>) -> bool {
    &&& s.len() == 10
    &&& s[4] == '-'
    &&& s[7] == '-'
    &&& forall|i: int| 0 <= i < 10 && i != 4 && i != 7 ==> is_ascii_digit(#[trigger] s[i])
}

pub open spec fn number_at(s: Seq<char>, start: int, len: nat) -> int
    decreases len,
{
    if len == 0 {
        0
    } else {
        number_at(s, start, (len - 1) as nat) * 10 + digit_value(s[start + len - 1])
    }
}

pub open spec fn year_of(s: Seq<char>) -> int {
    number_at(s, 0, 4)
}

pub open spec fn month_of(s: Seq<char>) -> int {
    number_at(s, 5, 2)
}

pub open spec fn day_of(s: Seq<char>) -> int {
    number_at(s, 8, 2)
}

/// A folder name of the form `YYYY-MM-DD` that names a real calendar day.
pub open spec fn is_media_folder_name(s: Seq<char>) -> bool {
    is_date_shaped(s) && is_valid_ymd(year_of(s), month_of(s), day_of(s))
}

/// The date that a media folder name stands for.
pub open spec fn date_of_name(s: Seq<char>) -> CalendarDate {
    CalendarDate { year: year_of(s) as u32, month: month_of(s) as u32, day: day_of(s) as u32 }
}

/// `a` is an earlier day than `b`.
pub open spec fn date_lt(a: CalendarDate, b: CalendarDate) -> bool {
    a.year < b.year || (a.year == b.year && (a.month < b.month || (a.month == b.month && a.day < b.day)))
}

/// Relies on chrono's `NaiveDate::parse_from_str` with the format `%Y-%m-%d`:
/// on text of the shape `DDDD-DD-DD` it reads the three numbers and accepts
/// them exactly when they form a valid proleptic Gregorian date.
#[verifier::external_body]
fn parse_ymd(s: &str) -> (r: Option<(i32, u32, u32)>)
    ensures
        is_date_shaped(s@) ==> (r is Some <==> is_valid_ymd(year_of(s@), month_of(s@), day_of(s@))),
        is_date_shaped(s@) && r is Some ==> r->0 == (year_of(s@) as i32, month_of(s@) as u32, day_of(s@) as u32),
{
    chrono::NaiveDate::parse_from_str(s, "%Y-%m-%d").ok().map(
        |d| (chrono::Datelike::year(&d), chrono::Datelike::month(&d), chrono::Datelike::day(&d)),
    )
}

fn is_date_shaped_exec(name: &str) -> (r: bool)
    ensures
        r == is_date_shaped(name@),
{
    let n = name.unicode_len();
    if n != 10 {
        return false;
    }
    let mut i: usize = 0;
    while i < 10
        invariant
            name@.len() == 10,
            i <= 10,
            forall|j: int| 0 <= j < i ==> (if j == 4 || j == 7 {
                name@[j] == '-'
            } else {
                is_ascii_digit(name@[j])
            }),
        decreases 10 - i,
    {
        let c = name.get_char(i);
        if i == 4 || i == 7 {
            if c != '-' {
                return false;
            }
        } else if !('0' <= c && c <= '9') {
            return false;
        }
        i += 1;
    }
    true
}

pub open spec fn pow10(k: nat) -> int
    decreases k,
{
    if k == 0 { 1 } else { pow10((k - 1) as nat) * 10 }
}

/// A run of ASCII digits reads as a number below the matching power of ten.
proof fn lemma_number_at_bounds(s: Seq<char>, start: int, len: nat)
    requires
        0 <= start,
        start + len <= s.len(),
        forall|i: int| start <= i < start + len ==> is_ascii_digit(#[trigger] s[i]),
    ensures
        0 <= number_at(s, start, len) < pow10(len),
    decreases len,
{
    if len > 0 {
        lemma_number_at_bounds(s, start, (len - 1) as nat);
        assert(is_ascii_digit(s[start + len - 1]));
    }
}

/// Reads a folder name as a date: `Some` exactly for names of the form
/// `YYYY-MM-DD` that name a real calendar day, with that day.
pub fn parse_media_folder_name(name: &str) -> (r: Option<CalendarDate>)
    ensures
        r is Some <==> is_media_folder_name(name@),
        r is Some ==> r->0 == date_of_name(name@),
{
    if !is_date_shaped_exec(name) {
        return None;
    }
    proof {
        assert forall|i: int| 0 <= i < 4 implies is_ascii_digit(#[trigger] name@[i]) by {
            assert(i != 4 && i != 7);
        }
        lemma_number_at_bounds(name@, 0, 4);
        reveal_with_fuel(pow10, 5);
    }
    match parse_ymd(name) {
        None => None,
        Some((year, month, day)) => Some(CalendarDate { year: year as u32, month, day }),
    }
}

/// Whether a folder name is `YYYY-MM-DD` and names a real calendar day.
pub fn is_media_folder(name: &str) -> (r: bool)
    ensures
        r == is_media_folder_name(name@),
{
    parse_media_folder_name(name).is_some()
}

proof fn lemma_number_at_injective(s: Seq<char>, t: Seq<char>, start: int, len: nat)
    requires
        0 <= start,
        start + len <= s.len(),
        start + len <= t.len(),
        forall|i: int| start <= i < start + len ==> is_ascii_digit(#[trigger] s[i]),
        forall|i: int| start <= i < start + len ==> is_ascii_digit(#[trigger] t[i]),
        number_at(s, start, len) == number_at(t, start, len),
    ensures
        forall|i: int| start <= i < start + len ==> #[trigger] s[i] == t[i],
    decreases len,
{
    if len > 0 {
        let k = (len - 1) as nat;
        let last = start + len - 1;
        lemma_number_at_bounds(s, start, k);
        lemma_number_at_bounds(t, start, k);
        assert(is_ascii_digit(s[last]) && is_ascii_digit(t[last]));
        let x = number_at(s, start, k);
        let y = number_at(t, start, k);
        let a = digit_value(s[last]);
        let b = digit_value(t[last]);
        assert(x * 10 + a == y * 10 + b);
        assert(a == b && x == y) by (nonlinear_arith)
            requires
                x * 10 + a == y * 10 + b,
                0 <= a < 10,
                0 <= b < 10,
        ;
        lemma_number_at_injective(s, t, start, k);
        assert(s[last] as int == t[last] as int);
    }
}

proof fn lemma_digits_bounded(s: Seq<char>)
    requires
        is_date_shaped(s),
    ensures
        0 <= year_of(s) < 10000,
        0 <= month_of(s) < 100,
        0 <= day_of(s) < 100,
{
    assert forall|i: int| 0 <= i < 4 implies is_ascii_digit(#[trigger] s[i]) by {
        assert(i != 4 && i != 7);
    }
    assert forall|i: int| 5 <= i < 7 implies is_ascii_digit(#[trigger] s[i]) by {
        assert(i != 4 && i != 7);
    }
    assert forall|i: int| 8 <= i < 10 implies is_ascii_digit(#[trigger] s[i]) by {
        assert(i != 4 && i != 7);
    }
    lemma_number_at_bounds(s, 0, 4);
    lemma_number_at_bounds(s, 5, 2);
    lemma_number_at_bounds(s, 8, 2);
    reveal_with_fuel(pow10, 5);
}

/// A media folder name is fixed by its date: two such names of the same day
/// are the same name.
pub proof fn lemma_date_determines_name(a: Seq<char>, b: Seq<char>)
    requires
        is_media_folder_name(a),
        is_media_folder_name(b),
        date_of_name(a) == date_of_name(b),
    ensures
        a == b,
{
    lemma_digits_bounded(a);
    lemma_digits_bounded(b);
    assert forall|i: int| 0 <= i < 10 && i != 4 && i != 7 implies is_ascii_digit(#[trigger] a[i]) && is_ascii_digit(
        b[i],
    ) by {}
    assert(year_of(a) == year_of(b));
    assert(month_of(a) == month_of(b));
    assert(day_of(a) == day_of(b));
    lemma_number_at_injective(a, b, 0, 4);
    lemma_number_at_injective(a, b, 5, 2);
    lemma_number_at_injective(a, b, 8, 2);
    assert forall|i: int| 0 <= i < 10 implies a[i] == b[i] by {
        if i < 4 {
        } else if i == 4 || i == 7 {
        } else if i < 7 {
        } else {
        }
    }
    assert(a =~= b);
}

} // verus!
