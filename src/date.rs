use vstd::prelude::*;
use vstd::string::{StrSliceExecFns, StringExecFns};

use crate::error::SearchError;

verus! {

/// A leap year of the proleptic Gregorian calendar.
pub open spec fn is_leap_year(y: int) -> bool {
    (y % 4 == 0 && y % 100 != 0) || y % 400 == 0
}

/// The number of days of month `m` (1 to 12) of year `y`.
pub open spec fn days_in_month(y: int, m: int) -> int {
    if m == 2 {
        if is_leap_year(y) {
            29
        } else {
            28
        }
    } else if m == 4 || m == 6 || m == 9 || m == 11 {
        30
    } else {
        31
    }
}

/// Year `y`, month `m`, day `d` name a day of the calendar.
pub open spec fn is_calendar_date(y: int, m: int, d: int) -> bool {
    1 <= m <= 12 && 1 <= d <= days_in_month(y, m)
}

/// A calendar date: year, month (1 to 12) and day of the month.
#[derive(Debug, Clone, Copy, PartialEq, Eq, Structural)]
pub struct Date {
    pub year: i32,
    pub month: u32,
    pub day: u32,
}

impl Date {
    /// The fields name a day that exists.
    pub open spec fn wf(&self) -> bool {
        is_calendar_date(self.year as int, self.month as int, self.day as int)
    }
}

/// Relies on chrono::NaiveDate::from_ymd_opt, which returns `None` exactly on an
/// invalid month or day, or on a year out of its range, and on its `Datelike`
/// accessors, which give back the year, month and day it was made from.
#[verifier::external_body]
fn calendar_date(year: i32, month: u32, day: u32) -> (r: Option<Date>)
    ensures
        r is Some <==> (-262143 <= year <= 262142 && is_calendar_date(
            year as int,
            month as int,
            day as int,
        )),
        r matches Some(d) ==> d == (Date { year, month, day }),
{
    let n = chrono::NaiveDate::from_ymd_opt(year, month, day)?;
    Some(
        Date {
            year: chrono::Datelike::year(&n),
            month: chrono::Datelike::month(&n),
            day: chrono::Datelike::day(&n),
        },
    )
}

/// An ASCII decimal digit.
pub open spec fn is_digit(c: char) -> bool {
    '0' <= c <= '9'
}

/// The value of an ASCII decimal digit.
pub open spec fn digit_value(c: char) -> int {
    c as int - '0' as int
}

/// The number written by the `n` decimal digits of `s` from index `i` on.
pub open spec fn number_at(s: Seq<char>, i: int, n: nat) -> int
    decreases n,
{
    if n == 0 {
        0
    } else {
        number_at(s, i, (n - 1) as nat) * 10 + digit_value(s[i + n - 1])
    }
}

/// Ten to the power `n`.
pub open spec fn pow10(n: nat) -> int
    decreases n,
{
    if n == 0 {
        1
    } else {
        10 * pow10((n - 1) as nat)
    }
}

/// `s` is laid out as `YYYY-MM-DD`: ten characters, digits but for two dashes.
pub open spec fn has_date_layout(s: Seq<char>) -> bool {
    &&& s.len() == 10
    &&& forall|j: int|
        0 <= j < 10 ==> if j == 4 || j == 7 {
            s[j] == '-'
        } else {
            is_digit(#[trigger] s[j])
        }
}

/// The year, month and day fields of a `YYYY-MM-DD` text.
pub open spec fn year_in_text(s: Seq<char>) -> int {
    number_at(s, 0, 4)
}

pub open spec fn month_in_text(s: Seq<char>) -> int {
    number_at(s, 5, 2)
}

pub open spec fn day_in_text(s: Seq<char>) -> int {
    number_at(s, 8, 2)
}

/// `s` is a strict `YYYY-MM-DD` text of a day that exists.
pub open spec fn is_date_text(s: Seq<char>) -> bool {
    has_date_layout(s) && is_calendar_date(year_in_text(s), month_in_text(s), day_in_text(s))
}

/// The date that a `YYYY-MM-DD` text names.
pub open spec fn date_of_text(s: Seq<char>) -> Date {
    Date {
        year: year_in_text(s) as i32,
        month: month_in_text(s) as u32,
        day: day_in_text(s) as u32,
    }
}

/// Reads the `n` digits of `text` from `start` on as a number.
fn read_number(text: &str, start: usize, n: usize) -> (r: u32)
    requires
        n <= 4,
        start + n <= text@.len() == 10,
        forall|j: int| start <= j < start + n ==> is_digit(#[trigger] text@[j]),
    ensures
        r as int == number_at(text@, start as int, n as nat),
        0 <= r < pow10(n as nat),
{
    proof {
        reveal_with_fuel(pow10, 5);
    }
    let mut acc: u32 = 0;
    let mut k: usize = 0;
    while k < n
        invariant
            k <= n <= 4,
            start + n <= text@.len() == 10,
            forall|j: int| start <= j < start + n ==> is_digit(#[trigger] text@[j]),
            acc as int == number_at(text@, start as int, k as nat),
            0 <= acc < pow10(k as nat),
            pow10(4) == 10000,
            pow10(k as nat) <= pow10(4),
        decreases n - k,
    {
        let c = text.get_char(start + k);
        assert(is_digit(text@[start + k]));
        let d: u32 = (c as u32) - ('0' as u32);
        let ghost p = pow10(k as nat);
        assert(acc * 10 + d < p * 10) by (nonlinear_arith)
            requires
                acc < p,
                d < 10,
        ;
        assert(pow10((k + 1) as nat) == 10 * p);
        assert(pow10((k + 1) as nat) <= pow10(4)) by {
            reveal_with_fuel(pow10, 5);
        }
        acc = acc * 10 + d;
        k = k + 1;
    }
    acc
}

/// Reads `text` strictly as `YYYY-MM-DD`: a four-digit year, a two-digit month
/// and a two-digit day that together name a day that exists, and nothing else.
pub fn parse_date(text: &str) -> (r: Result<Date, SearchError>)
    ensures
        is_date_text(text@) ==> r == Ok::<Date, SearchError>(date_of_text(text@)),
        !is_date_text(text@) ==> r == Err::<Date, SearchError>(SearchError::InvalidDateFormat),
        r matches Ok(d) ==> d.wf(),
{
    let len = text.unicode_len();
    if len != 10 {
        return Err(SearchError::InvalidDateFormat);
    }
    let mut i: usize = 0;
    while i < 10
        invariant
            text@.len() == 10,
            i <= 10,
            forall|j: int|
                0 <= j < i ==> if j == 4 || j == 7 {
                    text@[j] == '-'
                } else {
                    is_digit(#[trigger] text@[j])
                },
        decreases 10 - i,
    {
        let c = text.get_char(i);
        let fits = if i == 4 || i == 7 {
            c == '-'
        } else {
            '0' <= c && c <= '9'
        };
        if !fits {
            assert(!has_date_layout(text@)) by {
                assert(text@[i as int] == c);
            }
            return Err(SearchError::InvalidDateFormat);
        }
        i = i + 1;
    }
    assert(has_date_layout(text@));
    let year = read_number(text, 0, 4);
    let month = read_number(text, 5, 2);
    let day = read_number(text, 8, 2);
    proof {
        reveal_with_fuel(pow10, 5);
    }
    match calendar_date(year as i32, month, day) {
        Some(d) => Ok(d),
        None => Err(SearchError::InvalidDateFormat),
    }
}

/// The character of the decimal digit `n` (0 to 9).
pub open spec fn digit_char(n: int) -> char {
    if n == 0 {
        '0'
    } else if n == 1 {
        '1'
    } else if n == 2 {
        '2'
    } else if n == 3 {
        '3'
    } else if n == 4 {
        '4'
    } else if n == 5 {
        '5'
    } else if n == 6 {
        '6'
    } else if n == 7 {
        '7'
    } else if n == 8 {
        '8'
    } else {
        '9'
    }
}

/// The last `k` decimal digits of `n`, leading zeros included.
pub open spec fn fixed_digits(n: nat, k: nat) -> Seq<char>
    decreases k,
{
    if k == 0 {
        Seq::empty()
    } else {
        fixed_digits(n / 10, (k - 1) as nat).push(digit_char((n % 10) as int))
    }
}

/// The decimal digits of `n`, without leading zeros.
pub open spec fn decimal(n: nat) -> Seq<char>
    decreases n,
{
    if n < 10 {
        seq![digit_char(n as int)]
    } else {
        decimal(n / 10).push(digit_char((n % 10) as int))
    }
}

/// A year as written in a date: four digits from 0 to 9999, otherwise a sign
/// and at least four digits.
pub open spec fn year_text(y: int) -> Seq<char> {
    if 0 <= y <= 9999 {
        fixed_digits(y as nat, 4)
    } else if y < 0 {
        seq!['-'] + if -y <= 9999 {
            fixed_digits((-y) as nat, 4)
        } else {
            decimal((-y) as nat)
        }
    } else {
        seq!['+'] + decimal(y as nat)
    }
}

/// A date written as `YYYY-MM-DD`.
pub open spec fn date_text(d: Date) -> Seq<char> {
    year_text(d.year as int) + seq!['-'] + fixed_digits(d.month as nat, 2) + seq!['-']
        + fixed_digits(d.day as nat, 2)
}

/// The one-character text of the digit `d`.
fn digit_str(d: u32) -> (r: &'static str)
    requires
        d < 10,
    ensures
        r@ == seq![digit_char(d as int)],
{
    proof {
        reveal_strlit("0");
        reveal_strlit("1");
        reveal_strlit("2");
        reveal_strlit("3");
        reveal_strlit("4");
        reveal_strlit("5");
        reveal_strlit("6");
        reveal_strlit("7");
        reveal_strlit("8");
        reveal_strlit("9");
    }
    let r = if d == 0 {
        "0"
    } else if d == 1 {
        "1"
    } else if d == 2 {
        "2"
    } else if d == 3 {
        "3"
    } else if d == 4 {
        "4"
    } else if d == 5 {
        "5"
    } else if d == 6 {
        "6"
    } else if d == 7 {
        "7"
    } else if d == 8 {
        "8"
    } else {
        "9"
    };
    assert(r@ =~= seq![digit_char(d as int)]);
    r
}

/// Appends the last `k` decimal digits of `n`, leading zeros included.
fn append_fixed_digits(out: &mut String, n: u32, k: u32)
    ensures
        final(out)@ == old(out)@ + fixed_digits(n as nat, k as nat),
    decreases k,
{
    if k > 0 {
        append_fixed_digits(out, n / 10, k - 1);
        out.append(digit_str(n % 10));
        assert(final(out)@ =~= old(out)@ + fixed_digits(n as nat, k as nat));
    } else {
        assert(final(out)@ =~= old(out)@ + fixed_digits(n as nat, k as nat));
    }
}

/// Appends the decimal digits of `n`.
fn append_decimal(out: &mut String, n: u32)
    ensures
        final(out)@ == old(out)@ + decimal(n as nat),
    decreases n,
{
    if n >= 10 {
        append_decimal(out, n / 10);
    }
    out.append(digit_str(n % 10));
    assert(final(out)@ =~= old(out)@ + decimal(n as nat));
}

impl Date {
    /// The date written as `YYYY-MM-DD`.
    pub fn to_string(&self) -> (r: String)
        ensures
            r@ == date_text(*self),
    {
        let mut r = String::new();
        if 0 <= self.year && self.year <= 9999 {
            append_fixed_digits(&mut r, self.year as u32, 4);
        } else if self.year < 0 {
            proof {
                reveal_strlit("-");
            }
            r.append("-");
            let a: u32 = (-(self.year as i64)) as u32;
            if a <= 9999 {
                append_fixed_digits(&mut r, a, 4);
            } else {
                append_decimal(&mut r, a);
            }
        } else {
            proof {
                reveal_strlit("+");
            }
            r.append("+");
            append_decimal(&mut r, self.year as u32);
        }
        assert(r@ =~= year_text(self.year as int));
        proof {
            reveal_strlit("-");
        }
        r.append("-");
        append_fixed_digits(&mut r, self.month, 2);
        r.append("-");
        append_fixed_digits(&mut r, self.day, 2);
        assert(r@ =~= date_text(*self));
        r
    }
}

/// Relies on chrono::Local::now and DateTime::date_naive: the current day in the
/// machine's local time zone. Which day that is depends on the clock; it is
/// always one that exists.
#[verifier::external_body]
fn local_today() -> (r: Date)
    ensures
        r.wf(),
{
    let n = chrono::Local::now().date_naive();
    Date {
        year: chrono::Datelike::year(&n),
        month: chrono::Datelike::month(&n),
        day: chrono::Datelike::day(&n),
    }
}

/// The target date of a run: the date that `text` names in `YYYY-MM-DD` form,
/// or, without a text, today's date in the local time zone.
pub fn get_date(text: Option<&str>) -> (r: Result<Date, SearchError>)
    ensures
        text is None ==> r is Ok,
        text matches Some(t) ==> (is_date_text(t@) ==> r == Ok::<Date, SearchError>(
            date_of_text(t@),
        )),
        text matches Some(t) ==> (!is_date_text(t@) ==> r == Err::<Date, SearchError>(
            SearchError::InvalidDateFormat,
        )),
        r matches Ok(d) ==> d.wf(),
{
    match text {
        Some(t) => parse_date(t),
        None => Ok(local_today()),
    }
}

proof fn lemma_digit_round_trip(c: char)
    requires
        is_digit(c),
    ensures
        digit_char(digit_value(c)) == c,
        0 <= digit_value(c) <= 9,
{
}

proof fn lemma_fixed_digits_of_text(s: Seq<char>, i: int, k: nat)
    requires
        0 <= i,
        i + k <= s.len(),
        forall|j: int| i <= j < i + k ==> is_digit(#[trigger] s[j]),
    ensures
        0 <= number_at(s, i, k) < pow10(k),
        fixed_digits(number_at(s, i, k) as nat, k) == s.subrange(i, i + k),
    decreases k,
{
    if k > 0 {
        let m = number_at(s, i, (k - 1) as nat);
        let c = s[i + k - 1];
        lemma_fixed_digits_of_text(s, i, (k - 1) as nat);
        lemma_digit_round_trip(c);
        let dv = digit_value(c);
        let n = number_at(s, i, k);
        assert(n == m * 10 + dv);
        assert(n / 10 == m && n % 10 == dv) by (nonlinear_arith)
            requires
                n == m * 10 + dv,
                0 <= dv <= 9,
                0 <= m,
        ;
        let p = pow10((k - 1) as nat);
        assert(n < 10 * p) by (nonlinear_arith)
            requires
                n == m * 10 + dv,
                0 <= dv <= 9,
                m < p,
        ;
        assert(s.subrange(i, i + k) =~= s.subrange(i, i + k - 1).push(c));
    }
}

/// Reading a strict `YYYY-MM-DD` text and writing the date back gives the same
/// text.
pub proof fn lemma_date_text_round_trip(s: Seq<char>)
    requires
        is_date_text(s),
    ensures
        date_of_text(s).wf(),
        date_text(date_of_text(s)) == s,
{
    lemma_fixed_digits_of_text(s, 0, 4);
    lemma_fixed_digits_of_text(s, 5, 2);
    lemma_fixed_digits_of_text(s, 8, 2);
    reveal_with_fuel(pow10, 5);
    let d = date_of_text(s);
    assert(d.year as int == year_in_text(s));
    assert(d.month as int == month_in_text(s));
    assert(d.day as int == day_in_text(s));
    assert(s =~= s.subrange(0, 4) + seq!['-'] + s.subrange(5, 7) + seq!['-'] + s.subrange(8, 10));
}

} // verus!
