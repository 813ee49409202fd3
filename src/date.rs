use vstd::prelude::*;
use crate::task::TaskError;
use crate::text::{append_str, string_of_chars, text_less};

verus! {

broadcast use vstd::string::is_ascii_spec_bytes;

/// The Gregorian leap-year rule.
pub open spec fn is_leap(year: int) -> bool {
    (year % 4 == 0 && year % 100 != 0) || year % 400 == 0
}

/// Number of days of `month` (1 to 12) in `year`.
pub open spec fn month_length(year: int, month: int) -> int {
    if month == 2 {
        if is_leap(year) {
            29
        } else {
            28
        }
    } else if month == 4 || month == 6 || month == 9 || month == 11 {
        30
    } else {
        31
    }
}

/// A calendar day in the years that a due date may name.
pub open spec fn is_valid_ymd(year: int, month: int, day: int) -> bool {
    &&& 1900 <= year <= 9999
    &&& 1 <= month <= 12
    &&& 1 <= day <= month_length(year, month)
}

pub open spec fn is_digit(c: char) -> bool {
    '0' <= c <= '9'
}

pub open spec fn all_digits(s: Seq<char>) -> bool {
    forall|k: int| 0 <= k < s.len() ==> is_digit(#[trigger] s[k])
}

/// The value of a run of decimal digits.
pub open spec fn digits_value(s: Seq<char>) -> int
    decreases s.len(),
{
    if s.len() == 0 {
        0
    } else {
        digits_value(s.drop_last()) * 10 + (s.last() as int - '0' as int)
    }
}

/// One field of a date: one or more ASCII decimal digits, nothing else.
pub open spec fn is_number(s: Seq<char>) -> bool {
    s.len() > 0 && all_digits(s)
}

/// The value of a field of a date.
pub open spec fn number_value(s: Seq<char>) -> int {
    digits_value(s)
}

/// The hyphens of `s` stand at `i` and `j`, and the three fields between
/// them are numbers that name a calendar day, as year, month and day.
pub open spec fn date_split_at(s: Seq<char>, i: int, j: int) -> bool {
    &&& 0 <= i < j < s.len()
    &&& s[i] == '-'
    &&& s[j] == '-'
    &&& is_number(s.subrange(0, i))
    &&& is_number(s.subrange(i + 1, j))
    &&& is_number(s.subrange(j + 1, s.len() as int))
    &&& is_valid_ymd(
        number_value(s.subrange(0, i)),
        number_value(s.subrange(i + 1, j)),
        number_value(s.subrange(j + 1, s.len() as int)),
    )
}

/// `s` is a date written `YYYY-MM-DD`: three numeric fields joined by `-`.
pub open spec fn is_valid_date(s: Seq<char>) -> bool {
    exists|i: int, j: int| #[trigger] date_split_at(s, i, j)
}

pub fn is_leap_year(year: u32) -> (r: bool)
    ensures
        r == is_leap(year as int),
{
    (year % 4 == 0 && year % 100 != 0) || year % 400 == 0
}

pub fn days_in_month(year: u32, month: u32) -> (r: u32)
    requires
        1 <= month <= 12,
    ensures
        r == month_length(year as int, month as int),
{
    if month == 2 {
        if is_leap_year(year) {
            29
        } else {
            28
        }
    } else if month == 4 || month == 6 || month == 9 || month == 11 {
        30
    } else {
        31
    }
}

/// The characters of an ASCII string, as its bytes.
pub open spec fn ascii_bytes_of(b: Seq<u8>, s: Seq<char>) -> bool {
    &&& vstd::utf8::is_ascii_chars(s)
    &&& b.len() == s.len()
    &&& forall|k: int| 0 <= k < s.len() ==> #[trigger] b[k] == s[k] as u8
}

/// Values of a field above this bound are all too large for a date.
pub const FIELD_CAP: u32 = 100000;

proof fn lemma_digits_value_nonneg(s: Seq<char>)
    requires
        all_digits(s),
    ensures
        digits_value(s) >= 0,
    decreases s.len(),
{
    if s.len() > 0 {
        assert(all_digits(s.drop_last()));
        lemma_digits_value_nonneg(s.drop_last());
    }
}

/// Reads the characters `lo..hi` of `s` (held in `b`) as a number; a value
/// of `FIELD_CAP` or more comes back as `FIELD_CAP`.
fn read_field(b: &[u8], lo: usize, hi: usize, Ghost(s): Ghost<Seq<char>>) -> (r: Option<u32>)
    requires
        ascii_bytes_of(b@, s),
        lo <= hi <= s.len(),
    ensures
        r is Some <==> is_number(s.subrange(lo as int, hi as int)),
        r matches Some(v) ==> v as int == if number_value(s.subrange(lo as int, hi as int))
            < FIELD_CAP {
            number_value(s.subrange(lo as int, hi as int))
        } else {
            FIELD_CAP as int
        },
{
    let ghost f = s.subrange(lo as int, hi as int);
    let start = lo;
    if start >= hi {
        return None;
    }
    let ghost g = s.subrange(start as int, hi as int);
    assert(is_number(f) <==> all_digits(g));
    let mut v: u32 = 0;
    let mut k = start;
    while k < hi
        invariant
            ascii_bytes_of(b@, s),
            start <= k <= hi <= s.len(),
            g == s.subrange(start as int, hi as int),
            f == s.subrange(lo as int, hi as int),
            is_number(f) <==> all_digits(g),
            all_digits(s.subrange(start as int, k as int)),
            v <= FIELD_CAP,
            v as int == if digits_value(s.subrange(start as int, k as int)) < FIELD_CAP {
                digits_value(s.subrange(start as int, k as int))
            } else {
                FIELD_CAP as int
            },
        decreases hi - k,
    {
        let c = b[k];
        let ghost pre = s.subrange(start as int, k as int);
        let ghost next = s.subrange(start as int, k + 1);
        assert(next.drop_last() =~= pre);
        if c < 48u8 || c > 57u8 {
            assert(g[k - start] == s[k as int]);
            assert(!is_digit(g[k - start]));
            return None;
        }
        let d = (c - 48u8) as u32;
        proof {
            assert(all_digits(next));
            lemma_digits_value_nonneg(pre);
            assert(digits_value(next) == digits_value(pre) * 10 + d);
        }
        if v >= FIELD_CAP {
            assert(digits_value(next) >= digits_value(pre)) by (nonlinear_arith)
                requires
                    digits_value(next) == digits_value(pre) * 10 + d,
                    digits_value(pre) >= 0,
            ;
            v = FIELD_CAP;
        } else {
            let w = v * 10 + d;
            if w >= FIELD_CAP {
                v = FIELD_CAP;
            } else {
                v = w;
            }
        }
        k = k + 1;
    }
    assert(s.subrange(start as int, k as int) =~= g);
    Some(v)
}

/// Position of the first `-` in `b[from..]`.
fn find_hyphen(b: &[u8], from: usize, Ghost(s): Ghost<Seq<char>>) -> (r: Option<usize>)
    requires
        ascii_bytes_of(b@, s),
        from <= s.len(),
    ensures
        match r {
            Some(k) => from <= k < s.len() && s[k as int] == '-' && forall|q: int|
                from <= q < k ==> s[q] != '-',
            None => forall|q: int| from <= q < s.len() ==> s[q] != '-',
        },
{
    let mut k = from;
    while k < b.len()
        invariant
            ascii_bytes_of(b@, s),
            from <= k <= s.len(),
            forall|q: int| from <= q < k ==> s[q] != '-',
        decreases b.len() - k,
    {
        if b[k] == 45u8 {
            return Some(k);
        }
        k = k + 1;
    }
    None
}

proof fn lemma_number_has_no_hyphen(s: Seq<char>, k: int)
    requires
        is_number(s),
        0 <= k < s.len(),
    ensures
        s[k] != '-',
        '\0' <= s[k] <= '\u{7f}',
{
    assert(is_digit(s[k]));
}

proof fn lemma_valid_date_is_ascii(s: Seq<char>, i: int, j: int)
    requires
        date_split_at(s, i, j),
    ensures
        vstd::utf8::is_ascii_chars(s),
{
    assert forall|k: int| 0 <= k < s.len() implies '\0' <= #[trigger] s[k] <= '\u{7f}' by {
        if k < i {
            lemma_number_has_no_hyphen(s.subrange(0, i), k);
        } else if i < k < j {
            lemma_number_has_no_hyphen(s.subrange(i + 1, j), k - i - 1);
        } else if k > j {
            lemma_number_has_no_hyphen(s.subrange(j + 1, s.len() as int), k - j - 1);
        }
    }
}

/// Checks that `date` is a calendar day written `YYYY-MM-DD`, with a year
/// from 1900 to 9999; a rejected date comes back in the error.
pub fn validate_date(date: &str) -> (r: Result<(), TaskError>)
    ensures
        r is Ok <==> is_valid_date(date@),
        r matches Err(e) ==> e matches TaskError::InvalidDate(d) && d@ == date@,
{
    let ghost s = date@;
    if !date.is_ascii() {
        proof {
            if is_valid_date(s) {
                let (i, j) = choose|i: int, j: int| date_split_at(s, i, j);
                lemma_valid_date_is_ascii(s, i, j);
            }
        }
        return Err(TaskError::InvalidDate(date.to_owned()));
    }
    let b = date.as_bytes();
    assert(ascii_bytes_of(b@, s));
    let first_hyphen = match find_hyphen(b, 0, Ghost(s)) {
        Some(k) => k,
        None => {
            return Err(TaskError::InvalidDate(date.to_owned()));
        },
    };
    assert(first_hyphen < b.len());
    let second_hyphen = match find_hyphen(b, first_hyphen + 1, Ghost(s)) {
        Some(k) => k,
        None => {
            return Err(TaskError::InvalidDate(date.to_owned()));
        },
    };
    let n = b.len();
    let fields = (read_field(b, 0, first_hyphen, Ghost(s)), read_field(b, first_hyphen + 1, second_hyphen, Ghost(s)), read_field(b, second_hyphen + 1, n, Ghost(s)));
    proof {
        // Any split of a valid date puts its hyphens where the scan found them.
        assert forall|i: int, j: int| date_split_at(s, i, j) implies i == first_hyphen && j == second_hyphen by {
            if i < first_hyphen {
                assert(s[i] != '-');
            }
            if first_hyphen < i {
                lemma_number_has_no_hyphen(s.subrange(0, i), first_hyphen as int);
            }
            if j < second_hyphen {
                assert(s[j] != '-');
            }
            if second_hyphen < j {
                lemma_number_has_no_hyphen(s.subrange(i + 1, j), second_hyphen - i - 1);
            }
        }
    }
    match fields {
        (Some(y), Some(m), Some(d)) => {
            if 1900 <= y && y <= 9999 && 1 <= m && m <= 12 && 1 <= d && d <= days_in_month(y, m) {
                assert(date_split_at(s, first_hyphen as int, second_hyphen as int));
                Ok(())
            } else {
                Err(TaskError::InvalidDate(date.to_owned()))
            }
        },
        _ => Err(TaskError::InvalidDate(date.to_owned())),
    }
}

/// Days from 0001-01-01 to the first day of `year`.
pub open spec fn days_before_year(year: int) -> int {
    let y = year - 1;
    365 * y + y / 4 - y / 100 + y / 400
}

/// Days from the first day of `year` to the first day of `month`.
pub open spec fn days_before_month(year: int, month: int) -> int
    decreases month,
{
    if month <= 1 {
        0
    } else {
        days_before_month(year, month - 1) + month_length(year, month - 1)
    }
}

/// Days from 0001-01-01 to the given day.
pub open spec fn day_number(year: int, month: int, day: int) -> int {
    days_before_year(year) + days_before_month(year, month) + day - 1
}

pub open spec fn year_length(year: int) -> int {
    if is_leap(year) {
        366
    } else {
        365
    }
}

/// Day number of 1900-01-01, the first day a due date may name.
pub const FIRST_DAY: u64 = 693595;

/// Day number of 9999-12-31, the last day a due date may name.
pub const LAST_DAY: u64 = 3652058;

/// Day number of 1970-01-01, where the system clock counts from.
pub const EPOCH_DAY: u64 = 719162;

pub const SECONDS_PER_DAY: u64 = 86400;

proof fn lemma_year_length(year: int)
    requires
        year >= 1,
    ensures
        days_before_year(year + 1) == days_before_year(year) + year_length(year),
{
    let a = year - 1;
    assert((a + 1) / 4 == a / 4 + if year % 4 == 0 { 1int } else { 0 });
    assert((a + 1) / 100 == a / 100 + if year % 100 == 0 { 1int } else { 0 });
    assert((a + 1) / 400 == a / 400 + if year % 400 == 0 { 1int } else { 0 });
}

proof fn lemma_years_ordered(a: int, b: int)
    requires
        1 <= a <= b,
    ensures
        days_before_year(a) + 365 * (b - a) <= days_before_year(b),
    decreases b - a,
{
    if a < b {
        lemma_years_ordered(a, b - 1);
        lemma_year_length(b - 1);
    }
}

proof fn lemma_year_lower_bound(n: int)
    requires
        n >= 0,
    ensures
        days_before_year(n / 366 + 1) <= n,
{
    let y = n / 366;
    assert(y / 400 <= y / 100);
    assert(y / 4 <= y);
    assert(366 * y <= n);
}

proof fn lemma_months_fill_year(year: int)
    ensures
        days_before_month(year, 13) == year_length(year),
{
    reveal_with_fuel(days_before_month, 13);
}

/// A calendar date as year, month and day.
#[derive(Clone, Copy, Debug, PartialEq, Eq, Structural)]
pub struct Date {
    pub year: u32,
    pub month: u32,
    pub day: u32,
}

impl Date {
    /// A real calendar day with a year from 1900 to 9999.
    pub open spec fn is_valid(self) -> bool {
        is_valid_ymd(self.year as int, self.month as int, self.day as int)
    }

    /// Days from 0001-01-01 to this day.
    pub open spec fn number(self) -> int {
        day_number(self.year as int, self.month as int, self.day as int)
    }
}

fn days_before_year_exec(year: u64) -> (r: u64)
    requires
        1 <= year <= 10000,
    ensures
        r == days_before_year(year as int),
{
    let y = year - 1;
    365 * y + y / 4 - y / 100 + y / 400
}

fn days_before_month_exec(year: u32, month: u32) -> (r: u64)
    requires
        1 <= month <= 12,
    ensures
        r == days_before_month(year as int, month as int),
        r <= 341,
{
    let mut total: u64 = 0;
    let mut m: u32 = 1;
    while m < month
        invariant
            1 <= m <= month <= 12,
            total == days_before_month(year as int, m as int),
            total <= 31 * (m - 1),
        decreases month - m,
    {
        total = total + days_in_month(year, m) as u64;
        m = m + 1;
    }
    total
}

/// Days from 0001-01-01 to `d`.
pub fn day_number_of(d: Date) -> (r: u64)
    requires
        d.is_valid(),
    ensures
        r == d.number(),
        FIRST_DAY <= r <= LAST_DAY,
{
    let r = days_before_year_exec(d.year as u64) + days_before_month_exec(d.year, d.month) + d.day as u64 - 1;
    proof {
        lemma_years_ordered(1900, d.year as int);
        lemma_years_ordered(d.year as int + 1, 10000);
        lemma_year_length(d.year as int);
        // The months after `d`'s month still fit in its year.
        lemma_months_fill_year(d.year as int);
        lemma_months_after(d.year as int, d.month as int);
    }
    r
}

proof fn lemma_months_after(year: int, month: int)
    requires
        1 <= month <= 12,
    ensures
        days_before_month(year, month) + month_length(year, month) <= days_before_month(year, 13),
    decreases 12 - month,
{
    if month < 12 {
        lemma_months_after(year, month + 1);
    }
}

/// The day that has day number `n`.
pub fn date_of_day_number(n: u64) -> (d: Date)
    requires
        FIRST_DAY <= n <= LAST_DAY,
    ensures
        d.is_valid(),
        d.number() == n,
{
    let mut y: u64 = n / 366 + 1;
    proof {
        lemma_year_lower_bound(n as int);
    }
    while y < 9999 && days_before_year_exec(y + 1) <= n
        invariant
            1 <= y <= 9999,
            days_before_year(y as int) <= n,
            FIRST_DAY <= n <= LAST_DAY,
        decreases 9999 - y,
    {
        y = y + 1;
    }
    proof {
        if y < 1900 {
            lemma_years_ordered(y as int + 1, 1900);
        }
        lemma_year_length(y as int);
        lemma_months_fill_year(y as int);
    }
    let year = y as u32;
    let mut rem: u64 = n - days_before_year_exec(y);
    let mut m: u32 = 1;
    while rem >= days_in_month(year, m) as u64
        invariant
            1 <= m <= 12,
            1900 <= year <= 9999,
            n == days_before_year(year as int) + days_before_month(year as int, m as int) + rem,
            days_before_month(year as int, m as int) + rem < year_length(year as int),
            days_before_month(year as int, 13) == year_length(year as int),
        decreases 12 - m,
    {
        rem = rem - days_in_month(year, m) as u64;
        proof {
            if m == 12 {
                assert(days_before_month(year as int, 13) == days_before_month(year as int, 12)
                    + month_length(year as int, 12));
            }
        }
        m = m + 1;
    }
    Date { year, month: m, day: (rem + 1) as u32 }
}

/// The day `days` days after `from` (before it, for a negative `days`), when
/// that day still has a year from 1900 to 9999.
pub fn offset_date(from: Date, days: i64) -> (r: Option<Date>)
    requires
        from.is_valid(),
    ensures
        r is Some <==> FIRST_DAY <= from.number() + days <= LAST_DAY,
        r matches Some(d) ==> d.is_valid() && d.number() == from.number() + days,
{
    let start = day_number_of(from) as i64;
    if days < FIRST_DAY as i64 - start || days > LAST_DAY as i64 - start {
        return None;
    }
    Some(date_of_day_number((start + days) as u64))
}

/// The calendar day of a moment given in seconds since 1970-01-01 00:00 UTC,
/// when its year is at most 9999.
pub fn date_of_unix_seconds(seconds: u64) -> (r: Option<Date>)
    ensures
        r is Some <==> EPOCH_DAY + seconds / SECONDS_PER_DAY <= LAST_DAY,
        r matches Some(d) ==> d.is_valid() && d.number() == EPOCH_DAY + seconds / SECONDS_PER_DAY,
{
    let days = seconds / SECONDS_PER_DAY;
    if days > LAST_DAY - EPOCH_DAY {
        return None;
    }
    Some(date_of_day_number(EPOCH_DAY + days))
}

/// The character of a decimal digit.
pub open spec fn digit_char(k: int) -> char {
    (k + 48) as char
}

/// `value` in decimal, padded with zeros on the left to `width` digits.
pub open spec fn padded_digits(value: int, width: nat) -> Seq<char>
    decreases width,
{
    if width == 0 {
        Seq::empty()
    } else {
        padded_digits(value / 10, (width - 1) as nat).push(digit_char(value % 10))
    }
}

/// `d` written as `YYYY-MM-DD`.
pub open spec fn date_text(d: Date) -> Seq<char> {
    padded_digits(d.year as int, 4) + seq!['-'] + padded_digits(d.month as int, 2) + seq!['-']
        + padded_digits(d.day as int, 2)
}

fn padded(value: u32, width: usize) -> (r: Vec<char>)
    ensures
        r@ == padded_digits(value as int, width as nat),
    decreases width,
{
    if width == 0 {
        Vec::new()
    } else {
        let mut v = padded(value / 10, width - 1);
        v.push(((value % 10) as u8 + 48u8) as char);
        v
    }
}

/// Writes `d` as `YYYY-MM-DD`.
pub fn format_date(d: Date) -> (r: String)
    ensures
        r@ == date_text(d),
{
    let mut out = string_of_chars(&padded(d.year, 4));
    let hyphen = "-";
    proof {
        reveal_strlit("-");
    }
    append_str(&mut out, hyphen);
    append_str(&mut out, string_of_chars(&padded(d.month, 2)).as_str());
    append_str(&mut out, hyphen);
    append_str(&mut out, string_of_chars(&padded(d.day, 2)).as_str());
    assert(out@ =~= date_text(d));
    out
}

pub open spec fn pow10(n: nat) -> int
    decreases n,
{
    if n == 0 {
        1
    } else {
        10 * pow10((n - 1) as nat)
    }
}

proof fn lemma_padded_digits(value: int, width: nat)
    requires
        0 <= value < pow10(width),
    ensures
        padded_digits(value, width).len() == width,
        all_digits(padded_digits(value, width)),
        digits_value(padded_digits(value, width)) == value,
    decreases width,
{
    if width > 0 {
        lemma_padded_digits(value / 10, (width - 1) as nat);
        let p = padded_digits(value, width);
        assert(p.drop_last() =~= padded_digits(value / 10, (width - 1) as nat));
    }
}

proof fn lemma_number_of_padded(value: int, width: nat)
    requires
        0 <= value < pow10(width),
        width > 0,
    ensures
        padded_digits(value, width).len() == width,
        is_number(padded_digits(value, width)),
        number_value(padded_digits(value, width)) == value,
{
    lemma_padded_digits(value, width);
    let p = padded_digits(value, width);
    assert(is_digit(p[0]));
}

/// A valid date, written `YYYY-MM-DD`, passes date validation.
pub proof fn lemma_date_text_valid(d: Date)
    requires
        d.is_valid(),
    ensures
        is_valid_date(date_text(d)),
        date_text(d).len() == 10,
{
    reveal_with_fuel(pow10, 5);
    lemma_number_of_padded(d.year as int, 4);
    lemma_number_of_padded(d.month as int, 2);
    lemma_number_of_padded(d.day as int, 2);
    let s = date_text(d);
    assert(s.subrange(0, 4) =~= padded_digits(d.year as int, 4));
    assert(s.subrange(5, 7) =~= padded_digits(d.month as int, 2));
    assert(s.subrange(8, 10) =~= padded_digits(d.day as int, 2));
    assert(date_split_at(s, 4, 7));
}

proof fn lemma_months_ordered(year: int, a: int, b: int)
    requires
        1 <= a <= b <= 13,
    ensures
        days_before_month(year, a) <= days_before_month(year, b),
    decreases b - a,
{
    if a < b {
        lemma_months_ordered(year, a, b - 1);
    }
}

/// Two valid dates with the same day number are the same date.
pub proof fn lemma_day_number_injective(a: Date, b: Date)
    requires
        a.is_valid(),
        b.is_valid(),
        a.number() == b.number(),
    ensures
        a == b,
{
    lemma_months_fill_year(a.year as int);
    lemma_months_fill_year(b.year as int);
    lemma_months_after(a.year as int, a.month as int);
    lemma_months_after(b.year as int, b.month as int);
    lemma_year_length(a.year as int);
    lemma_year_length(b.year as int);
    lemma_months_ordered(a.year as int, 1, a.month as int);
    lemma_months_ordered(b.year as int, 1, b.month as int);
    if a.year < b.year {
        lemma_years_ordered(a.year as int + 1, b.year as int);
        assert(a.number() < days_before_year(a.year + 1));
        assert(days_before_year(a.year + 1) <= days_before_year(b.year as int));
    } else if b.year < a.year {
        lemma_years_ordered(b.year as int + 1, a.year as int);
        assert(b.number() < days_before_year(b.year + 1));
    } else {
        if a.month < b.month {
            lemma_months_ordered(a.year as int, a.month as int + 1, b.month as int);
            assert(days_before_month(a.year as int, a.month + 1) == days_before_month(
                a.year as int,
                a.month as int,
            ) + month_length(a.year as int, a.month as int));
        } else if b.month < a.month {
            lemma_months_ordered(a.year as int, b.month as int + 1, a.month as int);
            assert(days_before_month(b.year as int, b.month + 1) == days_before_month(
                b.year as int,
                b.month as int,
            ) + month_length(b.year as int, b.month as int));
        }
    }
}

/// The day `days` days after `from`, or `from` itself when that day falls
/// outside the years 1900 to 9999.
pub open spec fn shifted(from: Date, days: int) -> Date {
    let n = from.number() + days;
    if FIRST_DAY <= n <= LAST_DAY {
        choose|d: Date| d.is_valid() && d.number() == n
    } else {
        from
    }
}

/// The day `days` days after `from` (before it, for a negative `days`); where
/// that day falls outside the years 1900 to 9999, `from` itself.
pub fn date_with_offset(from: Date, days: i64) -> (r: Date)
    requires
        from.is_valid(),
    ensures
        r == shifted(from, days as int),
        r.is_valid(),
        FIRST_DAY <= from.number() + days <= LAST_DAY ==> r.number() == from.number() + days,
        !(FIRST_DAY <= from.number() + days <= LAST_DAY) ==> r == from,
{
    match offset_date(from, days) {
        Some(d) => {
            proof {
                let c = choose|c: Date| c.is_valid() && c.number() == from.number() + days;
                lemma_day_number_injective(c, d);
            }
            d
        },
        None => from,
    }
}

/// Relies on `SystemTime::now` and `SystemTime::duration_since`: whole seconds
/// of the system clock since 1970-01-01 00:00 UTC, or `None` when the clock
/// stands before that moment.
#[verifier::external_body]
fn clock_seconds() -> Option<u64> {
    match std::time::SystemTime::now().duration_since(std::time::UNIX_EPOCH) {
        Ok(d) => Some(d.as_secs()),
        Err(_) => None,
    }
}

/// The day taken for today when the system clock gives no usable date.
pub fn fallback_date() -> (d: Date)
    ensures
        d.is_valid(),
        d == (Date { year: 2025, month: 11, day: 7 }),
{
    Date { year: 2025, month: 11, day: 7 }
}

/// The valid day that has day number `n`.
pub open spec fn date_numbered(n: int) -> Date {
    choose|d: Date| d.is_valid() && d.number() == n
}

proof fn lemma_padded_order(x: int, y: int, width: nat)
    requires
        0 <= x < y < pow10(width),
    ensures
        text_less(padded_digits(x, width), padded_digits(y, width)),
    decreases width,
{
    if width > 0 {
        let w1 = (width - 1) as nat;
        lemma_padded_digits(x / 10, w1);
        lemma_padded_digits(y / 10, w1);
        let px = padded_digits(x / 10, w1);
        let py = padded_digits(y / 10, w1);
        assert(padded_digits(x, width) =~= px + seq![digit_char(x % 10)]);
        assert(padded_digits(y, width) =~= py + seq![digit_char(y % 10)]);
        if x / 10 < y / 10 {
            lemma_padded_order(x / 10, y / 10, w1);
            crate::text::lemma_text_less_same_length(px, py, seq![digit_char(x % 10)], seq![digit_char(y % 10)]);
        } else {
            assert(x / 10 == y / 10);
            crate::text::lemma_text_less_common_start(px, seq![digit_char(x % 10)], seq![digit_char(y % 10)]);
            assert(text_less(seq![digit_char(x % 10)], seq![digit_char(y % 10)]));
        }
    } else {
        assert(false);
    }
}

proof fn lemma_number_order(a: Date, b: Date)
    requires
        a.is_valid(),
        b.is_valid(),
        a.number() < b.number(),
    ensures
        a.year < b.year || (a.year == b.year && (a.month < b.month || (a.month == b.month
            && a.day < b.day))),
{
    lemma_months_fill_year(a.year as int);
    lemma_months_fill_year(b.year as int);
    lemma_months_after(a.year as int, a.month as int);
    lemma_months_after(b.year as int, b.month as int);
    lemma_year_length(a.year as int);
    lemma_year_length(b.year as int);
    lemma_months_ordered(a.year as int, 1, a.month as int);
    lemma_months_ordered(b.year as int, 1, b.month as int);
    if b.year < a.year {
        lemma_years_ordered(b.year as int + 1, a.year as int);
        assert(b.number() < days_before_year(b.year + 1));
    } else if a.year == b.year && b.month < a.month {
        lemma_months_ordered(a.year as int, b.month as int + 1, a.month as int);
        assert(days_before_month(b.year as int, b.month + 1) == days_before_month(
            b.year as int,
            b.month as int,
        ) + month_length(b.year as int, b.month as int));
    }
}

/// Written as `YYYY-MM-DD`, an earlier valid date comes first in the order
/// of texts: comparing the texts compares the dates.
pub proof fn lemma_date_text_order(a: Date, b: Date)
    requires
        a.is_valid(),
        b.is_valid(),
        a.number() < b.number(),
    ensures
        text_less(date_text(a), date_text(b)),
{
    reveal_with_fuel(pow10, 5);
    lemma_number_order(a, b);
    lemma_padded_digits(a.year as int, 4);
    lemma_padded_digits(b.year as int, 4);
    lemma_padded_digits(a.month as int, 2);
    lemma_padded_digits(b.month as int, 2);
    lemma_padded_digits(a.day as int, 2);
    lemma_padded_digits(b.day as int, 2);
    let ya = padded_digits(a.year as int, 4);
    let ma = padded_digits(a.month as int, 2);
    let da = padded_digits(a.day as int, 2);
    let mb = padded_digits(b.month as int, 2);
    let db = padded_digits(b.day as int, 2);
    let h = seq!['-'];
    if a.year < b.year {
        lemma_padded_order(a.year as int, b.year as int, 4);
        assert(date_text(a) =~= ya + (h + ma + h + da));
        assert(date_text(b) =~= padded_digits(b.year as int, 4) + (h + mb + h + db));
        crate::text::lemma_text_less_same_length(ya, padded_digits(b.year as int, 4), h + ma + h + da, h + mb + h + db);
    } else if a.month < b.month {
        lemma_padded_order(a.month as int, b.month as int, 2);
        assert(date_text(a) =~= (ya + h) + (ma + (h + da)));
        assert(date_text(b) =~= (ya + h) + (mb + (h + db)));
        crate::text::lemma_text_less_same_length(ma, mb, h + da, h + db);
        crate::text::lemma_text_less_common_start(ya + h, ma + (h + da), mb + (h + db));
    } else {
        lemma_padded_order(a.day as int, b.day as int, 2);
        assert(date_text(a) =~= (ya + h + ma + h) + da);
        assert(date_text(b) =~= (ya + h + ma + h) + db);
        crate::text::lemma_text_less_common_start(ya + h + ma + h, da, db);
    }
}

/// The day a clock reading names: for `seconds` since 1970-01-01 00:00 UTC,
/// the calendar day they fall on, while its year is at most 9999; for no
/// reading, or a later one, 2025-11-07.
pub open spec fn clock_date(seconds: Option<u64>) -> Date {
    match seconds {
        Some(s) => if EPOCH_DAY + s / SECONDS_PER_DAY <= LAST_DAY {
            date_numbered(EPOCH_DAY + s / SECONDS_PER_DAY)
        } else {
            Date { year: 2025, month: 11, day: 7 }
        },
        None => Date { year: 2025, month: 11, day: 7 },
    }
}

/// The day a clock reading names, or the fallback day when there is no
/// usable reading.
pub fn date_from_clock(seconds: Option<u64>) -> (d: Date)
    ensures
        d == clock_date(seconds),
        d.is_valid(),
{
    match seconds {
        Some(s) => match date_of_unix_seconds(s) {
            Some(d) => {
                proof {
                    let c = date_numbered(EPOCH_DAY + s / SECONDS_PER_DAY);
                    assert(c.is_valid() && c.number() == EPOCH_DAY + s / SECONDS_PER_DAY);
                    lemma_day_number_injective(c, d);
                }
                d
            },
            None => fallback_date(),
        },
        None => fallback_date(),
    }
}

/// Today's date by the system clock (in UTC), or 2025-11-07 when the clock
/// gives no date from 1970 to 9999.
pub fn today() -> (d: Date)
    ensures
        d.is_valid(),
        exists|seconds: Option<u64>| d == clock_date(seconds),
{
    let seconds = clock_seconds();
    date_from_clock(seconds)
}

/// Today's date as `YYYY-MM-DD`.
pub fn get_today() -> (r: String)
    ensures
        exists|seconds: Option<u64>| r@ == date_text(#[trigger] clock_date(seconds)),
        exists|d: Date| d.is_valid() && r@ == date_text(d),
        is_valid_date(r@),
{
    let d = today();
    proof {
        lemma_date_text_valid(d);
    }
    format_date(d)
}

/// The date `days` days from today as `YYYY-MM-DD`; today's date where that
/// day falls outside the years 1900 to 9999.
pub fn get_date_with_offset(days: i32) -> (r: String)
    ensures
        exists|seconds: Option<u64>| r@ == date_text(shifted(#[trigger] clock_date(seconds), days as int)),
        exists|d: Date| d.is_valid() && r@ == date_text(d),
        is_valid_date(r@),
{
    let d = date_with_offset(today(), days as i64);
    proof {
        lemma_date_text_valid(d);
    }
    format_date(d)
}

} // verus!
