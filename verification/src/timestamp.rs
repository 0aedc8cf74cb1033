//! How a stored timestamp is shown: "Just now", "5 mins ago", ... or a date
//! such as "Mar 04, 2020"; and the current time as the system clock gives it.
use vstd::prelude::*;

use chrono::Datelike;

use crate::text::{decimal, decimal_string, digit_char, push_char};

verus! {

// ---------------------------------------------------------------------------
// The clock
// ---------------------------------------------------------------------------
#[verifier::external_type_specification]
#[verifier::external_body]
pub struct ExSystemTime(std::time::SystemTime);

/// `std::time::SystemTime::now`: the system clock. Nothing is promised of it.
#[verifier::external_body]
fn system_time_now() -> (r: std::time::SystemTime) {
    std::time::SystemTime::now()
}

/// `SystemTime::duration_since(UNIX_EPOCH)` as whole seconds and nanoseconds:
/// `Ok` with the time since the epoch, or `Err` with how far before the epoch
/// the time lies. `Duration::subsec_nanos` is below one billion.
#[verifier::external_body]
fn since_unix_epoch(t: &std::time::SystemTime) -> (r: Result<(u64, u32), (u64, u32)>)
    ensures
        match r {
            Ok((_, n)) => n < 1_000_000_000,
            Err((_, n)) => n < 1_000_000_000,
        },
{
    match t.duration_since(std::time::UNIX_EPOCH) {
        Ok(d) => Ok((d.as_secs(), d.subsec_nanos())),
        Err(e) => Err((e.duration().as_secs(), e.duration().subsec_nanos())),
    }
}

/// The instant of a clock reading as Unix seconds (rounded down) and the
/// nanoseconds after them.
pub open spec fn instant_of_reading(reading: Result<(u64, u32), (u64, u32)>) -> (int, int) {
    match reading {
        Ok((s, n)) => (s as int, n as int),
        Err((s, n)) => if n == 0 {
            (-s, 0)
        } else {
            (-s - 1, 1_000_000_000 - n)
        },
    }
}

pub open spec fn instant_fits(s: int) -> bool {
    -0x1_0000_0000_0000_0000 <= s <= 0x1_0000_0000_0000_0000
}

/// The current time as Unix seconds and nanoseconds, before the epoch too.
pub(crate) fn clock_now() -> (r: (i128, u32))
    ensures
        r.1 < 1_000_000_000,
        instant_fits(r.0 as int),
{
    let t = system_time_now();
    match since_unix_epoch(&t) {
        Ok((s, n)) => (s as i128, n),
        Err((s, n)) => if n == 0 {
            (-(s as i128), 0)
        } else {
            (-(s as i128) - 1, 1_000_000_000 - n)
        },
    }
}

// ---------------------------------------------------------------------------
// Timestamps read with chrono
// ---------------------------------------------------------------------------
/// The earliest and latest Unix seconds of chrono's `DateTime<Utc>`
/// (`DateTime::<Utc>::MIN_UTC`, January 1 of -262143, and `MAX_UTC`,
/// December 31 of 262142, 23:59:59).
pub const MIN_UNIX_SECONDS: i64 = -8_334_601_315_200i64;

pub const MAX_UNIX_SECONDS: i64 = 8_210_266_876_799i64;

/// What `str::parse::<DateTime<Utc>>` (chrono's relaxed RFC 3339) reads from a
/// text, as `DateTime::timestamp` and `DateTime::timestamp_subsec_nanos`, or
/// `None` when the text is not such a timestamp.
pub uninterp spec fn parsed_utc_timestamp(text: Seq<char>) -> Option<(i64, u32)>;

pub open spec fn utc_timestamp_parses(text: Seq<char>) -> bool {
    parsed_utc_timestamp(text) is Some
}

/// Reads a timestamp with chrono (`str::parse::<DateTime<Utc>>`), giving its
/// Unix seconds and the nanoseconds after them (a billion or more in a leap
/// second). The reading is named by `parsed_utc_timestamp`; a `DateTime<Utc>`
/// lies between `MIN_UTC` and `MAX_UTC`.
#[verifier::external_body]
fn parse_utc_timestamp(text: &str) -> (r: Option<(i64, u32)>)
    ensures
        r == parsed_utc_timestamp(text@),
        r matches Some((s, _)) ==> MIN_UNIX_SECONDS <= s <= MAX_UNIX_SECONDS,
{
    match text.parse::<chrono::DateTime<chrono::Utc>>() {
        Ok(t) => Some((t.timestamp(), t.timestamp_subsec_nanos())),
        Err(_) => None,
    }
}

/// The local calendar date (year, month, day) of a moment given in Unix
/// seconds: `DateTime::from_timestamp`, `with_timezone(&Local)` and
/// `Datelike::{year, month, day}`. Inside chrono's range the moment exists;
/// months run from 1 to 12 and days from 1 to 31. The date depends on the
/// system's time zone, so nothing more is promised of it. chrono reads the
/// zone's offset from the system's time zone data and panics only where that
/// data has no local time type for the moment, which valid data always has.
#[verifier::external_body]
fn local_calendar_date(secs: i64) -> (r: Option<(i32, u32, u32)>)
    requires
        MIN_UNIX_SECONDS <= secs <= MAX_UNIX_SECONDS,
    ensures
        r is Some,
        r matches Some((_, m, d)) ==> 1 <= m <= 12 && 1 <= d <= 31,
{
    match chrono::DateTime::from_timestamp(secs, 0) {
        Some(t) => {
            let local = t.with_timezone(&chrono::Local);
            Some((local.year(), local.month(), local.day()))
        },
        None => None,
    }
}

// ---------------------------------------------------------------------------
// Elapsed time
// ---------------------------------------------------------------------------
/// The second of the day of a Unix time.
pub open spec fn day_second(s: int) -> int {
    s % 86400
}

/// Whole seconds from the instant `then` to the instant `now`, rounded toward
/// zero, as chrono's `signed_duration_since(..).num_seconds()` counts them:
/// each instant is Unix seconds and nanoseconds, where a billion nanoseconds
/// or more mark a leap second, which counts once the other instant's second
/// of the day has passed it.
pub open spec fn elapsed_seconds(now_s: int, now_n: int, then_s: int, then_n: int) -> int {
    let adjust: int = if day_second(now_s) > day_second(then_s) && then_n >= 1_000_000_000 {
        1
    } else if day_second(now_s) < day_second(then_s) && now_n >= 1_000_000_000 {
        -1
    } else {
        0
    };
    let total = (now_s - then_s + adjust) * 1_000_000_000 + (now_n - then_n);
    if total >= 0 {
        total / 1_000_000_000
    } else {
        -((-total) / 1_000_000_000)
    }
}

fn day_second_of(s: i128) -> (r: i128)
    requires
        -0x1_0000_0000_0000_0000_0000 <= s <= 0x1_0000_0000_0000_0000_0000,
    ensures
        r == day_second(s as int),
{
    if s >= 0 {
        let r = ((s as u128) % 86400) as i128;
        r
    } else {
        let a = (-s) as u128;
        let m = a % 86400;
        proof {
            let q = (a / 86400) as int;
            assert(a == 86400 * q + m) by (nonlinear_arith)
                requires
                    m == a % 86400,
                    q == a / 86400,
            ;
            if m == 0 {
                assert(s == 86400 * (-q) + 0);
                vstd::arithmetic::div_mod::lemma_fundamental_div_mod_converse(
                    s as int,
                    86400,
                    -q,
                    0,
                );
            } else {
                assert(s == 86400 * (-q - 1) + (86400 - m));
                vstd::arithmetic::div_mod::lemma_fundamental_div_mod_converse(
                    s as int,
                    86400,
                    -q - 1,
                    86400 - m,
                );
            }
        }
        if m == 0 {
            0
        } else {
            86400 - (m as i128)
        }
    }
}

/// Whole seconds from `then` to `now`, as `elapsed_seconds` says.
pub fn elapsed_between(now_secs: i128, now_nanos: u32, then_secs: i64, then_nanos: u32) -> (r: i128)
    requires
        instant_fits(now_secs as int),
    ensures
        r == elapsed_seconds(now_secs as int, now_nanos as int, then_secs as int, then_nanos as int),
{
    let now_day = day_second_of(now_secs);
    let then_day = day_second_of(then_secs as i128);
    let adjust: i128 = if now_day > then_day && then_nanos >= 1_000_000_000 {
        1
    } else if now_day < then_day && now_nanos >= 1_000_000_000 {
        -1
    } else {
        0
    };
    let whole = now_secs - (then_secs as i128) + adjust;
    assert(-0x3_0000_0000_0000_0000 <= whole <= 0x3_0000_0000_0000_0000);
    assert(-0x3_0000_0000_0000_0000 * 1_000_000_000 <= whole * 1_000_000_000
        <= 0x3_0000_0000_0000_0000 * 1_000_000_000) by (nonlinear_arith)
        requires
            -0x3_0000_0000_0000_0000 <= whole <= 0x3_0000_0000_0000_0000,
    ;
    let total = whole * 1_000_000_000 + ((now_nanos as i128) - (then_nanos as i128));
    if total >= 0 {
        ((total as u128) / 1_000_000_000) as i128
    } else {
        -((((-total) as u128) / 1_000_000_000) as i128)
    }
}

// ---------------------------------------------------------------------------
// Texts
// ---------------------------------------------------------------------------
pub open spec fn plural_suffix(n: int) -> Seq<char> {
    if n == 1 {
        ""@
    } else {
        "s"@
    }
}

/// The text for a moment `seconds` ago: under a minute "Just now", then whole
/// minutes, hours or days ("1 min ago", "3 hours ago"), and from a week on
/// the given calendar date.
pub open spec fn spec_describe_elapsed(seconds: int, date: Seq<char>) -> Seq<char> {
    if seconds < 60 {
        "Just now"@
    } else if seconds / 60 < 60 {
        decimal((seconds / 60) as nat) + " min"@ + plural_suffix(seconds / 60) + " ago"@
    } else if seconds / 3600 < 24 {
        decimal((seconds / 3600) as nat) + " hour"@ + plural_suffix(seconds / 3600) + " ago"@
    } else if seconds / 86400 < 7 {
        decimal((seconds / 86400) as nat) + " day"@ + plural_suffix(seconds / 86400) + " ago"@
    } else {
        date
    }
}

/// Under a minute reads "Just now"; one minute, hour or day reads in the
/// singular ("1 min ago", "1 hour ago", "1 day ago") and more in the plural
/// ("5 mins ago"); from a week on the date is shown.
pub proof fn lemma_elapsed_texts(seconds: int, date: Seq<char>)
    ensures
        seconds < 60 ==> spec_describe_elapsed(seconds, date) == "Just now"@,
        60 <= seconds < 120 ==> spec_describe_elapsed(seconds, date) == seq!['1'] + " min ago"@,
        120 <= seconds < 3600 ==> spec_describe_elapsed(seconds, date) == decimal(
            (seconds / 60) as nat,
        ) + " mins ago"@,
        3600 <= seconds < 7200 ==> spec_describe_elapsed(seconds, date) == seq!['1']
            + " hour ago"@,
        7200 <= seconds < 86400 ==> spec_describe_elapsed(seconds, date) == decimal(
            (seconds / 3600) as nat,
        ) + " hours ago"@,
        86400 <= seconds < 172800 ==> spec_describe_elapsed(seconds, date) == seq!['1']
            + " day ago"@,
        172800 <= seconds < 604800 ==> spec_describe_elapsed(seconds, date) == decimal(
            (seconds / 86400) as nat,
        ) + " days ago"@,
        seconds >= 604800 ==> spec_describe_elapsed(seconds, date) == date,
{
    reveal_strlit(" min");
    reveal_strlit(" hour");
    reveal_strlit(" day");
    reveal_strlit("s");
    reveal_strlit("");
    reveal_strlit(" ago");
    reveal_strlit(" min ago");
    reveal_strlit(" mins ago");
    reveal_strlit(" hour ago");
    reveal_strlit(" hours ago");
    reveal_strlit(" day ago");
    reveal_strlit(" days ago");
    if 60 <= seconds < 120 {
        assert(seconds / 60 == 1);
        assert(decimal(1) == seq!['1']);
        assert(decimal(1) + " min"@ + ""@ + " ago"@ =~= seq!['1'] + " min ago"@);
    }
    if 120 <= seconds < 3600 {
        let k = (seconds / 60) as nat;
        assert(decimal(k) + " min"@ + "s"@ + " ago"@ =~= decimal(k) + " mins ago"@);
    }
    if 3600 <= seconds < 7200 {
        assert(seconds / 3600 == 1);
        assert(decimal(1) == seq!['1']);
        assert(decimal(1) + " hour"@ + ""@ + " ago"@ =~= seq!['1'] + " hour ago"@);
    }
    if 7200 <= seconds < 86400 {
        let k = (seconds / 3600) as nat;
        assert(decimal(k) + " hour"@ + "s"@ + " ago"@ =~= decimal(k) + " hours ago"@);
    }
    if 86400 <= seconds < 172800 {
        assert(seconds / 86400 == 1);
        assert(decimal(1) == seq!['1']);
        assert(decimal(1) + " day"@ + ""@ + " ago"@ =~= seq!['1'] + " day ago"@);
    }
    if 172800 <= seconds < 604800 {
        let k = (seconds / 86400) as nat;
        assert(decimal(k) + " day"@ + "s"@ + " ago"@ =~= decimal(k) + " days ago"@);
    }
}

/// Whole seconds between instants on whole seconds are their difference, and
/// between any instants (no leap second) they differ from the difference of
/// their whole seconds by at most one.
pub proof fn lemma_elapsed_seconds_difference(now_s: int, now_n: int, then_s: int, then_n: int)
    requires
        0 <= now_n < 1_000_000_000,
        0 <= then_n < 1_000_000_000,
    ensures
        now_n == 0 && then_n == 0 ==> elapsed_seconds(now_s, now_n, then_s, then_n) == now_s
            - then_s,
        now_s - then_s - 1 <= elapsed_seconds(now_s, now_n, then_s, then_n) <= now_s - then_s + 1,
        now_s > then_s ==> elapsed_seconds(now_s, now_n, then_s, then_n) >= now_s - then_s - 1,
{
    let d = now_s - then_s;
    let total = d * 1_000_000_000 + (now_n - then_n);
    if total >= 0 {
        assert(total / 1_000_000_000 <= d + 1) by (nonlinear_arith)
            requires
                total == d * 1_000_000_000 + (now_n - then_n),
                now_n - then_n < 1_000_000_000,
                total >= 0,
        ;
        assert(total / 1_000_000_000 >= d - 1) by (nonlinear_arith)
            requires
                total == d * 1_000_000_000 + (now_n - then_n),
                now_n - then_n > -1_000_000_000,
                total >= 0,
        ;
        if now_n == 0 && then_n == 0 {
            assert(total / 1_000_000_000 == d) by (nonlinear_arith)
                requires
                    total == d * 1_000_000_000,
            ;
        }
    } else {
        assert((-total) / 1_000_000_000 <= -d + 1) by (nonlinear_arith)
            requires
                total == d * 1_000_000_000 + (now_n - then_n),
                now_n - then_n > -1_000_000_000,
                total < 0,
        ;
        assert((-total) / 1_000_000_000 >= -d - 1) by (nonlinear_arith)
            requires
                total == d * 1_000_000_000 + (now_n - then_n),
                now_n - then_n < 1_000_000_000,
                total < 0,
        ;
        if now_n == 0 && then_n == 0 {
            assert((-total) / 1_000_000_000 == -d) by (nonlinear_arith)
                requires
                    total == d * 1_000_000_000,
            ;
        }
    }
}

/// Years from 1000 to 9999 are written as their four digits.
pub proof fn lemma_four_digit_years(y: int)
    requires
        1000 <= y <= 9999,
    ensures
        year_text(y) == seq![
            digit_char((y / 1000) as nat),
            digit_char((y / 100 % 10) as nat),
            digit_char((y / 10 % 10) as nat),
            digit_char((y % 10) as nat),
        ],
{
    let n = y as nat;
    assert(decimal(n / 10 / 10 / 10) == seq![digit_char(n / 10 / 10 / 10)]);
    assert(n / 10 / 10 / 10 == y / 1000);
    assert(n / 10 / 10 % 10 == y / 100 % 10);
    assert(decimal(n / 10 / 10) == decimal(n / 10 / 10 / 10).push(digit_char(n / 10 / 10 % 10)));
    assert(decimal(n / 10) == decimal(n / 10 / 10).push(digit_char(n / 10 % 10)));
    assert(decimal(n) == decimal(n / 10).push(digit_char(n % 10)));
    assert(decimal(n).len() == 4);
    assert(year_text(y) =~= seq![
        digit_char((y / 1000) as nat),
        digit_char((y / 100 % 10) as nat),
        digit_char((y / 10 % 10) as nat),
        digit_char((y % 10) as nat),
    ]);
}

fn count_ago(count: i64, unit: &str) -> (r: String)
    requires
        count >= 1,
    ensures
        r@ == decimal(count as nat) + unit@ + plural_suffix(count as int) + " ago"@,
{
    let mut out = decimal_string(count as u64);
    out.append(unit);
    if count != 1 {
        out.append("s");
    } else {
        out.append("");
    }
    out.append(" ago");
    out
}

/// The text for a moment `seconds` ago, with `date` shown from a week on.
pub fn describe_elapsed(seconds: i128, date: String) -> (r: String)
    ensures
        r@ == spec_describe_elapsed(seconds as int, date@),
{
    if seconds < 60 {
        String::from_str("Just now")
    } else if seconds / 60 < 60 {
        count_ago((seconds / 60) as i64, " min")
    } else if seconds / 3600 < 24 {
        count_ago((seconds / 3600) as i64, " hour")
    } else if seconds / 86400 < 7 {
        count_ago((seconds / 86400) as i64, " day")
    } else {
        date
    }
}

/// English month abbreviations, as chrono's `%b` writes them.
pub open spec fn month_abbreviation(month: u32) -> Seq<char> {
    if month == 1 {
        "Jan"@
    } else if month == 2 {
        "Feb"@
    } else if month == 3 {
        "Mar"@
    } else if month == 4 {
        "Apr"@
    } else if month == 5 {
        "May"@
    } else if month == 6 {
        "Jun"@
    } else if month == 7 {
        "Jul"@
    } else if month == 8 {
        "Aug"@
    } else if month == 9 {
        "Sep"@
    } else if month == 10 {
        "Oct"@
    } else if month == 11 {
        "Nov"@
    } else {
        "Dec"@
    }
}

/// The months are written with chrono's English `%b` names, January to
/// December, and no two months share a name.
pub proof fn lemma_month_names()
    ensures
        month_abbreviation(1) == seq!['J', 'a', 'n'],
        month_abbreviation(2) == seq!['F', 'e', 'b'],
        month_abbreviation(3) == seq!['M', 'a', 'r'],
        month_abbreviation(4) == seq!['A', 'p', 'r'],
        month_abbreviation(5) == seq!['M', 'a', 'y'],
        month_abbreviation(6) == seq!['J', 'u', 'n'],
        month_abbreviation(7) == seq!['J', 'u', 'l'],
        month_abbreviation(8) == seq!['A', 'u', 'g'],
        month_abbreviation(9) == seq!['S', 'e', 'p'],
        month_abbreviation(10) == seq!['O', 'c', 't'],
        month_abbreviation(11) == seq!['N', 'o', 'v'],
        month_abbreviation(12) == seq!['D', 'e', 'c'],
        forall|a: u32, b: u32|
            1 <= a <= 12 && 1 <= b <= 12 && a != b ==> #[trigger] month_abbreviation(a)
                != #[trigger] month_abbreviation(b),
{
    reveal_strlit("Jan");
    reveal_strlit("Feb");
    reveal_strlit("Mar");
    reveal_strlit("Apr");
    reveal_strlit("May");
    reveal_strlit("Jun");
    reveal_strlit("Jul");
    reveal_strlit("Aug");
    reveal_strlit("Sep");
    reveal_strlit("Oct");
    reveal_strlit("Nov");
    reveal_strlit("Dec");
    assert forall|a: u32, b: u32|
        1 <= a <= 12 && 1 <= b <= 12 && a != b implies #[trigger] month_abbreviation(a)
            != #[trigger] month_abbreviation(b) by {
        let x = month_abbreviation(a);
        let y = month_abbreviation(b);
        if x == y {
            assert(x[0] == y[0] && x[1] == y[1] && x[2] == y[2]);
        }
    }
}

/// A number below 100 in two digits, as `%d` writes a day.
pub open spec fn two_digits(n: nat) -> Seq<char> {
    seq![digit_char(n / 10), digit_char(n % 10)]
}

/// Digits padded with zeros in front to at least four.
pub open spec fn zero_pad4(s: Seq<char>) -> Seq<char> {
    if s.len() >= 4 {
        s
    } else {
        Seq::new((4 - s.len()) as nat, |i: int| '0') + s
    }
}

/// A year as `%Y` writes it: four digits or more, with a sign outside
/// 0 to 9999.
pub open spec fn year_text(y: int) -> Seq<char> {
    if 0 <= y <= 9999 {
        zero_pad4(decimal(y as nat))
    } else if y < 0 {
        seq!['-'] + zero_pad4(decimal((-y) as nat))
    } else {
        seq!['+'] + zero_pad4(decimal(y as nat))
    }
}

/// A calendar date as `%b %d, %Y`, such as "Mar 04, 2020".
pub open spec fn spec_calendar_date(year: int, month: u32, day: u32) -> Seq<char> {
    month_abbreviation(month) + " "@ + two_digits(day as nat) + ", "@ + year_text(year)
}

fn month_abbreviation_text(month: u32) -> (r: &'static str)
    ensures
        r@ == month_abbreviation(month),
{
    if month == 1 {
        "Jan"
    } else if month == 2 {
        "Feb"
    } else if month == 3 {
        "Mar"
    } else if month == 4 {
        "Apr"
    } else if month == 5 {
        "May"
    } else if month == 6 {
        "Jun"
    } else if month == 7 {
        "Jul"
    } else if month == 8 {
        "Aug"
    } else if month == 9 {
        "Sep"
    } else if month == 10 {
        "Oct"
    } else if month == 11 {
        "Nov"
    } else {
        "Dec"
    }
}

proof fn lemma_decimal_length(n: nat)
    ensures
        decimal(n).len() >= 1,
        n < 10 ==> decimal(n).len() == 1,
        10 <= n < 100 ==> decimal(n).len() == 2,
        100 <= n < 1000 ==> decimal(n).len() == 3,
        n >= 1000 ==> decimal(n).len() >= 4,
    decreases n,
{
    if n >= 10 {
        lemma_decimal_length(n / 10);
    }
}

fn year_text_of(year: i32) -> (r: String)
    ensures
        r@ == year_text(year as int),
{
    let magnitude: u64 = if year < 0 {
        (-(year as i64)) as u64
    } else {
        year as u64
    };
    let mut out = String::new();
    if year < 0 {
        push_char(&mut out, '-');
    } else if year > 9999 {
        push_char(&mut out, '+');
    }
    let ghost sign = out@;
    proof {
        lemma_decimal_length(magnitude as nat);
        reveal_strlit("000");
        reveal_strlit("00");
        reveal_strlit("0");
    }
    if magnitude < 10 {
        out.append("000");
    } else if magnitude < 100 {
        out.append("00");
    } else if magnitude < 1000 {
        out.append("0");
    }
    let digits = decimal_string(magnitude);
    let ghost before = out@;
    out.append(digits.as_str());
    assert(before.skip(sign.len() as int) + digits@ =~= zero_pad4(decimal(magnitude as nat)));
    assert(out@ =~= sign + zero_pad4(decimal(magnitude as nat)));
    out
}

/// A calendar date as chrono's `%b %d, %Y` writes it.
pub fn calendar_date_text(year: i32, month: u32, day: u32) -> (r: String)
    requires
        1 <= month <= 12,
        1 <= day <= 31,
    ensures
        r@ == spec_calendar_date(year as int, month, day),
{
    let mut out = String::from_str(month_abbreviation_text(month));
    out.append(" ");
    let tens = (day / 10) as u8;
    let ones = (day % 10) as u8;
    push_char(&mut out, (tens + 48) as char);
    push_char(&mut out, (ones + 48) as char);
    out.append(", ");
    let year_part = year_text_of(year);
    out.append(year_part.as_str());
    assert(out@ =~= spec_calendar_date(year as int, month, day));
    out
}

/// How a parsed timestamp reads at the instant `now`: the time since it, and
/// its local calendar date from a week on.
pub fn relative_time_text(
    now_secs: i128,
    now_nanos: u32,
    then_secs: i64,
    then_nanos: u32,
    year: i32,
    month: u32,
    day: u32,
) -> (r: String)
    requires
        instant_fits(now_secs as int),
        1 <= month <= 12,
        1 <= day <= 31,
    ensures
        r@ == spec_describe_elapsed(
            elapsed_seconds(now_secs as int, now_nanos as int, then_secs as int, then_nanos as int),
            spec_calendar_date(year as int, month, day),
        ),
{
    let seconds = elapsed_between(now_secs, now_nanos, then_secs, then_nanos);
    describe_elapsed(seconds, calendar_date_text(year, month, day))
}

/// `shown` is how a timestamp reads at some instant in some time zone: the
/// text itself when chrono does not read it as a timestamp, else the time
/// since it or its calendar date.
pub open spec fn is_shown_time(timestamp: Seq<char>, shown: Seq<char>) -> bool {
    match parsed_utc_timestamp(timestamp) {
        None => shown == timestamp,
        Some((s, n)) => exists|now_s: int, now_n: int, y: i32, m: u32, d: u32|
            #![trigger elapsed_seconds(now_s, now_n, s as int, n as int), spec_calendar_date(y as int, m, d)]
            0 <= now_n < 1_000_000_000 && 1 <= m <= 12 && 1 <= d <= 31 && shown
                == spec_describe_elapsed(
                elapsed_seconds(now_s, now_n, s as int, n as int),
                spec_calendar_date(y as int, m, d),
            ),
    }
}

/// A stored timestamp as shown in the history: relative to now, or the text
/// itself when it is not a timestamp.
pub fn format_timestamp(timestamp: &str) -> (r: String)
    ensures
        is_shown_time(timestamp@, r@),
{
    match parse_utc_timestamp(timestamp) {
        None => String::from_str(timestamp),
        Some((secs, nanos)) => {
            let (now_secs, now_nanos) = clock_now();
            match local_calendar_date(secs) {
                Some((year, month, day)) => {
                    let r = relative_time_text(now_secs, now_nanos, secs, nanos, year, month, day);
                    r
                },
                None => String::from_str(timestamp),
            }
        },
    }
}

} // verus!
