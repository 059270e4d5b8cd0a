//! The target's own wall clock: boot time plus uptime, as an RFC 3339 timestamp
//! in UTC.
//!
//! Timestamps carry whole seconds, because that is the resolution to which boot
//! time is recorded.
use vstd::prelude::*;

use crate::fault::{Fault, FaultView};
use crate::number::{digit_char, is_digit, lemma_padded, padded};
use crate::proc::{parse_error, required, result_view, stat_btime, stat_btime_of};

verus! {

broadcast use vstd::string::group_string_axioms;

/// A date and a time of day in the proleptic Gregorian calendar.
pub struct Civil {
    pub year: int,
    pub month: int,
    pub day: int,
    pub hour: int,
    pub minute: int,
    pub second: int,
}

/// Whether `year` has a 29 February.
pub open spec fn is_leap(year: int) -> bool {
    year % 4 == 0 && (year % 100 != 0 || year % 400 == 0)
}

/// How many days the year has.
pub open spec fn year_days(year: int) -> int {
    if is_leap(year) {
        366
    } else {
        365
    }
}

/// How many days the month has.
pub open spec fn month_days(year: int, month: int) -> int {
    if month == 2 {
        if is_leap(year) {
            29
        } else {
            28
        }
    } else if month == 4 || month == 6 || month == 9 || month == 11 {
        30
    } else {
        31
    }
}

/// How many days of the year precede the month.
pub open spec fn days_before_month(year: int, month: int) -> int
    decreases month,
{
    if month <= 1 {
        0
    } else {
        days_before_month(year, month - 1) + month_days(year, month - 1)
    }
}

/// How many days lie between the first day of year 0 and the first day of
/// `year`: each year has 365, and a leap day falls in every fourth year, save
/// every hundredth that is no four-hundredth.
pub open spec fn days_before_year(year: int) -> int {
    365 * year + (year + 3) / 4 - (year + 99) / 100 + (year + 399) / 400
}

impl Civil {
    /// Whether the calendar has this date and the clock this time.
    pub open spec fn valid(self) -> bool {
        &&& 1 <= self.month <= 12
        &&& 1 <= self.day <= month_days(self.year, self.month)
        &&& 0 <= self.hour < 24
        &&& 0 <= self.minute < 60
        &&& 0 <= self.second < 60
    }

    /// How many days the date lies after 1 January 1970.
    pub open spec fn epoch_day(self) -> int {
        days_before_year(self.year) - days_before_year(1970) + days_before_month(
            self.year,
            self.month,
        ) + self.day - 1
    }

    /// How many seconds the instant lies after the Unix epoch, leap seconds not
    /// counted.
    pub open spec fn epoch_seconds(self) -> int {
        self.epoch_day() * 86400 + self.hour * 3600 + self.minute * 60 + self.second
    }

    /// The instant as RFC 3339 writes it in UTC, to the second.
    pub open spec fn rfc3339(self) -> Seq<char> {
        year_text(self.year) + seq!['-'] + two_digits(self.month) + seq!['-'] + two_digits(self.day)
            + seq!['T'] + two_digits(self.hour) + seq![':'] + two_digits(self.minute) + seq![':']
            + two_digits(self.second) + seq!['Z']
    }
}

/// `n` in two digits.
pub open spec fn two_digits(n: int) -> Seq<char> {
    seq![digit_char(n / 10), digit_char(n % 10)]
}

/// A year in four digits; one that four digits cannot hold has a sign, and as
/// many digits as it needs.
pub open spec fn year_text(year: int) -> Seq<char> {
    if 0 <= year <= 9999 {
        padded(year as nat, 4)
    } else if year > 0 {
        seq!['+'] + padded(year as nat, 4)
    } else {
        seq!['-'] + padded((-year) as nat, 4)
    }
}

/// The date and time that is `seconds` after the Unix epoch.
pub open spec fn civil_at(seconds: int) -> Civil {
    choose|c: Civil| c.valid() && c.epoch_seconds() == seconds
}

/// The first instant that a timestamp can denote, in seconds after the Unix
/// epoch: the start of the year -262143.
pub const FIRST_INSTANT: i64 = -8_334_601_228_800;

/// The last instant that a timestamp can denote, in seconds after the Unix epoch:
/// the end of the year 262142.
pub const LAST_INSTANT: i64 = 8_210_266_876_799;

/// Whether a timestamp can denote the instant.
pub open spec fn representable(seconds: int) -> bool {
    FIRST_INSTANT <= seconds <= LAST_INSTANT
}

/// The timestamp of an instant, by `chrono::DateTime::from_timestamp` with no
/// nanoseconds and `chrono::DateTime::to_rfc3339_opts` with whole seconds and
/// `Z` for the offset.
///
/// Claimed of chrono: it has a date for exactly the years -262143 to 262142, and
/// writes the proleptic Gregorian date and time of day of the instant in UTC as
/// RFC 3339 does, with a sign in front of a year outside 0 to 9999.
#[verifier::external_body]
pub(crate) fn timestamp(seconds: i64) -> (r: Option<String>)
    ensures
        r is Some <==> representable(seconds as int),
        r matches Some(text) ==> text@ == civil_at(seconds as int).rfc3339(),
{
    match chrono::DateTime::from_timestamp(seconds, 0) {
        Some(instant) => Some(instant.to_rfc3339_opts(chrono::SecondsFormat::Secs, true)),
        None => None,
    }
}

/// A year is followed by the next after as many days as it has.
proof fn lemma_next_year(year: int)
    ensures
        days_before_year(year + 1) == days_before_year(year) + year_days(year),
{
    let a = year % 4;
    let b = year % 100;
    let c = year % 400;
    assert((year + 4) / 4 == (year + 3) / 4 + if a == 0 {
        1int
    } else {
        0int
    });
    assert((year + 100) / 100 == (year + 99) / 100 + if b == 0 {
        1int
    } else {
        0int
    });
    assert((year + 400) / 400 == (year + 399) / 400 + if c == 0 {
        1int
    } else {
        0int
    });
    assert(b == 0 ==> a == 0);
    assert(c == 0 ==> b == 0);
}

/// Later years begin later.
proof fn lemma_years_ascend(y: int, z: int)
    requires
        y < z,
    ensures
        days_before_year(y) + year_days(y) <= days_before_year(z),
    decreases z - y,
{
    lemma_next_year(z - 1);
    if y < z - 1 {
        lemma_years_ascend(y, z - 1);
    } else {
        lemma_next_year(y);
    }
}

/// Later months begin later, and the last ends with the year.
proof fn lemma_months_ascend(year: int, m: int, n: int)
    requires
        1 <= m < n <= 13,
    ensures
        0 <= days_before_month(year, m),
        days_before_month(year, m) + month_days(year, m) <= days_before_month(year, n),
        days_before_month(year, 13) == year_days(year),
    decreases n - m,
{
    reveal_with_fuel(days_before_month, 14);
    if m < n - 1 {
        lemma_months_ascend(year, m, n - 1);
    }
}

/// The day of the year lies within the year.
proof fn lemma_day_of_year(c: Civil)
    requires
        c.valid(),
    ensures
        0 <= days_before_month(c.year, c.month) + c.day - 1 < year_days(c.year),
{
    lemma_months_ascend(c.year, c.month, 13);
}

/// No two dates are the same day.
proof fn lemma_date_unique(a: Civil, b: Civil)
    requires
        a.valid(),
        b.valid(),
        a.epoch_day() == b.epoch_day(),
    ensures
        a.year == b.year,
        a.month == b.month,
        a.day == b.day,
{
    lemma_day_of_year(a);
    lemma_day_of_year(b);
    if a.year < b.year {
        lemma_years_ascend(a.year, b.year);
    }
    if b.year < a.year {
        lemma_years_ascend(b.year, a.year);
    }
    if a.month < b.month {
        lemma_months_ascend(a.year, a.month, b.month);
    }
    if b.month < a.month {
        lemma_months_ascend(a.year, b.month, a.month);
    }
}

/// A count of seconds splits into days, hours, minutes and seconds in one way.
proof fn lemma_split_seconds(d: int, h: int, m: int, s: int, e: int, i: int, n: int, t: int)
    requires
        0 <= h < 24,
        0 <= m < 60,
        0 <= s < 60,
        0 <= i < 24,
        0 <= n < 60,
        0 <= t < 60,
        d * 86400 + h * 3600 + m * 60 + s == e * 86400 + i * 3600 + n * 60 + t,
    ensures
        d == e,
        h == i,
        m == n,
        s == t,
{
    let p = h * 3600 + m * 60 + s;
    let q = i * 3600 + n * 60 + t;
    assert(0 <= p < 86400);
    assert(0 <= q < 86400);
    if d < e {
        assert(d * 86400 + 86400 <= e * 86400);
    } else if e < d {
        assert(e * 86400 + 86400 <= d * 86400);
    }
    assert(p == q);
    if h < i {
        assert(h * 3600 + 3600 <= i * 3600);
    } else if i < h {
        assert(i * 3600 + 3600 <= h * 3600);
    }
    assert(m * 60 + s == n * 60 + t);
}

/// No two dates and times are the same instant.
pub proof fn lemma_civil_unique(a: Civil, b: Civil)
    requires
        a.valid(),
        b.valid(),
        a.epoch_seconds() == b.epoch_seconds(),
    ensures
        a == b,
{
    lemma_split_seconds(
        a.epoch_day(),
        a.hour,
        a.minute,
        a.second,
        b.epoch_day(),
        b.hour,
        b.minute,
        b.second,
    );
    lemma_date_unique(a, b);
}

/// Every day has a date.
proof fn lemma_date_exists(day: int) -> (c: Civil)
    ensures
        c.valid(),
        c.epoch_day() == day,
        c.hour == 0 && c.minute == 0 && c.second == 0,
    decreases if day < 0 {
        -day
    } else {
        day
    },
{
    reveal_with_fuel(days_before_month, 14);
    if day == 0 {
        Civil { year: 1970, month: 1, day: 1, hour: 0, minute: 0, second: 0 }
    } else if day > 0 {
        let c = lemma_date_exists(day - 1);
        lemma_next_year(c.year);
        if c.day < month_days(c.year, c.month) {
            Civil { day: c.day + 1, ..c }
        } else if c.month < 12 {
            Civil { month: c.month + 1, day: 1, ..c }
        } else {
            Civil { year: c.year + 1, month: 1, day: 1, ..c }
        }
    } else {
        let c = lemma_date_exists(day + 1);
        lemma_next_year(c.year - 1);
        if c.day > 1 {
            Civil { day: c.day - 1, ..c }
        } else if c.month > 1 {
            Civil { month: c.month - 1, day: month_days(c.year, c.month - 1), ..c }
        } else {
            Civil { year: c.year - 1, month: 12, day: 31, ..c }
        }
    }
}

/// Every instant has a date and time.
proof fn lemma_civil_at(seconds: int)
    ensures
        civil_at(seconds).valid(),
        civil_at(seconds).epoch_seconds() == seconds,
{
    let day = seconds / 86400;
    let rest = seconds % 86400;
    let d = lemma_date_exists(day);
    let c = Civil { hour: rest / 3600, minute: rest % 3600 / 60, second: rest % 60, ..d };
    assert(c.epoch_day() == day);
    assert(c.valid() && c.epoch_seconds() == seconds);
}

/// Every instant has one date and time, so its timestamp says which instant it
/// is.
pub proof fn law_instant_has_one_civil_time(seconds: int, c: Civil)
    requires
        c.valid(),
        c.epoch_seconds() == seconds,
    ensures
        civil_at(seconds) == c,
{
    lemma_civil_at(seconds);
    lemma_civil_unique(c, civil_at(seconds));
}

/// The instants that a timestamp can denote are those of the years -262143 to
/// 262142.
pub proof fn law_representable_years(seconds: int)
    ensures
        civil_at(seconds).valid(),
        civil_at(seconds).epoch_seconds() == seconds,
        representable(seconds) <==> -262143 <= civil_at(seconds).year <= 262142,
{
    lemma_civil_at(seconds);
    let c = civil_at(seconds);
    lemma_day_of_year(c);
    let y = c.year;
    let begins = days_before_year(y);
    let days = year_days(y);
    let day = days_before_month(y, c.month) + c.day - 1;
    let time = c.hour * 3600 + c.minute * 60 + c.second;
    assert(days_before_year(1970) == 719528);
    assert(days_before_year(-262143) == -95745764);
    assert(days_before_year(262143) == 95745765);
    assert(seconds == (begins - 719528 + day) * 86400 + time);
    assert(0 <= day < days);
    assert(0 <= time < 86400);
    if y < -262143 {
        lemma_years_ascend(y, -262143);
        assert(begins + days <= -95745764);
    } else if y > 262142 {
        if y > 262143 {
            lemma_years_ascend(262143, y);
        }
        assert(begins >= 95745765);
    } else {
        if y > -262143 {
            lemma_years_ascend(-262143, y);
        }
        lemma_years_ascend(y, 262143);
        assert(-95745764 <= begins);
        assert(begins + days <= 95745765);
    }
}

/// The text of a four-digit year.
proof fn lemma_year_text(year: int)
    requires
        0 <= year <= 9999,
    ensures
        year_text(year) == seq![
            digit_char(year / 1000),
            digit_char(year / 100 % 10),
            digit_char(year / 10 % 10),
            digit_char(year % 10),
        ],
{
    reveal_with_fuel(padded, 5);
    let y = year as nat;
    assert(y / 10 / 10 == y / 100);
    assert(y / 100 / 10 == y / 1000);
    assert(y / 1000 < 10);
    assert(padded(y / 1000, 1) =~= seq![digit_char(year / 1000)]);
    assert(padded(y / 100, 2) =~= padded(y / 1000, 1).push(digit_char(year / 100 % 10)));
    assert(padded(y / 10, 3) =~= padded(y / 100, 2).push(digit_char(year / 10 % 10)));
    assert(padded(y, 4) =~= padded(y / 10, 3).push(digit_char(year % 10)));
    assert(year_text(year) =~= seq![
        digit_char(year / 1000),
        digit_char(year / 100 % 10),
        digit_char(year / 10 % 10),
        digit_char(year % 10),
    ]);
}

/// A timestamp of a year that four digits hold is twenty characters long, to the
/// second and no finer, and ends in the `Z` of UTC.
pub proof fn law_timestamp_shape(c: Civil)
    requires
        c.valid(),
        0 <= c.year <= 9999,
    ensures
        c.rfc3339().len() == 20,
        c.rfc3339()[4] == '-',
        c.rfc3339()[7] == '-',
        c.rfc3339()[10] == 'T',
        c.rfc3339()[13] == ':',
        c.rfc3339()[16] == ':',
        c.rfc3339()[19] == 'Z',
{
    lemma_year_text(c.year);
}

/// Two digits determine the number they are the digits of.
proof fn lemma_two_digits(m: int, n: int)
    requires
        0 <= m < 100,
        0 <= n < 100,
        digit_char(m / 10) == digit_char(n / 10),
        digit_char(m % 10) == digit_char(n % 10),
    ensures
        m == n,
{
    lemma_digit_char(m / 10, n / 10);
    lemma_digit_char(m % 10, n % 10);
}

/// The parts of a timestamp: the year, and sixteen characters behind it.
proof fn lemma_timestamp_parts(c: Civil)
    ensures
        ({
            let t = c.rfc3339();
            let n = year_text(c.year).len() as int;
            &&& t.len() == n + 16
            &&& t.take(n) == year_text(c.year)
            &&& t[n + 1] == digit_char(c.month / 10)
            &&& t[n + 2] == digit_char(c.month % 10)
            &&& t[n + 4] == digit_char(c.day / 10)
            &&& t[n + 5] == digit_char(c.day % 10)
            &&& t[n + 7] == digit_char(c.hour / 10)
            &&& t[n + 8] == digit_char(c.hour % 10)
            &&& t[n + 10] == digit_char(c.minute / 10)
            &&& t[n + 11] == digit_char(c.minute % 10)
            &&& t[n + 13] == digit_char(c.second / 10)
            &&& t[n + 14] == digit_char(c.second % 10)
        }),
{
    let y = year_text(c.year);
    assert(c.rfc3339().take(y.len() as int) =~= y);
}

/// A digit is told by its character.
proof fn lemma_digit_char(m: int, n: int)
    requires
        0 <= m < 10,
        0 <= n < 10,
        digit_char(m) == digit_char(n),
    ensures
        m == n,
{
}

/// Years that are written the same are the same.
proof fn lemma_year_text_injective(y: int, z: int)
    requires
        year_text(y) == year_text(z),
    ensures
        y == z,
{
    let m = if y < 0 {
        (-y) as nat
    } else {
        y as nat
    };
    let n = if z < 0 {
        (-z) as nat
    } else {
        z as nat
    };
    lemma_padded(m, 4);
    lemma_padded(n, 4);
    let s = padded(m, 4);
    let t = padded(n, 4);
    assert(is_digit(s[0]) && is_digit(t[0]));
    assert(year_text(y)[0] == s[0] || year_text(y)[0] == '+' || year_text(y)[0] == '-');
    assert(year_text(z)[0] == t[0] || year_text(z)[0] == '+' || year_text(z)[0] == '-');
    if !(0 <= y <= 9999) {
        assert(year_text(y).drop_first() =~= s);
        assert(year_text(z).drop_first() =~= t);
    }
}

/// Dates and times that are written the same are the same.
proof fn lemma_timestamp_injective(c: Civil, d: Civil)
    requires
        c.valid(),
        d.valid(),
        c.rfc3339() == d.rfc3339(),
    ensures
        c == d,
{
    lemma_timestamp_parts(c);
    lemma_timestamp_parts(d);
    lemma_year_text_injective(c.year, d.year);
    lemma_two_digits(c.month, d.month);
    lemma_two_digits(c.day, d.day);
    lemma_two_digits(c.hour, d.hour);
    lemma_two_digits(c.minute, d.minute);
    lemma_two_digits(c.second, d.second);
}

/// Readings taken at different instants carry different timestamps.
pub proof fn law_timestamps_tell_instants_apart(a: int, b: int)
    requires
        civil_at(a).rfc3339() == civil_at(b).rfc3339(),
    ensures
        a == b,
{
    lemma_civil_at(a);
    lemma_civil_at(b);
    lemma_timestamp_injective(civil_at(a), civil_at(b));
}

/// Boot time plus whole seconds of uptime, where both the boot time and the sum
/// fit a signed 64-bit count of seconds.
pub open spec fn now_of(btime: u64, uptime: i64) -> Option<i64> {
    if btime <= i64::MAX && btime + uptime <= i64::MAX {
        Some((btime + uptime) as i64)
    } else {
        None
    }
}

/// The timestamp of an instant, where there is one.
pub open spec fn timestamp_of(seconds: int) -> Option<Seq<char>> {
    if representable(seconds) {
        Some(civil_at(seconds).rfc3339())
    } else {
        None
    }
}

/// The target's wall clock as a timestamp, where there is one.
pub open spec fn wall_clock_of(btime: u64, uptime: i64) -> Option<Seq<char>> {
    match now_of(btime, uptime) {
        Some(now) => timestamp_of(now as int),
        None => None,
    }
}

/// The instant that the target's clock shows, in seconds after the Unix epoch,
/// or what is wrong with `/proc/stat`.
pub open spec fn target_now_of(stat: Seq<char>, uptime: i64) -> Result<i64, FaultView> {
    match required(stat_btime_of(stat), "/proc/stat"@, "btime"@) {
        Err(fault) => Err(fault),
        Ok(btime) => required(now_of(btime, uptime), "/proc/stat"@, "boot time out of range"@),
    }
}

/// The timestamp of the instant that the target's clock shows, or what is wrong
/// with `/proc/stat`.
pub open spec fn collected_at_of(stat: Seq<char>, uptime: i64) -> Result<Seq<char>, FaultView> {
    match required(stat_btime_of(stat), "/proc/stat"@, "btime"@) {
        Err(fault) => Err(fault),
        Ok(btime) => required(
            wall_clock_of(btime, uptime),
            "/proc/stat"@,
            "boot time out of range"@,
        ),
    }
}

/// A reading is dated by the same clock that the age of a container is measured
/// on: the timestamp is that of the instant the clock shows.
pub proof fn law_one_clock(stat: Seq<char>, uptime: i64)
    ensures
        match target_now_of(stat, uptime) {
            Ok(now) => collected_at_of(stat, uptime) == required(
                timestamp_of(now as int),
                "/proc/stat"@,
                "boot time out of range"@,
            ),
            Err(fault) => collected_at_of(stat, uptime) == Err::<Seq<char>, FaultView>(fault),
        },
{
}

/// The target's clock shows boot time plus uptime, to the second: as an instant,
/// and as the timestamp of the date and time which that instant is. Where the sum is
/// out of range, that is what is said to be wrong, and where there is no boot time,
/// that.
pub proof fn law_the_clock_is_boot_time_plus_uptime(stat: Seq<char>, uptime: i64, c: Civil)
    ensures
        stat_btime_of(stat) matches Some(btime) ==> {
            let sum = btime + uptime;
            &&& btime <= i64::MAX && sum <= i64::MAX ==> (target_now_of(stat, uptime) matches Ok(
                now,
            ) && now == sum)
            &&& btime > i64::MAX || sum > i64::MAX ==> target_now_of(stat, uptime) == Err::<i64, _>(
                FaultView::Malformed { path: "/proc/stat"@, what: "boot time out of range"@ },
            )
            &&& btime <= i64::MAX && c.valid() && c.epoch_seconds() == sum && -262143 <= c.year
                <= 262142 ==> collected_at_of(stat, uptime) == Ok::<_, FaultView>(c.rfc3339())
            &&& btime > i64::MAX || (c.valid() && c.epoch_seconds() == sum && !(-262143 <= c.year
                <= 262142)) ==> collected_at_of(stat, uptime) == Err::<Seq<char>, _>(
                FaultView::Malformed { path: "/proc/stat"@, what: "boot time out of range"@ },
            )
        },
        stat_btime_of(stat) is None ==> {
            &&& target_now_of(stat, uptime) == Err::<i64, _>(
                FaultView::Malformed { path: "/proc/stat"@, what: "btime"@ },
            )
            &&& collected_at_of(stat, uptime) == Err::<Seq<char>, _>(
                FaultView::Malformed { path: "/proc/stat"@, what: "btime"@ },
            )
        },
{
    match stat_btime_of(stat) {
        Some(btime) => {
            let sum = btime + uptime;
            law_representable_years(sum);
            if c.valid() && c.epoch_seconds() == sum {
                law_instant_has_one_civil_time(sum, c);
            }
        },
        None => {},
    }
}

/// An instant is dated by the date and time that it is, where the year is one that
/// a timestamp can denote, and not at all elsewhere.
pub proof fn law_an_instant_is_dated(seconds: int, c: Civil)
    requires
        c.valid(),
        c.epoch_seconds() == seconds,
    ensures
        timestamp_of(seconds) == (if -262143 <= c.year <= 262142 {
            Some(c.rfc3339())
        } else {
            None
        }),
{
    law_instant_has_one_civil_time(seconds, c);
    law_representable_years(seconds);
}

/// A later reading is later by as much as the uptime has grown: two readings of one
/// boot are as far apart as their uptimes.
pub proof fn law_the_clock_advances_with_uptime(stat: Seq<char>, early: i64, late: i64)
    ensures
        target_now_of(stat, early) matches Ok(a) ==> (target_now_of(stat, late) matches Ok(b) ==> b
            - a == late - early),
{
}

/// Boot time plus whole seconds of uptime.
fn now(btime: u64, uptime: i64) -> (r: Option<i64>)
    ensures
        r == now_of(btime, uptime),
{
    if btime <= i64::MAX as u64 {
        (btime as i64).checked_add(uptime)
    } else {
        None
    }
}

/// The timestamp of an instant, in seconds after the Unix epoch.
pub fn wall_clock_from(now: i64) -> (r: Option<String>)
    ensures
        match r {
            Some(text) => timestamp_of(now as int) == Some(text@),
            None => timestamp_of(now as int) is None,
        },
{
    timestamp(now)
}

/// The target's own wall clock, as RFC 3339 in UTC: boot time plus uptime.
pub fn wall_clock(btime: u64, uptime: i64) -> (r: Option<String>)
    ensures
        match r {
            Some(text) => wall_clock_of(btime, uptime) == Some(text@),
            None => wall_clock_of(btime, uptime) is None,
        },
{
    match now(btime, uptime) {
        Some(instant) => wall_clock_from(instant),
        None => None,
    }
}

/// The instant that the target's own clock shows, from the text of `/proc/stat`
/// and the whole seconds the target has been up.
pub fn target_now(stat: &str, uptime: i64) -> (r: Result<i64, Fault>)
    ensures
        result_view(r) == target_now_of(stat@, uptime),
{
    match stat_btime(stat) {
        None => Err(parse_error("/proc/stat", "btime")),
        Some(btime) => match now(btime, uptime) {
            None => Err(parse_error("/proc/stat", "boot time out of range")),
            Some(instant) => Ok(instant),
        },
    }
}

/// When a reading was taken, by the target's own clock, from the text of
/// `/proc/stat` and the whole seconds the target has been up.
pub fn collected_at(stat: &str, uptime: i64) -> (r: Result<String, Fault>)
    ensures
        result_view(r) == collected_at_of(stat@, uptime),
{
    match stat_btime(stat) {
        None => Err(parse_error("/proc/stat", "btime")),
        Some(btime) => match wall_clock(btime, uptime) {
            None => Err(parse_error("/proc/stat", "boot time out of range")),
            Some(text) => Ok(text),
        },
    }
}

} // verus!
