//! Partition names by UTC calendar day, and the retention window that decides
//! whether a partition may be written.
use vstd::prelude::*;

use chrono::Datelike;

use crate::event::Event;

verus! {

/// Seconds in one day.
pub const SECONDS_PER_DAY: u64 = 86400;

/// Day number, counted from January 1 of year 1 as day 1, of 1970-01-01.
pub const EPOCH_DAY_FROM_CE: i32 = 719163;

/// How the date of a partition name is written, in chrono's notation.
pub const DATE_FORMAT: &'static str = "%Y.%m.%d";

/// Why a partition name could not be computed or read.
#[derive(PartialEq, Eq, Structural, Clone, Copy, Debug)]
pub enum IndexError {
    /// The timestamp has no four-digit-year UTC calendar date.
    InvalidTimestamp,
    /// The date part of an index name is not a valid calendar date.
    MalformedIndexName,
}

/// The calendar date, as year, month and day, of a day number.
pub uninterp spec fn date_of_ce_day(ce: i32) -> Option<(i32, u32, u32)>;

/// The day number of a calendar date, if that date exists.
pub uninterp spec fn ce_day_of_date(year: i32, month: u32, day: u32) -> Option<i32>;

/// The date that `text` holds when read in the date format `format`.
pub uninterp spec fn parsed_date(text: Seq<char>, format: Seq<char>) -> Option<(i32, u32, u32)>;

/// Relies on chrono's `NaiveDate::from_num_days_from_ce_opt` and the
/// `Datelike` accessors: the calendar date of a day number, `None` outside
/// chrono's range. Months run 1..=12, days 1..=31, and the date's own day
/// number is the one asked for.
#[verifier::external_body]
fn calendar_date(ce: i32) -> (r: Option<(i32, u32, u32)>)
    ensures
        r == date_of_ce_day(ce),
        r matches Some(t) ==> 1 <= t.1 <= 12 && 1 <= t.2 <= 31 && ce_day_of_date(t.0, t.1, t.2)
            == Some(ce),
{
    match chrono::NaiveDate::from_num_days_from_ce_opt(ce) {
        Some(d) => Some((d.year(), d.month(), d.day())),
        None => None,
    }
}

/// Relies on chrono's `NaiveDate::from_ymd_opt` and
/// `Datelike::num_days_from_ce`: the day number of a date, `None` when the
/// date does not exist.
#[verifier::external_body]
fn day_number(year: i32, month: u32, day: u32) -> (r: Option<i32>)
    ensures
        r == ce_day_of_date(year, month, day),
{
    match chrono::NaiveDate::from_ymd_opt(year, month, day) {
        Some(d) => Some(d.num_days_from_ce()),
        None => None,
    }
}

/// Relies on chrono's `NaiveDate::parse_from_str`: the date written in
/// `text` in the given format, `None` when it holds no valid date.
#[verifier::external_body]
fn parse_date(text: &str, format: &str) -> (r: Option<(i32, u32, u32)>)
    ensures
        r == parsed_date(text@, format@),
{
    match chrono::NaiveDate::parse_from_str(text, format) {
        Ok(d) => Some((d.year(), d.month(), d.day())),
        Err(_) => None,
    }
}

pub open spec fn digit_char(d: nat) -> char {
    if d == 0 {
        '0'
    } else if d == 1 {
        '1'
    } else if d == 2 {
        '2'
    } else if d == 3 {
        '3'
    } else if d == 4 {
        '4'
    } else if d == 5 {
        '5'
    } else if d == 6 {
        '6'
    } else if d == 7 {
        '7'
    } else if d == 8 {
        '8'
    } else {
        '9'
    }
}

/// `value` in decimal, zero-padded to exactly `width` digits.
pub open spec fn decimal(value: nat, width: nat) -> Seq<char>
    decreases width,
{
    if width == 0 {
        Seq::empty()
    } else {
        decimal(value / 10, (width - 1) as nat).push(digit_char(value % 10))
    }
}

/// The date written as `YYYY.MM.DD`.
pub open spec fn date_label(year: i32, month: u32, day: u32) -> Seq<char> {
    decimal(year as nat, 4) + seq!['.'] + decimal(month as nat, 2) + seq!['.'] + decimal(
        day as nat,
        2,
    )
}

/// The UTC day of a timestamp, counted from the Unix epoch.
pub open spec fn utc_day(created_at: u64) -> int {
    created_at as int / SECONDS_PER_DAY as int
}

/// The date of a UTC day, where it has a four-digit year.
pub open spec fn partition_date(created_at: u64) -> Option<(i32, u32, u32)> {
    let ce = utc_day(created_at) + EPOCH_DAY_FROM_CE;
    if ce > i32::MAX {
        None
    } else {
        match date_of_ce_day(ce as i32) {
            Some(t) => if 0 <= t.0 <= 9999 && 1 <= t.1 <= 12 && 1 <= t.2 <= 31 && ce_day_of_date(
                t.0,
                t.1,
                t.2,
            ) == Some(ce as i32) {
                Some(t)
            } else {
                None
            },
            None => None,
        }
    }
}

/// The partition of a timestamp: `{prefix}-{YYYY.MM.DD}` of its UTC date.
pub open spec fn partition_name(prefix: Seq<char>, created_at: u64) -> Option<Seq<char>> {
    match partition_date(created_at) {
        Some(t) => Some(prefix + seq!['-'] + date_label(t.0, t.1, t.2)),
        None => None,
    }
}

fn digit_str(d: u32) -> (r: &'static str)
    requires
        d < 10,
    ensures
        r@ == seq![digit_char(d as nat)],
{
    proof {
        reveal_strlit("0");
        reveal_strlit("1");
        reveal_strlit("2");
        reveal_strlit("3");
        reveal_strlit("4");
        reveal_strlit("5");
        reveal_strlit("6");
        reveal_strlit("7");
        reveal_strlit("8");
        reveal_strlit("9");
    }
    if d == 0 {
        "0"
    } else if d == 1 {
        "1"
    } else if d == 2 {
        "2"
    } else if d == 3 {
        "3"
    } else if d == 4 {
        "4"
    } else if d == 5 {
        "5"
    } else if d == 6 {
        "6"
    } else if d == 7 {
        "7"
    } else if d == 8 {
        "8"
    } else {
        "9"
    }
}

fn append_decimal(out: &mut String, value: u32, width: u32)
    ensures
        final(out)@ == old(out)@ + decimal(value as nat, width as nat),
    decreases width,
{
    if width > 0 {
        append_decimal(out, value / 10, width - 1);
        out.append(digit_str(value % 10));
        proof {
            assert(decimal(value as nat, width as nat) == decimal((value / 10) as nat, (width
                - 1) as nat).push(digit_char((value % 10) as nat)));
        }
    } else {
        assert(decimal(value as nat, 0) =~= Seq::empty());
        assert(old(out)@ + Seq::<char>::empty() =~= old(out)@);
    }
}

/// The name of the partition an event belongs to: the prefix, a dash, and
/// the UTC calendar date of its timestamp as `YYYY.MM.DD`. Two events share
/// a partition exactly when they fall on the same UTC day.
pub fn index_name_for_event(prefix: &str, event: &Event) -> (r: Result<String, IndexError>)
    ensures
        match partition_name(prefix@, event.created_at) {
            Some(name) => r matches Ok(s) && s@ == name,
            None => r == Err::<String, IndexError>(IndexError::InvalidTimestamp),
        },
{
    let day: u64 = event.created_at / SECONDS_PER_DAY;
    if day > (i32::MAX - EPOCH_DAY_FROM_CE) as u64 {
        return Err(IndexError::InvalidTimestamp);
    }
    let ce: i32 = day as i32 + EPOCH_DAY_FROM_CE;
    let date = calendar_date(ce);
    match date {
        Some((year, month, mday)) => {
            if year < 0 || year > 9999 {
                return Err(IndexError::InvalidTimestamp);
            }
            let mut name = String::from_str(prefix);
            name.append("-");
            append_decimal(&mut name, year as u32, 4);
            name.append(".");
            append_decimal(&mut name, month, 2);
            name.append(".");
            append_decimal(&mut name, mday, 2);
            proof {
                reveal_strlit("-");
                reveal_strlit(".");
                assert(name@ =~= prefix@ + seq!['-'] + date_label(year, month, mday));
            }
            Ok(name)
        },
        None => Err(IndexError::InvalidTimestamp),
    }
}

pub open spec fn pow10(width: nat) -> nat
    decreases width,
{
    if width == 0 {
        1
    } else {
        10 * pow10((width - 1) as nat)
    }
}

proof fn lemma_decimal_len(value: nat, width: nat)
    ensures
        decimal(value, width).len() == width,
    decreases width,
{
    if width > 0 {
        lemma_decimal_len(value / 10, (width - 1) as nat);
    }
}

proof fn lemma_decimal_injective(a: nat, b: nat, width: nat)
    requires
        a < pow10(width),
        b < pow10(width),
        decimal(a, width) == decimal(b, width),
    ensures
        a == b,
    decreases width,
{
    if width > 0 {
        let w = (width - 1) as nat;
        let p = pow10(w);
        let da = decimal(a / 10, w);
        let db = decimal(b / 10, w);
        assert(decimal(a, width) == da.push(digit_char(a % 10)));
        assert(decimal(b, width) == db.push(digit_char(b % 10)));
        assert(da =~= decimal(a, width).drop_last());
        assert(db =~= decimal(b, width).drop_last());
        assert(a / 10 < p) by (nonlinear_arith)
            requires
                a < 10 * p,
        ;
        assert(b / 10 < p) by (nonlinear_arith)
            requires
                b < 10 * p,
        ;
        lemma_decimal_injective(a / 10, b / 10, w);
        assert(decimal(a, width).last() == digit_char(a % 10));
        assert(decimal(b, width).last() == digit_char(b % 10));
        assert(a % 10 < 10 && b % 10 < 10);
        assert(a % 10 == b % 10);
    }
}

proof fn lemma_date_label_injective(
    prefix: Seq<char>,
    d1: (i32, u32, u32),
    d2: (i32, u32, u32),
)
    requires
        0 <= d1.0 <= 9999 && 1 <= d1.1 <= 12 && 1 <= d1.2 <= 31,
        0 <= d2.0 <= 9999 && 1 <= d2.1 <= 12 && 1 <= d2.2 <= 31,
        prefix + seq!['-'] + date_label(d1.0, d1.1, d1.2) == prefix + seq!['-'] + date_label(
            d2.0,
            d2.1,
            d2.2,
        ),
    ensures
        d1 == d2,
{
    let y1 = decimal(d1.0 as nat, 4);
    let m1 = decimal(d1.1 as nat, 2);
    let a1 = decimal(d1.2 as nat, 2);
    let y2 = decimal(d2.0 as nat, 4);
    let m2 = decimal(d2.1 as nat, 2);
    let a2 = decimal(d2.2 as nat, 2);
    lemma_decimal_len(d1.0 as nat, 4);
    lemma_decimal_len(d1.1 as nat, 2);
    lemma_decimal_len(d1.2 as nat, 2);
    lemma_decimal_len(d2.0 as nat, 4);
    lemma_decimal_len(d2.1 as nat, 2);
    lemma_decimal_len(d2.2 as nat, 2);
    let n: int = prefix.len() as int + 1;
    let s1 = prefix + seq!['-'] + date_label(d1.0, d1.1, d1.2);
    let s2 = prefix + seq!['-'] + date_label(d2.0, d2.1, d2.2);
    assert(s1.subrange(n, n + 4) =~= y1);
    assert(s2.subrange(n, n + 4) =~= y2);
    assert(s1.subrange(n + 5, n + 7) =~= m1);
    assert(s2.subrange(n + 5, n + 7) =~= m2);
    assert(s1.subrange(n + 8, n + 10) =~= a1);
    assert(s2.subrange(n + 8, n + 10) =~= a2);
    assert(pow10(0) == 1);
    assert(pow10(1) == 10);
    assert(pow10(2) == 100);
    assert(pow10(3) == 1000);
    assert(pow10(4) == 10000);
    lemma_decimal_injective(d1.0 as nat, d2.0 as nat, 4);
    lemma_decimal_injective(d1.1 as nat, d2.1 as nat, 2);
    lemma_decimal_injective(d1.2 as nat, d2.2 as nat, 2);
}

/// Partition names follow UTC days exactly: two timestamps that both have a
/// partition share it if and only if they fall on the same UTC day, so a
/// pair one second apart across midnight lands in two partitions.
pub proof fn lemma_partition_follows_utc_day(prefix: Seq<char>, a: u64, b: u64)
    requires
        partition_name(prefix, a) is Some,
        partition_name(prefix, b) is Some,
    ensures
        partition_name(prefix, a) == partition_name(prefix, b) <==> utc_day(a) == utc_day(b),
{
    if partition_name(prefix, a) == partition_name(prefix, b) {
        let da = partition_date(a)->Some_0;
        let db = partition_date(b)->Some_0;
        lemma_date_label_injective(prefix, da, db);
    }
}

/// Position of the last dash in `s`, or -1 when it has none.
pub open spec fn last_dash(s: Seq<char>) -> int
    decreases s.len(),
{
    if s.len() == 0 {
        -1
    } else if s.last() == '-' {
        s.len() - 1
    } else {
        last_dash(s.drop_last())
    }
}

proof fn lemma_last_dash_bounds(s: Seq<char>)
    ensures
        -1 <= last_dash(s) < s.len(),
        last_dash(s) >= 0 ==> s[last_dash(s)] == '-',
    decreases s.len(),
{
    if s.len() > 0 && s.last() != '-' {
        lemma_last_dash_bounds(s.drop_last());
    }
}

/// The date part of an index name: what follows its last dash, or nothing
/// when it has no dash.
pub open spec fn date_suffix(name: Seq<char>) -> Seq<char> {
    if last_dash(name) < 0 {
        Seq::empty()
    } else {
        name.subrange(last_dash(name) + 1, name.len() as int)
    }
}

/// Midnight UTC, in Unix seconds, of the day with the given day number.
pub open spec fn day_start(ce: i32) -> int {
    (ce - EPOCH_DAY_FROM_CE) * SECONDS_PER_DAY as int
}

/// Whether a partition that starts at `start` may be written at `now`: the
/// time since its start is at least minus `allow_future_days` days and less
/// than `ttl_in_days` days.
pub open spec fn within_retention(now: i64, start: int, ttl_in_days: u64, allow_future_days: u64) -> bool {
    let diff = now - start;
    -(allow_future_days * SECONDS_PER_DAY) <= diff && diff < ttl_in_days * SECONDS_PER_DAY
}

/// What `can_exist` decides for an index name.
pub open spec fn writable(name: Seq<char>, now: i64, ttl_in_days: u64, allow_future_days: u64) -> Result<
    bool,
    IndexError,
> {
    match parsed_date(date_suffix(name), DATE_FORMAT@) {
        Some(t) => match ce_day_of_date(t.0, t.1, t.2) {
            Some(ce) => Ok(within_retention(now, day_start(ce), ttl_in_days, allow_future_days)),
            None => Err(IndexError::MalformedIndexName),
        },
        None => Err(IndexError::MalformedIndexName),
    }
}

fn date_part(name: &str) -> (r: &str)
    ensures
        r@ == date_suffix(name@),
{
    let len = name.unicode_len();
    let mut i: usize = 0;
    let mut dash: Option<usize> = None;
    while i < len
        invariant
            len == name@.len(),
            i <= len,
            match dash {
                Some(d) => last_dash(name@.subrange(0, i as int)) == d,
                None => last_dash(name@.subrange(0, i as int)) == -1,
            },
        decreases len - i,
    {
        assert(name@.subrange(0, i + 1).drop_last() =~= name@.subrange(0, i as int));
        if name.get_char(i) == '-' {
            dash = Some(i);
        }
        i += 1;
    }
    assert(name@.subrange(0, len as int) =~= name@);
    proof {
        lemma_last_dash_bounds(name@);
    }
    match dash {
        Some(d) => name.substring_char(d + 1, len),
        None => {
            let empty = "";
            proof {
                reveal_strlit("");
            }
            assert(empty@ =~= Seq::<char>::empty());
            empty
        },
    }
}

/// Whether the partition `index_name` may be written at `now` (Unix
/// seconds): its date, read from the part after the last dash, must lie no
/// more than `allow_future_days` days ahead of `now` and less than
/// `ttl_in_days` days behind it, counted from midnight UTC. Fails when that
/// part is not a valid date.
pub fn can_exist(index_name: &str, now: i64, ttl_in_days: u64, allow_future_days: u64) -> (r:
    Result<bool, IndexError>)
    ensures
        r == writable(index_name@, now, ttl_in_days, allow_future_days),
{
    let date_text = date_part(index_name);
    let date = parse_date(date_text, DATE_FORMAT);
    match date {
        Some((year, month, mday)) => match day_number(year, month, mday) {
            Some(ce) => {
                let start: i128 = (ce as i128 - EPOCH_DAY_FROM_CE as i128) * SECONDS_PER_DAY as i128;
                let diff: i128 = now as i128 - start;
                let ok = -(allow_future_days as i128 * SECONDS_PER_DAY as i128) <= diff && diff
                    < ttl_in_days as i128 * SECONDS_PER_DAY as i128;
                Ok(ok)
            },
            None => Err(IndexError::MalformedIndexName),
        },
        None => Err(IndexError::MalformedIndexName),
    }
}

} // verus!
