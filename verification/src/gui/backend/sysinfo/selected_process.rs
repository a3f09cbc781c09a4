//! The selected-process panel: which of the selected processes it shows, and
//! the text of its summary.
use vstd::prelude::*;
use vstd::string::StringExecFns;
use std::collections::HashMap;
use vstd::std_specs::iter::IteratorSpec;

use crate::gui::backend::sysinfo::{lemma_push_to_set, ProcessInfo, ProcessSelection};
use crate::text::{decimal, padded, push_decimal, push_padded};

verus! {

broadcast use {vstd::string::group_string_axioms, vstd::std_specs::hash::group_hash_axioms};

/// `s` lists the set `pids` in increasing order, each once.
pub open spec fn sorted_listing(s: Seq<u32>, pids: Set<u32>) -> bool {
    &&& forall|i: int, j: int| 0 <= i < j < s.len() ==> s[i] < s[j]
    &&& s.to_set() == pids
}

/// A set has one increasing listing only.
pub proof fn lemma_sorted_listing_unique(a: Seq<u32>, b: Seq<u32>, pids: Set<u32>)
    requires
        sorted_listing(a, pids),
        sorted_listing(b, pids),
    ensures
        a == b,
    decreases a.len(),
{
    if a.len() == 0 {
        if b.len() > 0 {
            assert(b.to_set().contains(b[0]));
            assert(a.to_set().contains(b[0]));
        }
        assert(a =~= b);
    } else {
        assert(a.to_set().contains(a[0]));
        assert(b.contains(a[0]));
        assert(b.len() > 0);
        assert(b.to_set().contains(b[0]));
        assert(a.contains(b[0]));
        let ja = choose|j: int| 0 <= j < a.len() && a[j] == b[0];
        let jb = choose|j: int| 0 <= j < b.len() && b[j] == a[0];
        assert(a[0] <= a[ja]);
        assert(b[0] <= b[jb]);
        assert(a[0] == b[0]);
        let rest = pids.remove(a[0]);
        assert(sorted_listing(a.drop_first(), rest)) by {
            assert forall|x: u32| a.drop_first().contains(x) <==> rest.contains(x) by {
                if a.drop_first().contains(x) {
                    let j = choose|j: int| 0 <= j < a.drop_first().len() && a.drop_first()[j] == x;
                    assert(a[j + 1] == x);
                    assert(a.contains(x));
                }
                if rest.contains(x) {
                    assert(a.contains(x));
                    let j = choose|j: int| 0 <= j < a.len() && a[j] == x;
                    assert(j != 0);
                    assert(a.drop_first()[j - 1] == x);
                }
            }
            assert(a.drop_first().to_set() =~= rest);
        }
        assert(sorted_listing(b.drop_first(), rest)) by {
            assert forall|x: u32| b.drop_first().contains(x) <==> rest.contains(x) by {
                if b.drop_first().contains(x) {
                    let j = choose|j: int| 0 <= j < b.drop_first().len() && b.drop_first()[j] == x;
                    assert(b[j + 1] == x);
                    assert(b.contains(x));
                }
                if rest.contains(x) {
                    assert(b.contains(x));
                    let j = choose|j: int| 0 <= j < b.len() && b[j] == x;
                    assert(j != 0);
                    assert(b.drop_first()[j - 1] == x);
                }
            }
            assert(b.drop_first().to_set() =~= rest);
        }
        lemma_sorted_listing_unique(a.drop_first(), b.drop_first(), rest);
        assert(a =~= b) by {
            assert forall|k: int| 0 <= k < a.len() implies a[k] == b[k] by {
                if k > 0 {
                    assert(a.drop_first()[k - 1] == b.drop_first()[k - 1]);
                }
            }
        }
    }
}

/// Puts `x` into an increasing list, unless it is there already.
fn insert_sorted(out: &mut Vec<u32>, x: u32)
    requires
        forall|i: int, j: int| 0 <= i < j < old(out)@.len() ==> old(out)@[i] < old(out)@[j],
    ensures
        forall|i: int, j: int| 0 <= i < j < final(out)@.len() ==> final(out)@[i] < final(out)@[j],
        final(out)@.to_set() == old(out)@.to_set().insert(x),
{
    let ghost before = out@;
    let mut p: usize = 0;
    while p < out.len() && out[p] < x
        invariant
            out@ == before,
            p <= out@.len(),
            forall|i: int| 0 <= i < p ==> out@[i] < x,
        decreases out@.len() - p,
    {
        p = p + 1;
    }
    if p < out.len() && out[p] == x {
        assert(out@.to_set() =~= before.to_set().insert(x)) by {
            assert(out@[p as int] == x);
            assert(out@.contains(x));
        }
    } else {
        out.insert(p, x);
        assert(forall|i: int| 0 <= i < p ==> out@[i] == before[i]);
        assert(out@[p as int] == x);
        assert(forall|i: int| p < i < out@.len() ==> out@[i] == before[i - 1]);
        assert forall|y: u32| out@.contains(y) <==> (before.contains(y) || y == x) by {
            if out@.contains(y) {
                let j = choose|j: int| 0 <= j < out@.len() && out@[j] == y;
                if j < p {
                    assert(before[j] == y);
                } else if j > p {
                    assert(before[j - 1] == y);
                }
            }
            if before.contains(y) {
                let j = choose|j: int| 0 <= j < before.len() && before[j] == y;
                if j < p {
                    assert(out@[j] == y);
                } else {
                    assert(out@[j + 1] == y);
                }
            }
        }
        assert(out@.to_set() =~= before.to_set().insert(x));
    }
}

/// The panel shows one of the selected processes that are still known: the
/// one at `index` (from 0) when they are taken in increasing order of pid,
/// or none where there are not that many.
pub fn selected_pid_at(selection: &ProcessSelection, process_info: &HashMap<u32, ProcessInfo>, index: usize) -> (r: Option<u32>)
    ensures
        exists|s: Seq<u32>|
            sorted_listing(s, selection.selected_processes@.intersect(process_info@.dom()))
                && r == (if index < s.len() { Some(s[index as int]) } else { None::<u32> }),
{
    let mut out: Vec<u32> = Vec::new();
    let ghost known = process_info@.dom();
    let ghost all = selection.selected_processes.iter().remaining();
    for pid in it: selection.selected_processes.iter()
        invariant
            it.seq() == all,
            all.unref().to_set() == selection.selected_processes@,
            known == process_info@.dom(),
            forall|i: int, j: int| 0 <= i < j < out@.len() ==> out@[i] < out@[j],
            out@.to_set() == all.take(it.index() as int).unref().to_set().intersect(known),
    {
        let ghost i = it.index();
        let ghost prev = out@;
        if process_info.contains_key(pid) {
            insert_sorted(&mut out, *pid);
        }
        proof {
            assert(all.take(i + 1).unref() =~= all.take(i as int).unref().push(*pid));
            lemma_push_to_set(all.take(i as int).unref(), *pid);
            assert(out@.to_set() =~= all.take(i + 1).unref().to_set().intersect(known));
        }
    }
    assert(all.take(all.len() as int) == all);
    assert(sorted_listing(out@, selection.selected_processes@.intersect(known)));
    if index < out.len() {
        Some(out[index])
    } else {
        None
    }
}

pub open spec fn spec_is_leap(year: int) -> bool {
    let by4 = year % 4 == 0;
    let by100 = year % 100 == 0;
    let by400 = year % 400 == 0;
    (by4 && !by100) || by400
}

/// Whether `year` is a multiple of `d` (a remainder of zero, whichever sign
/// convention the remainder follows).
fn divisible(year: i64, d: i64) -> (r: bool)
    requires
        d > 1,
    ensures
        r == (year as int % d as int == 0),
{
    year.checked_rem_euclid(d) == Some(0i64)
}

/// Gregorian leap years.
pub fn is_leap(year: i64) -> (r: bool)
    ensures
        r == spec_is_leap(year as int),
{
    let by4 = divisible(year, 4);
    let by100 = divisible(year, 100);
    let by400 = divisible(year, 400);
    (by4 && !by100) || by400
}

pub open spec fn days_in_year(year: int) -> nat {
    if spec_is_leap(year) {
        366
    } else {
        365
    }
}

/// The year that day `days` (counted from January 1 of `year`) falls in, and the
/// day within that year.
pub open spec fn year_walk(days: nat, year: int) -> (int, nat)
    decreases days,
{
    if days < days_in_year(year) {
        (year, days)
    } else {
        year_walk((days - days_in_year(year)) as nat, year + 1)
    }
}

/// Length of month `i` (0 = January).
pub open spec fn month_len(leap: bool, i: int) -> int {
    if i == 1 {
        if leap {
            29
        } else {
            28
        }
    } else if i == 3 || i == 5 || i == 8 || i == 10 {
        30
    } else {
        31
    }
}

/// The month number (1-based) that day `day` of the year falls in, starting the
/// walk at month index `i`, and the day within that month (0-based).
pub open spec fn month_walk(day: int, leap: bool, i: nat) -> (nat, int)
    decreases 12 - i,
{
    if i >= 12 || day < month_len(leap, i as int) {
        (i + 1, day)
    } else {
        month_walk(day - month_len(leap, i as int), leap, i + 1)
    }
}

/// `YYYY-MM-DD hh:mm:ss` (UTC) for a time in seconds since the Unix epoch.
pub open spec fn spec_format_time(epoch_secs: nat) -> Seq<char> {
    let days = epoch_secs / 86400;
    let rem = epoch_secs % 86400;
    let hours = rem / 3600;
    let minutes = (rem % 3600) / 60;
    let seconds = (rem % 3600) % 60;
    let (year, day_of_year) = year_walk(days, 1970);
    let (month, day) = month_walk(day_of_year as int, spec_is_leap(year), 0);
    padded(year as nat, 4) + seq!['-'] + padded(month, 2) + seq!['-'] + padded(
        (day + 1) as nat,
        2,
    ) + seq![' '] + padded(hours, 2) + seq![':'] + padded(minutes, 2) + seq![':'] + padded(
        seconds,
        2,
    )
}

fn year_days(year: i64) -> (r: i64)
    ensures
        r == days_in_year(year as int),
{
    if is_leap(year) {
        366
    } else {
        365
    }
}

fn month_days(leap: bool, i: usize) -> (r: i64)
    ensures
        r == month_len(leap, i as int),
{
    if i == 1 {
        if leap {
            29
        } else {
            28
        }
    } else if i == 3 || i == 5 || i == 8 || i == 10 {
        30
    } else {
        31
    }
}

/// Formats a time in seconds since the Unix epoch as `YYYY-MM-DD hh:mm:ss`.
pub fn format_time(epoch_secs: u64) -> (r: String)
    ensures
        r@ == spec_format_time(epoch_secs as nat),
{
    let days = epoch_secs / 86400;
    let remaining = epoch_secs % 86400;
    let hours = remaining / 3600;
    let remaining = remaining % 3600;
    let minutes = remaining / 60;
    let seconds = remaining % 60;

    let mut y: i64 = 1970;
    let mut remaining_days: i64 = days as i64;
    while remaining_days >= year_days(y)
        invariant
            0 <= remaining_days <= days,
            1970 <= y,
            (y - 1970) * 365 <= days - remaining_days,
            days <= 0xffff_ffff_ffff_ffffu64 / 86400,
            year_walk(days as nat, 1970) == year_walk(remaining_days as nat, y as int),
        decreases remaining_days,
    {
        let days_in = year_days(y);
        remaining_days = remaining_days - days_in;
        y = y + 1;
    }
    let leap = is_leap(y);
    let mut m: usize = 1;
    let mut i: usize = 0;
    while i < 12 && remaining_days >= month_days(leap, i)
        invariant
            0 <= i <= 12,
            m == i + 1,
            0 <= remaining_days <= days,
            days <= 0xffff_ffff_ffff_ffffu64 / 86400,
            leap == spec_is_leap(y as int),
            month_walk(year_walk(days as nat, 1970).1 as int, leap, 0) == month_walk(
                remaining_days as int,
                leap,
                i as nat,
            ),
        decreases 12 - i,
    {
        remaining_days = remaining_days - month_days(leap, i);
        m = m + 1;
        i = i + 1;
    }
    let d = remaining_days + 1;
    let mut out = String::new();
    push_padded(&mut out, y as u64, 4);
    out.append("-");
    push_padded(&mut out, m as u64, 2);
    out.append("-");
    push_padded(&mut out, d as u64, 2);
    out.append(" ");
    push_padded(&mut out, hours, 2);
    out.append(":");
    push_padded(&mut out, minutes, 2);
    out.append(":");
    push_padded(&mut out, seconds, 2);
    proof {
        reveal_strlit("-");
        reveal_strlit(" ");
        reveal_strlit(":");
        assert(out@ =~= spec_format_time(epoch_secs as nat));
    }
    out
}

/// `2d 3h 4m 5s`, dropping leading zero units (`4m 5s`, `5s`).
pub open spec fn spec_format_duration_secs(total: nat) -> Seq<char> {
    let days = total / 86400;
    let hours = (total % 86400) / 3600;
    let minutes = ((total % 86400) % 3600) / 60;
    let seconds = ((total % 86400) % 3600) % 60;
    let s = decimal(seconds) + seq!['s'];
    let m = decimal(minutes) + seq!['m', ' '] + s;
    let h = decimal(hours) + seq!['h', ' '] + m;
    if days > 0 {
        decimal(days) + seq!['d', ' '] + h
    } else if hours > 0 {
        h
    } else if minutes > 0 {
        m
    } else {
        s
    }
}

/// Formats a run time in seconds.
#[verifier::spinoff_prover]
pub fn format_duration_secs(total_secs: u64) -> (r: String)
    ensures
        r@ == spec_format_duration_secs(total_secs as nat),
{
    proof {
        reveal_strlit("d ");
        reveal_strlit("h ");
        reveal_strlit("m ");
        reveal_strlit("s");
    }
    let days = total_secs / 86400;
    let remaining = total_secs % 86400;
    let hours = remaining / 3600;
    let remaining = remaining % 3600;
    let minutes = remaining / 60;
    let seconds = remaining % 60;
    let mut out = String::new();
    if days > 0 {
        push_decimal(&mut out, days);
        out.append("d ");
    }
    if days > 0 || hours > 0 {
        push_decimal(&mut out, hours);
        out.append("h ");
    }
    if days > 0 || hours > 0 || minutes > 0 {
        push_decimal(&mut out, minutes);
        out.append("m ");
    }
    push_decimal(&mut out, seconds);
    out.append("s");
    assert(out@ =~= spec_format_duration_secs(total_secs as nat));
    out
}

/// Gregorian leap years: every fourth year, except centuries not divisible
/// by 400.
pub open spec fn civil_leap(year: int) -> bool {
    year % 400 == 0 || (year % 4 == 0 && year % 100 != 0)
}

/// Days in a year of the Gregorian calendar.
pub open spec fn civil_year_days(year: int) -> int {
    if civil_leap(year) {
        366
    } else {
        365
    }
}

/// Days in month `month` (1 = January) of `year`: thirty days have
/// September, April, June and November; February has 28, or 29 in a leap
/// year; the rest have 31.
pub open spec fn civil_month_days(year: int, month: int) -> int {
    if month == 2 {
        if civil_leap(year) {
            29
        } else {
            28
        }
    } else if month == 4 || month == 6 || month == 9 || month == 11 {
        30
    } else {
        31
    }
}

/// Days from 1970-01-01 to January 1 of `year`.
pub open spec fn days_to_year(year: int) -> int
    decreases year - 1970,
{
    if year <= 1970 {
        0
    } else {
        days_to_year(year - 1) + civil_year_days(year - 1)
    }
}

/// Days from January 1 of `year` to the first of `month` (1 = January).
pub open spec fn days_to_month(year: int, month: int) -> int
    decreases month,
{
    if month <= 1 {
        0
    } else {
        days_to_month(year, month - 1) + civil_month_days(year, month - 1)
    }
}

/// The text `YYYY-MM-DD hh:mm:ss` of a date and time given by its fields.
pub open spec fn date_time_text(year: nat, month: nat, day: nat, hour: nat, minute: nat, second: nat) -> Seq<char> {
    padded(year, 4) + seq!['-'] + padded(month, 2) + seq!['-'] + padded(day, 2) + seq![' '] + padded(hour, 2)
        + seq![':'] + padded(minute, 2) + seq![':'] + padded(second, 2)
}

/// The twelve months of a year add up to the year.
proof fn lemma_months_fill_year(year: int)
    ensures
        days_to_month(year, 13) == civil_year_days(year),
{
    reveal_with_fuel(days_to_month, 13);
}

/// Walking the years from `from` passes whole years and stops inside one.
proof fn lemma_year_walk_civil(days: nat, from: int)
    requires
        from >= 1970,
    ensures
        year_walk(days, from).0 >= from,
        days_to_year(from) + days == days_to_year(year_walk(days, from).0) + year_walk(days, from).1,
        year_walk(days, from).1 < civil_year_days(year_walk(days, from).0),
    decreases days,
{
    assert(days_in_year(from) == civil_year_days(from));
    if days >= days_in_year(from) {
        lemma_year_walk_civil((days - days_in_year(from)) as nat, from + 1);
        assert(days_to_year(from + 1) == days_to_year(from) + civil_year_days(from));
    }
}

/// Walking the months from index `i` passes whole months of the calendar and
/// stops inside one.
proof fn lemma_month_walk_civil(year: int, day: int, i: nat)
    requires
        i <= 12,
        0 <= day,
        days_to_month(year, i + 1int) + day < civil_year_days(year),
    ensures
        ({
            let (month, d) = month_walk(day, spec_is_leap(year), i);
            &&& i + 1 <= month <= 12
            &&& days_to_month(year, i + 1int) + day == days_to_month(year, month as int) + d
            &&& 0 <= d < civil_month_days(year, month as int)
        }),
    decreases 12 - i,
{
    let leap = spec_is_leap(year);
    assert(leap == civil_leap(year));
    if i == 12 {
        lemma_months_fill_year(year);
    } else {
        assert(month_len(leap, i as int) == civil_month_days(year, i + 1int));
        if day >= month_len(leap, i as int) {
            assert(days_to_month(year, i + 2int) == days_to_month(year, i + 1int) + civil_month_days(year, i + 1int));
            lemma_month_walk_civil(year, day - month_len(leap, i as int), i + 1);
        }
    }
}

/// The fields of `t` seconds: whole days, then hours, minutes and seconds of
/// the last day, which add back up to `t`.
proof fn lemma_split_seconds(t: nat)
    ensures
        ({
            let rem = t % 86400;
            &&& rem / 3600 < 24
            &&& (rem % 3600) / 60 < 60
            &&& (rem % 3600) % 60 < 60
            &&& (t / 86400) * 86400 + (rem / 3600) * 3600 + ((rem % 3600) / 60) * 60 + (rem % 3600) % 60 == t
        }),
{
    let rem = t % 86400;
    vstd::arithmetic::div_mod::lemma_fundamental_div_mod(t as int, 86400);
    vstd::arithmetic::div_mod::lemma_fundamental_div_mod(rem as int, 3600);
    vstd::arithmetic::div_mod::lemma_fundamental_div_mod((rem % 3600) as int, 60);
    assert(86400 * (t / 86400) == (t / 86400) * 86400) by (nonlinear_arith);
    assert(3600 * (rem / 3600) == (rem / 3600) * 3600) by (nonlinear_arith);
    assert(60 * ((rem % 3600) / 60) == ((rem % 3600) / 60) * 60) by (nonlinear_arith);
}

/// A time shown by [`format_time`] is the calendar date and time it stands
/// for: the shown year, month and day are a real Gregorian date (the day
/// within its month's length), the hour, minute and second are in range, and
/// counting the days from 1970-01-01 to that date and adding the time of day
/// gives back `t`.
pub proof fn lemma_format_time_is_the_calendar_date(t: nat)
    ensures
        exists|year: nat, month: nat, day: nat, hour: nat, minute: nat, second: nat|
            #[trigger] date_time_text(year, month, day, hour, minute, second) == spec_format_time(t) && 1970
                <= year && 1 <= month <= 12 && 1 <= day <= civil_month_days(year as int, month as int) && hour < 24
                && minute < 60 && second < 60 && (days_to_year(year as int) + days_to_month(year as int, month as int)
                + day - 1) * 86400 + hour * 3600 + minute * 60 + second == t,
{
    let days = t / 86400;
    let rem = t % 86400;
    let (year, day_of_year) = year_walk(days, 1970);
    lemma_year_walk_civil(days, 1970);
    assert(days_to_year(1970) == 0);
    let (month, d0) = month_walk(day_of_year as int, spec_is_leap(year), 0);
    assert(days_to_month(year, 1) == 0);
    lemma_month_walk_civil(year, day_of_year as int, 0);
    lemma_split_seconds(t);
    let (hour, minute, second) = (rem / 3600, (rem % 3600) / 60, (rem % 3600) % 60);
    assert(date_time_text(year as nat, month, (d0 + 1) as nat, hour, minute, second) == spec_format_time(t));
}

/// The text of a run time given by its fields, leading zero units dropped.
pub open spec fn duration_text(days: nat, hours: nat, minutes: nat, seconds: nat) -> Seq<char> {
    let s = decimal(seconds) + seq!['s'];
    let m = decimal(minutes) + seq!['m', ' '] + s;
    let h = decimal(hours) + seq!['h', ' '] + m;
    if days > 0 {
        decimal(days) + seq!['d', ' '] + h
    } else if hours > 0 {
        h
    } else if minutes > 0 {
        m
    } else {
        s
    }
}

/// A run time shown by [`format_duration_secs`] is made of days, hours below
/// 24, minutes and seconds below 60 that add back up to the run time.
pub proof fn lemma_duration_adds_up(total: nat)
    ensures
        exists|days: nat, hours: nat, minutes: nat, seconds: nat|
            #[trigger] duration_text(days, hours, minutes, seconds) == spec_format_duration_secs(total) && hours
                < 24 && minutes < 60 && seconds < 60 && days * 86400 + hours * 3600 + minutes * 60 + seconds
                == total,
{
    lemma_split_seconds(total);
    let rem = total % 86400;
    assert(duration_text(total / 86400, rem / 3600, (rem % 3600) / 60, (rem % 3600) % 60)
        == spec_format_duration_secs(total));
}

/// `open / limit`, with `?` or `unknown` for what is not known.
pub open spec fn spec_format_open_files(current: Option<usize>, limit: Option<usize>) -> Seq<char> {
    match (current, limit) {
        (Some(c), Some(l)) => decimal(c as nat) + seq![' ', '/', ' '] + decimal(l as nat),
        (Some(c), None) => decimal(c as nat),
        (None, Some(l)) => seq!['?', ' ', '/', ' '] + decimal(l as nat),
        (None, None) => "unknown"@,
    }
}

pub fn format_open_files(current: Option<usize>, limit: Option<usize>) -> (r: String)
    ensures
        r@ == spec_format_open_files(current, limit),
{
    proof {
        reveal_strlit(" / ");
        reveal_strlit("? / ");
    }
    let mut out = String::new();
    match (current, limit) {
        (Some(c), Some(l)) => {
            push_decimal(&mut out, c as u64);
            out.append(" / ");
            push_decimal(&mut out, l as u64);
        },
        (Some(c), None) => {
            push_decimal(&mut out, c as u64);
        },
        (None, Some(l)) => {
            out.append("? / ");
            push_decimal(&mut out, l as u64);
        },
        (None, None) => {
            out.append("unknown");
        },
    }
    assert(out@ =~= spec_format_open_files(current, limit));
    out
}

/// The value, or `unknown`.
pub fn option_text(value: Option<&str>) -> (r: String)
    ensures
        match value {
            Some(v) => r@ == v@,
            None => r@ == "unknown"@,
        },
{
    match value {
        Some(v) => String::from_str(v),
        None => String::from_str("unknown"),
    }
}

} // verus!
