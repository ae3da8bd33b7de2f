use vstd::prelude::*;

use crate::calendar::{civil_date, days_from_civil, is_valid_date, lemma_civil_date_correct};
use crate::text::{padded_decimal, push_padded_decimal};

verus! {

/// `(year, month, day, hour, minute, second)` of the instant `secs` seconds after
/// 1970-01-01T00:00:00Z, the year as the calendar computes it.
pub open spec fn ymdhms(secs: int) -> (int, int, int, int, int, int) {
    let days = secs / 86400;
    let seconds_in_day = secs % 86400;
    (
        civil_date(days).0,
        civil_date(days).1,
        civil_date(days).2,
        seconds_in_day / 3600,
        (seconds_in_day % 3600) / 60,
        seconds_in_day % 60,
    )
}

/// Splits a Unix time in seconds into its UTC calendar date and time of day.
pub fn unix_to_ymdhms(secs: i64) -> (r: (i32, u32, u32, u32, u32, u32))
    ensures
        r.0 == ymdhms(secs as int).0 as i32,
        r.1 == ymdhms(secs as int).1,
        r.2 == ymdhms(secs as int).2,
        r.3 == ymdhms(secs as int).3,
        r.4 == ymdhms(secs as int).4,
        r.5 == ymdhms(secs as int).5,
        is_valid_date(ymdhms(secs as int).0, r.1 as int, r.2 as int),
        r.3 < 24 && r.4 < 60 && r.5 < 60,
        days_from_civil(ymdhms(secs as int).0, r.1 as int, r.2 as int) * 86400 + r.3 * 3600
            + r.4 * 60 + r.5 == secs,
{
    let days = secs.checked_div_euclid(86_400).unwrap();
    let seconds_in_day = secs.checked_rem_euclid(86_400).unwrap();

    let h = (seconds_in_day / 3600) as u32;
    let m = ((seconds_in_day % 3600) / 60) as u32;
    let s = (seconds_in_day % 60) as u32;

    let z = days + 719_468;
    let era = z.checked_div_euclid(146_097).unwrap();
    let doe = (z - era * 146_097) as u64;
    proof {
        crate::calendar::lemma_day_of_era(doe as int);
    }
    let yoe = (doe - doe / 1460 + doe / 36_524 - doe / 146_096) / 365;
    let y = yoe as i64 + era * 400;
    let doy = doe - (365 * yoe + yoe / 4 - yoe / 100);
    proof {
        crate::calendar::lemma_day_of_year(doy as int);
    }
    let mp = (5 * doy + 2) / 153;
    let d = doy - (153 * mp + 2) / 5 + 1;
    let m_civil = if mp < 10 { mp + 3 } else { mp - 9 };
    let year = if m_civil <= 2 { y + 1 } else { y };

    proof {
        lemma_civil_date_correct(days as int);
        assert(civil_date(days as int) == (year as int, m_civil as int, d as int));
    }
    (year as i32, m_civil as u32, d as u32, h, m, s)
}

/// The ISO-8601 text `YYYY-MM-DDTHH:MM:SS.ffffffZ` of the instant `value`
/// microseconds after the Unix epoch, or a dash for a value that is not
/// after the epoch.
pub open spec fn iso_timestamp(value: int) -> Seq<char> {
    if value <= 0 {
        seq!['\u{2014}']
    } else {
        let t = ymdhms(value / 1_000_000);
        padded_decimal(t.0 as nat, 4) + seq!['-'] + padded_decimal(t.1 as nat, 2) + seq!['-']
            + padded_decimal(t.2 as nat, 2) + seq!['T'] + padded_decimal(t.3 as nat, 2) + seq![':']
            + padded_decimal(t.4 as nat, 2) + seq![':'] + padded_decimal(t.5 as nat, 2) + seq!['.']
            + padded_decimal((value % 1_000_000) as nat, 6) + seq!['Z']
    }
}

/// Renders a Unix time in microseconds as an ISO-8601 UTC timestamp with
/// microsecond precision; zero and negative values (no time recorded) render
/// as a dash.
pub fn format_unix_microseconds(value: i64) -> (s: String)
    ensures
        s@ == iso_timestamp(value as int),
{
    if value <= 0 {
        proof {
            reveal_strlit("\u{2014}");
        }
        return String::from_str("\u{2014}");
    }
    let secs = value / 1_000_000;
    let micros = (value % 1_000_000) as u32;

    let (year, month, day, h, m, s) = unix_to_ymdhms(secs);
    proof {
        let days = secs / 86400;
        let z = days + 719468;
        assert(z / 146097 >= 4);
        assert(z / 146097 <= 800);
        assert(0 <= ymdhms(secs as int).0 <= 400000);
    }
    let mut out = String::new();
    push_padded_decimal(&mut out, year as u64, 4);
    out.append("-");
    push_padded_decimal(&mut out, month as u64, 2);
    out.append("-");
    push_padded_decimal(&mut out, day as u64, 2);
    out.append("T");
    push_padded_decimal(&mut out, h as u64, 2);
    out.append(":");
    push_padded_decimal(&mut out, m as u64, 2);
    out.append(":");
    push_padded_decimal(&mut out, s as u64, 2);
    out.append(".");
    push_padded_decimal(&mut out, micros as u64, 6);
    out.append("Z");
    proof {
        reveal_strlit("-");
        reveal_strlit("T");
        reveal_strlit(":");
        reveal_strlit(".");
        reveal_strlit("Z");
        assert(out@ =~= iso_timestamp(value as int));
    }
    out
}

} // verus!
