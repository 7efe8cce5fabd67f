//! Calendar conversion and timestamp rendering for directory listings.
//!
//! A timestamp is shifted by the local UTC offset and decomposed into a
//! Gregorian civil date by the standard era-based formulas.  Timestamps
//! before 1970 or from year 10000 on fall back to the epoch instant, so
//! every rendering is four-digit and total.

use vstd::prelude::*;

verus! {

use vstd::string::StringExecFns;
use crate::strutil::dec2_str;
use crate::strutil::dec4_str;
use crate::strutil::u64_to_dec2_string;
use crate::strutil::u64_to_dec4_string;
use crate::outside::local_offset_secs;

/// Seconds at 10000-01-01T00:00:00 UTC: the first instant not rendered.
pub const SECS_AT_YEAR_10000: u64 = 253402300800;

/// The year, month and day that a day number (days since 1970-01-01) names,
/// by the era decomposition of the proleptic Gregorian calendar.
pub open spec fn days_to_ymd(days: int) -> (int, int, int) {
    let doe0 = days + 719468;
    let era = doe0 / 146097;
    let doe = doe0 % 146097;
    let yoe = (doe - doe / 1460 + doe / 36524 - doe / 146096) / 365;
    let y0 = yoe + era * 400;
    let doy = doe - (365 * yoe + yoe / 4 - yoe / 100);
    let mp = (5 * doy + 2) / 153;
    let d = doy - (153 * mp + 2) / 5 + 1;
    let m = if mp < 10 {
        mp + 3
    } else {
        mp - 9
    };
    let y = if m <= 2 {
        y0 + 1
    } else {
        y0
    };
    (y, m, d)
}

/// Whether a decomposition is renderable with two-digit day and month and a
/// four-digit year.
pub open spec fn civil_in_range(c: (int, int, int)) -> bool {
    1 <= c.1 <= 12 && 1 <= c.2 <= 31 && 1970 <= c.0 <= 9999
}

/// The civil date and time of a timestamp: out-of-range instants fall back
/// to the epoch.
pub open spec fn civil_of_secs(secs: int) -> (int, int, int, int, int, int) {
    if 0 <= secs < SECS_AT_YEAR_10000 as int {
        let days = secs / 86400;
        let rem = secs % 86400;
        let ymd = days_to_ymd(days);
        if civil_in_range(ymd) {
            (ymd.0, ymd.1, ymd.2, rem / 3600, (rem / 60) % 60, rem % 60)
        } else {
            (1970, 1, 1, 0, 0, 0)
        }
    } else {
        (1970, 1, 1, 0, 0, 0)
    }
}

/// Computes [`civil_of_secs`].
pub fn civil_of_secs_exec(secs: i64) -> (r: (u64, u64, u64, u64, u64, u64))
    ensures
        (
            r.0 as int,
            r.1 as int,
            r.2 as int,
            r.3 as int,
            r.4 as int,
            r.5 as int,
        ) == civil_of_secs(secs as int),
        civil_in_range((r.0 as int, r.1 as int, r.2 as int)),
        r.3 < 24 && r.4 < 60 && r.5 < 60,
{
    if secs < 0 || secs >= SECS_AT_YEAR_10000 as i64 {
        return (1970, 1, 1, 0, 0, 0);
    }
    let u: u64 = secs as u64;
    let days: u64 = u / 86400;
    let rem: u64 = u % 86400;
    let doe0: u64 = days + 719468;
    let era: u64 = doe0 / 146097;
    let doe: u64 = doe0 % 146097;
    let yoe: u64 = (doe - doe / 1460 + doe / 36524 - doe / 146096) / 365;
    proof {
        assert(doe / 1460 <= doe / 1460);
        assert(doe < 146097);
    }
    let y0: u64 = yoe + era * 400;
    let sub: u64 = 365 * yoe + yoe / 4 - yoe / 100;
    if sub > doe {
        // cannot happen for any in-range timestamp; fall back defensively
        return (1970, 1, 1, 0, 0, 0);
    }
    let doy: u64 = doe - sub;
    let mp: u64 = (5 * doy + 2) / 153;
    let dsub: u64 = (153 * mp + 2) / 5;
    if dsub > doy {
        return (1970, 1, 1, 0, 0, 0);
    }
    let d: u64 = doy - dsub + 1;
    let m: u64 = if mp < 10 {
        mp + 3
    } else {
        mp - 9
    };
    let y: u64 = if m <= 2 {
        y0 + 1
    } else {
        y0
    };
    if !(1 <= m && m <= 12 && 1 <= d && d <= 31 && 1970 <= y && y <= 9999) {
        return (1970, 1, 1, 0, 0, 0);
    }
    (y, m, d, rem / 3600, (rem / 60) % 60, rem % 60)
}

/// The `dd/mm/YYYY HH:MM:SS` rendering of a civil date and time.
pub open spec fn datetime_str(c: (int, int, int, int, int, int)) -> Seq<char> {
    dec2_str(c.2) + seq!['/'] + dec2_str(c.1) + seq!['/'] + dec4_str(c.0) + seq![' '] + dec2_str(
        c.3,
    ) + seq![':'] + dec2_str(c.4) + seq![':'] + dec2_str(c.5)
}

/// The rendering of a timestamp shifted into a local offset.
pub open spec fn local_datetime_str(secs: u64, offset: int) -> Seq<char> {
    datetime_str(civil_of_secs(secs + offset))
}

/// Renders a timestamp in a given local offset as `dd/mm/YYYY HH:MM:SS`.
pub fn format_timestamp(secs: u64, offset: i32) -> (r: String)
    requires
        secs < 4611686018427387904,
    ensures
        r@ == local_datetime_str(secs, offset as int),
{
    let local: i64 = secs as i64 + offset as i64;
    let c = civil_of_secs_exec(local);
    let mut out = u64_to_dec2_string(c.2);
    out.append("/");
    out.append(u64_to_dec2_string(c.1).as_str());
    out.append("/");
    out.append(u64_to_dec4_string(c.0).as_str());
    out.append(" ");
    out.append(u64_to_dec2_string(c.3).as_str());
    out.append(":");
    out.append(u64_to_dec2_string(c.4).as_str());
    out.append(":");
    out.append(u64_to_dec2_string(c.5).as_str());
    proof {
        reveal_strlit("/");
        reveal_strlit(" ");
        reveal_strlit(":");
        assert(out@ =~= local_datetime_str(secs, offset as int));
    }
    out
}

/// Renders a timestamp in the machine's local time zone, as the directory
/// listing shows it.  The rendering is exact for whatever offset the zone
/// yields.
pub fn format_local_timestamp(secs: u64) -> (r: String)
    requires
        secs < 4611686018427387904,
    ensures
        exists|off: int| -86400 < off < 86400 && r@ == local_datetime_str(secs, off),
{
    let off = local_offset_secs(secs as i64);
    let r = format_timestamp(secs, off);
    proof {
        assert(-86400 < (off as int) && (off as int) < 86400 && r@ == local_datetime_str(secs, off as int));
    }
    r
}

} // verus!
