//! Trusted declarations for the outside functions the library calls.
//!
//! Each wrapper's body makes one outside call; its contract states what the
//! called function's source or documentation promises, and Verus believes it
//! without reading the body.

use vstd::prelude::*;

verus! {

/// What `str::to_uppercase` returns: a function of the characters alone.
pub uninterp spec fn upper_of(s: Seq<char>) -> Seq<char>;

/// What `str::to_lowercase` returns: a function of the characters alone.
pub uninterp spec fn lower_of(s: Seq<char>) -> Seq<char>;

/// What `httpdate::fmt_http_date` returns for a timestamp: the IMF-fixdate
/// rendering in UTC, a function of the timestamp alone.
pub uninterp spec fn http_date_of(secs: u64) -> Seq<char>;

/// Relies on `String::from_utf8`: it succeeds exactly on valid UTF-8 and
/// yields the characters the bytes encode.
#[verifier::external_body]
pub(crate) fn utf8_to_string(v: Vec<u8>) -> (r: Option<String>)
    ensures
        r is Some <==> vstd::utf8::valid_utf8(v@),
        match r {
            Some(s) => s@ == vstd::utf8::decode_utf8(v@),
            None => !vstd::utf8::valid_utf8(v@),
        },
{
    match String::from_utf8(v) {
        Ok(s) => Some(s),
        Err(_) => None,
    }
}

/// Relies on `str::to_uppercase`: the Unicode uppercase mapping, which
/// depends on the characters alone.
#[verifier::external_body]
pub(crate) fn to_upper(s: &str) -> (r: String)
    ensures
        r@ == upper_of(s@),
{
    s.to_uppercase()
}

/// Relies on `str::to_lowercase`: the Unicode lowercase mapping, which
/// depends on the characters alone.
#[verifier::external_body]
pub(crate) fn to_lower(s: &str) -> (r: String)
    ensures
        r@ == lower_of(s@),
{
    s.to_lowercase()
}

/// Relies on `httpdate::fmt_http_date`: renders a timestamp as an
/// IMF-fixdate, always 29 characters; it panics from year 9999 on, so such
/// timestamps are excluded here.
#[verifier::external_body]
pub(crate) fn http_date_string(secs: u64) -> (r: String)
    requires
        secs < 253402300800,
    ensures
        r@ == http_date_of(secs),
        r@.len() == 29,
{
    httpdate::fmt_http_date(std::time::UNIX_EPOCH + std::time::Duration::from_secs(secs))
}

/// Relies on `chrono::offset::Local` and `chrono::FixedOffset`: the local
/// time zone's offset from UTC at the given instant, which chrono bounds to
/// less than a day in either direction.  The offset depends on the machine's
/// configuration, so nothing more is stated of it.
#[verifier::external_body]
pub(crate) fn local_offset_secs(secs: i64) -> (r: i32)
    ensures
        -86400 < r < 86400,
{
    match chrono::TimeZone::timestamp_opt(&chrono::Local, secs, 0) {
        chrono::LocalResult::Single(dt) => chrono::Offset::fix(dt.offset()).local_minus_utc(),
        _ => 0,
    }
}

} // verus!
