//! Wall-clock readings and their RFC 3339 rendering.

use vstd::prelude::*;

verus! {

/// The RFC 3339 rendering of a millisecond epoch timestamp; the fallback for
/// out-of-range values is the plain decimal text.
pub uninterp spec fn rfc3339_of(ms: u64) -> Seq<char>;

/// Relies on std::time::SystemTime::now: a wall-clock reading, about which
/// nothing is promised.
#[verifier::external_body]
pub fn now_millis() -> (r: u64) {
    std::time::SystemTime::now().duration_since(std::time::UNIX_EPOCH).unwrap_or_default()
        .as_millis() as u64
}

/// Relies on time::OffsetDateTime::format with the well-known Rfc3339
/// description: the rendering depends on the timestamp alone.
#[verifier::external_body]
pub fn format_rfc3339(ms: u64) -> (r: String)
    ensures
        r@ == rfc3339_of(ms),
{
    match time::OffsetDateTime::from_unix_timestamp_nanos((ms as i128) * 1_000_000) {
        Ok(t) => match t.format(&time::format_description::well_known::Rfc3339) {
            Ok(s) => s,
            Err(_) => ms.to_string(),
        },
        Err(_) => ms.to_string(),
    }
}

/// A wall-clock reading paired with its rendering.
pub fn now_timestamp() -> (r: (u64, String))
    ensures
        r.1@ == rfc3339_of(r.0),
{
    let ms = now_millis();
    let iso = format_rfc3339(ms);
    (ms, iso)
}

} // verus!
