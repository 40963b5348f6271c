use vstd::prelude::*;

verus! {

/// A timezone-aware instant, modelled by its number of whole seconds since
/// the Unix epoch. Item dates and watermarks are compared by instant.
#[derive(Clone, Copy, PartialEq, Eq, Structural, Debug)]
pub struct Timestamp {
    pub secs: i64,
}

impl Timestamp {
    /// The watermark a feed starts from before it has ever been polled.
    pub fn epoch() -> (r: Timestamp)
        ensures
            r.secs == 0,
    {
        Timestamp { secs: 0 }
    }
}

/// The instant denoted by an RFC 2822 date string, if it is well formed.
pub uninterp spec fn rfc2822_secs(s: Seq<char>) -> Option<i64>;

/// The RFC 3339 rendering of an instant.
pub uninterp spec fn rfc3339_text(secs: i64) -> Seq<char>;

/// The instant denoted by an RFC 3339 date string, if it is well formed.
pub uninterp spec fn rfc3339_secs(s: Seq<char>) -> Option<i64>;

/// Relies on chrono's `DateTime::parse_from_rfc2822` and
/// `DateTime::timestamp`: the result depends on the characters alone.
#[verifier::external_body]
pub fn parse_rfc2822(s: &str) -> (r: Option<Timestamp>)
    ensures
        r matches Some(t) ==> rfc2822_secs(s@) == Some(t.secs),
        r is None ==> rfc2822_secs(s@) is None,
{
    match chrono::DateTime::parse_from_rfc2822(s) {
        Ok(d) => Some(Timestamp { secs: d.timestamp() }),
        Err(_) => None,
    }
}

/// The instants whose RFC 3339 rendering carries a four-digit year: UTC
/// years 0000 through 9999. Only these render to text that an RFC 3339
/// parser reads back; outside them the year is written as a signed
/// five-digit number, which such a parser rejects.
pub open spec fn rfc3339_in_range(secs: i64) -> bool {
    -62167219200 <= secs <= 253402300799
}

/// Relies on chrono's `DateTime::from_timestamp` and `DateTime::to_rfc3339`:
/// the rendering depends on the instant alone, and within the
/// four-digit-year range `parse_from_rfc3339` reads it back to the same
/// instant. Outside that range chrono writes a signed five-digit year
/// that its RFC 3339 parser rejects, so those instants are left out by
/// `requires` (chrono renders them all the same; the round trip is what
/// fails).
#[verifier::external_body]
pub fn fmt_rfc3339(t: Timestamp) -> (r: String)
    requires
        rfc3339_in_range(t.secs),
    ensures
        r@ == rfc3339_text(t.secs),
        rfc3339_secs(r@) == Some(t.secs),
{
    chrono::DateTime::from_timestamp(t.secs, 0)
        .expect("a four-digit-year instant is representable")
        .to_rfc3339()
}

/// Relies on chrono's `DateTime::parse_from_rfc3339` and
/// `DateTime::timestamp`: the result depends on the characters alone.
#[verifier::external_body]
pub fn parse_rfc3339(s: &str) -> (r: Option<Timestamp>)
    ensures
        r matches Some(t) ==> rfc3339_secs(s@) == Some(t.secs),
        r is None ==> rfc3339_secs(s@) is None,
{
    match chrono::DateTime::parse_from_rfc3339(s) {
        Ok(d) => Some(Timestamp { secs: d.timestamp() }),
        Err(_) => None,
    }
}

} // verus!
