use vstd::prelude::*;

verus! {

/// The instant, in whole seconds since the Unix epoch, that an RFC 3339
/// date-and-time text denotes; `None` where the text is not one.
pub uninterp spec fn rfc3339_seconds(s: Seq<char>) -> Option<i64>;

/// Relies on chrono's `DateTime::parse_from_rfc3339` and `DateTime::timestamp`:
/// the parse depends on the text alone; the empty text is no date.
#[verifier::external_body]
pub(crate) fn parse_rfc3339(s: &str) -> (r: Option<i64>)
    ensures
        r == rfc3339_seconds(s@),
        s@.len() == 0 ==> r is None,
{
    chrono::DateTime::parse_from_rfc3339(s).ok().map(|t| t.timestamp())
}

} // verus!
