use vstd::prelude::*;

verus! {

/// Seconds since the Unix epoch, by the system clock.
///
/// Relies on time's `OffsetDateTime::now_utc` / `unix_timestamp`: the current
/// instant as whole seconds since the epoch. Nothing is assumed of the value;
/// the wall clock may jump in either direction, so the store never takes a
/// stamp from it without first comparing against its own clock. (The call
/// itself aborts if the host clock sits outside the years the time crate
/// can represent — an environmental extreme no caller can exclude.)
#[verifier::external_body]
pub fn get_utc_now() -> (r: i64) {
    time::OffsetDateTime::now_utc().unix_timestamp()
}

/// The stamp for the next mutation: the wall clock if it is ahead of the
/// store's clock, else one past the store's clock. Strictly increasing
/// either way, which is what makes `last_updated` monotone per row and the
/// sync watermark meaningful.
pub(crate) fn next_stamp(clock: i64) -> (t: i64)
    requires
        clock < i64::MAX,
    ensures
        clock < t,
{
    let w = get_utc_now();
    if w > clock {
        w
    } else {
        clock + 1
    }
}

} // verus!
