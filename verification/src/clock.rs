//! Trusted shims around the monotonic clock.
//!
//! An [`std::time::Instant`] is an opaque point on the monotonic clock; the
//! only thing the crate does with one is take the span between two of them,
//! which comes back as the crate's own plain-valued [`Dur`].

use vstd::prelude::*;

use crate::duration::Dur;

verus! {

/// `std::time::Instant`, declared so values of it can flow through
/// verified code.  Verus sees nothing inside one.
#[verifier::external_type_specification]
#[verifier::external_body]
pub struct ExInstant(std::time::Instant);

/// Relies on `std::time::Instant::now`: a fresh reading of the monotonic
/// clock.  Nothing can be promised of which point it returns.
#[verifier::external_body]
pub(crate) fn instant_now() -> (r: std::time::Instant) {
    std::time::Instant::now()
}

/// Relies on `std::time::Instant::saturating_duration_since` together with
/// `Duration::as_secs` and `Duration::subsec_nanos`: the span from
/// `earlier` to `later` (zero if `earlier` is the later one), whose
/// sub-second nanoseconds are documented to lie below one billion.
#[verifier::external_body]
pub(crate) fn duration_between(earlier: &std::time::Instant, later: &std::time::Instant) -> (r:
    Dur)
    ensures
        r.wf(),
{
    let d = later.saturating_duration_since(*earlier);
    Dur { secs: d.as_secs(), nanos: d.subsec_nanos() }
}

} // verus!
