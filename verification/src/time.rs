//! Instants, held as whole seconds since the Unix epoch.

use vstd::prelude::*;

verus! {

/// Whether `chrono` has a UTC date-time for the instant `secs` whole seconds
/// after 1970-01-01 00:00:00 UTC.
pub uninterp spec fn chrono_represents(secs: i64) -> bool;

/// Asks `chrono::DateTime::from_timestamp`, with zero nanoseconds, whether it
/// has a UTC date-time for `secs`. The answer depends on `secs` alone; the
/// contract gives it a name and claims nothing else about it.
#[verifier::external_body]
fn chrono_accepts(secs: i64) -> (ok: bool)
    ensures
        ok == chrono_represents(secs),
{
    chrono::DateTime::from_timestamp(secs, 0).is_some()
}

/// An instant that `chrono` can represent, as seconds since the Unix epoch.
#[derive(Clone, Copy, Debug, PartialEq, Eq)]
pub struct Timestamp {
    secs: i64,
}

impl View for Timestamp {
    type V = i64;

    closed spec fn view(&self) -> i64 {
        self.secs
    }
}

impl Timestamp {
    #[verifier::type_invariant]
    spec fn representable(self) -> bool {
        chrono_represents(self.secs)
    }

    /// The instant `secs` seconds after the Unix epoch, if `chrono` has a
    /// date-time for it.
    pub fn from_epoch_seconds(secs: i64) -> (r: Option<Timestamp>)
        ensures
            r is Some <==> chrono_represents(secs),
            r is Some ==> r->0@ == secs,
    {
        if chrono_accepts(secs) {
            Some(Timestamp { secs })
        } else {
            None
        }
    }

    /// Seconds since the Unix epoch.
    pub fn epoch_seconds(&self) -> (secs: i64)
        ensures
            secs == self@,
            chrono_represents(secs),
    {
        proof {
            use_type_invariant(self);
        }
        self.secs
    }
}

} // verus!
