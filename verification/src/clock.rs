//! The one outside call of the core: reading the wall clock. The
//! value depends on the moment of the call, so nothing is assumed of
//! it; every caller takes the reading as a plain argument and is
//! verified for every possible value.

use vstd::prelude::*;

use crate::derive_view::{latest_finish, restarts_text};
use crate::model::{PodData, PodDataView};

verus! {

/// Relies on chrono's `Utc::now` and `DateTime::timestamp`: the
/// current wall-clock time as seconds since the epoch. The value
/// depends on the moment of the call, so nothing is promised of it.
/// `Utc::now` itself panics on a host clock set before the epoch.
#[verifier::external_body]
pub fn now_seconds() -> i64 {
    chrono::Utc::now().timestamp()
}

/// Some container of the resource has ever terminated; only then
/// does the restart summary depend on the clock.
pub open spec fn has_termination(p: PodDataView) -> bool {
    match p.status {
        Option::Some(st) => match st.container_statuses {
            Option::Some(cs) => latest_finish(cs) is Some,
            Option::None => false,
        },
        Option::None => false,
    }
}

impl PodData {
    /// The object's age in seconds, read against the clock now; zero
    /// when the creation time is unknown.
    pub fn age(&self) -> (r: i128)
        ensures
            self@.created_at is None ==> r == 0,
    {
        let now = now_seconds();
        self.age_seconds(now)
    }

    /// The restart summary, read against the clock now. While no
    /// container has ever terminated the text does not depend on the
    /// clock at all.
    pub fn restarts_now(&self) -> (r: String)
        ensures
            !has_termination(self@) ==> r@ == restarts_text(self@, 0),
    {
        let now = now_seconds();
        self.restarts(now)
    }
}

} // verus!
