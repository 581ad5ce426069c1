//! The server's clock: milliseconds that have passed since the server
//! started.

use tokio::time::Instant;
use vstd::prelude::*;

verus! {

/// `tokio::time::Instant`, taken as it is: a moment of a monotonic clock,
/// of which nothing is known.
#[verifier::external_type_specification]
#[verifier::external_body]
pub struct ExInstant(tokio::time::Instant);

/// `Instant::now` of tokio: the present moment. Nothing is known of it.
#[verifier::external_body]
fn instant_now() -> Instant {
    Instant::now()
}

/// `Instant::elapsed` of tokio, as whole milliseconds: the time that has
/// passed since `origin` was taken. Nothing is known of it.
#[verifier::external_body]
fn elapsed_millis(origin: &Instant) -> u128 {
    origin.elapsed().as_millis()
}

/// A clock that counts milliseconds from the moment it was started, and
/// never runs backwards.
pub struct Clock {
    origin: Instant,
    latest: u64,
}

impl Clock {
    /// The time that the clock showed when it was last read.
    pub closed spec fn latest(&self) -> nat {
        self.latest as nat
    }

    /// A clock that starts now, at zero.
    pub fn start() -> (clock: Clock)
        ensures
            clock.latest() == 0,
    {
        Clock { origin: instant_now(), latest: 0 }
    }

    /// The milliseconds since the clock was started, or the largest number
    /// that 64 bits hold where there have been more; and in any case no less
    /// than the clock showed before.
    pub fn now(&mut self) -> (time: u64)
        ensures
            old(self).latest() <= time,
            final(self).latest() == time,
    {
        let millis: u128 = elapsed_millis(&self.origin);
        let reading: u64 = if millis > 0xffff_ffff_ffff_ffff {
            0xffff_ffff_ffff_ffff
        } else {
            millis as u64
        };
        if reading > self.latest {
            self.latest = reading;
        }
        self.latest
    }
}

} // verus!
