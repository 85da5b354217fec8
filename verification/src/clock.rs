//! Moments by the clock of the host, and the time between them.

use vstd::prelude::*;

verus! {

/// How many nanoseconds a second has.
pub const NANOSECONDS: u32 = 1_000_000_000;

/// A moment, counted from the epoch: whole seconds, negative before it, and the
/// nanoseconds since the last of them.
#[derive(Clone, Copy, Debug, PartialEq, Eq, Structural)]
pub struct Moment {
    pub seconds: i64,
    pub nanoseconds: u32,
}

impl Moment {
    /// The moment in nanoseconds.
    pub open spec fn instant(self) -> int {
        self.seconds * NANOSECONDS + self.nanoseconds
    }

    fn to_nanoseconds(&self) -> (r: i128)
        ensures
            r == self.instant(),
            -0x8000_0000_0000_0000 * 1_000_000_000 <= r,
            r < 0x8000_0000_0000_0005 * 1_000_000_000,
    {
        self.seconds as i128 * 1_000_000_000 + self.nanoseconds as i128
    }

    /// The whole seconds since the epoch, none for a moment before it.
    pub open spec fn stamp(self) -> int {
        if self.instant() < 0 {
            0
        } else {
            self.instant() / (NANOSECONDS as int)
        }
    }

    /// The whole seconds since the epoch, none for a moment before it.
    pub fn timestamp(&self) -> (r: u64)
        ensures
            r == self.stamp(),
    {
        let instant: i128 = self.to_nanoseconds();
        if instant < 0 {
            0
        } else {
            (instant as u128 / 1_000_000_000) as u64
        }
    }
}

/// The nanoseconds from a moment that was marked until now; nothing where none was,
/// or where the clock went back.
pub open spec fn passed_since(mark: Option<Moment>, now: Moment) -> Option<nat> {
    match mark {
        Some(mark) => if now.instant() < mark.instant() {
            None
        } else {
            Some((now.instant() - mark.instant()) as nat)
        },
        None => None,
    }
}

/// The nanoseconds from a moment that was marked until now; nothing where none was,
/// or where the clock went back.
pub fn time_since(mark: Option<Moment>, now: Moment) -> (r: Option<u128>)
    ensures
        match (r, passed_since(mark, now)) {
            (Some(found), Some(passed)) => found == passed,
            (None, None) => true,
            _ => false,
        },
{
    match mark {
        Some(mark) => {
            let then: i128 = mark.to_nanoseconds();
            let now: i128 = now.to_nanoseconds();
            if now < then {
                None
            } else {
                Some((now - then) as u128)
            }
        },
        None => None,
    }
}

/// The stamp of a moment is its last whole second, and none lies before the epoch.
pub proof fn law_a_stamp_is_the_last_second(moment: Moment)
    requires
        moment.nanoseconds < 1_000_000_000,
    ensures
        moment.seconds >= 0 ==> moment.stamp() == moment.seconds,
        moment.seconds < 0 ==> moment.stamp() == 0,
{
    if moment.seconds >= 0 {
        assert((moment.seconds * 1_000_000_000 + moment.nanoseconds) / 1_000_000_000
            == moment.seconds);
    }
}

/// The time that has passed is counted in nanoseconds, and adds up from one moment to the
/// next.
pub proof fn law_time_adds_up(a: Moment, b: Moment, c: Moment)
    requires
        a.seconds < b.seconds || (a.seconds == b.seconds && a.nanoseconds <= b.nanoseconds),
        b.seconds < c.seconds || (b.seconds == c.seconds && b.nanoseconds <= c.nanoseconds),
        a.nanoseconds < 1_000_000_000,
        b.nanoseconds < 1_000_000_000,
        c.nanoseconds < 1_000_000_000,
    ensures
        passed_since(Some(a), b) == Some(
            ((b.seconds - a.seconds) * 1_000_000_000 + b.nanoseconds - a.nanoseconds) as nat,
        ),
        passed_since(Some(a), c)->0 == passed_since(Some(a), b)->0 + passed_since(Some(b), c)->0,
        passed_since(Some(a), c) is Some,
        passed_since(None, c) is None,
{
}

/// Where the clock went back, no time is known to have passed.
pub proof fn law_a_clock_that_went_back_tells_nothing(mark: Moment, now: Moment)
    requires
        now.seconds < mark.seconds || (now.seconds == mark.seconds && now.nanoseconds
            < mark.nanoseconds),
        now.nanoseconds < 1_000_000_000,
    ensures
        passed_since(Some(mark), now) is None,
{
}

} // verus!
