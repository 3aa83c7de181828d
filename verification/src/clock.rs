//! Readings of the system clock.
use vstd::prelude::*;

verus! {

/// A moment as the time since the Unix epoch.
#[derive(Clone, Copy, Debug, PartialEq, Eq)]
pub struct Timestamp {
    pub seconds: u64,
    pub nanos: u32,
}

impl Timestamp {
    /// The fraction is below one second.
    pub open spec fn wf(self) -> bool {
        self.nanos < 1_000_000_000
    }

    /// Whole milliseconds since the epoch.
    pub open spec fn millis(self) -> nat {
        (self.seconds * 1000 + self.nanos as int / 1_000_000) as nat
    }

    /// Whole milliseconds since the epoch.
    pub fn as_millis(&self) -> (r: u128)
        ensures
            r == self.millis(),
    {
        self.seconds as u128 * 1000 + (self.nanos / 1_000_000) as u128
    }

    /// The fraction of a second in whole microseconds.
    pub fn subsec_micros(&self) -> (r: u32)
        ensures
            r == self.nanos as int / 1000,
    {
        self.nanos / 1000
    }
}

/// `SystemTime::elapsed` on `UNIX_EPOCH`: the time since the epoch, or `None` where the clock
/// stands before it. Of a reading nothing is known but that `Duration::subsec_nanos` is below one
/// billion.
#[verifier::external_body]
fn since_epoch() -> (r: Option<Timestamp>)
    ensures
        r matches Some(t) ==> t.wf(),
{
    let elapsed = std::time::UNIX_EPOCH.elapsed().ok();
    elapsed.map(|d| Timestamp { seconds: d.as_secs(), nanos: d.subsec_nanos() })
}

/// The moment that a reading of the clock shows; the epoch where it shows none.
pub open spec fn moment_shown(reading: Option<Timestamp>) -> Timestamp {
    match reading {
        Some(t) => t,
        None => Timestamp { seconds: 0, nanos: 0 },
    }
}

/// The moment that a reading of the clock shows; the epoch where it shows none.
pub fn reading_or_epoch(reading: Option<Timestamp>) -> (r: Timestamp)
    ensures
        r == moment_shown(reading),
{
    match reading {
        Some(t) => t,
        None => Timestamp { seconds: 0, nanos: 0 },
    }
}

/// The whole seconds since the epoch that a reading of the clock shows; 0 where it shows none.
pub fn seconds_shown(reading: Option<Timestamp>) -> (r: u64)
    ensures
        r == moment_shown(reading).seconds,
{
    reading_or_epoch(reading).seconds
}

/// The whole milliseconds since the epoch that a reading of the clock shows; 0 where it shows none.
pub fn millis_shown(reading: Option<Timestamp>) -> (r: u128)
    ensures
        r == moment_shown(reading).millis(),
{
    reading_or_epoch(reading).as_millis()
}

/// The present moment; the epoch where the clock stands before it. What the clock shows is left
/// open.
pub fn now() -> (r: Timestamp)
    ensures
        r.wf(),
{
    reading_or_epoch(since_epoch())
}

/// The present moment in whole seconds since the epoch. What the clock shows is left open.
pub fn unix_timestamp() -> u64 {
    seconds_shown(since_epoch())
}

/// The present moment in whole milliseconds since the epoch. What the clock shows is left open.
pub fn unix_timestamp_millis() -> (r: u128)
    ensures
        r <= u64::MAX * 1000 + 999,
{
    millis_shown(since_epoch())
}

/// The milliseconds of a moment are the whole ones that have passed since the epoch.
pub proof fn law_milliseconds(moment: Timestamp)
    requires
        moment.wf(),
    ensures
        ({
            let nanoseconds = moment.seconds * 1_000_000_000 + moment.nanos;
            moment.millis() * 1_000_000 <= nanoseconds < (moment.millis() + 1) * 1_000_000
        }),
{
}

/// A reading shows the moment that it is; without one it is the epoch.
pub proof fn law_readings(moment: Timestamp)
    ensures
        moment_shown(Some(moment)) == moment,
        moment_shown(None).seconds == 0 && moment_shown(None).nanos == 0,
{
}

} // verus!
